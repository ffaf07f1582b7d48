//! The wire codec: boundary tag selection, round trips, and decode errors.

use litscript::compile::compile_line;
use litscript::error::{LitError, LitsCcError};
use litscript::literals::process_literals;
use litscript::state::CompilerState;
use litscript::token::Token;
use litscript::types::BytecodeObject;

fn encode_one(text: &str) -> Vec<u8> {
    let state = CompilerState::new();
    let tokens = vec![Token::Literal(String::from(text))];
    let mut out = Vec::new();
    let count = process_literals(&tokens, 0, &mut out, &state).expect("literal should encode");
    assert_eq!(count, 1);
    out
}

#[test]
fn boundary_255_encodes_with_tag_1() {
    assert_eq!(encode_one("255"), vec![1, 255]);
}

#[test]
fn boundary_256_encodes_with_tag_2() {
    assert_eq!(encode_one("256"), vec![2, 1, 0]);
}

#[test]
fn boundary_32767_encodes_with_tag_2() {
    assert_eq!(encode_one("32767"), vec![2, 127, 255]);
}

#[test]
fn boundary_32768_encodes_with_tag_3() {
    assert_eq!(encode_one("32768"), vec![3, 0, 0, 128, 0]);
}

#[test]
fn negative_number_encodes_signed() {
    assert_eq!(encode_one("-1"), vec![2, 255, 255]);
}

#[test]
fn string_literal_encodes_with_tag_4() {
    assert_eq!(encode_one("\"hi\""), vec![4, 2, b'h', b'i']);
}

#[test]
fn string_of_length_255_encodes() {
    let text = format!("\"{}\"", "a".repeat(255));
    let out = encode_one(&text);
    assert_eq!(out[0], 4);
    assert_eq!(out[1], 255);
    assert_eq!(out.len(), 257);
}

#[test]
fn string_of_length_256_fails_to_encode() {
    let state = CompilerState::new();
    let text = format!("\"{}\"", "a".repeat(256));
    let tokens = vec![Token::Literal(text)];
    let mut out = Vec::new();
    let r = process_literals(&tokens, 0, &mut out, &state);
    assert_eq!(r, Err(LitsCcError::ValueTooLongToEncode));
}

#[test]
fn decode_unrecognized_tag_is_an_error_not_a_panic() {
    let bytes = vec![9u8, 0, 0];
    let mut pos = 0usize;
    let r = BytecodeObject::read(&bytes, &mut pos);
    assert!(matches!(r, Err(LitError::BytecodeRead8(9))));
}

#[test]
fn decode_truncated_stream_is_eof() {
    let bytes = vec![2u8, 1];
    let mut pos = 0usize;
    let r = BytecodeObject::read(&bytes, &mut pos);
    assert!(matches!(r, Err(LitError::UnexpectedEof)));
}

#[test]
fn decode_empty_stream_is_eof() {
    let bytes: Vec<u8> = Vec::new();
    let mut pos = 0usize;
    assert!(matches!(BytecodeObject::read(&bytes, &mut pos), Err(LitError::UnexpectedEof)));
}

fn decode_all(bytes: &[u8]) -> BytecodeObject {
    let v = bytes.to_vec();
    let mut pos = 0usize;
    let o = BytecodeObject::read(&v, &mut pos).expect("stream should decode");
    assert_eq!(pos, v.len());
    o
}

#[test]
fn round_trip_numeric8() {
    match decode_all(&encode_one("5")) {
        BytecodeObject::Numeric8(v) => assert_eq!(v, 5),
        other => panic!("decoded {:?}", other),
    }
}

#[test]
fn round_trip_numeric16() {
    match decode_all(&encode_one("-300")) {
        BytecodeObject::Numeric16(v) => assert_eq!(v, -300),
        other => panic!("decoded {:?}", other),
    }
}

#[test]
fn round_trip_numeric32() {
    match decode_all(&encode_one("-2147483648")) {
        BytecodeObject::Numeric32(v) => assert_eq!(v, -2147483648),
        other => panic!("decoded {:?}", other),
    }
}

#[test]
fn round_trip_string() {
    match decode_all(&encode_one("\"hello\"")) {
        BytecodeObject::Str(s) => assert_eq!(s, "hello"),
        other => panic!("decoded {:?}", other),
    }
}

#[test]
fn round_trip_tuple() {
    let state = CompilerState::new();
    let inner = vec![
        Token::Literal(String::from("1")),
        Token::Literal(String::from("300")),
    ];
    let tokens = vec![Token::Group(inner, litscript::token::GroupDelimiter::Parenthesis)];
    let mut out = Vec::new();
    process_literals(&tokens, 0, &mut out, &state).expect("group should encode");
    match decode_all(&out) {
        BytecodeObject::Tuple(elems) => {
            assert_eq!(elems.len(), 2);
            assert!(matches!(elems[0], BytecodeObject::Numeric8(1)));
            assert!(matches!(elems[1], BytecodeObject::Numeric16(300)));
        },
        other => panic!("decoded {:?}", other),
    }
}

#[test]
fn round_trip_variable_invocation() {
    let mut state = CompilerState::new();
    let mut header = Vec::new();
    let mut idx = 0usize;
    let def_tokens = vec![Token::Identifier(String::from("spot"))];
    litscript::command::read_ident(&def_tokens, &mut idx, &mut header, &mut state)
        .expect("identifier should register");
    let tokens = vec![
        Token::Punctuation('@'),
        Token::Identifier(String::from("spot")),
    ];
    let mut out = Vec::new();
    process_literals(&tokens, 0, &mut out, &state).expect("invocation should encode");
    match decode_all(&out) {
        BytecodeObject::VarInvocation(id) => assert_eq!(id, 1),
        other => panic!("decoded {:?}", other),
    }
}

#[test]
fn compile_line_round_trips_its_operand() {
    let mut state = CompilerState::new();
    let mut out = Vec::new();
    let tokens = vec![
        Token::Identifier(String::from("gamedef")),
        Token::Literal(String::from("\"Pond\"")),
    ];
    compile_line(&tokens, &mut out, &mut state).expect("line should compile");
    assert_eq!(&out[..2], &[0, 1]);
    match decode_all(&out[2..]) {
        BytecodeObject::Str(s) => assert_eq!(s, "Pond"),
        other => panic!("decoded {:?}", other),
    }
}
