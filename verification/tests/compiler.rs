//! The command dispatcher and line compiler.

use litscript::command::process_command;
use litscript::compile::compile_line;
use litscript::error::LitsCcError;
use litscript::state::CompilerState;
use litscript::token::Token;

fn ident(s: &str) -> Token {
    Token::Identifier(String::from(s))
}

fn lit(s: &str) -> Token {
    Token::Literal(String::from(s))
}

#[test]
fn compile_def_foo_5_emits_opcode_id_and_value() {
    let mut state = CompilerState::new();
    let mut out = Vec::new();
    let tokens = vec![ident("def"), ident("foo"), lit("5")];
    compile_line(&tokens, &mut out, &mut state).expect("line should compile");
    assert_eq!(out, vec![0, 2, 0, 0, 0, 1, 1, 5]);
}

#[test]
fn process_command_unknown_name_fails() {
    let mut state = CompilerState::new();
    let mut out = Vec::new();
    let mut idx = 1usize;
    let tokens = vec![ident("frobnicate")];
    let r = process_command(
        &String::from("frobnicate"),
        &tokens,
        &mut idx,
        &mut out,
        &mut state,
    );
    assert_eq!(r, Err(LitsCcError::UnknownCommand(String::from("frobnicate"))));
}

#[test]
fn compile_line_unknown_command_fails() {
    let mut state = CompilerState::new();
    let mut out = Vec::new();
    let tokens = vec![ident("frobnicate"), lit("5")];
    let r = compile_line(&tokens, &mut out, &mut state);
    assert_eq!(r, Err(LitsCcError::UnknownCommand(String::from("frobnicate"))));
}

#[test]
fn empty_line_compiles_to_nothing() {
    let mut state = CompilerState::new();
    let mut out = Vec::new();
    compile_line(&Vec::new(), &mut out, &mut state).expect("empty line is fine");
    assert!(out.is_empty());
}

#[test]
fn line_not_starting_with_identifier_fails() {
    let mut state = CompilerState::new();
    let mut out = Vec::new();
    let r = compile_line(&vec![lit("5")], &mut out, &mut state);
    assert_eq!(r, Err(LitsCcError::ExpectedIdent));
}

#[test]
fn def_without_identifier_fails() {
    let mut state = CompilerState::new();
    let mut out = Vec::new();
    let r = compile_line(&vec![ident("def"), lit("5")], &mut out, &mut state);
    assert_eq!(r, Err(LitsCcError::ExpectedIdent));
}

#[test]
fn ids_are_handed_out_in_order_starting_at_1() {
    let mut state = CompilerState::new();
    assert_eq!(state.register_variable("a"), 1);
    assert_eq!(state.register_variable("b"), 2);
    assert_eq!(state.get_variable_id("a"), Ok(1));
    assert_eq!(state.get_variable_id("b"), Ok(2));
}

#[test]
fn unregistered_variable_is_not_found() {
    let state = CompilerState::new();
    let r = state.get_variable_id("ghost_town");
    assert_eq!(r, Err(LitsCcError::VariableNotFound(String::from("ghost_town"))));
}

#[test]
fn invocation_of_unregistered_name_fails_line() {
    let mut state = CompilerState::new();
    let mut out = Vec::new();
    let tokens = vec![ident("gamedef"), Token::Punctuation('@'), ident("nope")];
    let r = compile_line(&tokens, &mut out, &mut state);
    assert_eq!(r, Err(LitsCcError::VariableNotFound(String::from("nope"))));
}

#[test]
fn stray_punctuation_fails() {
    let mut state = CompilerState::new();
    let mut out = Vec::new();
    let tokens = vec![ident("log"), Token::Punctuation('#')];
    let r = compile_line(&tokens, &mut out, &mut state);
    assert_eq!(r, Err(LitsCcError::UnexpectedPunctuation('#')));
}

#[test]
fn braced_group_is_rejected() {
    let mut state = CompilerState::new();
    let mut out = Vec::new();
    let tokens = vec![
        ident("log"),
        Token::Group(vec![lit("1")], litscript::token::GroupDelimiter::Brace),
    ];
    let r = compile_line(&tokens, &mut out, &mut state);
    assert_eq!(r, Err(LitsCcError::UnsupportedGroupDelimiter));
}

#[test]
fn junk_literal_is_rejected() {
    let mut state = CompilerState::new();
    let mut out = Vec::new();
    let tokens = vec![ident("log"), lit("5teen")];
    let r = compile_line(&tokens, &mut out, &mut state);
    assert_eq!(r, Err(LitsCcError::UnexpectedLiteral(String::from("5teen"))));
}

#[test]
fn defining_command_registers_for_later_lines() {
    let mut state = CompilerState::new();
    let mut out = Vec::new();
    let first = vec![ident("create_tex"), ident("tex"), lit("4"), lit("4")];
    compile_line(&first, &mut out, &mut state).expect("create_tex should compile");
    assert_eq!(&out[..6], &[0, 4, 0, 0, 0, 1]);
    let mut second_out = Vec::new();
    let second = vec![
        ident("draw_pixel"),
        Token::Punctuation('@'),
        ident("tex"),
        lit("0"),
        lit("0"),
    ];
    compile_line(&second, &mut second_out, &mut state).expect("draw_pixel should compile");
    assert_eq!(&second_out[..2], &[0, 6]);
    assert_eq!(&second_out[2..7], &[6, 0, 0, 0, 1]);
}
