//! Operand encoding: each token of a statement's tail denotes a literal
//! value, and the values are written to the stream in declaration order.

use vstd::prelude::*;
use vstd::utf8::encode_utf8;

use crate::error::{LitsCcError, SpecCcError};
use crate::state::CompilerState;
use crate::text::{spec_find_char, spec_parse_i32, find_char, parse_i32};
use crate::token::{GroupDelimiter, SpecToken, Token};
use crate::types::SpecObject;
use crate::wire::{
    encodable, encodable_seq, lemma_encodable_seq_push, lemma_encode_seq_push, spec_encode,
    spec_encode_seq, TAG_NUMERIC16, TAG_NUMERIC32, TAG_NUMERIC8, TAG_STR, TAG_TUPLE, TAG_VAR,
};

verus! {

/// The text between a string literal's opening quote and the next quote.
pub open spec fn spec_quoted_inner(s: Seq<char>) -> Seq<char> {
    let q = spec_find_char(s, '"', 1);
    if q < 0 {
        Seq::empty()
    } else {
        s.subrange(1, q)
    }
}

/// What one literal token's text denotes: a quoted text is a string (whose
/// UTF-8 form must fit a one-byte length), decimal text is the narrowest
/// numeric that holds it, and anything else is rejected.
pub open spec fn spec_literal_object(text: Seq<char>) -> Result<SpecObject, SpecCcError> {
    if text.len() >= 1 && text[0] == '"' && text[text.len() - 1] == '"' {
        let inner = spec_quoted_inner(text);
        if encode_utf8(inner).len() <= 255 {
            Ok(SpecObject::Str(inner))
        } else {
            Err(SpecCcError::ValueTooLongToEncode)
        }
    } else {
        match spec_parse_i32(text) {
            Some(v) => Ok(
                if 0 <= v <= 255 {
                    SpecObject::N8(v as u8)
                } else if -32768 <= v <= 32767 {
                    SpecObject::N16(v as i16)
                } else {
                    SpecObject::N32(v)
                },
            ),
            None => Err(SpecCcError::UnexpectedLiteral(text)),
        }
    }
}

/// What a statement tail denotes: the literal values its tokens spell, in
/// order, or the first error. A `@name` pair denotes an invocation of the
/// registered variable; a parenthesized group denotes a tuple of at most
/// 255 elements.
pub open spec fn spec_denote(ts: Seq<SpecToken>, vars: Map<Seq<char>, u32>) -> Result<
    Seq<SpecObject>,
    SpecCcError,
>
    decreases ts,
{
    if ts.len() == 0 {
        Ok(Seq::empty())
    } else {
        match ts[0] {
            SpecToken::Literal(text) => match spec_literal_object(text) {
                Ok(o) => match spec_denote(ts.drop_first(), vars) {
                    Ok(rest) => Ok(seq![o] + rest),
                    Err(e) => Err(e),
                },
                Err(e) => Err(e),
            },
            SpecToken::Punctuation(c) => if c == '@' {
                if ts.len() >= 2 && ts[1] is Identifier {
                    let name = ts[1]->Identifier_0;
                    if vars.dom().contains(name) {
                        match spec_denote(ts.subrange(2, ts.len() as int), vars) {
                            Ok(rest) => Ok(seq![SpecObject::Var(vars[name])] + rest),
                            Err(e) => Err(e),
                        }
                    } else {
                        Err(SpecCcError::VariableNotFound(name))
                    }
                } else {
                    Err(SpecCcError::ExpectedIdent)
                }
            } else {
                Err(SpecCcError::UnexpectedPunctuation(c))
            },
            SpecToken::Group(inner, d) => if d == GroupDelimiter::Parenthesis {
                match spec_denote(inner, vars) {
                    Ok(elems) => if elems.len() <= 255 {
                        match spec_denote(ts.drop_first(), vars) {
                            Ok(rest) => Ok(seq![SpecObject::Tuple(elems)] + rest),
                            Err(e) => Err(e),
                        }
                    } else {
                        Err(SpecCcError::ValueTooLongToEncode)
                    },
                    Err(e) => Err(e),
                }
            } else {
                Err(SpecCcError::UnsupportedGroupDelimiter)
            },
            SpecToken::Identifier(_) => Err(SpecCcError::UnexpectedToken),
        }
    }
}

/// The values denoted by the longest cleanly denoting prefix of a
/// statement tail: exactly what the encoder has already written when a
/// later token fails.
pub open spec fn spec_denote_prefix(
    ts: Seq<SpecToken>,
    vars: Map<Seq<char>, u32>,
) -> Seq<SpecObject>
    decreases ts,
{
    if ts.len() == 0 {
        Seq::empty()
    } else {
        match ts[0] {
            SpecToken::Literal(text) => match spec_literal_object(text) {
                Ok(o) => seq![o] + spec_denote_prefix(ts.drop_first(), vars),
                Err(_) => Seq::empty(),
            },
            SpecToken::Punctuation(c) => if c == '@' && ts.len() >= 2 && ts[1] is Identifier
                && vars.dom().contains(ts[1]->Identifier_0) {
                seq![SpecObject::Var(vars[ts[1]->Identifier_0])] + spec_denote_prefix(
                    ts.subrange(2, ts.len() as int),
                    vars,
                )
            } else {
                Seq::empty()
            },
            SpecToken::Group(inner, d) => if d == GroupDelimiter::Parenthesis && spec_denote(
                inner,
                vars,
            ) is Ok && spec_denote(inner, vars)->Ok_0.len() <= 255 {
                seq![SpecObject::Tuple(spec_denote(inner, vars)->Ok_0)] + spec_denote_prefix(
                    ts.drop_first(),
                    vars,
                )
            } else {
                Seq::empty()
            },
            SpecToken::Identifier(_) => Seq::empty(),
        }
    }
}

/// Encodes one literal token's text, appending the value's wire bytes.
fn encode_literal_text(text: &String, out: &mut Vec<u8>) -> (r: Result<(), LitsCcError>)
    ensures
        match r {
            Ok(_) => spec_literal_object(text@) matches Ok(o) && final(out)@ == old(out)@
                + spec_encode(o) && encodable(o),
            Err(e) => spec_literal_object(text@) == Err::<SpecObject, SpecCcError>(e@)
                && final(out)@ == old(out)@,
        },
{
    let n = text.as_str().unicode_len();
    if n >= 1 && text.as_str().get_char(0) == '"' && text.as_str().get_char(n - 1) == '"' {
        let inner: &str = match find_char(text.as_str(), '"', 1) {
            Some(q) => text.as_str().substring_char(1, q),
            None => "",
        };
        proof {
            reveal_strlit("");
            assert(inner@ =~= spec_quoted_inner(text@));
        }
        let mut payload = inner.as_bytes_vec();
        if payload.len() > 255 {
            return Err(LitsCcError::ValueTooLongToEncode);
        }
        let ghost o = SpecObject::Str(inner@);
        out.push(TAG_STR);
        out.push(payload.len() as u8);
        out.append(&mut payload);
        proof {
            assert(final(out)@ =~= old(out)@ + spec_encode(o));
        }
        Ok(())
    } else {
        match parse_i32(text.as_str()) {
            Some(v) => {
                if 0 <= v && v <= 255 {
                    out.push(TAG_NUMERIC8);
                    out.push(v as u8);
                    proof {
                        assert(final(out)@ =~= old(out)@ + spec_encode(SpecObject::N8(v as u8)));
                    }
                } else if -32768 <= v && v <= 32767 {
                    let w = (v as i16) as u16;
                    out.push(TAG_NUMERIC16);
                    out.push((w / 256) as u8);
                    out.push((w % 256) as u8);
                    proof {
                        assert(final(out)@ =~= old(out)@ + spec_encode(SpecObject::N16(v as i16)));
                    }
                } else {
                    let w = v as u32;
                    out.push(TAG_NUMERIC32);
                    out.push((w / 0x1000000) as u8);
                    out.push(((w / 0x10000) % 256) as u8);
                    out.push(((w / 256) % 256) as u8);
                    out.push((w % 256) as u8);
                    proof {
                        assert(final(out)@ =~= old(out)@ + spec_encode(SpecObject::N32(v)));
                    }
                }
                Ok(())
            },
            None => Err(LitsCcError::UnexpectedLiteral(text.clone())),
        }
    }
}

/// Encodes the tokens from position `from` on, appending the wire bytes of
/// the values they denote; returns how many values were written. On an
/// error, bytes already written stay in `out` (the stream is abandoned).
#[verifier::loop_isolation(false)]
#[verifier::rlimit(100)]
pub fn process_literals(
    tokens: &Vec<Token>,
    from: usize,
    out: &mut Vec<u8>,
    state: &CompilerState,
) -> (r: Result<usize, LitsCcError>)
    requires
        state.wf(),
        from <= tokens@.len(),
    ensures
        match r {
            Ok(count) => spec_denote(
                Token::model_seq(tokens@.subrange(from as int, tokens@.len() as int)),
                state@,
            ) matches Ok(objs) && final(out)@ == old(out)@ + spec_encode_seq(objs) && count
                == objs.len() && encodable_seq(objs),
            Err(e) => spec_denote(
                Token::model_seq(tokens@.subrange(from as int, tokens@.len() as int)),
                state@,
            ) == Err::<Seq<SpecObject>, SpecCcError>(e@) && final(out)@ == old(out)@
                + spec_encode_seq(
                spec_denote_prefix(
                    Token::model_seq(tokens@.subrange(from as int, tokens@.len() as int)),
                    state@,
                ),
            ),
        },
    decreases tokens@, 0int,
{
    let len = tokens.len();
    let ghost vars = state@;
    let ghost full = Token::model_seq(tokens@.subrange(from as int, len as int));
    let mut k = from;
    let mut count: usize = 0;
    let ghost mut objs: Seq<SpecObject> = Seq::empty();
    proof {
        assert(spec_encode_seq(objs) =~= Seq::<u8>::empty());
        assert(out@ =~= old(out)@ + spec_encode_seq(objs));
        assert(spec_denote_prefix(full, vars) =~= objs + spec_denote_prefix(full, vars));
    }
    while k < len
        invariant
            from <= k <= len,
            count == objs.len(),
            count <= k - from,
            encodable_seq(objs),
            out@ == old(out)@ + spec_encode_seq(objs),
            spec_denote(full, vars) == (match spec_denote(
                Token::model_seq(tokens@.subrange(k as int, len as int)),
                vars,
            ) {
                Ok(rest) => Ok::<Seq<SpecObject>, SpecCcError>(objs + rest),
                Err(e) => Err(e),
            }),
            spec_denote_prefix(full, vars) == objs + spec_denote_prefix(
                Token::model_seq(tokens@.subrange(k as int, len as int)),
                vars,
            ),
        decreases len - k,
    {
        let ghost suffix = Token::model_seq(tokens@.subrange(k as int, len as int));
        proof {
            Token::lemma_model_seq(tokens@.subrange(k as int, len as int));
            assert(suffix[0] == tokens@[k as int]@);
            assert(suffix.drop_first() =~= Token::model_seq(
                tokens@.subrange(k as int + 1, len as int),
            )) by {
                Token::lemma_model_seq(tokens@.subrange(k as int + 1, len as int));
                assert forall|j: int| 0 <= j < suffix.len() - 1 implies suffix.drop_first()[j]
                    == Token::model_seq(tokens@.subrange(k as int + 1, len as int))[j] by {
                    assert(tokens@.subrange(k as int, len as int)[j + 1] == tokens@[k + 1 + j]);
                    assert(tokens@.subrange(k as int + 1, len as int)[j] == tokens@[k + 1 + j]);
                    assert(suffix[j + 1] == tokens@.subrange(k as int, len as int)[j + 1].model());
                    assert(Token::model_seq(tokens@.subrange(k as int + 1, len as int))[j]
                        == tokens@.subrange(k as int + 1, len as int)[j].model());
                }
            }
        }
        let t = &tokens[k];
        match t {
            Token::Literal(text) => {
                match encode_literal_text(text, out) {
                    Ok(_) => {
                        proof {
                            let o = spec_literal_object(text@)->Ok_0;
                            lemma_encode_seq_push(objs, o);
                            lemma_encodable_seq_push(objs, o);
                            assert(objs.push(o) + (spec_denote(suffix.drop_first(), vars))->Ok_0
                                =~= objs + (seq![o] + (spec_denote(
                                suffix.drop_first(),
                                vars,
                            ))->Ok_0));
                            assert(objs.push(o) + spec_denote_prefix(suffix.drop_first(), vars)
                                =~= objs + (seq![o] + spec_denote_prefix(
                                suffix.drop_first(),
                                vars,
                            )));
                            objs = objs.push(o);
                        }
                        count = count + 1;
                        k = k + 1;
                    },
                    Err(e) => {
                        proof {
                            assert(spec_denote_prefix(suffix, vars) =~= Seq::<SpecObject>::empty());
                            assert(objs + spec_denote_prefix(suffix, vars) =~= objs);
                        }
                        return Err(e);
                    },
                }
            },
            Token::Punctuation(c) => {
                if *c == '@' {
                    if k + 1 < len {
                        let next = &tokens[k + 1];
                        proof {
                            assert(suffix[1] == tokens@[k as int + 1]@);
                        }
                        match next {
                            Token::Identifier(name) => {
                                match state.get_variable_id(name.as_str()) {
                                    Ok(id) => {
                                        let ghost o = SpecObject::Var(id);
                                        out.push(TAG_VAR);
                                        out.push((id / 0x1000000) as u8);
                                        out.push(((id / 0x10000) % 256) as u8);
                                        out.push(((id / 256) % 256) as u8);
                                        out.push((id % 256) as u8);
                                        proof {
                                            lemma_encode_seq_push(objs, o);
                                            lemma_encodable_seq_push(objs, o);
                                            assert(out@ =~= old(out)@ + spec_encode_seq(
                                                objs.push(o),
                                            ));
                                            let tail = Token::model_seq(
                                                tokens@.subrange(k as int + 2, len as int),
                                            );
                                            assert(suffix.subrange(2, suffix.len() as int)
                                                =~= tail) by {
                                                Token::lemma_model_seq(
                                                    tokens@.subrange(k as int + 2, len as int),
                                                );
                                                assert forall|j: int|
                                                    0 <= j < suffix.len() - 2 implies suffix.subrange(
                                                    2,
                                                    suffix.len() as int,
                                                )[j] == tail[j] by {
                                                    assert(tokens@.subrange(
                                                        k as int,
                                                        len as int,
                                                    )[j + 2] == tokens@[k + 2 + j]);
                                                    assert(tokens@.subrange(
                                                        k as int + 2,
                                                        len as int,
                                                    )[j] == tokens@[k + 2 + j]);
                                                    assert(suffix[j + 2] == tokens@.subrange(
                                                        k as int,
                                                        len as int,
                                                    )[j + 2].model());
                                                    assert(tail[j] == tokens@.subrange(
                                                        k as int + 2,
                                                        len as int,
                                                    )[j].model());
                                                }
                                            }
                                            if spec_denote(tail, vars) is Ok {
                                                assert(objs.push(o) + spec_denote(
                                                    tail,
                                                    vars,
                                                )->Ok_0 =~= objs + (seq![o] + spec_denote(
                                                    tail,
                                                    vars,
                                                )->Ok_0));
                                            }
                                            assert(objs.push(o) + spec_denote_prefix(tail, vars)
                                                =~= objs + (seq![o] + spec_denote_prefix(
                                                tail,
                                                vars,
                                            )));
                                            objs = objs.push(o);
                                        }
                                        count = count + 1;
                                        k = k + 2;
                                    },
                                    Err(e) => {
                                        proof {
                            assert(spec_denote_prefix(suffix, vars) =~= Seq::<SpecObject>::empty());
                            assert(objs + spec_denote_prefix(suffix, vars) =~= objs);
                        }
                        return Err(e);
                                    },
                                }
                            },
                            _ => {
                                proof {
                                    assert(spec_denote_prefix(suffix, vars) =~= Seq::<
                                        SpecObject,
                                    >::empty());
                                    assert(objs + spec_denote_prefix(suffix, vars) =~= objs);
                                }
                                return Err(LitsCcError::ExpectedIdent);
                            },
                        }
                    } else {
                        proof {
                            assert(spec_denote_prefix(suffix, vars) =~= Seq::<SpecObject>::empty());
                            assert(objs + spec_denote_prefix(suffix, vars) =~= objs);
                        }
                        return Err(LitsCcError::ExpectedIdent);
                    }
                } else {
                    proof {
                        assert(spec_denote_prefix(suffix, vars) =~= Seq::<SpecObject>::empty());
                        assert(objs + spec_denote_prefix(suffix, vars) =~= objs);
                    }
                    return Err(LitsCcError::UnexpectedPunctuation(*c));
                }
            },
            Token::Group(inner, d) => {
                if *d == GroupDelimiter::Parenthesis {
                    proof {
                        assert(decreases_to!(tokens@ => tokens@[k as int]));
                    }
                    let mut buf: Vec<u8> = Vec::new();
                    let inner_result = process_literals(inner, 0, &mut buf, state);
                    proof {
                        assert(inner@.subrange(0, inner@.len() as int) =~= inner@);
                    }
                    match inner_result {
                        Ok(inner_count) => {
                            if inner_count > 255 {
                                proof {
                                    assert(spec_denote_prefix(suffix, vars) =~= Seq::<
                                        SpecObject,
                                    >::empty());
                                    assert(objs + spec_denote_prefix(suffix, vars) =~= objs);
                                }
                                return Err(LitsCcError::ValueTooLongToEncode);
                            }
                            let ghost elems = spec_denote(Token::model_seq(inner@), vars)->Ok_0;
                            let ghost o = SpecObject::Tuple(elems);
                            out.push(TAG_TUPLE);
                            out.push(inner_count as u8);
                            out.append(&mut buf);
                            proof {
                                lemma_encode_seq_push(objs, o);
                                lemma_encodable_seq_push(objs, o);
                                assert(out@ =~= old(out)@ + spec_encode_seq(objs.push(o)));
                                if spec_denote(suffix.drop_first(), vars) is Ok {
                                    assert(objs.push(o) + spec_denote(
                                        suffix.drop_first(),
                                        vars,
                                    )->Ok_0 =~= objs + (seq![o] + spec_denote(
                                        suffix.drop_first(),
                                        vars,
                                    )->Ok_0));
                                }
                                assert(objs.push(o) + spec_denote_prefix(
                                    suffix.drop_first(),
                                    vars,
                                ) =~= objs + (seq![o] + spec_denote_prefix(
                                    suffix.drop_first(),
                                    vars,
                                )));
                                objs = objs.push(o);
                            }
                            count = count + 1;
                            k = k + 1;
                        },
                        Err(e) => {
                            proof {
                                assert(spec_denote_prefix(suffix, vars) =~= Seq::<
                                    SpecObject,
                                >::empty());
                                assert(objs + spec_denote_prefix(suffix, vars) =~= objs);
                            }
                            return Err(e);
                        },
                    }
                } else {
                    proof {
                        assert(spec_denote_prefix(suffix, vars) =~= Seq::<SpecObject>::empty());
                        assert(objs + spec_denote_prefix(suffix, vars) =~= objs);
                    }
                    return Err(LitsCcError::UnsupportedGroupDelimiter);
                }
            },
            Token::Identifier(_) => {
                proof {
                    assert(spec_denote_prefix(suffix, vars) =~= Seq::<SpecObject>::empty());
                    assert(objs + spec_denote_prefix(suffix, vars) =~= objs);
                }
                return Err(LitsCcError::UnexpectedToken);
            },
        }
    }
    proof {
        assert(Token::model_seq(tokens@.subrange(len as int, len as int)) =~= Seq::<
            SpecToken,
        >::empty());
        assert(objs + Seq::<SpecObject>::empty() =~= objs);
    }
    Ok(count)
}

} // verus!
