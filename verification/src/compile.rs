//! Compiling one line of LitScript: a command identifier, then operands.

use vstd::prelude::*;

use crate::command::{process_command, spec_defining, spec_opcode};
use crate::error::{LitsCcError, SpecCcError};
use crate::literals::{process_literals, spec_denote};
use crate::state::CompilerState;
use crate::token::{SpecToken, Token};
use crate::wire::{be16, be32, spec_encode_seq};

verus! {

/// What compiling one tokenized line yields: the bytes it appends to the
/// stream, and the variable table and next id afterwards — or the first
/// error. An empty line compiles to nothing.
pub open spec fn spec_compile_line(
    ts: Seq<SpecToken>,
    vars: Map<Seq<char>, u32>,
    next_id: u32,
) -> Result<(Seq<u8>, Map<Seq<char>, u32>, u32), SpecCcError> {
    if ts.len() == 0 {
        Ok((Seq::empty(), vars, next_id))
    } else {
        match ts[0] {
            SpecToken::Identifier(name) => match spec_opcode(name) {
                None => Err(SpecCcError::UnknownCommand(name)),
                Some(op) => if spec_defining(name) {
                    if ts.len() >= 2 && ts[1] is Identifier {
                        let nm = ts[1]->Identifier_0;
                        let vars2 = vars.insert(nm, next_id);
                        match spec_denote(ts.subrange(2, ts.len() as int), vars2) {
                            Ok(objs) => Ok(
                                (
                                    be16(op) + be32(next_id) + spec_encode_seq(objs),
                                    vars2,
                                    (next_id + 1) as u32,
                                ),
                            ),
                            Err(e) => Err(e),
                        }
                    } else {
                        Err(SpecCcError::ExpectedIdent)
                    }
                } else {
                    match spec_denote(ts.drop_first(), vars) {
                        Ok(objs) => Ok((be16(op) + spec_encode_seq(objs), vars, next_id)),
                        Err(e) => Err(e),
                    }
                },
            },
            _ => Err(SpecCcError::ExpectedIdent),
        }
    }
}

/// Compiles one tokenized line, appending its bytes to the stream and
/// updating the variable table, exactly as `spec_compile_line` lays out.
pub fn compile_line(tokens: &Vec<Token>, out: &mut Vec<u8>, state: &mut CompilerState) -> (r:
    Result<(), LitsCcError>)
    requires
        old(state).wf(),
        old(state).spec_current_id() < u32::MAX,
    ensures
        final(state).wf(),
        match r {
            Ok(_) => spec_compile_line(
                Token::model_seq(tokens@),
                old(state)@,
                old(state).spec_current_id(),
            ) matches Ok((bytes, vars2, nid)) && final(out)@ == old(out)@ + bytes && final(state)@
                == vars2 && final(state).spec_current_id() == nid,
            Err(e) => spec_compile_line(
                Token::model_seq(tokens@),
                old(state)@,
                old(state).spec_current_id(),
            ) == Err::<(Seq<u8>, Map<Seq<char>, u32>, u32), SpecCcError>(e@),
        },
        r is Err && !(tokens@.len() > 0 && tokens@[0]@ is Identifier) ==> final(out)@ == old(out)@
            && *final(state) == *old(state),
{
    let ghost ts = Token::model_seq(tokens@);
    proof {
        Token::lemma_model_seq(tokens@);
    }
    if tokens.len() == 0 {
        proof {
            assert(out@ =~= old(out)@ + Seq::<u8>::empty());
        }
        return Ok(());
    }
    proof {
        assert(ts[0] == tokens@[0]@);
        if tokens@.len() >= 2 {
            assert(ts[1] == tokens@[1]@);
        }
    }
    match &tokens[0] {
        Token::Identifier(name) => {
            let mut idx: usize = 1;
            match process_command(name, tokens, &mut idx, out, state) {
                Err(e) => Err(e),
                Ok(_) => {
                    let ghost mid_out = out@;
                    let r = process_literals(tokens, idx, out, state);
                    proof {
                        let tail = Token::model_seq(
                            tokens@.subrange(idx as int, tokens@.len() as int),
                        );
                        Token::lemma_model_seq(
                            tokens@.subrange(idx as int, tokens@.len() as int),
                        );
                        if idx == 1 {
                            assert(tail =~= ts.drop_first()) by {
                                assert forall|j: int| 0 <= j < ts.len() - 1 implies tail[j]
                                    == ts.drop_first()[j] by {
                                    assert(tokens@.subrange(1, tokens@.len() as int)[j]
                                        == tokens@[j + 1]);
                                    assert(tail[j] == tokens@.subrange(
                                        1,
                                        tokens@.len() as int,
                                    )[j].model());
                                    assert(ts[j + 1] == tokens@[j + 1]@);
                                }
                            }
                        } else {
                            assert(tail =~= ts.subrange(2, ts.len() as int)) by {
                                assert forall|j: int| 0 <= j < ts.len() - 2 implies tail[j]
                                    == ts.subrange(2, ts.len() as int)[j] by {
                                    assert(tokens@.subrange(2, tokens@.len() as int)[j]
                                        == tokens@[j + 2]);
                                    assert(tail[j] == tokens@.subrange(
                                        2,
                                        tokens@.len() as int,
                                    )[j].model());
                                    assert(ts[j + 2] == tokens@[j + 2]@);
                                }
                            }
                        }
                    }
                    match r {
                        Err(e) => Err(e),
                        Ok(_) => {
                            proof {
                                let result = spec_compile_line(
                                    ts,
                                    old(state)@,
                                    old(state).spec_current_id(),
                                );
                                assert(out@ =~= old(out)@ + result->Ok_0.0);
                            }
                            Ok(())
                        },
                    }
                },
            }
        },
        _ => Err(LitsCcError::ExpectedIdent),
    }
}

} // verus!
