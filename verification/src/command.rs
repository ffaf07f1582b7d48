//! Command dispatch: the opcode table, and the id write-out for defining
//! commands.

use vstd::prelude::*;

use crate::error::{LitsCcError, SpecCcError};
use crate::state::CompilerState;
use crate::token::{SpecToken, Token};
use crate::wire::{be16, be32};

verus! {

/// The fixed opcode of each recognized command name; opcode 0 is reserved
/// as the runtime terminator and never assigned to a name.
pub open spec fn spec_opcode(name: Seq<char>) -> Option<u16> {
    if name == "gamedef"@ {
        Some(1u16)
    } else if name == "def"@ {
        Some(2u16)
    } else if name == "log"@ {
        Some(3u16)
    } else if name == "create_tex"@ {
        Some(4u16)
    } else if name == "color_id"@ {
        Some(5u16)
    } else if name == "draw_pixel"@ {
        Some(6u16)
    } else if name == "draw_rectangle"@ {
        Some(7u16)
    } else {
        None
    }
}

/// The commands that define a name and write its id after the opcode.
pub open spec fn spec_defining(name: Seq<char>) -> bool {
    name == "def"@ || name == "create_tex"@
}

/// Appends one 16-bit word, big-endian.
pub fn write_word(out: &mut Vec<u8>, word: u16)
    ensures
        final(out)@ == old(out)@ + be16(word),
{
    out.push((word / 256) as u8);
    out.push((word % 256) as u8);
    proof {
        assert(out@ =~= old(out)@ + be16(word));
    }
}

/// Appends one 32-bit word, big-endian.
fn write_dword(out: &mut Vec<u8>, word: u32)
    ensures
        final(out)@ == old(out)@ + be32(word),
{
    out.push((word / 0x1000000) as u8);
    out.push(((word / 0x10000) % 256) as u8);
    out.push(((word / 256) % 256) as u8);
    out.push((word % 256) as u8);
    proof {
        assert(out@ =~= old(out)@ + be32(word));
    }
}

/// Consumes the identifier a defining command must be followed by,
/// registers it, and writes its fresh id as four raw bytes.
pub fn read_ident(
    tokens: &Vec<Token>,
    idx: &mut usize,
    out: &mut Vec<u8>,
    state: &mut CompilerState,
) -> (r: Result<(), LitsCcError>)
    requires
        old(state).wf(),
        old(state).spec_current_id() < u32::MAX,
        *old(idx) <= tokens@.len(),
    ensures
        final(state).wf(),
        match r {
            Ok(_) => {
                &&& *old(idx) < tokens@.len()
                &&& tokens@[*old(idx) as int]@ matches SpecToken::Identifier(nm) && final(state)@
                    == old(state)@.insert(nm, old(state).spec_current_id())
                &&& final(state).spec_current_id() == old(state).spec_current_id() + 1
                &&& final(out)@ == old(out)@ + be32(old(state).spec_current_id())
                &&& *final(idx) == *old(idx) + 1
            },
            Err(e) => {
                &&& e == LitsCcError::ExpectedIdent
                &&& !(*old(idx) < tokens@.len() && tokens@[*old(idx) as int]@ is Identifier)
                &&& *final(state) == *old(state)
                &&& final(out)@ == old(out)@
                &&& *final(idx) == *old(idx)
            },
        },
{
    if *idx < tokens.len() {
        match &tokens[*idx] {
            Token::Identifier(nm) => {
                let id = state.register_variable(nm.as_str());
                write_dword(out, id);
                *idx = *idx + 1;
                Ok(())
            },
            _ => Err(LitsCcError::ExpectedIdent),
        }
    } else {
        Err(LitsCcError::ExpectedIdent)
    }
}

/// Dispatches a command name: writes its opcode, and for a defining
/// command also consumes the following identifier and writes its id. An
/// unrecognized name fails with `UnknownCommand`.
pub fn process_command(
    name: &String,
    tokens: &Vec<Token>,
    idx: &mut usize,
    out: &mut Vec<u8>,
    state: &mut CompilerState,
) -> (r: Result<(), LitsCcError>)
    requires
        old(state).wf(),
        old(state).spec_current_id() < u32::MAX,
        *old(idx) <= tokens@.len(),
    ensures
        final(state).wf(),
        match r {
            Ok(_) => spec_opcode(name@) matches Some(op) && {
                if spec_defining(name@) {
                    &&& *old(idx) < tokens@.len()
                    &&& tokens@[*old(idx) as int]@ matches SpecToken::Identifier(nm)
                        && final(state)@ == old(state)@.insert(nm, old(state).spec_current_id())
                    &&& final(state).spec_current_id() == old(state).spec_current_id() + 1
                    &&& final(out)@ == old(out)@ + be16(op) + be32(old(state).spec_current_id())
                    &&& *final(idx) == *old(idx) + 1
                } else {
                    &&& *final(state) == *old(state)
                    &&& final(out)@ == old(out)@ + be16(op)
                    &&& *final(idx) == *old(idx)
                }
            },
            Err(e) => if spec_opcode(name@) is None {
                &&& e@ == SpecCcError::UnknownCommand(name@)
                &&& *final(state) == *old(state)
                &&& final(out)@ == old(out)@
                &&& *final(idx) == *old(idx)
            } else {
                &&& spec_defining(name@)
                &&& e == LitsCcError::ExpectedIdent
                &&& !(*old(idx) < tokens@.len() && tokens@[*old(idx) as int]@ is Identifier)
                &&& (spec_opcode(name@) matches Some(op) && final(out)@ == old(out)@ + be16(op))
                &&& *final(state) == *old(state)
                &&& *final(idx) == *old(idx)
            },
        },
{
    proof {
        reveal_strlit("gamedef");
        reveal_strlit("def");
        reveal_strlit("log");
        reveal_strlit("create_tex");
        reveal_strlit("color_id");
        reveal_strlit("draw_pixel");
        reveal_strlit("draw_rectangle");
        // same-length names are told apart by their first character
        assert("log"@[0] == 'l' && "def"@[0] == 'd');
        assert("draw_pixel"@[0] == 'd' && "create_tex"@[0] == 'c');
    }
    if *name == String::from_str("gamedef") {
        write_word(out, 1);
        Ok(())
    } else if *name == String::from_str("def") {
        write_word(out, 2);
        read_ident(tokens, idx, out, state)
    } else if *name == String::from_str("log") {
        write_word(out, 3);
        Ok(())
    } else if *name == String::from_str("create_tex") {
        write_word(out, 4);
        read_ident(tokens, idx, out, state)
    } else if *name == String::from_str("color_id") {
        write_word(out, 5);
        Ok(())
    } else if *name == String::from_str("draw_pixel") {
        write_word(out, 6);
        Ok(())
    } else if *name == String::from_str("draw_rectangle") {
        write_word(out, 7);
        Ok(())
    } else {
        Err(LitsCcError::UnknownCommand(name.clone()))
    }
}

} // verus!
