//! The bytecode evaluator: reads one 16-bit opcode at a time and applies
//! its effect to the game data and parser state, until the stream ends,
//! the terminator opcode is read, or an error aborts the load.

use vstd::prelude::*;

use crate::error::LitError;
use crate::material::{ImgMaterial, SpecMaterial};
use crate::script::{
    spec_into_resource_dict, GameData, ParserState, SpecParser,
};
use crate::types::{
    spec_get_var_id, spec_resolve_color, spec_resolve_num, spec_resolve_str, spec_resolve_tuple,
    spec_stringify, BytecodeObject, DataType, SpecObject,
};
use crate::wire::{spec_decode, word16, word32};

verus! {

/// Narrowing a resolved number to a signed 16-bit operand.
pub open spec fn spec_narrow_i16(v: i32) -> Result<i16, LitError> {
    if -32768 <= v <= 32767 {
        Ok(v as i16)
    } else {
        Err(LitError::Conversion)
    }
}

/// Narrowing a resolved number to a texture dimension: non-negative and
/// within the dimension type.
pub open spec fn spec_narrow_dim(v: i32) -> Result<i16, LitError> {
    if 0 <= v <= 32767 {
        Ok(v as i16)
    } else {
        Err(LitError::Conversion)
    }
}

/// Narrowing a resolved number to a color index byte.
pub open spec fn spec_narrow_u8(v: i32) -> Result<u8, LitError> {
    if 0 <= v <= 255 {
        Ok(v as u8)
    } else {
        Err(LitError::Conversion)
    }
}

/// The override registered for `(object, index)`, if any.
pub open spec fn spec_color_lookup(
    colors: Map<u32, Map<u32, crate::color::Color>>,
    object: u32,
    index: u8,
) -> Option<crate::color::Color> {
    if colors.dom().contains(object) && colors[object].dom().contains(index as u32) {
        Some(colors[object][index as u32])
    } else {
        None
    }
}

/// The first position at or past `from` where a `{}` placeholder starts,
/// or -1 if none does.
pub open spec fn spec_find_ph(s: Seq<char>, from: int) -> int
    decreases s.len() - from,
{
    if from < 0 || from + 2 > s.len() {
        -1
    } else if s[from] == '{' && s[from + 1] == '}' {
        from
    } else {
        spec_find_ph(s, from + 1)
    }
}

/// The log line a format string and its tuple produce: each `{}` in turn
/// is replaced by the rendering of the next element; a placeholder without
/// an element renders as nothing, and spare elements are ignored.
pub open spec fn spec_render(
    fmt: Seq<char>,
    elems: Seq<SpecObject>,
    vars: Map<u32, SpecObject>,
    fuel: nat,
) -> Result<Seq<char>, LitError>
    decreases fmt.len(),
    via spec_render_decreases
{
    let idx = spec_find_ph(fmt, 0);
    if idx < 0 {
        Ok(fmt)
    } else {
        let part = fmt.subrange(0, idx);
        let rest = fmt.subrange(idx + 2, fmt.len() as int);
        let selem = if elems.len() > 0 {
            spec_stringify(elems[0], vars, fuel)
        } else {
            Ok(Seq::empty())
        };
        let elems2 = if elems.len() > 0 {
            elems.drop_first()
        } else {
            elems
        };
        match selem {
            Ok(s) => match spec_render(rest, elems2, vars, fuel) {
                Ok(r) => Ok(part + s + r),
                Err(e) => Err(e),
            },
            Err(e) => Err(e),
        }
    }
}

#[via_fn]
proof fn spec_render_decreases(
    fmt: Seq<char>,
    elems: Seq<SpecObject>,
    vars: Map<u32, SpecObject>,
    fuel: nat,
) {
    lemma_find_ph_range(fmt, 0);
}

/// A placeholder found at or past `from` sits at or past `from`, before
/// the last character.
proof fn lemma_find_ph_range(s: Seq<char>, from: int)
    requires
        0 <= from,
    ensures
        spec_find_ph(s, from) == -1 || from <= spec_find_ph(s, from) <= s.len() - 2,
    decreases s.len() - from,
{
    if !(from + 2 > s.len()) && !(s[from] == '{' && s[from + 1] == '}') {
        lemma_find_ph_range(s, from + 1);
    }
}

/// What one evaluation step leaves behind.
pub struct SpecEval {
    pub stop: bool,
    pub pos: int,
    pub parser: SpecParser,
    pub name: Seq<char>,
    pub log: Seq<Seq<char>>,
}

/// One evaluation step at `pos`: reads the opcode word, decodes its
/// operands, and applies its effect, or reports the exact error. Opcode 0
/// stops evaluation; an unrecognized opcode is `BytecodeRead16`.
pub open spec fn spec_eval_step(
    b: Seq<u8>,
    pos: int,
    p: SpecParser,
    name: Seq<char>,
    log: Seq<Seq<char>>,
) -> Result<SpecEval, LitError> {
    if pos < 0 || pos + 2 > b.len() {
        Err(LitError::UnexpectedEof)
    } else {
        let op = word16(b[pos], b[pos + 1]);
        let pos2 = pos + 2;
        if op == 0 {
            Ok(SpecEval { stop: true, pos: pos2, parser: p, name, log })
        } else if op == 1 {
            match spec_decode(b, pos2) {
                Ok((o, p1)) => match spec_resolve_str(o, p.vars, p.fuel) {
                    Ok(s) => Ok(SpecEval { stop: false, pos: p1, parser: p, name: s, log }),
                    Err(e) => Err(e),
                },
                Err(e) => Err(e),
            }
        } else if op == 2 {
            if pos2 + 4 > b.len() {
                Err(LitError::UnexpectedEof)
            } else {
                let id = word32(b[pos2], b[pos2 + 1], b[pos2 + 2], b[pos2 + 3]);
                match spec_decode(b, pos2 + 4) {
                    Ok((o, p1)) => Ok(
                        SpecEval {
                            stop: false,
                            pos: p1,
                            parser: SpecParser {
                                vars: p.vars.insert(id, o),
                                fuel: (p.fuel + (if p.vars.dom().contains(id) {
                                    0int
                                } else {
                                    1int
                                })) as nat,
                                ..p
                            },
                            name,
                            log,
                        },
                    ),
                    Err(e) => Err(e),
                }
            }
        } else if op == 3 {
            match spec_decode(b, pos2) {
                Ok((o1, p1)) => match spec_decode(b, p1) {
                    Ok((o2, p2)) => match spec_resolve_tuple(o2, p.vars, p.fuel) {
                        Ok(elems) => match spec_resolve_str(o1, p.vars, p.fuel) {
                            Ok(fmt) => match spec_render(fmt, elems, p.vars, p.fuel) {
                                Ok(line) => Ok(
                                    SpecEval {
                                        stop: false,
                                        pos: p2,
                                        parser: p,
                                        name,
                                        log: log.push(line),
                                    },
                                ),
                                Err(e) => Err(e),
                            },
                            Err(e) => Err(e),
                        },
                        Err(e) => Err(e),
                    },
                    Err(e) => Err(e),
                },
                Err(e) => Err(e),
            }
        } else if op == 4 {
            if pos2 + 4 > b.len() {
                Err(LitError::UnexpectedEof)
            } else {
                let id = word32(b[pos2], b[pos2 + 1], b[pos2 + 2], b[pos2 + 3]);
                match spec_decode(b, pos2 + 4) {
                    Ok((ow, pw)) => match spec_resolve_num(ow, p.vars, p.fuel) {
                        Ok(wv) => match spec_narrow_dim(wv) {
                            Ok(w) => match spec_decode(b, pw) {
                                Ok((oh, ph)) => match spec_resolve_num(oh, p.vars, p.fuel) {
                                    Ok(hv) => match spec_narrow_dim(hv) {
                                        Ok(h) => match spec_decode(b, ph) {
                                            Ok((oc, pc)) => match spec_resolve_color(
                                                oc,
                                                p.vars,
                                                p.fuel,
                                            ) {
                                                Ok(bg) => Ok(
                                                    SpecEval {
                                                        stop: false,
                                                        pos: pc,
                                                        parser: SpecParser {
                                                            vars: p.vars.insert(
                                                                id,
                                                                SpecObject::Material(
                                                                    SpecMaterial {
                                                                        width: w,
                                                                        height: h,
                                                                        bg_color: bg,
                                                                        draws: Seq::empty(),
                                                                        buffer: None,
                                                                    },
                                                                ),
                                                            ),
                                                            pending: p.pending.push(id),
                                                            fuel: (p.fuel + (
                                                            if p.vars.dom().contains(id) {
                                                                0int
                                                            } else {
                                                                1int
                                                            })) as nat,
                                                            ..p
                                                        },
                                                        name,
                                                        log,
                                                    },
                                                ),
                                                Err(e) => Err(e),
                                            },
                                            Err(e) => Err(e),
                                        },
                                        Err(e) => Err(e),
                                    },
                                    Err(e) => Err(e),
                                },
                                Err(e) => Err(e),
                            },
                            Err(e) => Err(e),
                        },
                        Err(e) => Err(e),
                    },
                    Err(e) => Err(e),
                }
            }
        } else if op == 5 {
            match spec_decode(b, pos2) {
                Ok((ot, pa)) => match spec_get_var_id(ot) {
                    Ok(buf_id) => match spec_decode(b, pa) {
                        Ok((oi, pb)) => match spec_resolve_num(oi, p.vars, p.fuel) {
                            Ok(iv) => match spec_narrow_u8(iv) {
                                Ok(ci) => match spec_decode(b, pb) {
                                    Ok((oc, pc)) => match spec_resolve_color(oc, p.vars, p.fuel) {
                                        Ok(c) => Ok(
                                            SpecEval {
                                                stop: false,
                                                pos: pc,
                                                parser: SpecParser {
                                                    colors: p.colors.insert(
                                                        buf_id,
                                                        (if p.colors.dom().contains(buf_id) {
                                                            p.colors[buf_id]
                                                        } else {
                                                            Map::empty()
                                                        }).insert(ci as u32, c),
                                                    ),
                                                    ..p
                                                },
                                                name,
                                                log,
                                            },
                                        ),
                                        Err(e) => Err(e),
                                    },
                                    Err(e) => Err(e),
                                },
                                Err(e) => Err(e),
                            },
                            Err(e) => Err(e),
                        },
                        Err(e) => Err(e),
                    },
                    Err(e) => Err(e),
                },
                Err(e) => Err(e),
            }
        } else if op == 6 || op == 7 {
            spec_eval_draw(b, pos2, p, name, log, op == 7)
        } else {
            Err(LitError::BytecodeRead16(op))
        }
    }
}

/// The draw opcodes: resolve the target, its coordinates (and extent for a
/// rectangle), then a color index; a registered override supplies the
/// color, otherwise a literal color tuple follows at the same offset.
pub open spec fn spec_eval_draw(
    b: Seq<u8>,
    pos2: int,
    p: SpecParser,
    name: Seq<char>,
    log: Seq<Seq<char>>,
    rect: bool,
) -> Result<SpecEval, LitError> {
    match spec_decode(b, pos2) {
        Ok((ot, pa)) => match spec_get_var_id(ot) {
            Ok(did) => match spec_decode(b, pa) {
                Ok((ox, pb)) => match spec_resolve_num(ox, p.vars, p.fuel) {
                    Ok(xv) => match spec_narrow_i16(xv) {
                        Ok(x) => match spec_decode(b, pb) {
                            Ok((oy, pc)) => match spec_resolve_num(oy, p.vars, p.fuel) {
                                Ok(yv) => match spec_narrow_i16(yv) {
                                    Ok(y) => if rect {
                                        match spec_decode(b, pc) {
                                            Ok((owd, pd)) => match spec_resolve_num(
                                                owd,
                                                p.vars,
                                                p.fuel,
                                            ) {
                                                Ok(wv) => match spec_narrow_i16(wv) {
                                                    Ok(w) => match spec_decode(b, pd) {
                                                        Ok((oht, pe)) => match spec_resolve_num(
                                                            oht,
                                                            p.vars,
                                                            p.fuel,
                                                        ) {
                                                            Ok(hv) => match spec_narrow_i16(hv) {
                                                                Ok(h) => spec_eval_draw_tail(
                                                                    b,
                                                                    pe,
                                                                    p,
                                                                    name,
                                                                    log,
                                                                    did,
                                                                    x,
                                                                    y,
                                                                    Some((w, h)),
                                                                ),
                                                                Err(e) => Err(e),
                                                            },
                                                            Err(e) => Err(e),
                                                        },
                                                        Err(e) => Err(e),
                                                    },
                                                    Err(e) => Err(e),
                                                },
                                                Err(e) => Err(e),
                                            },
                                            Err(e) => Err(e),
                                        }
                                    } else {
                                        spec_eval_draw_tail(b, pc, p, name, log, did, x, y, None)
                                    },
                                    Err(e) => Err(e),
                                },
                                Err(e) => Err(e),
                            },
                            Err(e) => Err(e),
                        },
                        Err(e) => Err(e),
                    },
                    Err(e) => Err(e),
                },
                Err(e) => Err(e),
            },
            Err(e) => Err(e),
        },
        Err(e) => Err(e),
    }
}

/// The tail of a draw opcode: the color-index operand, the override-or-
/// literal color, and the instruction appended to the target material.
pub open spec fn spec_eval_draw_tail(
    b: Seq<u8>,
    pos: int,
    p: SpecParser,
    name: Seq<char>,
    log: Seq<Seq<char>>,
    did: u32,
    x: i16,
    y: i16,
    extent: Option<(i16, i16)>,
) -> Result<SpecEval, LitError> {
    match spec_decode(b, pos) {
        Ok((oi, pa)) => match spec_resolve_num(oi, p.vars, p.fuel) {
            Ok(iv) => match spec_narrow_u8(iv) {
                Ok(ci) => {
                    let picked = match spec_color_lookup(p.colors, did, ci) {
                        Some(c) => Ok((c, pa)),
                        None => match spec_decode(b, pa) {
                            Ok((oc, pb)) => match spec_resolve_color(oc, p.vars, p.fuel) {
                                Ok(c) => Ok((c, pb)),
                                Err(e) => Err(e),
                            },
                            Err(e) => Err(e),
                        },
                    };
                    match picked {
                        Ok((color, pend)) => if !p.vars.dom().contains(did) {
                            Err(LitError::VariableNotFound(did))
                        } else {
                            match p.vars[did] {
                                SpecObject::Material(m) => Ok(
                                    SpecEval {
                                        stop: false,
                                        pos: pend,
                                        parser: SpecParser {
                                            vars: p.vars.insert(
                                                did,
                                                SpecObject::Material(
                                                    SpecMaterial {
                                                        draws: m.draws.push(
                                                            match extent {
                                                                Some((w, h)) => crate::draw::DrawInstruction::Rectangle {
                                                                    x,
                                                                    y,
                                                                    w,
                                                                    h,
                                                                    color,
                                                                },
                                                                None => crate::draw::DrawInstruction::Pixel {
                                                                    x,
                                                                    y,
                                                                    color,
                                                                },
                                                            },
                                                        ),
                                                        ..m
                                                    },
                                                ),
                                            ),
                                            ..p
                                        },
                                        name,
                                        log,
                                    },
                                ),
                                _ => Err(
                                    LitError::IncorrectDataType(
                                        DataType::Unknown,
                                        DataType::ImgMaterial,
                                    ),
                                ),
                            }
                        },
                        Err(e) => Err(e),
                    }
                },
                Err(e) => Err(e),
            },
            Err(e) => Err(e),
        },
        Err(e) => Err(e),
    }
}

/// The parser state a fresh run starts from.
pub open spec fn spec_initial_parser() -> SpecParser {
    SpecParser {
        vars: Map::empty(),
        deps: Map::empty(),
        colors: Map::empty(),
        pending: Seq::empty(),
        fuel: 0,
        dep_fuel: 1,
    }
}

/// Running the evaluator from `pos` until the stream is exhausted, the
/// terminator stops it, or an error aborts it.
pub open spec fn spec_run(
    b: Seq<u8>,
    pos: int,
    p: SpecParser,
    name: Seq<char>,
    log: Seq<Seq<char>>,
) -> Result<(SpecParser, Seq<char>, Seq<Seq<char>>), LitError>
    decreases b.len() - pos,
{
    if pos < 0 || pos >= b.len() {
        Ok((p, name, log))
    } else {
        match spec_eval_step(b, pos, p, name, log) {
            Ok(ev) => if ev.stop {
                Ok((ev.parser, ev.name, ev.log))
            } else if pos < ev.pos <= b.len() {
                spec_run(b, ev.pos, ev.parser, ev.name, ev.log)
            } else {
                // evaluation always advances; this branch is never taken
                Err(LitError::UnexpectedEof)
            },
            Err(e) => Err(e),
        }
    }
}

/// What reading a whole stream yields: the state after the run, and the
/// dictionary its pending materials resolve to.
pub open spec fn spec_read_game(b: Seq<u8>) -> Result<
    (SpecParser, Seq<char>, Seq<Seq<char>>, crate::dictionary::SpecDict),
    LitError,
> {
    match spec_run(b, 0, spec_initial_parser(), "Unnamed"@, Seq::empty()) {
        Ok((pf, nf, lf)) => match spec_into_resource_dict(pf.vars, pf.deps, pf.pending, pf.dep_fuel) {
            Ok(dict) => Ok((pf, nf, lf, dict)),
            Err(e) => Err(e),
        },
        Err(e) => Err(e),
    }
}

impl GameData {
    /// Builds the game from a bytecode stream: evaluates every instruction
    /// in stream order, then resolves the pending materials into the
    /// resource dictionary. Any decode or semantic failure aborts the whole
    /// load.
    #[verifier::rlimit(100)]
    pub fn read(bytes: &Vec<u8>) -> (r: Result<GameData, LitError>)
        ensures
            match r {
                Ok(g) => spec_read_game(bytes@) matches Ok((pf, nf, lf, dict)) && g.wf()
                    && g.spec_name() == nf && g.spec_log() == lf && g.spec_dict() == Some(dict),
                Err(e) => spec_read_game(bytes@) == Err::<
                    (SpecParser, Seq<char>, Seq<Seq<char>>, crate::dictionary::SpecDict),
                    LitError,
                >(e),
            },
    {
        let mut data = GameData::new();
        let mut state = ParserState::new();
        let mut pos: usize = 0;
        proof {
            assert(state.model() == spec_initial_parser()) by {
                assert(state.vars_model() =~= Map::<u32, SpecObject>::empty());
            }
            assert(data.spec_log() =~= Seq::<Seq<char>>::empty());
        }
        loop
            invariant_except_break
                spec_run(bytes@, 0, spec_initial_parser(), "Unnamed"@, Seq::empty()) == spec_run(
                    bytes@,
                    pos as int,
                    state.model(),
                    data.spec_name(),
                    data.spec_log(),
                ),
            invariant
                state.wf(),
                data.wf(),
                pos <= bytes@.len(),
                data.spec_dict() is None,
            ensures
                state.wf(),
                data.wf(),
                data.spec_dict() is None,
                spec_run(bytes@, 0, spec_initial_parser(), "Unnamed"@, Seq::empty()) == Ok::<
                    (SpecParser, Seq<char>, Seq<Seq<char>>),
                    LitError,
                >((state.model(), data.spec_name(), data.spec_log())),
            decreases bytes@.len() - pos,
        {
            if pos >= bytes.len() {
                break ;
            }
            match eval(bytes, &mut pos, &mut data, &mut state) {
                Ok(true) => {
                },
                Ok(false) => {
                    break ;
                },
                Err(e) => {
                    return Err(e);
                },
            }
        }
        match state.into_resource_dict() {
            Ok(rd) => {
                data.attach_resource_dict(rd);
                Ok(data)
            },
            Err(e) => Err(e),
        }
    }
}

/// Reads one big-endian 16-bit word, advancing `*pos`.
fn read_word16(bytes: &Vec<u8>, pos: &mut usize) -> (r: Result<u16, LitError>)
    requires
        *old(pos) <= bytes@.len(),
    ensures
        match r {
            Ok(w) => *old(pos) + 2 <= bytes@.len() && w == word16(
                bytes@[*old(pos) as int],
                bytes@[*old(pos) + 1],
            ) && *final(pos) == *old(pos) + 2,
            Err(e) => e == LitError::UnexpectedEof && *old(pos) + 2 > bytes@.len() && *final(pos)
                == *old(pos),
        },
{
    if bytes.len() - *pos < 2 {
        return Err(LitError::UnexpectedEof);
    }
    let w = bytes[*pos] as u16 * 256 + bytes[*pos + 1] as u16;
    *pos = *pos + 2;
    Ok(w)
}

/// Reads one big-endian 32-bit word, advancing `*pos`.
fn read_word32(bytes: &Vec<u8>, pos: &mut usize) -> (r: Result<u32, LitError>)
    requires
        *old(pos) <= bytes@.len(),
    ensures
        match r {
            Ok(w) => *old(pos) + 4 <= bytes@.len() && w == word32(
                bytes@[*old(pos) as int],
                bytes@[*old(pos) + 1],
                bytes@[*old(pos) + 2],
                bytes@[*old(pos) + 3],
            ) && *final(pos) == *old(pos) + 4,
            Err(e) => e == LitError::UnexpectedEof && *old(pos) + 4 > bytes@.len() && *final(pos)
                == *old(pos),
        },
{
    if bytes.len() - *pos < 4 {
        return Err(LitError::UnexpectedEof);
    }
    let w = bytes[*pos] as u32 * 0x1000000 + bytes[*pos + 1] as u32 * 0x10000 + bytes[*pos
        + 2] as u32 * 256 + bytes[*pos + 3] as u32;
    *pos = *pos + 4;
    Ok(w)
}

/// Finds the first `{}` placeholder at or past `from`.
#[verifier::loop_isolation(false)]
fn find_ph(s: &str, from: usize) -> (r: Option<usize>)
    requires
        from <= s@.len(),
    ensures
        match r {
            Some(i) => spec_find_ph(s@, from as int) == i && from <= i && i + 2 <= s@.len(),
            None => spec_find_ph(s@, from as int) == -1,
        },
{
    let n = s.unicode_len();
    let mut i = from;
    while n - i >= 2
        invariant
            from <= i <= n,
            spec_find_ph(s@, from as int) == spec_find_ph(s@, i as int),
        decreases n - i,
    {
        if s.get_char(i) == '{' && s.get_char(i + 1) == '}' {
            return Some(i);
        }
        i = i + 1;
    }
    None
}

/// Appends to `out` the rendering of `fmt` with the tuple elements from
/// position `k` on.
#[verifier::loop_isolation(false)]
fn render_into(
    fmt: &str,
    elems: &Vec<BytecodeObject>,
    k: usize,
    state: &ParserState,
    out: &mut String,
) -> (r: Result<(), LitError>)
    requires
        state.wf(),
        k <= elems@.len(),
    ensures
        match r {
            Ok(_) => spec_render(
                fmt@,
                BytecodeObject::model_seq(elems@).subrange(k as int, elems@.len() as int),
                state.vars_model(),
                state.spec_fuel(),
            ) matches Ok(t) && final(out)@ == old(out)@ + t,
            Err(e) => spec_render(
                fmt@,
                BytecodeObject::model_seq(elems@).subrange(k as int, elems@.len() as int),
                state.vars_model(),
                state.spec_fuel(),
            ) == Err::<Seq<char>, LitError>(e),
        },
    decreases fmt@.len(),
{
    let ghost mseq = BytecodeObject::model_seq(elems@);
    let ghost suffix = mseq.subrange(k as int, elems@.len() as int);
    proof {
        BytecodeObject::lemma_model_seq(elems@);
    }
    match find_ph(fmt, 0) {
        None => {
            out.append(fmt);
            Ok(())
        },
        Some(idx) => {
            let n = fmt.unicode_len();
            let part = fmt.substring_char(0, idx);
            out.append(part);
            if k < elems.len() {
                proof {
                    assert(suffix[0] == mseq[k as int]);
                }
                match elems[k].stringify(state) {
                    Ok(s) => {
                        out.append(s.as_str());
                    },
                    Err(e) => {
                        return Err(e);
                    },
                }
            }
            let rest = fmt.substring_char(idx + 2, n);
            let k2 = if k < elems.len() {
                k + 1
            } else {
                k
            };
            proof {
                if k < elems@.len() {
                    assert(suffix.drop_first() =~= mseq.subrange(k as int + 1, elems@.len() as int));
                } else {
                    assert(suffix =~= Seq::<SpecObject>::empty());
                }
            }
            let r = render_into(rest, elems, k2, state, out);
            match r {
                Ok(_) => {
                    proof {
                        let t = spec_render(fmt@, suffix, state.vars_model(), state.spec_fuel());
                        assert(out@ =~= old(out)@ + t->Ok_0);
                    }
                    Ok(())
                },
                Err(e) => Err(e),
            }
        },
    }
}

/// Evaluates one instruction at `*pos`, advancing past its operands;
/// returns whether evaluation should continue. The effect and the exact
/// errors are those of `spec_eval_step`.
pub fn eval(bytes: &Vec<u8>, pos: &mut usize, data: &mut GameData, state: &mut ParserState) -> (r:
    Result<bool, LitError>)
    requires
        old(state).wf(),
        old(data).wf(),
        *old(pos) <= bytes@.len(),
    ensures
        final(state).wf(),
        final(data).wf(),
        final(data).spec_dict() == old(data).spec_dict(),
        match r {
            Ok(cont) => spec_eval_step(
                bytes@,
                *old(pos) as int,
                old(state).model(),
                old(data).spec_name(),
                old(data).spec_log(),
            ) matches Ok(ev) && cont == !ev.stop && *final(pos) == ev.pos && final(state).model()
                == ev.parser && final(data).spec_name() == ev.name && final(data).spec_log()
                == ev.log && *old(pos) < *final(pos) <= bytes@.len(),
            Err(e) => spec_eval_step(
                bytes@,
                *old(pos) as int,
                old(state).model(),
                old(data).spec_name(),
                old(data).spec_log(),
            ) == Err::<SpecEval, LitError>(e) && final(state).model() == old(state).model()
                && final(data).spec_name() == old(data).spec_name() && final(data).spec_log()
                == old(data).spec_log(),
        },
{
    let ghost step_spec = spec_eval_step(
        bytes@,
        *old(pos) as int,
        old(state).model(),
        old(data).spec_name(),
        old(data).spec_log(),
    );
    let op = match read_word16(bytes, pos) {
        Ok(w) => w,
        Err(e) => {
            return Err(e);
        },
    };
    if op == 0 {
        Ok(false)
    } else if op == 1 {
        let o = match BytecodeObject::read(bytes, pos) {
            Ok(o) => o,
            Err(e) => {
                return Err(e);
            },
        };
        let s = match o.as_string(state) {
            Ok(s) => String::from_str(s),
            Err(e) => {
                return Err(e);
            },
        };
        data.set_name(s);
        Ok(true)
    } else if op == 2 {
        let id = match read_word32(bytes, pos) {
            Ok(w) => w,
            Err(e) => {
                return Err(e);
            },
        };
        let o = match BytecodeObject::read(bytes, pos) {
            Ok(o) => o,
            Err(e) => {
                return Err(e);
            },
        };
        state.register_variable(id, o);
        Ok(true)
    } else if op == 3 {
        let o1 = match BytecodeObject::read(bytes, pos) {
            Ok(o) => o,
            Err(e) => {
                return Err(e);
            },
        };
        let o2 = match BytecodeObject::read(bytes, pos) {
            Ok(o) => o,
            Err(e) => {
                return Err(e);
            },
        };
        let tuple = match o2.as_tuple(state) {
            Ok(t) => t,
            Err(e) => {
                return Err(e);
            },
        };
        let fmt = match o1.as_string(state) {
            Ok(s) => s,
            Err(e) => {
                return Err(e);
            },
        };
        let mut line = String::new();
        proof {
            BytecodeObject::lemma_model_seq(tuple@);
            assert(BytecodeObject::model_seq(tuple@).subrange(
                0,
                tuple@.len() as int,
            ) =~= BytecodeObject::model_seq(tuple@));
        }
        let rendered = render_into(fmt, tuple, 0, state, &mut line);
        match rendered {
            Ok(_) => {
                proof {
                    let t = spec_render(
                        fmt@,
                        BytecodeObject::model_seq(tuple@),
                        state.vars_model(),
                        state.spec_fuel(),
                    );
                    assert(line@ =~= t->Ok_0);
                }
                data.push_log(line);
                Ok(true)
            },
            Err(e) => Err(e),
        }
    } else if op == 4 {
        let id = match read_word32(bytes, pos) {
            Ok(w) => w,
            Err(e) => {
                return Err(e);
            },
        };
        let ow = match BytecodeObject::read(bytes, pos) {
            Ok(o) => o,
            Err(e) => {
                return Err(e);
            },
        };
        let wv = match ow.as_number(state) {
            Ok(v) => v,
            Err(e) => {
                return Err(e);
            },
        };
        if wv < 0 || wv > 32767 {
            return Err(LitError::Conversion);
        }
        let oh = match BytecodeObject::read(bytes, pos) {
            Ok(o) => o,
            Err(e) => {
                return Err(e);
            },
        };
        let hv = match oh.as_number(state) {
            Ok(v) => v,
            Err(e) => {
                return Err(e);
            },
        };
        if hv < 0 || hv > 32767 {
            return Err(LitError::Conversion);
        }
        let oc = match BytecodeObject::read(bytes, pos) {
            Ok(o) => o,
            Err(e) => {
                return Err(e);
            },
        };
        let bg = match oc.as_color(state) {
            Ok(c) => c,
            Err(e) => {
                return Err(e);
            },
        };
        let mat = ImgMaterial::new(wv as i16, hv as i16, bg);
        state.register_variable(id, BytecodeObject::ImgMaterial(mat));
        state.add_pending_material(id);
        Ok(true)
    } else if op == 5 {
        let ot = match BytecodeObject::read(bytes, pos) {
            Ok(o) => o,
            Err(e) => {
                return Err(e);
            },
        };
        let buf_id = match ot.get_var_id(state) {
            Ok(v) => v,
            Err(e) => {
                return Err(e);
            },
        };
        let oi = match BytecodeObject::read(bytes, pos) {
            Ok(o) => o,
            Err(e) => {
                return Err(e);
            },
        };
        let iv = match oi.as_number(state) {
            Ok(v) => v,
            Err(e) => {
                return Err(e);
            },
        };
        if iv < 0 || iv > 255 {
            return Err(LitError::Conversion);
        }
        let oc = match BytecodeObject::read(bytes, pos) {
            Ok(o) => o,
            Err(e) => {
                return Err(e);
            },
        };
        let c = match oc.as_color(state) {
            Ok(c) => c,
            Err(e) => {
                return Err(e);
            },
        };
        state.register_color_id(buf_id, iv as u8, c);
        Ok(true)
    } else if op == 6 || op == 7 {
        let rect = op == 7;
        let ot = match BytecodeObject::read(bytes, pos) {
            Ok(o) => o,
            Err(e) => {
                return Err(e);
            },
        };
        let did = match ot.get_var_id(state) {
            Ok(v) => v,
            Err(e) => {
                return Err(e);
            },
        };
        let xv = match BytecodeObject::read(bytes, pos) {
            Ok(o) => match o.as_number(state) {
                Ok(v) => v,
                Err(e) => {
                    return Err(e);
                },
            },
            Err(e) => {
                return Err(e);
            },
        };
        if xv < -32768 || xv > 32767 {
            return Err(LitError::Conversion);
        }
        let yv = match BytecodeObject::read(bytes, pos) {
            Ok(o) => match o.as_number(state) {
                Ok(v) => v,
                Err(e) => {
                    return Err(e);
                },
            },
            Err(e) => {
                return Err(e);
            },
        };
        if yv < -32768 || yv > 32767 {
            return Err(LitError::Conversion);
        }
        let extent: Option<(i16, i16)> = if rect {
            let wv = match BytecodeObject::read(bytes, pos) {
                Ok(o) => match o.as_number(state) {
                    Ok(v) => v,
                    Err(e) => {
                        return Err(e);
                    },
                },
                Err(e) => {
                    return Err(e);
                },
            };
            if wv < -32768 || wv > 32767 {
                return Err(LitError::Conversion);
            }
            let hv = match BytecodeObject::read(bytes, pos) {
                Ok(o) => match o.as_number(state) {
                    Ok(v) => v,
                    Err(e) => {
                        return Err(e);
                    },
                },
                Err(e) => {
                    return Err(e);
                },
            };
            if hv < -32768 || hv > 32767 {
                return Err(LitError::Conversion);
            }
            Some((wv as i16, hv as i16))
        } else {
            None
        };
        let ghost pos_idx = *pos as int;
        let iv = match BytecodeObject::read(bytes, pos) {
            Ok(o) => match o.as_number(state) {
                Ok(v) => v,
                Err(e) => {
                    return Err(e);
                },
            },
            Err(e) => {
                return Err(e);
            },
        };
        if iv < 0 || iv > 255 {
            return Err(LitError::Conversion);
        }
        let ci = iv as u8;
        proof {
            assert(step_spec == spec_eval_draw_tail(
                bytes@,
                pos_idx,
                old(state).model(),
                old(data).spec_name(),
                old(data).spec_log(),
                did,
                xv as i16,
                yv as i16,
                extent,
            ));
        }
        let color = match state.get_color(did, ci) {
            Ok(c) => c,
            Err(_) => {
                let oc = match BytecodeObject::read(bytes, pos) {
                    Ok(o) => o,
                    Err(e) => {
                        return Err(e);
                    },
                };
                match oc.as_color(state) {
                    Ok(c) => c,
                    Err(e) => {
                        return Err(e);
                    },
                }
            },
        };
        let drawn = match extent {
            Some((w, h)) => state.draw_rectangle_on(did, xv as i16, yv as i16, w, h, color),
            None => state.draw_pixel_on(did, xv as i16, yv as i16, color),
        };
        match drawn {
            Ok(_) => Ok(true),
            Err(e) => Err(e),
        }
    } else {
        Err(LitError::BytecodeRead16(op))
    }
}

} // verus!
