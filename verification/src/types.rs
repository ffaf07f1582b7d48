//! The runtime object model: the tagged values carried by the bytecode
//! stream, and their mathematical model used in specifications.

use vstd::prelude::*;

use crate::color::{spec_from_arr, Color};
use crate::error::LitError;
use crate::material::ImgMaterial;
use crate::script::ParserState;
use crate::text::{push_i32, spec_int_text};

verus! {

/// The runtime kind of a bytecode object, used in type-mismatch errors.
#[derive(Debug, Clone, Copy, PartialEq, Eq, Structural)]
pub enum DataType {
    Unknown,
    Numeric8,
    Numeric16,
    Numeric32,
    Str,
    Tuple,
    ImgMaterial,
    VarInvocation,
}

/// A value decoded from (or destined for) the bytecode stream. Numbers keep
/// the width they were encoded with; a `VarInvocation` is a reference by id
/// to a previously bound value; a material is created by the evaluator, never
/// by the decoder.
#[derive(Debug)]
pub enum BytecodeObject {
    Numeric8(u8),
    Numeric16(i16),
    Numeric32(i32),
    Str(String),
    Tuple(Vec<BytecodeObject>),
    VarInvocation(u32),
    ImgMaterial(ImgMaterial),
}

/// The mathematical model of a `BytecodeObject`: strings become character
/// sequences and tuples become sequences of models.
pub enum SpecObject {
    N8(u8),
    N16(i16),
    N32(i32),
    Str(Seq<char>),
    Tuple(Seq<SpecObject>),
    Var(u32),
    Material(crate::material::SpecMaterial),
}

impl BytecodeObject {
    /// The model of this object.
    pub open spec fn model(self) -> SpecObject
        decreases self,
    {
        match self {
            BytecodeObject::Numeric8(n) => SpecObject::N8(n),
            BytecodeObject::Numeric16(n) => SpecObject::N16(n),
            BytecodeObject::Numeric32(n) => SpecObject::N32(n),
            BytecodeObject::Str(s) => SpecObject::Str(s@),
            BytecodeObject::Tuple(v) => SpecObject::Tuple(Self::model_seq(v@)),
            BytecodeObject::VarInvocation(id) => SpecObject::Var(id),
            BytecodeObject::ImgMaterial(m) => SpecObject::Material(m@),
        }
    }

    /// The models of a sequence of objects, element by element.
    pub open spec fn model_seq(s: Seq<BytecodeObject>) -> Seq<SpecObject>
        decreases s,
    {
        if s.len() == 0 {
            Seq::empty()
        } else {
            seq![s[0].model()] + Self::model_seq(s.drop_first())
        }
    }

    /// `model_seq` maps the sequence pointwise.
    pub proof fn lemma_model_seq(s: Seq<BytecodeObject>)
        ensures
            Self::model_seq(s).len() == s.len(),
            forall|i: int| 0 <= i < s.len() ==> Self::model_seq(s)[i] == #[trigger] s[i].model(),
        decreases s,
    {
        if s.len() > 0 {
            Self::lemma_model_seq(s.drop_first());
            assert forall|i: int| 0 <= i < s.len() implies Self::model_seq(s)[i] == #[trigger] s[i].model() by {
                if i > 0 {
                    assert(s.drop_first()[i - 1] == s[i]);
                }
            }
        }
    }
}

impl View for BytecodeObject {
    type V = SpecObject;

    open spec fn view(&self) -> SpecObject {
        self.model()
    }
}

/// The kind of an object, read off its own variant alone.
pub open spec fn spec_dtype(o: SpecObject) -> DataType {
    match o {
        SpecObject::N8(_) => DataType::Numeric8,
        SpecObject::N16(_) => DataType::Numeric16,
        SpecObject::N32(_) => DataType::Numeric32,
        SpecObject::Str(_) => DataType::Str,
        SpecObject::Tuple(_) => DataType::Tuple,
        SpecObject::Var(_) => DataType::VarInvocation,
        SpecObject::Material(_) => DataType::ImgMaterial,
    }
}

/// The kind an object resolves to: invocations are followed as long as
/// the id is bound and fuel remains; a broken or circular chain is
/// `Unknown`.
pub open spec fn spec_data_type(o: SpecObject, vars: Map<u32, SpecObject>, fuel: nat) -> DataType
    decreases fuel,
{
    match o {
        SpecObject::Var(id) => if !vars.dom().contains(id) {
            DataType::Unknown
        } else if fuel == 0 {
            DataType::Unknown
        } else {
            spec_data_type(vars[id], vars, (fuel - 1) as nat)
        },
        _ => spec_dtype(o),
    }
}

/// The 32-bit value an object resolves to, following invocations.
pub open spec fn spec_resolve_num(o: SpecObject, vars: Map<u32, SpecObject>, fuel: nat) -> Result<
    i32,
    LitError,
>
    decreases fuel,
{
    match o {
        SpecObject::N8(v) => Ok(v as i32),
        SpecObject::N16(v) => Ok(v as i32),
        SpecObject::N32(v) => Ok(v),
        SpecObject::Var(id) => if !vars.dom().contains(id) {
            Err(LitError::VariableNotFound(id))
        } else if fuel == 0 {
            Err(LitError::CircularReference(id))
        } else {
            spec_resolve_num(vars[id], vars, (fuel - 1) as nat)
        },
        _ => Err(LitError::ExpectedNumericalDataType(spec_dtype(o))),
    }
}

/// The text an object resolves to, following invocations.
pub open spec fn spec_resolve_str(o: SpecObject, vars: Map<u32, SpecObject>, fuel: nat) -> Result<
    Seq<char>,
    LitError,
>
    decreases fuel,
{
    match o {
        SpecObject::Str(s) => Ok(s),
        SpecObject::Var(id) => if !vars.dom().contains(id) {
            Err(LitError::VariableNotFound(id))
        } else if fuel == 0 {
            Err(LitError::CircularReference(id))
        } else {
            spec_resolve_str(vars[id], vars, (fuel - 1) as nat)
        },
        _ => Err(LitError::IncorrectDataType(spec_dtype(o), DataType::Str)),
    }
}

/// The element models an object resolves to, following invocations.
pub open spec fn spec_resolve_tuple(o: SpecObject, vars: Map<u32, SpecObject>, fuel: nat) -> Result<
    Seq<SpecObject>,
    LitError,
>
    decreases fuel,
{
    match o {
        SpecObject::Tuple(t) => Ok(t),
        SpecObject::Var(id) => if !vars.dom().contains(id) {
            Err(LitError::VariableNotFound(id))
        } else if fuel == 0 {
            Err(LitError::CircularReference(id))
        } else {
            spec_resolve_tuple(vars[id], vars, (fuel - 1) as nat)
        },
        _ => Err(LitError::IncorrectDataType(spec_dtype(o), DataType::Tuple)),
    }
}

/// The id a direct invocation names.
pub open spec fn spec_get_var_id(o: SpecObject) -> Result<u32, LitError> {
    match o {
        SpecObject::Var(id) => Ok(id),
        _ => Err(LitError::IncorrectDataType(spec_dtype(o), DataType::VarInvocation)),
    }
}

/// The numbers a tuple's elements resolve to, in order.
pub open spec fn spec_nums(
    elems: Seq<SpecObject>,
    vars: Map<u32, SpecObject>,
    fuel: nat,
) -> Result<Seq<i32>, LitError>
    decreases elems,
{
    if elems.len() == 0 {
        Ok(Seq::empty())
    } else {
        match spec_resolve_num(elems[0], vars, fuel) {
            Ok(v) => match spec_nums(elems.drop_first(), vars, fuel) {
                Ok(rest) => Ok(seq![v] + rest),
                Err(e) => Err(e),
            },
            Err(e) => Err(e),
        }
    }
}

/// The color an object resolves to: a tuple of numeric channels, then the
/// channel rules of `spec_from_arr`.
pub open spec fn spec_resolve_color(o: SpecObject, vars: Map<u32, SpecObject>, fuel: nat) -> Result<
    Color,
    LitError,
>
{
    match spec_resolve_tuple(o, vars, fuel) {
        Ok(elems) => match spec_nums(elems, vars, fuel) {
            Ok(nums) => spec_from_arr(nums),
            Err(e) => Err(e),
        },
        Err(e) => Err(e),
    }
}

/// The text an object prints as in the log: numbers in decimal, strings
/// as they are, tuples parenthesized and comma-separated, materials by
/// their dimensions, invocations by what they resolve to.
pub open spec fn spec_stringify(o: SpecObject, vars: Map<u32, SpecObject>, fuel: nat) -> Result<
    Seq<char>,
    LitError,
>
    decreases fuel, o, 1int,
{
    match o {
        SpecObject::N8(v) => Ok(spec_int_text(v as int)),
        SpecObject::N16(v) => Ok(spec_int_text(v as int)),
        SpecObject::N32(v) => Ok(spec_int_text(v as int)),
        SpecObject::Str(s) => Ok(s),
        SpecObject::Tuple(t) => if t.len() == 0 {
            Ok("("@ + ")"@)
        } else {
            match spec_stringify(t[0], vars, fuel) {
                Ok(s0) => match spec_stringify_rest(t.drop_first(), vars, fuel) {
                    Ok(rest) => Ok("("@ + s0 + rest + ")"@),
                    Err(e) => Err(e),
                },
                Err(e) => Err(e),
            }
        },
        SpecObject::Var(id) => if !vars.dom().contains(id) {
            Err(LitError::VariableNotFound(id))
        } else if fuel == 0 {
            Err(LitError::CircularReference(id))
        } else {
            spec_stringify(vars[id], vars, (fuel - 1) as nat)
        },
        SpecObject::Material(m) => Ok(
            spec_int_text(m.width as int) + "x"@ + spec_int_text(m.height as int) + " Image"@,
        ),
    }
}

/// The remaining tuple elements, each preceded by a comma separator.
pub open spec fn spec_stringify_rest(
    t: Seq<SpecObject>,
    vars: Map<u32, SpecObject>,
    fuel: nat,
) -> Result<Seq<char>, LitError>
    decreases fuel, t, 0int,
{
    if t.len() == 0 {
        Ok(Seq::empty())
    } else {
        match spec_stringify(t[0], vars, fuel) {
            Ok(s0) => match spec_stringify_rest(t.drop_first(), vars, fuel) {
                Ok(rest) => Ok(", "@ + s0 + rest),
                Err(e) => Err(e),
            },
            Err(e) => Err(e),
        }
    }
}

impl BytecodeObject {
    /// The kind of this object, not following invocations.
    pub(crate) fn dtype_shallow(&self) -> (r: DataType)
        ensures
            r == spec_dtype(self@),
    {
        match self {
            BytecodeObject::Numeric8(_) => DataType::Numeric8,
            BytecodeObject::Numeric16(_) => DataType::Numeric16,
            BytecodeObject::Numeric32(_) => DataType::Numeric32,
            BytecodeObject::Str(_) => DataType::Str,
            BytecodeObject::Tuple(_) => DataType::Tuple,
            BytecodeObject::VarInvocation(_) => DataType::VarInvocation,
            BytecodeObject::ImgMaterial(_) => DataType::ImgMaterial,
        }
    }

    /// The kind this object resolves to, following invocations through the
    /// state.
    pub fn data_type(&self, state: &ParserState) -> (r: DataType)
        requires
            state.wf(),
        ensures
            r == spec_data_type(self@, state.vars_model(), state.spec_fuel()),
    {
        let ghost vm = state.vars_model();
        let ghost fuel0 = state.spec_fuel();
        let mut cur: &BytecodeObject = self;
        let mut fuel: usize = state.num_variables();
        loop
            invariant
                state.wf(),
                vm == state.vars_model(),
                fuel0 == state.spec_fuel(),
                spec_data_type(self@, vm, fuel0) == spec_data_type(cur@, vm, fuel as nat),
            decreases fuel,
        {
            match cur {
                BytecodeObject::VarInvocation(id) => match state.get_variable(*id) {
                    Ok(next) => {
                        if fuel == 0 {
                            return DataType::Unknown;
                        }
                        fuel = fuel - 1;
                        cur = next;
                    },
                    Err(_) => {
                        return DataType::Unknown;
                    },
                },
                _ => {
                    return cur.dtype_shallow();
                },
            }
        }
    }

    /// The 32-bit value this object resolves to.
    pub fn as_number(&self, state: &ParserState) -> (r: Result<i32, LitError>)
        requires
            state.wf(),
        ensures
            r == spec_resolve_num(self@, state.vars_model(), state.spec_fuel()),
    {
        let ghost vm = state.vars_model();
        let ghost fuel0 = state.spec_fuel();
        let mut cur: &BytecodeObject = self;
        let mut fuel: usize = state.num_variables();
        loop
            invariant
                state.wf(),
                vm == state.vars_model(),
                fuel0 == state.spec_fuel(),
                spec_resolve_num(self@, vm, fuel0) == spec_resolve_num(cur@, vm, fuel as nat),
            decreases fuel,
        {
            match cur {
                BytecodeObject::Numeric8(v) => {
                    return Ok(*v as i32);
                },
                BytecodeObject::Numeric16(v) => {
                    return Ok(*v as i32);
                },
                BytecodeObject::Numeric32(v) => {
                    return Ok(*v);
                },
                BytecodeObject::VarInvocation(id) => match state.get_variable(*id) {
                    Ok(next) => {
                        if fuel == 0 {
                            return Err(LitError::CircularReference(*id));
                        }
                        fuel = fuel - 1;
                        cur = next;
                    },
                    Err(e) => {
                        return Err(e);
                    },
                },
                _ => {
                    return Err(LitError::ExpectedNumericalDataType(cur.dtype_shallow()));
                },
            }
        }
    }

    /// The string this object resolves to.
    pub fn as_string<'a>(&'a self, state: &'a ParserState) -> (r: Result<&'a str, LitError>)
        requires
            state.wf(),
        ensures
            match r {
                Ok(s) => spec_resolve_str(self@, state.vars_model(), state.spec_fuel())
                    == Ok::<Seq<char>, LitError>(s@),
                Err(e) => spec_resolve_str(self@, state.vars_model(), state.spec_fuel())
                    == Err::<Seq<char>, LitError>(e),
            },
    {
        let ghost vm = state.vars_model();
        let ghost fuel0 = state.spec_fuel();
        let mut cur: &'a BytecodeObject = self;
        let mut fuel: usize = state.num_variables();
        loop
            invariant
                state.wf(),
                vm == state.vars_model(),
                fuel0 == state.spec_fuel(),
                spec_resolve_str(self@, vm, fuel0) == spec_resolve_str(cur@, vm, fuel as nat),
            decreases fuel,
        {
            match cur {
                BytecodeObject::Str(s) => {
                    return Ok(s.as_str());
                },
                BytecodeObject::VarInvocation(id) => match state.get_variable(*id) {
                    Ok(next) => {
                        if fuel == 0 {
                            return Err(LitError::CircularReference(*id));
                        }
                        fuel = fuel - 1;
                        cur = next;
                    },
                    Err(e) => {
                        return Err(e);
                    },
                },
                _ => {
                    return Err(
                        LitError::IncorrectDataType(cur.dtype_shallow(), DataType::Str),
                    );
                },
            }
        }
    }

    /// The tuple this object resolves to.
    pub fn as_tuple<'a>(&'a self, state: &'a ParserState) -> (r: Result<
        &'a Vec<BytecodeObject>,
        LitError,
    >)
        requires
            state.wf(),
        ensures
            match r {
                Ok(t) => spec_resolve_tuple(self@, state.vars_model(), state.spec_fuel())
                    == Ok::<Seq<SpecObject>, LitError>(BytecodeObject::model_seq(t@)),
                Err(e) => spec_resolve_tuple(self@, state.vars_model(), state.spec_fuel())
                    == Err::<Seq<SpecObject>, LitError>(e),
            },
    {
        let ghost vm = state.vars_model();
        let ghost fuel0 = state.spec_fuel();
        let mut cur: &'a BytecodeObject = self;
        let mut fuel: usize = state.num_variables();
        loop
            invariant
                state.wf(),
                vm == state.vars_model(),
                fuel0 == state.spec_fuel(),
                spec_resolve_tuple(self@, vm, fuel0) == spec_resolve_tuple(cur@, vm, fuel as nat),
            decreases fuel,
        {
            match cur {
                BytecodeObject::Tuple(t) => {
                    return Ok(t);
                },
                BytecodeObject::VarInvocation(id) => match state.get_variable(*id) {
                    Ok(next) => {
                        if fuel == 0 {
                            return Err(LitError::CircularReference(*id));
                        }
                        fuel = fuel - 1;
                        cur = next;
                    },
                    Err(e) => {
                        return Err(e);
                    },
                },
                _ => {
                    return Err(
                        LitError::IncorrectDataType(cur.dtype_shallow(), DataType::Tuple),
                    );
                },
            }
        }
    }

    /// The id this object invokes; only a direct invocation has one.
    pub fn get_var_id(&self, _state: &ParserState) -> (r: Result<u32, LitError>)
        ensures
            r == spec_get_var_id(self@),
    {
        match self {
            BytecodeObject::VarInvocation(id) => Ok(*id),
            _ => Err(LitError::IncorrectDataType(self.dtype_shallow(), DataType::VarInvocation)),
        }
    }

    /// The color this object resolves to.
    pub fn as_color(&self, state: &ParserState) -> (r: Result<Color, LitError>)
        requires
            state.wf(),
        ensures
            r == spec_resolve_color(self@, state.vars_model(), state.spec_fuel()),
    {
        let ghost vm = state.vars_model();
        let ghost fuel0 = state.spec_fuel();
        let tuple = match self.as_tuple(state) {
            Ok(t) => t,
            Err(e) => {
                return Err(e);
            },
        };
        let ghost elems = BytecodeObject::model_seq(tuple@);
        proof {
            BytecodeObject::lemma_model_seq(tuple@);
        }
        let mut values: Vec<i32> = Vec::new();
        let mut i: usize = 0;
        let n = tuple.len();
        proof {
            assert(values@ =~= Seq::<i32>::empty());
            assert(elems.subrange(0, n as int) =~= elems);
            if spec_nums(elems, vm, fuel0) is Ok {
                assert(values@ + spec_nums(elems, vm, fuel0)->Ok_0 =~= spec_nums(
                    elems,
                    vm,
                    fuel0,
                )->Ok_0);
            }
        }
        while i < n
            invariant
                state.wf(),
                vm == state.vars_model(),
                fuel0 == state.spec_fuel(),
                i <= n == tuple@.len(),
                elems == BytecodeObject::model_seq(tuple@),
                spec_resolve_tuple(self@, vm, fuel0) == Ok::<Seq<SpecObject>, LitError>(elems),
                elems.len() == n,
                forall|j: int| 0 <= j < n ==> elems[j] == #[trigger] tuple@[j].model(),
                spec_nums(elems, vm, fuel0) == (match spec_nums(
                    elems.subrange(i as int, n as int),
                    vm,
                    fuel0,
                ) {
                    Ok(rest) => Ok::<Seq<i32>, LitError>(values@ + rest),
                    Err(e) => Err(e),
                }),
            decreases n - i,
        {
            let ghost suffix = elems.subrange(i as int, n as int);
            proof {
                assert(suffix[0] == elems[i as int]);
                assert(suffix.drop_first() =~= elems.subrange(i as int + 1, n as int));
            }
            let ghost values0 = values@;
            match tuple[i].as_number(state) {
                Ok(v) => {
                    values.push(v);
                    proof {
                        assert(values@ =~= values0.push(v));
                        if spec_nums(elems.subrange(i as int + 1, n as int), vm, fuel0) is Ok {
                            let rest = spec_nums(
                                elems.subrange(i as int + 1, n as int),
                                vm,
                                fuel0,
                            )->Ok_0;
                            assert(values@ + rest =~= values0 + (seq![v] + rest));
                        }
                    }
                },
                Err(e) => {
                    return Err(e);
                },
            }
            i = i + 1;
        }
        proof {
            assert(elems.subrange(n as int, n as int) =~= Seq::<SpecObject>::empty());
            assert(values@ + Seq::<i32>::empty() =~= values@);
        }
        Color::from_arr(&values)
    }

    /// Renders this object as log text.
    pub fn stringify(&self, state: &ParserState) -> (r: Result<String, LitError>)
        requires
            state.wf(),
        ensures
            match r {
                Ok(s) => spec_stringify(self@, state.vars_model(), state.spec_fuel()) == Ok::<
                    Seq<char>,
                    LitError,
                >(s@),
                Err(e) => spec_stringify(self@, state.vars_model(), state.spec_fuel()) == Err::<
                    Seq<char>,
                    LitError,
                >(e),
            },
    {
        let mut out = String::new();
        let fuel = state.num_variables();
        match self.stringify_into(state, fuel, &mut out) {
            Ok(_) => Ok(out),
            Err(e) => Err(e),
        }
    }

    /// Appends this object's log text to `out`.
    #[verifier::loop_isolation(false)]
    fn stringify_into(&self, state: &ParserState, fuel: usize, out: &mut String) -> (r: Result<
        (),
        LitError,
    >)
        requires
            state.wf(),
        ensures
            match r {
                Ok(_) => spec_stringify(self@, state.vars_model(), fuel as nat) matches Ok(t)
                    && final(out)@ == old(out)@ + t,
                Err(e) => spec_stringify(self@, state.vars_model(), fuel as nat) == Err::<
                    Seq<char>,
                    LitError,
                >(e),
            },
        decreases fuel, *self,
    {
        let ghost vm = state.vars_model();
        match self {
            BytecodeObject::Numeric8(v) => {
                push_i32(out, *v as i32);
                Ok(())
            },
            BytecodeObject::Numeric16(v) => {
                push_i32(out, *v as i32);
                Ok(())
            },
            BytecodeObject::Numeric32(v) => {
                push_i32(out, *v);
                Ok(())
            },
            BytecodeObject::Str(s) => {
                out.append(s.as_str());
                Ok(())
            },
            BytecodeObject::VarInvocation(id) => match state.get_variable(*id) {
                Ok(next) => {
                    if fuel == 0 {
                        Err(LitError::CircularReference(*id))
                    } else {
                        next.stringify_into(state, fuel - 1, out)
                    }
                },
                Err(e) => Err(e),
            },
            BytecodeObject::Tuple(t) => {
                proof {
                    reveal_strlit("(");
                    reveal_strlit(")");
                    reveal_strlit(", ");
                    BytecodeObject::lemma_model_seq(t@);
                }
                let ghost mseq = BytecodeObject::model_seq(t@);
                let n = t.len();
                out.append("(");
                if n == 0 {
                    out.append(")");
                    proof {
                        assert(out@ =~= old(out)@ + ("("@ + ")"@));
                    }
                    return Ok(());
                }
                let r0 = t[0].stringify_into(state, fuel, out);
                if let Err(e) = r0 {
                    return Err(e);
                }
                let ghost s0 = spec_stringify(mseq[0], vm, fuel as nat)->Ok_0;
                let ghost base = old(out)@ + "("@ + s0;
                proof {
                    assert(out@ =~= base + Seq::<char>::empty());
                }
                let ghost mut done: Seq<char> = Seq::empty();
                let mut i: usize = 1;
                proof {
                    assert(mseq.subrange(1, n as int) =~= mseq.subrange(1, n as int));
                }
                while i < n
                    invariant
                        1 <= i <= n,
                        out@ == base + done,
                        spec_stringify_rest(mseq.subrange(1, n as int), vm, fuel as nat) == (
                        match spec_stringify_rest(mseq.subrange(i as int, n as int), vm, fuel as nat) {
                            Ok(rest) => Ok::<Seq<char>, LitError>(done + rest),
                            Err(e) => Err(e),
                        }),
                    decreases n - i,
                {
                    let ghost suffix = mseq.subrange(i as int, n as int);
                    proof {
                        assert(suffix[0] == mseq[i as int]);
                        assert(suffix.drop_first() =~= mseq.subrange(i as int + 1, n as int));
                    }
                    out.append(", ");
                    let ri = t[i].stringify_into(state, fuel, out);
                    match ri {
                        Ok(_) => {
                            proof {
                                let si = spec_stringify(mseq[i as int], vm, fuel as nat)->Ok_0;
                                assert(out@ =~= base + (done + (", "@ + si)));
                                if spec_stringify_rest(
                                    mseq.subrange(i as int + 1, n as int),
                                    vm,
                                    fuel as nat,
                                ) is Ok {
                                    let rest = spec_stringify_rest(
                                        mseq.subrange(i as int + 1, n as int),
                                        vm,
                                        fuel as nat,
                                    )->Ok_0;
                                    assert((done + (", "@ + si)) + rest =~= done + (", "@ + si
                                        + rest));
                                }
                                done = done + (", "@ + si);
                            }
                        },
                        Err(e) => {
                            return Err(e);
                        },
                    }
                    i = i + 1;
                }
                out.append(")");
                proof {
                    assert(mseq.subrange(n as int, n as int) =~= Seq::<SpecObject>::empty());
                    assert(done + Seq::<char>::empty() =~= done);
                    assert(out@ =~= old(out)@ + ("("@ + s0 + done + ")"@));
                }
                Ok(())
            },
            BytecodeObject::ImgMaterial(m) => {
                proof {
                    reveal_strlit("x");
                    reveal_strlit(" Image");
                }
                push_i32(out, m.width() as i32);
                out.append("x");
                push_i32(out, m.height() as i32);
                out.append(" Image");
                proof {
                    assert(out@ =~= old(out)@ + (spec_int_text(m@.width as int) + "x"@
                        + spec_int_text(m@.height as int) + " Image"@));
                }
                Ok(())
            },
        }
    }
}

} // verus!
