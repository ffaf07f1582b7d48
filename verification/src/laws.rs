//! The library's laws: properties that relate the compiler, the codec, the
//! resolver and the cache across function boundaries, proved once and for
//! all inputs.

use vstd::prelude::*;

use crate::dictionary::{spec_clean, spec_swap_generation, SpecDict};
use crate::error::LitError;
use crate::literals::{spec_denote, spec_literal_object};
use crate::resource::MaterialType;
use crate::script::{spec_insert_material, spec_into_resource_dict, Dependancy};
use crate::token::SpecToken;
use crate::types::SpecObject;
use crate::wire::{encodable_seq, lemma_roundtrip_seq_at, spec_decode_n, spec_encode_seq};

verus! {

/// Everything a statement tail denotes is encodable: the encoder enforces
/// the one-byte length limits as it goes.
pub proof fn lemma_denote_encodable(ts: Seq<SpecToken>, vars: Map<Seq<char>, u32>)
    ensures
        spec_denote(ts, vars) matches Ok(objs) ==> encodable_seq(objs),
    decreases ts,
{
    reveal_with_fuel(encodable_seq, 3);
    if ts.len() > 0 && spec_denote(ts, vars) is Ok {
        let objs = spec_denote(ts, vars)->Ok_0;
        match ts[0] {
            SpecToken::Literal(text) => {
                let o = spec_literal_object(text)->Ok_0;
                let rest = spec_denote(ts.drop_first(), vars)->Ok_0;
                lemma_denote_encodable(ts.drop_first(), vars);
                assert(objs == seq![o] + rest);
                assert(objs[0] == o);
                assert(objs.drop_first() =~= rest);
            },
            SpecToken::Punctuation(c) => {
                let rest = spec_denote(ts.subrange(2, ts.len() as int), vars)->Ok_0;
                lemma_denote_encodable(ts.subrange(2, ts.len() as int), vars);
                assert(objs[0] == SpecObject::Var(vars[ts[1]->Identifier_0]));
                assert(objs.drop_first() =~= rest);
            },
            SpecToken::Group(inner, _) => {
                let elems = spec_denote(inner, vars)->Ok_0;
                lemma_denote_encodable(inner, vars);
                let rest = spec_denote(ts.drop_first(), vars)->Ok_0;
                lemma_denote_encodable(ts.drop_first(), vars);
                assert(objs[0] == SpecObject::Tuple(elems));
                assert(objs.drop_first() =~= rest);
            },
            SpecToken::Identifier(_) => {
            },
        }
    }
}

/// Round trip: the operand bytes a statement tail compiles to decode back
/// to exactly the values it denotes, consuming exactly those bytes.
pub proof fn lemma_operands_round_trip(ts: Seq<SpecToken>, vars: Map<Seq<char>, u32>)
    requires
        spec_denote(ts, vars) is Ok,
    ensures
        ({
            let objs = spec_denote(ts, vars)->Ok_0;
            spec_decode_n(spec_encode_seq(objs), 0, objs.len() as int) == Ok::<
                (Seq<SpecObject>, int),
                LitError,
            >((objs, spec_encode_seq(objs).len() as int))
        }),
{
    let objs = spec_denote(ts, vars)->Ok_0;
    lemma_denote_encodable(ts, vars);
    let enc = spec_encode_seq(objs);
    assert(enc.subrange(0, enc.len() as int) =~= enc);
    lemma_roundtrip_seq_at(objs, enc, 0);
}

/// Dependency order: with material `a` depending on `b` depending on `c`
/// and no cycle, resolving `a` assigns the dictionary ids in the order
/// `c`, `b`, `a`.
pub proof fn lemma_dependency_order(
    vars: Map<u32, SpecObject>,
    deps: Map<u32, Seq<Dependancy>>,
    a: u32,
    b: u32,
    c: u32,
    ma: crate::material::SpecMaterial,
    mb: crate::material::SpecMaterial,
    mc: crate::material::SpecMaterial,
    fuel: nat,
)
    requires
        a != b && b != c && a != c,
        vars.dom().contains(a) && vars[a] == SpecObject::Material(ma),
        vars.dom().contains(b) && vars[b] == SpecObject::Material(mb),
        vars.dom().contains(c) && vars[c] == SpecObject::Material(mc),
        deps.dom().contains(a) && deps[a] == seq![
            Dependancy { kind: MaterialType::ImgMaterial, id: b },
        ],
        deps.dom().contains(b) && deps[b] == seq![
            Dependancy { kind: MaterialType::ImgMaterial, id: c },
        ],
        !deps.dom().contains(c),
        fuel >= 3,
    ensures
        spec_into_resource_dict(vars, deps, seq![a], fuel) matches Ok(dict) && {
            &&& dict.next_id == 3
            &&& dict.mats.dom().contains(0) && dict.mats[0] == mc
            &&& dict.mats.dom().contains(1) && dict.mats[1] == mb
            &&& dict.mats.dom().contains(2) && dict.mats[2] == ma
        },
{
    reveal_with_fuel(crate::script::spec_insert_material, 5);
    reveal_with_fuel(crate::script::spec_insert_deps, 5);
    reveal_with_fuel(crate::script::spec_insert_materials, 3);
    let d0 = crate::script::spec_empty_dict();
    assert(deps[b][0].id == c);
    assert(deps[a][0].id == b);
    assert(deps[b].drop_first() =~= Seq::<Dependancy>::empty());
    assert(deps[a].drop_first() =~= Seq::<Dependancy>::empty());
    assert(seq![a].drop_first() =~= Seq::<u32>::empty());
    let rc = spec_insert_material(vars, d0, deps, c, (fuel - 2) as nat);
    assert(rc matches Ok((rid, v1, d1)) && rid == 0 && v1 == vars.remove(c) && d1.next_id == 1
        && d1.mats == d0.mats.insert(0, mc));
    let rb = spec_insert_material(vars, d0, deps, b, (fuel - 1) as nat);
    assert(rb is Ok);
    let (ridb, vb, db) = rb->Ok_0;
    assert(ridb == 1 && vb == vars.remove(c).remove(b) && db.next_id == 2 && db.mats
        == d0.mats.insert(0, mc).insert(1, mb));
    let ra = spec_insert_material(vars, d0, deps, a, fuel);
    assert(ra is Ok);
    let (rida, va, da) = ra->Ok_0;
    assert(vars.remove(c).remove(b).dom().contains(a));
    assert(vars.remove(c).remove(b)[a] == SpecObject::Material(ma));
    assert(rida == 2 && da.next_id == 3 && da.mats == d0.mats.insert(0, mc).insert(1, mb).insert(
        2,
        ma,
    ));
}

/// Generational grace and eviction: a resource loaded this frame survives
/// the coming frame boundary untouched, and is evicted at the boundary
/// after a frame that never loads it.
pub proof fn lemma_generational_eviction(d: SpecDict, x: u32)
    requires
        d.res.dom().contains(x),
        d.loaded.contains(x),
    ensures
        ({
            let after_first = spec_swap_generation(spec_clean(d));
            let after_second = spec_swap_generation(spec_clean(after_first));
            &&& after_first.res.dom().contains(x) && after_first.res[x] == d.res[x]
            &&& !after_second.res.dom().contains(x)
        }),
{
    let after_first = spec_swap_generation(spec_clean(d));
    assert(after_first.res.dom().contains(x));
    assert(after_first.prev_loaded.contains(x));
    assert(!after_first.loaded.contains(x));
    let cleaned = spec_clean(after_first);
    assert(!cleaned.res.dom().contains(x));
}

/// A dependency cycle is reported: resolving either side of a two-material
/// cycle always fails with a `DependencyCycle` error naming one of them,
/// whatever fuel the resolution starts with.
pub proof fn lemma_dependency_cycle(
    vars: Map<u32, SpecObject>,
    deps: Map<u32, Seq<Dependancy>>,
    dict: SpecDict,
    a: u32,
    b: u32,
    fuel: nat,
)
    requires
        deps.dom().contains(a) && deps[a] == seq![
            Dependancy { kind: MaterialType::ImgMaterial, id: b },
        ],
        deps.dom().contains(b) && deps[b] == seq![
            Dependancy { kind: MaterialType::ImgMaterial, id: a },
        ],
    ensures
        spec_insert_material(vars, dict, deps, a, fuel) == Err::<
            (u32, Map<u32, SpecObject>, SpecDict),
            LitError,
        >(LitError::DependencyCycle(a)) || spec_insert_material(vars, dict, deps, a, fuel)
            == Err::<(u32, Map<u32, SpecObject>, SpecDict), LitError>(
            LitError::DependencyCycle(b),
        ),
    decreases fuel,
{
    if fuel != 0 {
        assert(deps[a][0].id == b);
        lemma_dependency_cycle(vars, deps, dict, b, a, (fuel - 1) as nat);
    }
}

/// The cycle report reaches the public resolution entry: with a
/// two-material cycle declared, resolving any pending list that starts on
/// one side of it fails with a `DependencyCycle` error naming one of the
/// two, whatever fuel the state carries.
pub proof fn lemma_dependency_cycle_reported(
    vars: Map<u32, SpecObject>,
    deps: Map<u32, Seq<Dependancy>>,
    pending: Seq<u32>,
    a: u32,
    b: u32,
    fuel: nat,
)
    requires
        deps.dom().contains(a) && deps[a] == seq![
            Dependancy { kind: MaterialType::ImgMaterial, id: b },
        ],
        deps.dom().contains(b) && deps[b] == seq![
            Dependancy { kind: MaterialType::ImgMaterial, id: a },
        ],
        pending.len() > 0 && pending[0] == a,
    ensures
        spec_into_resource_dict(vars, deps, pending, fuel) matches Err(e) && (e
            == LitError::DependencyCycle(a) || e == LitError::DependencyCycle(b)),
{
    let d0 = crate::script::spec_empty_dict();
    lemma_dependency_cycle(vars, deps, d0, a, b, fuel);
}

} // verus!
