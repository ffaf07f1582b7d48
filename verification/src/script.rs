//! The runtime parser state: variable bindings, dependency relations,
//! color overrides and the materials awaiting resolution.

use vstd::prelude::*;

use crate::color::Color;
use crate::dictionary::{spec_clean, spec_swap_generation, ResourceDictionary, SpecDict};
use crate::draw::DrawInstruction;
use crate::error::LitError;
use crate::idmap::IdMap;
use crate::material::{spec_prepared, SpecMaterial};
use crate::resource::ImgTexture;
use crate::resource::MaterialType;
use crate::types::{spec_dtype, BytecodeObject, DataType, SpecObject};

verus! {

/// The models of an id-keyed map of objects.
pub open spec fn vars_model_of(m: Map<u32, BytecodeObject>) -> Map<u32, SpecObject> {
    Map::new(|k: u32| m.dom().contains(k), |k: u32| m[k].model())
}

/// The declared dependency lists of an id-keyed map of descriptor vectors.
pub open spec fn deps_model_of(m: Map<u32, Vec<Dependancy>>) -> Map<u32, Seq<Dependancy>> {
    Map::new(|k: u32| m.dom().contains(k), |k: u32| m[k]@)
}

/// One dependency descriptor: the kind of material depended on, and its
/// variable id.
#[derive(Debug, Clone, Copy, PartialEq, Eq, Structural)]
pub struct Dependancy {
    pub kind: MaterialType,
    pub id: u32,
}

/// The mathematical model of a parser state: variable models, declared
/// dependencies, color overrides, pending material ids, and the two fuel
/// bounds derived from the table sizes.
pub struct SpecParser {
    pub vars: Map<u32, SpecObject>,
    pub deps: Map<u32, Seq<Dependancy>>,
    pub colors: Map<u32, Map<u32, Color>>,
    pub pending: Seq<u32>,
    pub fuel: nat,
    pub dep_fuel: nat,
}

/// The state the evaluator builds up: id-keyed variable bindings, declared
/// dependency relations, per-object color override tables, and the ids of
/// materials pending resolution, in declaration order.
#[derive(Debug)]
pub struct ParserState {
    variables: IdMap<BytecodeObject>,
    dependency_relations: IdMap<Vec<Dependancy>>,
    color_ids: IdMap<IdMap<Color>>,
    img_material_ids: Vec<u32>,
}

impl ParserState {
    pub closed spec fn wf(&self) -> bool {
        &&& self.variables.wf()
        &&& self.dependency_relations.wf()
        &&& self.color_ids.wf()
        &&& forall|k: u32|
            self.color_ids@.dom().contains(k) ==> (#[trigger] self.color_ids@[k]).wf()
    }

    /// The variable bindings as values.
    pub closed spec fn vars(&self) -> Map<u32, BytecodeObject> {
        self.variables@
    }

    /// The variable bindings as models.
    pub open spec fn vars_model(&self) -> Map<u32, SpecObject> {
        vars_model_of(self.vars())
    }

    /// The number of variable bindings, which bounds any chain of
    /// invocations that does not revisit an id.
    pub closed spec fn spec_fuel(&self) -> nat {
        self.variables.num_entries()
    }

    /// One more than the number of declared dependency relations, which
    /// bounds the depth of any acyclic resolution.
    pub closed spec fn spec_dep_fuel(&self) -> nat {
        self.dependency_relations.num_entries() + 1
    }

    /// The whole state as one model.
    pub open spec fn model(&self) -> SpecParser {
        SpecParser {
            vars: self.vars_model(),
            deps: self.deps(),
            colors: self.spec_colors(),
            pending: self.spec_pending(),
            fuel: self.spec_fuel(),
            dep_fuel: self.spec_dep_fuel(),
        }
    }

    /// The declared dependency relations.
    pub closed spec fn deps(&self) -> Map<u32, Seq<Dependancy>> {
        Map::new(
            |k: u32| self.dependency_relations@.dom().contains(k),
            |k: u32| self.dependency_relations@[k]@,
        )
    }

    /// The color override tables, object id then color index.
    pub closed spec fn spec_colors(&self) -> Map<u32, Map<u32, Color>> {
        Map::new(
            |k: u32| self.color_ids@.dom().contains(k),
            |k: u32| self.color_ids@[k]@,
        )
    }

    /// The material ids pending resolution, in declaration order.
    pub closed spec fn spec_pending(&self) -> Seq<u32> {
        self.img_material_ids@
    }

    /// A fresh, empty state.
    pub fn new() -> (s: ParserState)
        ensures
            s.wf(),
            s.vars() == Map::<u32, BytecodeObject>::empty(),
            s.deps() == Map::<u32, Seq<Dependancy>>::empty(),
            s.spec_colors() == Map::<u32, Map<u32, Color>>::empty(),
            s.spec_pending() == Seq::<u32>::empty(),
            s.spec_fuel() == 0,
            s.spec_dep_fuel() == 1,
    {
        let s = ParserState {
            variables: IdMap::new(),
            dependency_relations: IdMap::new(),
            color_ids: IdMap::new(),
            img_material_ids: Vec::new(),
        };
        proof {
            assert(s.deps() =~= Map::<u32, Seq<Dependancy>>::empty());
            assert(s.spec_colors() =~= Map::<u32, Map<u32, Color>>::empty());
        }
        s
    }

    /// Binds `index` to `object`, replacing any earlier binding.
    pub fn register_variable(&mut self, index: u32, object: BytecodeObject)
        requires
            old(self).wf(),
        ensures
            final(self).wf(),
            final(self).vars() == old(self).vars().insert(index, object),
            final(self).spec_dep_fuel() == old(self).spec_dep_fuel(),
            final(self).vars_model() == old(self).vars_model().insert(index, object.model()),
            final(self).spec_fuel() == old(self).spec_fuel() + (if old(
                self,
            ).vars().dom().contains(index) {
                0int
            } else {
                1int
            }),
            final(self).deps() == old(self).deps(),
            final(self).spec_colors() == old(self).spec_colors(),
            final(self).spec_pending() == old(self).spec_pending(),
    {
        self.variables.insert(index, object);
        proof {
            assert(self.vars_model() =~= old(self).vars_model().insert(index, object.model()));
            assert(self.deps() =~= old(self).deps());
            assert(self.spec_colors() =~= old(self).spec_colors());
        }
    }

    /// The object bound to `index`, or `VariableNotFound`.
    pub fn get_variable(&self, index: u32) -> (r: Result<&BytecodeObject, LitError>)
        requires
            self.wf(),
        ensures
            match r {
                Ok(v) => self.vars().dom().contains(index) && *v == self.vars()[index],
                Err(e) => !self.vars().dom().contains(index) && e == LitError::VariableNotFound(
                    index,
                ),
            },
    {
        match self.variables.get(index) {
            Some(v) => Ok(v),
            None => Err(LitError::VariableNotFound(index)),
        }
    }

    /// The number of variable bindings.
    pub fn num_variables(&self) -> (n: usize)
        ensures
            n as nat == self.spec_fuel(),
    {
        self.variables.len()
    }

    /// Declares `index`'s dependencies, replacing any earlier declaration.
    pub fn add_dependencies(&mut self, index: u32, dependencies: Vec<Dependancy>)
        requires
            old(self).wf(),
        ensures
            final(self).wf(),
            final(self).deps() == old(self).deps().insert(index, dependencies@),
            final(self).vars() == old(self).vars(),
            final(self).spec_colors() == old(self).spec_colors(),
            final(self).spec_pending() == old(self).spec_pending(),
            final(self).spec_fuel() == old(self).spec_fuel(),
            final(self).spec_dep_fuel() == old(self).spec_dep_fuel() + (if old(
                self,
            ).deps().dom().contains(index) {
                0int
            } else {
                1int
            }),
    {
        self.dependency_relations.insert(index, dependencies);
        proof {
            assert(self.deps() =~= old(self).deps().insert(index, dependencies@));
            assert(self.spec_colors() =~= old(self).spec_colors());
        }
    }

    /// Registers a color override for `(object, index)`.
    pub fn register_color_id(&mut self, object: u32, index: u8, clr: Color)
        requires
            old(self).wf(),
        ensures
            final(self).wf(),
            final(self).spec_dep_fuel() == old(self).spec_dep_fuel(),
            final(self).spec_fuel() == old(self).spec_fuel(),
            final(self).spec_colors() == old(self).spec_colors().insert(
                object,
                (if old(self).spec_colors().dom().contains(object) {
                    old(self).spec_colors()[object]
                } else {
                    Map::<u32, Color>::empty()
                }).insert(index as u32, clr),
            ),
            final(self).vars() == old(self).vars(),
            final(self).deps() == old(self).deps(),
            final(self).spec_pending() == old(self).spec_pending(),
    {
        let mut inner = match self.color_ids.remove(object) {
            Some(m) => m,
            None => IdMap::new(),
        };
        inner.insert(index as u32, clr);
        self.color_ids.insert(object, inner);
        proof {
            assert forall|k: u32| self.color_ids@.dom().contains(k) implies (
            #[trigger] self.color_ids@[k]).wf() by {
                if k != object {
                    assert(self.color_ids@[k] == old(self).color_ids@[k]);
                }
            }
            assert(self.spec_colors() =~= old(self).spec_colors().insert(
                object,
                (if old(self).spec_colors().dom().contains(object) {
                    old(self).spec_colors()[object]
                } else {
                    Map::<u32, Color>::empty()
                }).insert(index as u32, clr),
            ));
            assert(self.deps() =~= old(self).deps());
        }
    }

    /// The override registered for `(object, index)`: its absence names
    /// whichever level of the table is missing.
    pub fn get_color(&self, object: u32, index: u8) -> (r: Result<Color, LitError>)
        requires
            self.wf(),
        ensures
            match r {
                Ok(c) => self.spec_colors().dom().contains(object)
                    && self.spec_colors()[object].dom().contains(index as u32)
                    && c == self.spec_colors()[object][index as u32],
                Err(e) => {
                    &&& !(self.spec_colors().dom().contains(object)
                        && self.spec_colors()[object].dom().contains(index as u32))
                    &&& e == if !self.spec_colors().dom().contains(object) {
                        LitError::ColorIdObjectNotFound(object)
                    } else {
                        LitError::ColorIdNotFound(object, index)
                    }
                },
            },
    {
        match self.color_ids.get(object) {
            None => Err(LitError::ColorIdObjectNotFound(object)),
            Some(inner) => match inner.get(index as u32) {
                None => Err(LitError::ColorIdNotFound(object, index)),
                Some(c) => Ok(*c),
            },
        }
    }

    /// Appends a material id to the pending list.
    pub fn add_pending_material(&mut self, id: u32)
        requires
            old(self).wf(),
        ensures
            final(self).wf(),
            final(self).spec_pending() == old(self).spec_pending().push(id),
            final(self).spec_dep_fuel() == old(self).spec_dep_fuel(),
            final(self).spec_fuel() == old(self).spec_fuel(),
            final(self).vars() == old(self).vars(),
            final(self).deps() == old(self).deps(),
            final(self).spec_colors() == old(self).spec_colors(),
    {
        self.img_material_ids.push(id);
    }

    /// Appends a pixel instruction to the material bound to `id`.
    pub fn draw_pixel_on(&mut self, id: u32, x: i16, y: i16, color: Color) -> (r: Result<
        (),
        LitError,
    >)
        requires
            old(self).wf(),
        ensures
            final(self).wf(),
            final(self).deps() == old(self).deps(),
            final(self).spec_colors() == old(self).spec_colors(),
            final(self).spec_pending() == old(self).spec_pending(),
            final(self).spec_dep_fuel() == old(self).spec_dep_fuel(),
            final(self).spec_fuel() == old(self).spec_fuel(),
            match r {
                Ok(_) => old(self).vars_model().dom().contains(id) && (old(
                    self,
                ).vars_model()[id] matches SpecObject::Material(m) && final(self).vars_model()
                    == old(self).vars_model().insert(
                    id,
                    SpecObject::Material(
                        SpecMaterial {
                            draws: m.draws.push(DrawInstruction::Pixel { x, y, color }),
                            ..m
                        },
                    ),
                )),
                Err(e) => !(old(self).vars_model().dom().contains(id) && old(
                    self,
                ).vars_model()[id] is Material) && final(self).vars_model() == old(
                    self,
                ).vars_model() && e == (if !old(self).vars_model().dom().contains(id) {
                    LitError::VariableNotFound(id)
                } else {
                    LitError::IncorrectDataType(
                        crate::types::DataType::Unknown,
                        crate::types::DataType::ImgMaterial,
                    )
                }),
            },
    {
        match self.variables.remove(id) {
            None => {
                proof {
                    assert(self.vars_model() =~= old(self).vars_model());
                }
                Err(LitError::VariableNotFound(id))
            },
            Some(obj) => match obj {
                BytecodeObject::ImgMaterial(mut m) => {
                    let res = m.draw_pixel(x, y, color);
                    self.variables.insert(id, BytecodeObject::ImgMaterial(m));
                    proof {
                        let target = old(self).vars_model().insert(
                            id,
                            SpecObject::Material(
                                SpecMaterial {
                                    draws: old(self).vars_model()[id]->Material_0.draws.push(
                                        DrawInstruction::Pixel { x, y, color },
                                    ),
                                    ..old(self).vars_model()[id]->Material_0
                                },
                            ),
                        );
                        assert(self.vars_model() =~= target);
                    }
                    match res {
                        Ok(_) => Ok(()),
                        Err(_) => Ok(()),
                    }
                },
                other => {
                    self.variables.insert(id, other);
                    proof {
                        assert(self.vars_model() =~= old(self).vars_model());
                    }
                    Err(
                        LitError::IncorrectDataType(
                            crate::types::DataType::Unknown,
                            crate::types::DataType::ImgMaterial,
                        ),
                    )
                },
            },
        }
    }

    /// Appends a rectangle instruction to the material bound to `id`.
    pub fn draw_rectangle_on(
        &mut self,
        id: u32,
        x: i16,
        y: i16,
        w: i16,
        h: i16,
        color: Color,
    ) -> (r: Result<(), LitError>)
        requires
            old(self).wf(),
        ensures
            final(self).wf(),
            final(self).deps() == old(self).deps(),
            final(self).spec_colors() == old(self).spec_colors(),
            final(self).spec_pending() == old(self).spec_pending(),
            final(self).spec_dep_fuel() == old(self).spec_dep_fuel(),
            final(self).spec_fuel() == old(self).spec_fuel(),
            match r {
                Ok(_) => old(self).vars_model().dom().contains(id) && (old(
                    self,
                ).vars_model()[id] matches SpecObject::Material(m) && final(self).vars_model()
                    == old(self).vars_model().insert(
                    id,
                    SpecObject::Material(
                        SpecMaterial {
                            draws: m.draws.push(DrawInstruction::Rectangle { x, y, w, h, color }),
                            ..m
                        },
                    ),
                )),
                Err(e) => !(old(self).vars_model().dom().contains(id) && old(
                    self,
                ).vars_model()[id] is Material) && final(self).vars_model() == old(
                    self,
                ).vars_model() && e == (if !old(self).vars_model().dom().contains(id) {
                    LitError::VariableNotFound(id)
                } else {
                    LitError::IncorrectDataType(
                        crate::types::DataType::Unknown,
                        crate::types::DataType::ImgMaterial,
                    )
                }),
            },
    {
        match self.variables.remove(id) {
            None => {
                proof {
                    assert(self.vars_model() =~= old(self).vars_model());
                }
                Err(LitError::VariableNotFound(id))
            },
            Some(obj) => match obj {
                BytecodeObject::ImgMaterial(mut m) => {
                    let res = m.draw_rectangle(x, y, w, h, color);
                    self.variables.insert(id, BytecodeObject::ImgMaterial(m));
                    proof {
                        let target = old(self).vars_model().insert(
                            id,
                            SpecObject::Material(
                                SpecMaterial {
                                    draws: old(self).vars_model()[id]->Material_0.draws.push(
                                        DrawInstruction::Rectangle { x, y, w, h, color },
                                    ),
                                    ..old(self).vars_model()[id]->Material_0
                                },
                            ),
                        );
                        assert(self.vars_model() =~= target);
                    }
                    match res {
                        Ok(_) => Ok(()),
                        Err(_) => Ok(()),
                    }
                },
                other => {
                    self.variables.insert(id, other);
                    proof {
                        assert(self.vars_model() =~= old(self).vars_model());
                    }
                    Err(
                        LitError::IncorrectDataType(
                            crate::types::DataType::Unknown,
                            crate::types::DataType::ImgMaterial,
                        ),
                    )
                },
            },
        }
    }
}

/// An empty dictionary's model.
pub open spec fn spec_empty_dict() -> SpecDict {
    SpecDict {
        next_id: 0,
        mats: Map::empty(),
        res: Map::empty(),
        loaded: Seq::empty(),
        prev_loaded: Seq::empty(),
    }
}

/// Resolving one material id, depth-first: its declared dependencies are
/// resolved first, in order; then the material is consumed from the
/// variables and inserted under the dictionary's next id. Exhausted fuel
/// reports a dependency cycle.
pub open spec fn spec_insert_material(
    vars: Map<u32, SpecObject>,
    dict: SpecDict,
    deps: Map<u32, Seq<Dependancy>>,
    id: u32,
    fuel: nat,
) -> Result<(u32, Map<u32, SpecObject>, SpecDict), LitError>
    decreases fuel, 0int,
{
    if fuel == 0 {
        Err(LitError::DependencyCycle(id))
    } else {
        let step = if deps.dom().contains(id) {
            spec_insert_deps(vars, dict, deps, deps[id], (fuel - 1) as nat)
        } else {
            Ok((vars, dict))
        };
        match step {
            Ok((vars1, dict1)) => if !vars1.dom().contains(id) {
                Err(LitError::VariableNotFound(id))
            } else {
                match vars1[id] {
                    SpecObject::Material(m) => if dict1.next_id == u32::MAX {
                        // the id space is exhausted
                        Err(LitError::Conversion)
                    } else {
                        Ok(
                            (
                                dict1.next_id,
                                vars1.remove(id),
                                SpecDict {
                                    next_id: (dict1.next_id + 1) as u32,
                                    mats: dict1.mats.insert(dict1.next_id, m),
                                    ..dict1
                                },
                            ),
                        )
                    },
                    _ => Err(
                        LitError::IncorrectDataType(spec_dtype(vars1[id]), DataType::ImgMaterial),
                    ),
                }
            },
            Err(e) => Err(e),
        }
    }
}

/// Resolving a list of dependency descriptors in order, threading the
/// variables and the dictionary through.
pub open spec fn spec_insert_deps(
    vars: Map<u32, SpecObject>,
    dict: SpecDict,
    deps: Map<u32, Seq<Dependancy>>,
    list: Seq<Dependancy>,
    fuel: nat,
) -> Result<(Map<u32, SpecObject>, SpecDict), LitError>
    decreases fuel, list.len() + 1,
{
    if list.len() == 0 {
        Ok((vars, dict))
    } else {
        match spec_insert_material(vars, dict, deps, list[0].id, fuel) {
            Ok((_, vars1, dict1)) => spec_insert_deps(vars1, dict1, deps, list.drop_first(), fuel),
            Err(e) => Err(e),
        }
    }
}

/// Resolving the pending material ids in declaration order.
pub open spec fn spec_insert_materials(
    vars: Map<u32, SpecObject>,
    dict: SpecDict,
    deps: Map<u32, Seq<Dependancy>>,
    ids: Seq<u32>,
    fuel: nat,
) -> Result<(Map<u32, SpecObject>, SpecDict), LitError>
    decreases ids,
{
    if ids.len() == 0 {
        Ok((vars, dict))
    } else {
        match spec_insert_material(vars, dict, deps, ids[0], fuel) {
            Ok((_, vars1, dict1)) => spec_insert_materials(
                vars1,
                dict1,
                deps,
                ids.drop_first(),
                fuel,
            ),
            Err(e) => Err(e),
        }
    }
}

/// What resolving a whole parser state yields: the dictionary built from
/// its pending materials, dependencies before dependents.
pub open spec fn spec_into_resource_dict(
    vars: Map<u32, SpecObject>,
    deps: Map<u32, Seq<Dependancy>>,
    pending: Seq<u32>,
    fuel: nat,
) -> Result<SpecDict, LitError> {
    match spec_insert_materials(vars, spec_empty_dict(), deps, pending, fuel) {
        Ok((_, dict)) => Ok(dict),
        Err(e) => Err(e),
    }
}

/// Resolves one material id into the dictionary, as `spec_insert_material`
/// lays out.
#[verifier::loop_isolation(false)]
fn insert_material(
    rd: &mut ResourceDictionary,
    dep_rels: &IdMap<Vec<Dependancy>>,
    variables: &mut IdMap<BytecodeObject>,
    id: u32,
    fuel: u128,
) -> (r: Result<u32, LitError>)
    requires
        old(variables).wf(),
        dep_rels.wf(),
        old(rd).wf(),
    ensures
        final(variables).wf(),
        final(rd).wf(),
        match r {
            Ok(rid) => spec_insert_material(
                vars_model_of(old(variables)@),
                old(rd)@,
                deps_model_of(dep_rels@),
                id,
                fuel as nat,
            ) matches Ok((sid, v2, d2)) && rid == sid && vars_model_of(final(variables)@) == v2
                && final(rd)@ == d2,
            Err(e) => spec_insert_material(
                vars_model_of(old(variables)@),
                old(rd)@,
                deps_model_of(dep_rels@),
                id,
                fuel as nat,
            ) == Err::<(u32, Map<u32, SpecObject>, SpecDict), LitError>(e),
        },
    decreases fuel,
{
    let ghost depsm = deps_model_of(dep_rels@);
    if fuel == 0 {
        return Err(LitError::DependencyCycle(id));
    }
    match dep_rels.get(id) {
        Some(list) => {
            let ghost vm0 = vars_model_of(variables@);
            let ghost d0 = old(rd)@;
            let n = list.len();
            let mut i: usize = 0;
            proof {
                assert(list@.subrange(0, n as int) =~= list@);
            }
            while i < n
                invariant
                    i <= n == list@.len(),
                    variables.wf(),
                    rd.wf(),
                    spec_insert_deps(vm0, d0, depsm, list@, (fuel - 1) as nat) == spec_insert_deps(
                        vars_model_of(variables@),
                        rd@,
                        depsm,
                        list@.subrange(i as int, n as int),
                        (fuel - 1) as nat,
                    ),
                decreases n - i,
            {
                let ghost suffix = list@.subrange(i as int, n as int);
                proof {
                    assert(suffix[0] == list@[i as int]);
                    assert(suffix.drop_first() =~= list@.subrange(i as int + 1, n as int));
                }
                let dep = list[i];
                match dep.kind {
                    MaterialType::ImgMaterial => {
                        match insert_material(rd, dep_rels, variables, dep.id, fuel - 1) {
                            Ok(_) => {
                            },
                            Err(e) => {
                                return Err(e);
                            },
                        }
                    },
                }
                i = i + 1;
            }
            proof {
                assert(list@.subrange(n as int, n as int) =~= Seq::<Dependancy>::empty());
            }
        },
        None => {
        },
    }
    let ghost pre_vars = variables@;
    match variables.remove(id) {
        None => Err(LitError::VariableNotFound(id)),
        Some(obj) => match obj {
            BytecodeObject::ImgMaterial(m) => {
                if rd.next_id() == u32::MAX {
                    Err(LitError::Conversion)
                } else {
                    let rid = rd.add_mat(m);
                    proof {
                        assert(vars_model_of(variables@) =~= vars_model_of(pre_vars).remove(id));
                    }
                    Ok(rid)
                }
            },
            other => Err(
                LitError::IncorrectDataType(other.dtype_shallow(), DataType::ImgMaterial),
            ),
        },
    }
}


/// Resolves the pending ids in order, as `spec_insert_materials` lays out.
#[verifier::loop_isolation(false)]
fn insert_materials(
    rd: &mut ResourceDictionary,
    dep_rels: &IdMap<Vec<Dependancy>>,
    variables: &mut IdMap<BytecodeObject>,
    ids: &Vec<u32>,
    fuel: u128,
) -> (r: Result<(), LitError>)
    requires
        old(variables).wf(),
        dep_rels.wf(),
        old(rd).wf(),
    ensures
        final(variables).wf(),
        final(rd).wf(),
        match r {
            Ok(_) => spec_insert_materials(
                vars_model_of(old(variables)@),
                old(rd)@,
                deps_model_of(dep_rels@),
                ids@,
                fuel as nat,
            ) matches Ok((v2, d2)) && vars_model_of(final(variables)@) == v2 && final(rd)@ == d2,
            Err(e) => spec_insert_materials(
                vars_model_of(old(variables)@),
                old(rd)@,
                deps_model_of(dep_rels@),
                ids@,
                fuel as nat,
            ) == Err::<(Map<u32, SpecObject>, SpecDict), LitError>(e),
        },
{
    let ghost vm0 = vars_model_of(variables@);
    let ghost d0 = rd@;
    let ghost depsm = deps_model_of(dep_rels@);
    let n = ids.len();
    let mut i: usize = 0;
    proof {
        assert(ids@.subrange(0, n as int) =~= ids@);
    }
    while i < n
        invariant
            i <= n == ids@.len(),
            variables.wf(),
            rd.wf(),
            spec_insert_materials(vm0, d0, depsm, ids@, fuel as nat) == spec_insert_materials(
                vars_model_of(variables@),
                rd@,
                depsm,
                ids@.subrange(i as int, n as int),
                fuel as nat,
            ),
        decreases n - i,
    {
        let ghost suffix = ids@.subrange(i as int, n as int);
        proof {
            assert(suffix[0] == ids@[i as int]);
            assert(suffix.drop_first() =~= ids@.subrange(i as int + 1, n as int));
        }
        match insert_material(rd, dep_rels, variables, ids[i], fuel) {
            Ok(_) => {
            },
            Err(e) => {
                return Err(e);
            },
        }
        i = i + 1;
    }
    proof {
        assert(ids@.subrange(n as int, n as int) =~= Seq::<u32>::empty());
    }
    Ok(())
}

impl ParserState {
    /// Resolves the pending materials into a fresh resource dictionary, in
    /// declaration order, each material after its declared dependencies. A
    /// dependency cycle is reported as `DependencyCycle`.
    pub fn into_resource_dict(self) -> (r: Result<ResourceDictionary, LitError>)
        requires
            self.wf(),
        ensures
            match r {
                Ok(rd) => rd.wf() && spec_into_resource_dict(
                    self.vars_model(),
                    self.deps(),
                    self.spec_pending(),
                    self.spec_dep_fuel(),
                ) == Ok::<SpecDict, LitError>(rd@),
                Err(e) => spec_into_resource_dict(
                    self.vars_model(),
                    self.deps(),
                    self.spec_pending(),
                    self.spec_dep_fuel(),
                ) == Err::<SpecDict, LitError>(e),
            },
    {
        let ParserState { mut variables, dependency_relations, img_material_ids, .. } = self;
        let entries = dependency_relations.len();
        let fuel = entries as u128 + 1;
        let mut rd = ResourceDictionary::new();
        proof {
            assert(vars_model_of(variables@) =~= self.vars_model());
            assert(deps_model_of(dependency_relations@) =~= self.deps());
        }
        match insert_materials(&mut rd, &dependency_relations, &mut variables, &img_material_ids, fuel) {
            Ok(_) => Ok(rd),
            Err(e) => Err(e),
        }
    }
}

/// The game as built from a bytecode stream: its display name, the lines
/// its log statements produced, and the resource dictionary resolved from
/// its materials.
#[derive(Debug)]
pub struct GameData {
    name: String,
    log: Vec<String>,
    resource_dict: Option<ResourceDictionary>,
}

impl GameData {
    pub closed spec fn wf(&self) -> bool {
        match self.resource_dict {
            Some(rd) => rd.wf(),
            None => true,
        }
    }

    /// The display name.
    pub closed spec fn spec_name(&self) -> Seq<char> {
        self.name@
    }

    /// The log lines emitted so far, oldest first.
    pub closed spec fn spec_log(&self) -> Seq<Seq<char>> {
        Seq::new(self.log@.len(), |i: int| self.log@[i]@)
    }

    /// The resolved resource dictionary, once attached.
    pub closed spec fn spec_dict(&self) -> Option<SpecDict> {
        match self.resource_dict {
            Some(rd) => Some(rd@),
            None => None,
        }
    }

    /// A fresh game: named "Unnamed", nothing logged, nothing resolved.
    pub fn new() -> (g: GameData)
        ensures
            g.wf(),
            g.spec_name() == "Unnamed"@,
            g.spec_log() == Seq::<Seq<char>>::empty(),
            g.spec_dict() is None,
    {
        let g = GameData { name: String::from_str("Unnamed"), log: Vec::new(), resource_dict: None };
        proof {
            assert(g.spec_log() =~= Seq::<Seq<char>>::empty());
        }
        g
    }

    /// The display name.
    pub fn name(&self) -> (r: &str)
        ensures
            r@ == self.spec_name(),
    {
        self.name.as_str()
    }

    /// Replaces the display name.
    pub fn set_name(&mut self, name: String)
        ensures
            final(self).wf() == old(self).wf(),
            final(self).spec_name() == name@,
            final(self).spec_log() == old(self).spec_log(),
            final(self).spec_dict() == old(self).spec_dict(),
    {
        self.name = name;
        proof {
            assert(self.spec_log() =~= old(self).spec_log());
        }
    }

    /// Appends one line to the log.
    pub fn push_log(&mut self, line: String)
        ensures
            final(self).wf() == old(self).wf(),
            final(self).spec_name() == old(self).spec_name(),
            final(self).spec_log() == old(self).spec_log().push(line@),
            final(self).spec_dict() == old(self).spec_dict(),
    {
        self.log.push(line);
        proof {
            assert(self.spec_log() =~= old(self).spec_log().push(line@));
        }
    }

    /// The log lines.
    pub fn log(&self) -> (r: &Vec<String>)
        ensures
            r@.len() == self.spec_log().len(),
            forall|i: int| 0 <= i < r@.len() ==> (#[trigger] r@[i])@ == self.spec_log()[i],
    {
        &self.log
    }

    /// Attaches the resolved resource dictionary.
    pub fn attach_resource_dict(&mut self, rd: ResourceDictionary)
        requires
            rd.wf(),
        ensures
            final(self).wf(),
            final(self).spec_name() == old(self).spec_name(),
            final(self).spec_log() == old(self).spec_log(),
            final(self).spec_dict() == Some(rd@),
    {
        self.resource_dict = Some(rd);
        proof {
            assert(self.spec_log() =~= old(self).spec_log());
        }
    }

    /// Loads a resource from the attached dictionary, building and caching
    /// it on first use.
    pub fn get_resource(&mut self, id: u32) -> (r: Result<ImgTexture, LitError>)
        requires
            old(self).wf(),
            old(self).spec_dict() is Some,
        ensures
            final(self).wf(),
            final(self).spec_name() == old(self).spec_name(),
            final(self).spec_log() == old(self).spec_log(),
            final(self).spec_dict() is Some,
            ({
                let d0 = old(self).spec_dict()->0;
                let d1 = final(self).spec_dict()->0;
                match r {
                    Ok(tex) => {
                        &&& d1.loaded == (if d0.loaded.contains(id) {
                            d0.loaded
                        } else {
                            d0.loaded.push(id)
                        })
                        &&& d1.prev_loaded == d0.prev_loaded
                        &&& d1.next_id == d0.next_id
                        &&& if d0.res.dom().contains(id) {
                            tex == d0.res[id] && d1.res == d0.res && d1.mats == d0.mats
                        } else {
                            &&& d0.mats.dom().contains(id)
                            &&& tex == (ImgTexture {
                                width: d0.mats[id].width,
                                height: d0.mats[id].height,
                            })
                            &&& d1.res == d0.res.insert(id, tex)
                            &&& d1.mats == d0.mats.insert(
                                id,
                                (if d0.mats[id].buffer is Some {
                                    d0.mats[id]
                                } else {
                                    SpecMaterial {
                                        buffer: Some(spec_prepared(d0.mats[id].draws)),
                                        ..d0.mats[id]
                                    }
                                }),
                            )
                        }
                    },
                    Err(e) => {
                        &&& e == LitError::MissingMaterial(id)
                        &&& !d0.res.dom().contains(id)
                        &&& !d0.mats.dom().contains(id)
                        &&& d1 == d0
                    },
                }
            }),
    {
        let dict = match &mut self.resource_dict {
            Some(d) => d,
            None => {
                // unreachable: a dictionary is attached by the precondition
                return Err(LitError::MissingMaterial(id));
            },
        };
        dict.load_res(id)
    }

    /// Evicts from the attached dictionary every resource of the previous
    /// generation that this frame did not load again, then clears the
    /// previous generation.
    pub fn clean(&mut self)
        requires
            old(self).wf(),
            old(self).spec_dict() is Some,
        ensures
            final(self).wf(),
            final(self).spec_name() == old(self).spec_name(),
            final(self).spec_log() == old(self).spec_log(),
            final(self).spec_dict() == Some(spec_clean(old(self).spec_dict()->0)),
    {
        match &mut self.resource_dict {
            Some(d) => d.clean(),
            None => {
                // unreachable: a dictionary is attached by the precondition
            },
        }
    }

    /// Marks the frame boundary on the attached dictionary: this frame's
    /// loads become the previous generation and the next frame starts
    /// empty. Call `clean` first at each boundary.
    pub fn swap_generation(&mut self)
        requires
            old(self).wf(),
            old(self).spec_dict() is Some,
        ensures
            final(self).wf(),
            final(self).spec_name() == old(self).spec_name(),
            final(self).spec_log() == old(self).spec_log(),
            final(self).spec_dict() == Some(spec_swap_generation(old(self).spec_dict()->0)),
    {
        match &mut self.resource_dict {
            Some(d) => d.swap_generation(),
            None => {
                // unreachable: a dictionary is attached by the precondition
            },
        }
    }
}

} // verus!
