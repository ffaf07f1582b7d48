//! The resource dictionary: a generational cache of resources built from
//! resolved materials. Ids are handed out in resolution order; a resource
//! left unused for two consecutive frames is evicted.

use vstd::prelude::*;

use crate::error::LitError;
use crate::idmap::IdMap;
use crate::material::{spec_prepared, ImgMaterial, SpecMaterial};
use crate::resource::ImgTexture;

verus! {

/// The mathematical model of a resource dictionary.
pub struct SpecDict {
    pub next_id: u32,
    pub mats: Map<u32, SpecMaterial>,
    pub res: Map<u32, ImgTexture>,
    pub loaded: Seq<u32>,
    pub prev_loaded: Seq<u32>,
}

/// A frame boundary's generation swap: this frame's loads become the
/// previous generation, and the new frame starts empty.
pub open spec fn spec_swap_generation(d: SpecDict) -> SpecDict {
    SpecDict { loaded: Seq::empty(), prev_loaded: d.loaded, ..d }
}

/// A frame boundary's sweep: every resource of the previous generation
/// that this frame did not load again is evicted, and the previous
/// generation is cleared.
pub open spec fn spec_clean(d: SpecDict) -> SpecDict {
    SpecDict {
        res: Map::new(
            |k: u32| d.res.dom().contains(k) && (d.prev_loaded.contains(k)
                ==> d.loaded.contains(k)),
            |k: u32| d.res[k],
        ),
        prev_loaded: Seq::empty(),
        ..d
    }
}

/// The generational cache: materials and the resources built from them,
/// partitioned by type, plus the ids loaded this frame and the previous
/// one.
#[derive(Debug)]
pub struct ResourceDictionary {
    next_id: u32,
    mat_img: IdMap<ImgMaterial>,
    res_img: IdMap<ImgTexture>,
    loaded_ids: Vec<u32>,
    prev_loaded_ids: Vec<u32>,
}

/// Whether `v` holds `id`.
fn contains_id(v: &Vec<u32>, id: u32) -> (r: bool)
    ensures
        r == v@.contains(id),
{
    let mut i: usize = 0;
    let n = v.len();
    while i < n
        invariant
            i <= n == v@.len(),
            forall|j: int| 0 <= j < i ==> v@[j] != id,
        decreases n - i,
    {
        if v[i] == id {
            return true;
        }
        i = i + 1;
    }
    false
}

impl ResourceDictionary {
    pub closed spec fn wf(&self) -> bool {
        &&& self.mat_img.wf()
        &&& self.res_img.wf()
    }

    /// An empty dictionary, ids starting at zero.
    pub fn new() -> (d: ResourceDictionary)
        ensures
            d.wf(),
            d@ == (SpecDict {
                next_id: 0,
                mats: Map::empty(),
                res: Map::empty(),
                loaded: Seq::empty(),
                prev_loaded: Seq::empty(),
            }),
    {
        let d = ResourceDictionary {
            next_id: 0,
            mat_img: IdMap::new(),
            res_img: IdMap::new(),
            loaded_ids: Vec::new(),
            prev_loaded_ids: Vec::new(),
        };
        proof {
            assert(d.mats_model() =~= Map::<u32, SpecMaterial>::empty());
        }
        d
    }

    /// The materials as models.
    pub closed spec fn mats_model(&self) -> Map<u32, SpecMaterial> {
        Map::new(
            |k: u32| self.mat_img@.dom().contains(k),
            |k: u32| self.mat_img@[k]@,
        )
    }

    /// Inserts a resolved material under the next id.
    pub fn add_mat(&mut self, item: ImgMaterial) -> (id: u32)
        requires
            old(self).wf(),
            old(self)@.next_id < u32::MAX,
        ensures
            final(self).wf(),
            id == old(self)@.next_id,
            final(self)@ == (SpecDict {
                next_id: (old(self)@.next_id + 1) as u32,
                mats: old(self)@.mats.insert(id, item@),
                ..old(self)@
            }),
    {
        let id = self.next_id;
        self.next_id = self.next_id + 1;
        self.mat_img.insert(id, item);
        proof {
            assert(self.mats_model() =~= old(self).mats_model().insert(id, item@));
        }
        id
    }

    /// Inserts an already-built resource under the next id.
    pub fn add_res(&mut self, item: ImgTexture) -> (id: u32)
        requires
            old(self).wf(),
            old(self)@.next_id < u32::MAX,
        ensures
            final(self).wf(),
            id == old(self)@.next_id,
            final(self)@ == (SpecDict {
                next_id: (old(self)@.next_id + 1) as u32,
                res: old(self)@.res.insert(id, item),
                ..old(self)@
            }),
    {
        let id = self.next_id;
        self.next_id = self.next_id + 1;
        self.res_img.insert(id, item);
        id
    }

    /// The id that will be assigned to the next inserted item.
    pub fn next_id(&self) -> (r: u32)
        ensures
            r == self@.next_id,
    {
        self.next_id
    }

    /// The image-resource partition.
    pub fn res_img_subdict(&self) -> (r: &IdMap<ImgTexture>)
        ensures
            r@ == self@.res,
    {
        &self.res_img
    }

    /// The built resource under `id`, if any.
    pub fn get_res(&self, id: u32) -> (r: Option<&ImgTexture>)
        requires
            self.wf(),
        ensures
            match r {
                Some(t) => self@.res.dom().contains(id) && *t == self@.res[id],
                None => !self@.res.dom().contains(id),
            },
    {
        self.res_img.get(id)
    }

    /// Loads the resource under `id`: builds and caches it from its
    /// prepared material if this is its first use, and marks it loaded
    /// this frame either way.
    pub fn load_res(&mut self, id: u32) -> (r: Result<ImgTexture, LitError>)
        requires
            old(self).wf(),
        ensures
            final(self).wf(),
            match r {
                Ok(tex) => {
                    &&& final(self)@.loaded == (if old(self)@.loaded.contains(id) {
                        old(self)@.loaded
                    } else {
                        old(self)@.loaded.push(id)
                    })
                    &&& final(self)@.prev_loaded == old(self)@.prev_loaded
                    &&& final(self)@.next_id == old(self)@.next_id
                    &&& if old(self)@.res.dom().contains(id) {
                        &&& tex == old(self)@.res[id]
                        &&& final(self)@.res == old(self)@.res
                        &&& final(self)@.mats == old(self)@.mats
                    } else {
                        &&& old(self)@.mats.dom().contains(id)
                        &&& tex == (ImgTexture {
                            width: old(self)@.mats[id].width,
                            height: old(self)@.mats[id].height,
                        })
                        &&& final(self)@.res == old(self)@.res.insert(id, tex)
                        &&& final(self)@.mats == old(self)@.mats.insert(
                            id,
                            (if old(self)@.mats[id].buffer is Some {
                                old(self)@.mats[id]
                            } else {
                                SpecMaterial {
                                    buffer: Some(spec_prepared(old(self)@.mats[id].draws)),
                                    ..old(self)@.mats[id]
                                }
                            }),
                        )
                    }
                },
                Err(e) => {
                    &&& e == LitError::MissingMaterial(id)
                    &&& !old(self)@.res.dom().contains(id)
                    &&& !old(self)@.mats.dom().contains(id)
                    &&& final(self)@ == old(self)@
                },
            },
    {
        let cached = match self.res_img.get(id) {
            Some(t) => Some(*t),
            None => None,
        };
        let tex = match cached {
            Some(t) => t,
            None => {
                let mut mat = match self.mat_img.remove(id) {
                    Some(m) => m,
                    None => {
                        proof {
                            assert(self.mats_model() =~= old(self).mats_model());
                        }
                        return Err(LitError::MissingMaterial(id));
                    },
                };
                let _ = mat.prepare();
                let tex = match ImgTexture::load(&mat) {
                    Ok(t) => t,
                    Err(_) => {
                        // `load` of a prepared material cannot fail
                        ImgTexture { width: mat.width(), height: mat.height() }
                    },
                };
                self.mat_img.insert(id, mat);
                self.res_img.insert(id, tex);
                proof {
                    assert(self.mats_model() =~= old(self).mats_model().insert(
                        id,
                        (if old(self).mats_model()[id].buffer is Some {
                            old(self).mats_model()[id]
                        } else {
                            SpecMaterial {
                                buffer: Some(spec_prepared(old(self).mats_model()[id].draws)),
                                ..old(self).mats_model()[id]
                            }
                        }),
                    ));
                }
                tex
            },
        };
        if !contains_id(&self.loaded_ids, id) {
            self.loaded_ids.push(id);
        }
        proof {
            if old(self).mats_model().dom().contains(id) && !old(self).res_img@.dom().contains(id) {
                assert(self.mats_model()[id].width == old(self).mats_model()[id].width);
            }
        }
        Ok(tex)
    }

    /// Moves this frame's loads into the previous generation and starts
    /// the next frame empty. Call `clean` first at each frame boundary.
    pub fn swap_generation(&mut self)
        requires
            old(self).wf(),
        ensures
            final(self).wf(),
            final(self)@ == spec_swap_generation(old(self)@),
    {
        self.prev_loaded_ids.clear();
        self.prev_loaded_ids.append(&mut self.loaded_ids);
        proof {
            assert(self.prev_loaded_ids@ =~= old(self).loaded_ids@);
            assert(self.loaded_ids@ =~= Seq::<u32>::empty());
            assert(self.mats_model() =~= old(self).mats_model());
        }
    }

    /// Evicts every resource of the previous generation that this frame
    /// did not load again, then clears the previous generation.
    #[verifier::loop_isolation(false)]
    pub fn clean(&mut self)
        requires
            old(self).wf(),
        ensures
            final(self).wf(),
            final(self)@ == spec_clean(old(self)@),
    {
        let n = self.prev_loaded_ids.len();
        let mut i: usize = 0;
        while i < n
            invariant
                i <= n,
                self.next_id == old(self).next_id,
                self.mat_img == old(self).mat_img,
                self.loaded_ids@ == old(self).loaded_ids@,
                self.prev_loaded_ids@ == old(self).prev_loaded_ids@,
                self.res_img.wf(),
                self.res_img@ =~= Map::<u32, ImgTexture>::new(
                    |k: u32| old(self).res_img@.dom().contains(k) && ((exists|j: int|
                        0 <= j < i && old(self).prev_loaded_ids@[j] == k)
                        ==> old(self).loaded_ids@.contains(k)),
                    |k: u32| old(self).res_img@[k],
                ),
            decreases n - i,
        {
            let id = self.prev_loaded_ids[i];
            if !contains_id(&self.loaded_ids, id) {
                let _ = self.res_img.remove(id);
            }
            proof {
                assert(self.res_img@ =~= Map::<u32, ImgTexture>::new(
                    |k: u32| old(self).res_img@.dom().contains(k) && ((exists|j: int|
                        0 <= j < i + 1 && old(self).prev_loaded_ids@[j] == k)
                        ==> old(self).loaded_ids@.contains(k)),
                    |k: u32| old(self).res_img@[k],
                ));
            }
            i = i + 1;
        }
        self.prev_loaded_ids = Vec::new();
        proof {
            assert(self@.res =~= spec_clean(old(self)@).res);
            assert(self@.prev_loaded =~= Seq::<u32>::empty());
        }
    }
}

impl View for ResourceDictionary {
    type V = SpecDict;

    closed spec fn view(&self) -> SpecDict {
        SpecDict {
            next_id: self.next_id,
            mats: self.mats_model(),
            res: self.res_img@,
            loaded: self.loaded_ids@,
            prev_loaded: self.prev_loaded_ids@,
        }
    }
}

} // verus!
