//! The running game: its data, with resource access for the render loop.

use vstd::prelude::*;

use crate::dictionary::{spec_clean, spec_swap_generation, SpecDict};
use crate::error::LitError;
use crate::material::{spec_prepared, SpecMaterial};
use crate::resource::ImgTexture;
use crate::script::GameData;

verus! {

/// The game's current state.
#[derive(Debug)]
pub struct Game {
    data: GameData,
}

impl Game {
    pub closed spec fn wf(&self) -> bool {
        self.data.wf()
    }

    pub closed spec fn spec_dict(&self) -> Option<SpecDict> {
        self.data.spec_dict()
    }

    pub fn new(data: GameData) -> (g: Game)
        ensures
            g.wf() == data.wf(),
            g.spec_dict() == data.spec_dict(),
    {
        Game { data }
    }

    /// Loads a resource from the game's dictionary, building and caching
    /// it on first use.
    pub fn get_resource(&mut self, id: u32) -> (r: Result<ImgTexture, LitError>)
        requires
            old(self).wf(),
            old(self).spec_dict() is Some,
        ensures
            final(self).wf(),
            final(self).spec_dict() is Some,
            ({
                let d0 = old(self).spec_dict()->0;
                let d1 = final(self).spec_dict()->0;
                match r {
                    Ok(tex) => {
                        &&& d1.loaded == (if d0.loaded.contains(id) {
                            d0.loaded
                        } else {
                            d0.loaded.push(id)
                        })
                        &&& d1.prev_loaded == d0.prev_loaded
                        &&& d1.next_id == d0.next_id
                        &&& if d0.res.dom().contains(id) {
                            tex == d0.res[id] && d1.res == d0.res && d1.mats == d0.mats
                        } else {
                            &&& d0.mats.dom().contains(id)
                            &&& tex == (ImgTexture {
                                width: d0.mats[id].width,
                                height: d0.mats[id].height,
                            })
                            &&& d1.res == d0.res.insert(id, tex)
                            &&& d1.mats == d0.mats.insert(
                                id,
                                (if d0.mats[id].buffer is Some {
                                    d0.mats[id]
                                } else {
                                    SpecMaterial {
                                        buffer: Some(spec_prepared(d0.mats[id].draws)),
                                        ..d0.mats[id]
                                    }
                                }),
                            )
                        }
                    },
                    Err(e) => {
                        &&& e == LitError::MissingMaterial(id)
                        &&& !d0.res.dom().contains(id)
                        &&& !d0.mats.dom().contains(id)
                        &&& d1 == d0
                    },
                }
            }),
    {
        self.data.get_resource(id)
    }

    /// Evicts from the game's dictionary every resource of the previous
    /// generation that this frame did not load again, then clears the
    /// previous generation.
    pub fn clean(&mut self)
        requires
            old(self).wf(),
            old(self).spec_dict() is Some,
        ensures
            final(self).wf(),
            final(self).spec_dict() == Some(spec_clean(old(self).spec_dict()->0)),
    {
        self.data.clean()
    }

    /// Marks the frame boundary on the game's dictionary: this frame's
    /// loads become the previous generation and the next frame starts
    /// empty. Call `clean` first at each boundary.
    pub fn swap_generation(&mut self)
        requires
            old(self).wf(),
            old(self).spec_dict() is Some,
        ensures
            final(self).wf(),
            final(self).spec_dict() == Some(spec_swap_generation(old(self).spec_dict()->0)),
    {
        self.data.swap_generation()
    }
}

} // verus!
