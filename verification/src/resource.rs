//! Resources: the renderer-ready objects built from resolved materials.

use vstd::prelude::*;

use crate::error::LitError;
use crate::material::ImgMaterial;

verus! {

/// The kinds of resource the dictionary partitions by.
#[derive(Debug, Clone, Copy, PartialEq, Eq, Structural)]
pub enum ResourceType {
    ImgTexture,
}

/// The kinds of material a dependency descriptor may name.
#[derive(Debug, Clone, Copy, PartialEq, Eq, Structural)]
pub enum MaterialType {
    ImgMaterial,
}

/// An image texture as this core tracks it: the dimensions the renderer
/// built (or will build) the GPU object with.
#[derive(Debug, Clone, Copy, PartialEq, Eq, Structural)]
pub struct ImgTexture {
    pub width: i16,
    pub height: i16,
}

impl ImgTexture {
    /// Builds the texture for a prepared material. The material must have
    /// its derived buffer prepared; the caller ensures that first.
    pub fn load(mat: &ImgMaterial) -> (r: Result<ImgTexture, LitError>)
        requires
            mat@.buffer is Some,
        ensures
            r == Ok::<ImgTexture, LitError>(
                ImgTexture { width: mat@.width, height: mat@.height },
            ),
    {
        Ok(ImgTexture { width: mat.width(), height: mat.height() })
    }
}

} // verus!
