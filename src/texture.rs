//! How image textures are read: the filter and the handling of coordinates
//! outside the image.

use vstd::prelude::*;

verus! {

/// How a texture value is taken from the pixels around a coordinate.
#[derive(Clone, Copy, Debug, PartialEq, Eq)]
pub enum Sampler {
    Nearest,
    Bilinear,
    Bicubic,
}

/// What a coordinate outside `[0, 1]` reads.
#[derive(Clone, Copy, Debug, PartialEq, Eq)]
pub enum WrapMode {
    Clamp,
    Repeat,
    Mirror,
}

/// Accepts the path of a high dynamic range image; loading is left to the
/// environment's constructor, so nothing is read here.
pub fn hdr_image_loader(image_path: String) {
}

} // verus!
