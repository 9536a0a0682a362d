//! Render configuration.
//!
//! The aspect ratio is carried as an exact rational (numerator over
//! denominator) so that the derived image height is a plain integer
//! computation: `height = width * denominator / numerator`, rounded down.

use vstd::prelude::*;

verus! {

/// Plain configuration of one render invocation.
#[derive(Clone, Copy, Debug, PartialEq, Eq, Structural)]
pub struct RaytracerParams {
    /// Numerator of the width-to-height aspect ratio.
    pub aspect_numer: u32,
    /// Denominator of the width-to-height aspect ratio.
    pub aspect_denom: u32,
    /// Output image width in pixels.
    pub image_width: u32,
    /// Output image height in pixels.
    pub image_height: u32,
    /// Number of stochastic samples accumulated per pixel.
    pub samples_per_pixel: u32,
    /// Maximum recursion depth of one light path.
    pub max_depth: u32,
}

/// The image height that a width and an aspect ratio prescribe.
pub open spec fn derived_height(width: u32, aspect_numer: u32, aspect_denom: u32) -> int
    recommends
        aspect_numer > 0,
{
    width * aspect_denom / aspect_numer as int
}

/// A parameter set whose height agrees with its width and aspect ratio.
pub open spec fn aspect_consistent(p: RaytracerParams) -> bool {
    &&& p.aspect_numer > 0
    &&& p.image_height == derived_height(p.image_width, p.aspect_numer, p.aspect_denom)
}

/// The example configuration: a 3:2 image, 320 pixels wide, 500 samples per
/// pixel, paths cut off at depth 50.
pub fn example_params() -> (p: RaytracerParams)
    ensures
        p == (RaytracerParams {
            aspect_numer: 3,
            aspect_denom: 2,
            image_width: 320,
            image_height: 213,
            samples_per_pixel: 500,
            max_depth: 50,
        }),
        aspect_consistent(p),
{
    let aspect_numer: u32 = 3;
    let aspect_denom: u32 = 2;
    let image_width: u32 = 320;

    RaytracerParams {
        aspect_numer,
        aspect_denom,
        image_width,
        image_height: ((image_width as u64 * aspect_denom as u64) / aspect_numer as u64) as u32,
        samples_per_pixel: 500,
        max_depth: 50,
    }
}

} // verus!
