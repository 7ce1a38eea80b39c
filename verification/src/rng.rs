//! Random sampling, and the random color policy.
use vstd::prelude::*;
use rand::Rng;
use crate::canvas::Color;
use crate::canvas::rgb_opaque;

verus! {

/// The error a randomized constructor returns when the requested
/// sampling range is empty or inverted.
#[derive(Clone, Copy, PartialEq, Eq, Structural, Debug)]
pub enum ShapeError {
    InvalidInput,
}

/// Relies on rand::thread_rng and rand::Rng::gen_range: a sample in
/// [lo, hi), uniformly distributed; gen_range panics only on an empty
/// range, which the precondition rules out.
#[verifier::external_body]
pub(crate) fn rand_range_i32(lo: i32, hi: i32) -> (r: i32)
    requires
        lo < hi,
    ensures
        lo <= r < hi,
{
    rand::thread_rng().gen_range(lo..hi)
}

/// Sample a fresh random color: opaque, with r, g, b each uniform
/// in [0, 255).
pub fn random_color() -> (c: Color)
    ensures
        rgb_opaque(c),
{
    let r = rand_range_i32(0, 255);
    let g = rand_range_i32(0, 255);
    let b = rand_range_i32(0, 255);
    Color { r: r as u8, g: g as u8, b: b as u8, a: 255 }
}

} // verus!
