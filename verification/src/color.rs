//! The random draw color: an RGB value whose channels are biased into the
//! upper half of the range, so a shape never draws in a near-black tone.
//! The color value itself comes from the `raster` crate; the randomness
//! comes from `rand`.

use vstd::prelude::*;

verus! {

/// The color type of the `raster` crate: four public channel fields,
/// declared so that verified code can build and inspect color values.
#[verifier::external_type_specification]
pub struct ExColor(raster::Color);

/// True when a color is bright enough for a dark background and fully
/// opaque: every channel biased into the upper half of the range.
pub open spec fn color_is_bright(c: raster::Color) -> bool {
    128 <= c.r <= 254 && 128 <= c.g <= 254 && 128 <= c.b <= 254 && c.a == 255
}

/// Relies on `rand::random`: a random value, of which nothing is promised.
pub assume_specification<T>[ rand::random::<T> ]() -> (r: T)
    where
        rand::distributions::Standard: rand::distributions::Distribution<T>,
;

/// Relies on `Clone` for `raster::Color`, a derive that copies the four
/// channel fields, so the clone equals the original.
pub assume_specification[ <raster::Color as Clone>::clone ](c: &raster::Color) -> (r:
    raster::Color)
    ensures
        r == *c,
;

/// Relies on `raster::Color::rgb`, which packs the three channels with
/// full alpha.
#[verifier::external_body]
fn rgb_color(r: u8, g: u8, b: u8) -> (c: raster::Color)
    ensures
        c.r == r,
        c.g == g,
        c.b == b,
        c.a == 255,
{
    raster::Color::rgb(r, g, b)
}

/// Folds one drawn byte into the bright channel range: whatever the byte,
/// the channel lands in `128..=254`.
pub fn fold_channel(b: u8) -> (v: u8)
    ensures
        v == (b % 127) + 128,
        128 <= v <= 254,
{
    (b % 127) + 128
}

/// One channel of a draw color: a random byte folded into `128..=254`.
pub fn random_channel() -> (v: u8)
    ensures
        128 <= v <= 254,
{
    fold_channel(rand::random::<u8>())
}

/// A fresh random draw color: three independently drawn channels, each in
/// `128..=254`, fully opaque. Each shape picks one such color per draw
/// call and paints every one of its pixels with it.
pub fn random_color() -> (c: raster::Color)
    ensures
        color_is_bright(c),
{
    let r = random_channel();
    let g = random_channel();
    let b = random_channel();
    rgb_color(r, g, b)
}

} // verus!
