//! The colour of a contributor.

use vstd::prelude::*;
use crate::playlist::key_view;

verus! {

/// A colour as red, green and blue.
#[derive(Clone, Copy, Debug, PartialEq, Eq, Structural)]
pub struct Color {
    pub r: u8,
    pub g: u8,
    pub b: u8,
}

/// The red, green and blue that `random_color` draws for a seed string.
pub uninterp spec fn seeded_rgb(seed: Seq<char>) -> (u8, u8, u8);

/// The colour of the contributor with identifier `key`. A contributor
/// without an identifier has the colour of the empty seed.
pub open spec fn color_of(key: Option<Seq<char>>) -> Color {
    let rgb = seeded_rgb(
        match key {
            Some(id) => id,
            None => Seq::<char>::empty(),
        },
    );
    Color { r: rgb.0, g: rgb.1, b: rgb.2 }
}

/// Calls `random_color::RandomColor::to_rgb_array` on a generator that has
/// its default settings and `seed` as its seed.
///
/// Trusted: the three bytes that come back depend on the characters of
/// `seed` and on nothing else. With a seed set, the generator hashes the
/// string with `DefaultHasher::new()`, whose keys are fixed, and draws each
/// of hue, saturation and brightness from a `SmallRng` seeded with that
/// hash; it reads no entropy, clock or environment, and with the default
/// colour dictionary it does not panic. Which colour a seed gets is a
/// matter of the versions of `random_color`, `rand` and std that the
/// program is built with, and of the target it is built for: nothing is
/// claimed of it.
#[verifier::external_body]
fn seeded_color(seed: &str) -> (c: Color)
    ensures
        (c.r, c.g, c.b) == seeded_rgb(seed@),
{
    let rgb = random_color::RandomColor::new().seed(seed).to_rgb_array();
    Color { r: rgb[0], g: rgb[1], b: rgb[2] }
}

/// The colour of a contributor: the same identifier gives the same colour,
/// every time, and all contributors without an identifier share one colour.
pub fn contributor_color(key: &Option<String>) -> (c: Color)
    ensures
        c == color_of(key_view(*key)),
{
    match key {
        Some(id) => seeded_color(id.as_str()),
        None => {
            proof {
                reveal_strlit("");
            }
            let c = seeded_color("");
            assert(""@ =~= Seq::<char>::empty());
            c
        },
    }
}

/// Colour stability: two contributors with the same identifier have the
/// same colour.
pub proof fn color_is_stable(a: Option<Seq<char>>, b: Option<Seq<char>>)
    requires
        a == b,
    ensures
        color_of(a) == color_of(b),
{
}

} // verus!
