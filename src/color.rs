use vstd::prelude::*;

verus! {

/// An sRGB colour with eight bits per channel.
#[derive(Clone, Copy, Debug, PartialEq, Eq, Structural)]
pub struct Rgb {
    pub r: u8,
    pub g: u8,
    pub b: u8,
}

impl Rgb {
    pub fn to_array(&self) -> (a: [u8; 3])
        ensures
            a@ == seq![self.r, self.g, self.b],
    {
        [self.r, self.g, self.b]
    }
}

/// The CIEDE2000 difference of two sRGB colours, in whole units (the
/// fractional part dropped).
pub uninterp spec fn ciede2000_floor(x: Rgb, y: Rgb) -> u32;

/// Relies on `delta_e::DE2000::from_rgb`, which converts both colours to
/// CIE Lab and returns their CIEDE2000 difference; the result depends on the
/// two colours alone. Dropping the fraction keeps comparisons with a whole
/// threshold exact: `d < t` holds exactly when `floor(d) < t`.
#[verifier::external_body]
pub(crate) fn perceptual_distance(x: Rgb, y: Rgb) -> (d: u32)
    ensures
        d == ciede2000_floor(x, y),
{
    delta_e::DE2000::from_rgb(&[x.r, x.g, x.b], &[y.r, y.g, y.b]) as u32
}

} // verus!
