use vstd::prelude::*;
use crate::color::Rgb;

verus! {

/// The colour map, three bytes per colour, that NeuQuant learns from an RGBA
/// buffer with the given sampling factor and number of colours.
pub uninterp spec fn neuquant_map(sample_fraction: i32, colors: usize, pixels: Seq<u8>) -> Seq<u8>;

/// Relies on `color_quant::NeuQuant::new`, which trains the network on the
/// RGBA pixels deterministically, and on `color_map_rgb`, which lists one RGB
/// triple per neuron, `colors` of them. `new` divides by the sampling factor
/// and indexes `colors - 1`, so both must be positive.
#[verifier::external_body]
fn learn_color_map(sample_fraction: i32, colors: usize, pixels: &Vec<u8>) -> (r: Vec<u8>)
    requires
        sample_fraction >= 1,
        colors >= 1,
        3 * colors <= usize::MAX,
    ensures
        r.len() == 3 * colors,
        r@ == neuquant_map(sample_fraction, colors, pixels@),
{
    color_quant::NeuQuant::new(sample_fraction, colors, pixels.as_slice()).color_map_rgb()
}

/// Reads a flat RGB buffer as colours, one per whole triple.
pub open spec fn triples(m: Seq<u8>) -> Seq<Rgb> {
    Seq::new(m.len() / 3, |k: int| Rgb { r: m[3 * k], g: m[3 * k + 1], b: m[3 * k + 2] })
}

/// Learns `colors` representative colours from a buffer of RGBA pixels.
pub fn quantize(pixels: &Vec<u8>, sample_fraction: i32, colors: usize) -> (r: Vec<Rgb>)
    requires
        sample_fraction >= 1,
        colors >= 1,
        3 * colors <= usize::MAX,
    ensures
        r.len() == colors,
        r@ == triples(neuquant_map(sample_fraction, colors, pixels@)),
{
    let map = learn_color_map(sample_fraction, colors, pixels);
    let mut out: Vec<Rgb> = Vec::new();
    let mut k: usize = 0;
    while k < colors
        invariant
            k <= colors,
            map.len() == 3 * colors,
            out@ =~= triples(map@).take(k as int),
        decreases colors - k,
    {
        out.push(Rgb { r: map[3 * k], g: map[3 * k + 1], b: map[3 * k + 2] });
        k = k + 1;
    }
    out
}

} // verus!
