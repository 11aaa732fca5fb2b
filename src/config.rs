use vstd::prelude::*;

verus! {

/// Tuning constants of the pipeline.
#[derive(Clone, Copy, Debug, PartialEq, Eq, Structural)]
pub struct Config {
    /// Largest number of pixels kept when the image is downscaled.
    pub max_sample_count: u32,
    /// How sparsely the quantizer samples its input while learning (1 reads
    /// every pixel; larger is faster and coarser).
    pub sample_fraction: i32,
    /// Number of colours the quantizer learns.
    pub palette_size: usize,
    /// A pixel whose three channels are all below this is too dark to count.
    pub min_black: u8,
    /// A pixel whose three channels are all above this is too light to count.
    pub max_white: u8,
    /// Colours closer than this many CIEDE2000 units are merged.
    pub min_distance: u32,
}

/// Whether the quantizer can run with these settings.
pub open spec fn valid_config(c: Config) -> bool {
    &&& c.sample_fraction >= 1
    &&& c.palette_size >= 1
    &&& c.max_sample_count >= 1
}

pub const MAX_SAMPLE_COUNT: u32 = 1000;

pub const NQ_SAMPLE_FRACTION: i32 = 10;

pub const NQ_PALETTE_SIZE: usize = 256;

pub const MIN_BLACK: u8 = 8;

pub const MAX_WHITE: u8 = 247;

pub const MIN_DISTANCE_FOR_UNIQUENESS: u32 = 10;

impl Default for Config {
    fn default() -> (c: Config)
        ensures
            c.max_sample_count == MAX_SAMPLE_COUNT,
            c.sample_fraction == NQ_SAMPLE_FRACTION,
            c.palette_size == NQ_PALETTE_SIZE,
            c.min_black == MIN_BLACK,
            c.max_white == MAX_WHITE,
            c.min_distance == MIN_DISTANCE_FOR_UNIQUENESS,
            valid_config(c),
    {
        Config {
            max_sample_count: MAX_SAMPLE_COUNT,
            sample_fraction: NQ_SAMPLE_FRACTION,
            palette_size: NQ_PALETTE_SIZE,
            min_black: MIN_BLACK,
            max_white: MAX_WHITE,
            min_distance: MIN_DISTANCE_FOR_UNIQUENESS,
        }
    }
}

} // verus!
