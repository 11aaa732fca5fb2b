use vstd::prelude::*;
use std::collections::BTreeMap;
use crate::config::{valid_config, Config};
use crate::error::DistilError;
use crate::filter::{get_pixels, interesting_channels};
use crate::palette::{ciede2000_table, count_colors, leader_pass, remove_similar_colors, tally, Cluster, Bucket, Merged};
use crate::quantize::{neuquant_map, quantize, triples};
use crate::sampler::{sampled, PixelGrid};
use crate::sorting::sort_desc;

verus! {

/// Width and height, in pixels, of one swatch of a swatch strip.
pub const SWATCH_SIZE: u32 = 80;

/// The channels of the interesting pixels of the sampled grid.
pub open spec fn sampled_channels(data: Seq<u8>, w: u32, h: u32, c: Config) -> Seq<u8> {
    let s = sampled(data, w, h, c.max_sample_count);
    interesting_channels(s, (s.len() / 4) as int, c.min_black, c.max_white)
}

/// The buckets counted from the colours the quantizer learns.
pub open spec fn initial_buckets(channels: Seq<u8>, c: Config) -> Seq<Bucket> {
    sort_desc(tally(triples(neuquant_map(c.sample_fraction, c.palette_size, channels))))
}

/// Runs the pipeline on a grid: samples it, keeps the interesting pixels,
/// quantizes them, counts the learned colours and merges the perceptually
/// close ones. Fails with `Uninteresting` exactly when no pixel of the
/// sampled grid is interesting; the result depends on the grid and the
/// configuration alone.
pub fn distil_clusters(grid: PixelGrid, c: &Config) -> (r: Result<Merged, DistilError>)
    requires
        grid.wf(),
        valid_config(*c),
        3 * c.palette_size <= usize::MAX,
    ensures
        r is Err <==> sampled_channels(grid.data@, grid.width, grid.height, *c).len() == 0,
        r is Err ==> r == Err::<Merged, DistilError>(DistilError::Uninteresting),
        r is Ok ==> ({
            let bs = initial_buckets(sampled_channels(grid.data@, grid.width, grid.height, *c), *c);
            &&& r->Ok_0.clusters@ == sort_desc(leader_pass(bs, ciede2000_table(bs), c.min_distance).0)
            &&& r->Ok_0.merges@ == leader_pass(bs, ciede2000_table(bs), c.min_distance).1
        }),
{
    let scaled = grid.sample(c.max_sample_count);
    proof {
        let area = (scaled.width as int) * (scaled.height as int);
        assert(4 * (scaled.width as int) * (scaled.height as int) == area * 4) by (nonlinear_arith)
            requires
                area == (scaled.width as int) * (scaled.height as int),
        ;
        vstd::arithmetic::div_mod::lemma_mod_multiples_basic(area, 4);
    }
    let pixels = match get_pixels(&scaled.data, c.min_black, c.max_white) {
        Ok(p) => p,
        Err(e) => {
            return Err(e);
        },
    };
    let colors = quantize(&pixels, c.sample_fraction, c.palette_size);
    let buckets = count_colors(&colors);
    Ok(remove_similar_colors(&buckets, c.min_distance))
}

/// A distilled image.
#[derive(Debug, Clone)]
pub struct Distil {
    /// The palette's colours, from most to least frequent.
    pub colors: Vec<[u8; 3]>,
    /// Maps each position in `colors` to the number of quantized colours
    /// that were merged into that colour.
    pub color_count: BTreeMap<usize, usize>,
}

impl Distil {
    /// Pairs the final colour of each cluster with the cluster's count, by
    /// position.
    pub fn from_palette(colors: Vec<[u8; 3]>, clusters: &Vec<Cluster>) -> (r: Distil)
        requires
            colors.len() == clusters.len(),
        ensures
            r.colors@ == colors@,
            r.color_count@ == Map::new(
                |i: usize| i < clusters.len(),
                |i: usize| clusters@[i as int].count,
            ),
    {
        broadcast use vstd::laws_cmp::group_laws_cmp;
        let mut color_count: BTreeMap<usize, usize> = BTreeMap::new();
        let mut i: usize = 0;
        while i < clusters.len()
            invariant
                i <= clusters.len(),
                color_count@ == Map::new(|k: usize| k < i, |k: usize| clusters@[k as int].count),
            decreases clusters.len() - i,
        {
            color_count.insert(i, clusters[i].count);
            i = i + 1;
            assert(color_count@ =~= Map::new(|k: usize| k < i, |k: usize| clusters@[k as int].count));
        }
        Distil { colors, color_count }
    }

    /// Renders the first `palette_size` colours (all of them, if there are
    /// fewer) as a strip of square swatches, left to right, as an opaque RGBA
    /// grid. Asking for no swatch is an error.
    pub fn as_img(&self, palette_size: u8) -> (r: Result<PixelGrid, DistilError>)
        ensures
            palette_size == 0 <==> r is Err,
            r is Err ==> r == Err::<PixelGrid, DistilError>(DistilError::NoSwatches),
            r is Ok ==> {
                let g = r->Ok_0;
                let k = if self.colors.len() < palette_size { self.colors.len() as int } else { palette_size as int };
                &&& g.wf()
                &&& g.width == SWATCH_SIZE * k
                &&& g.height == SWATCH_SIZE
                &&& forall|i: int| 0 <= i < g.data.len() ==> #[trigger] g.data@[i] == swatch_byte(self.colors@, g.width as int, i)
            },
    {
        if palette_size == 0 {
            return Err(DistilError::NoSwatches);
        }
        let k: usize = if self.colors.len() < palette_size as usize {
            self.colors.len()
        } else {
            palette_size as usize
        };
        assert(k <= 255);
        let width: usize = 80 * k;
        assert(width <= 20400);
        let len: usize = 320 * width;
        let mut data: Vec<u8> = Vec::new();
        let mut i: usize = 0;
        while i < len
            invariant
                i <= len,
                len == 320 * width,
                width == 80 * k,
                k <= self.colors.len(),
                k <= 255,
                data.len() == i,
                forall|j: int| 0 <= j < i ==> #[trigger] data@[j] == swatch_byte(self.colors@, width as int, j),
            decreases len - i,
        {
            let p: usize = i / 4;
            let x: usize = p % width;
            let ch: usize = i % 4;
            assert(x / 80 < k) by (nonlinear_arith)
                requires
                    x < width,
                    width == 80 * k,
            ;
            let b: u8 = if ch == 3 {
                255
            } else {
                self.colors[x / 80][ch]
            };
            data.push(b);
            i = i + 1;
        }
        let g = PixelGrid { width: width as u32, height: 80, data };
        assert(g.width as int == width as int);
        assert(320 * (width as int) == 4 * (width as int) * 80) by (nonlinear_arith);
        assert(g.wf());
        Ok(g)
    }
}

/// Byte `i` of a swatch strip `width` pixels wide: each swatch is 80 pixels
/// wide and shows one colour, fully opaque.
pub open spec fn swatch_byte(colors: Seq<[u8; 3]>, width: int, i: int) -> u8 {
    let x = (i / 4) % width;
    if i % 4 == 3 {
        255
    } else {
        colors[x / 80]@[i % 4]
    }
}

} // verus!
