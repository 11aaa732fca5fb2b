//! Extracts a small, perceptually distinct, frequency-ranked colour palette
//! from a pixel grid.
pub mod color;
pub mod config;
pub mod distil;
pub mod error;
pub mod filter;
pub mod palette;
pub mod quantize;
pub mod sampler;
pub mod sorting;

pub use color::{ciede2000_floor, Rgb};
pub use sorting::{sort_desc, sort_by_count_desc, total, Weighted};
pub use config::{valid_config, Config};
pub use error::DistilError;
pub use filter::{get_pixels, has_transparency, is_black, is_white};
pub use sampler::{scaled_dimensions, PixelGrid};
pub use quantize::quantize;
pub use distil::{distil_clusters, Distil, SWATCH_SIZE};
pub use palette::{count_colors, merge_by_distance, remove_similar_colors, Bucket, Cluster, Merge, Merged};
