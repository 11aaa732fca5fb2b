use vstd::prelude::*;

verus! {

/// Why no palette could be produced.
#[derive(Clone, Debug, PartialEq, Eq)]
pub enum DistilError {
    /// The image bytes could not be decoded; holds the decoder's message.
    Io(String),
    /// The image is neither a JPEG nor a PNG.
    UnsupportedFormat,
    /// Every pixel was transparent, near black or near white.
    Uninteresting,
    /// A swatch strip of zero colours was asked for.
    NoSwatches,
}

impl DistilError {
    /// A sentence describing the error.
    pub fn message(&self) -> String {
        match self {
            DistilError::Io(_) => String::from_str("Distil failed to parse the passed image"),
            DistilError::UnsupportedFormat => String::from_str("The passed image isn't a JPEG or a PNG"),
            DistilError::Uninteresting => String::from_str(
                "The passed image does not contain any interesting colours",
            ),
            DistilError::NoSwatches => String::from_str("At least one swatch must be requested"),
        }
    }
}

} // verus!
