use vstd::prelude::*;

verus! {

/// The ways in which decoding or a transform can fail.
#[derive(Debug, Clone, Copy, PartialEq, Eq, Structural)]
pub enum DspError {
    /// A chunk id or file tag is not the one the layout calls for.
    Format,
    /// The file could not be opened or read.
    Io,
    /// Fewer bytes remain than a header or a chunk declares.
    TruncatedData,
    /// A transform input whose length is not a power of two.
    InvalidLength,
    /// A window whose length differs from the number of filter taps.
    ShapeMismatch,
}

} // verus!
