//! What the operations of this crate report when they turn an input down.

use vstd::prelude::*;

verus! {

/// Why a network could not be built from layer sizes and samples.
#[derive(Debug, Clone, Copy, PartialEq, Eq)]
pub enum ConstructionError {
    /// Fewer than two layer sizes were given.
    TooFewLayers,
    /// The layer at this position has size zero; it is the first such layer.
    EmptyLayer { layer: usize },
    /// The sizes are valid, but the samples are not one per parameter.
    SampleCount,
}

/// Why a parameter record is not a network.
#[derive(Debug, Clone, Copy, PartialEq, Eq)]
pub enum FormatError {
    /// Fewer than two layer sizes, or a layer of size zero.
    Sizes,
    /// The record does not hold one weight matrix and one bias vector for
    /// each pair of adjacent layers.
    LayerCount,
    /// The weight matrix or the bias vector of this transition has the
    /// wrong shape, or its entries do not fill its shape; it is the first
    /// such transition.
    Shape { layer: usize },
}

/// Which vector of an example has the wrong length.
#[derive(Debug, Clone, Copy, PartialEq, Eq)]
pub enum Part {
    Input,
    Target,
}

/// A vector whose length is not the width of the layer it is meant for.
#[derive(Debug, Clone, Copy, PartialEq, Eq)]
pub struct DimensionMismatchError {
    /// Position of the first offending example in the data handed in.
    pub example: usize,
    /// The offending vector of that example; the input is looked at first.
    pub part: Part,
    /// Width of the layer.
    pub expected: usize,
    /// Length of the vector.
    pub found: usize,
}

/// A target without an entry equal to one.
#[derive(Debug, Clone, Copy, PartialEq, Eq)]
pub struct LabelEncodingError {
    /// Position of the first such target in the data handed in.
    pub example: usize,
}

} // verus!
