use vstd::prelude::*;

verus! {

/// The failure conditions of the transform engine.  The reference behaviour
/// for all of these is a defined error result rather than a panic: a kernel
/// lookup outside the table, a dilation distance that cannot be applied to
/// the raster, a kernel that has no separable form, or a layer whose channel
/// layout does not fit the requested output.
#[derive(Clone, Copy, Debug, PartialEq, Eq, Structural)]
pub enum Error {
    /// A kernel table lookup with a row or column index at or past the side length.
    KernelIndexOutOfBounds,
    /// The dilation distance `2^scale` would push kernel taps past what mirror
    /// reflection can bring back into range, or the exponent itself is too large.
    ScaleOutOfRange,
    /// The requested kernel has no separable form, and the separable
    /// decomposition path was asked to run it.
    UnsupportedKernel,
    /// A layer buffer whose variant or dimensions do not match the accumulator
    /// it was to be summed into.
    LayerMismatch,
}

} // verus!
