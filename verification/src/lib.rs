//! Stationary ("a trous") wavelet decomposition and recomposition for
//! raster images, on fixed-point samples.
//!
//! A raster is decomposed level by level: each step smooths the running
//! approximation with a dilated kernel under mirror boundary extension and
//! yields the difference as a detail layer; the final approximation is the
//! residue layer.  Summing every layer gives the input back exactly.
//! Samples are signed 64-bit fixed-point values; callers that start from
//! unit-range data scale it by `SCALE_ONE`.

pub mod aggregate;
pub mod arith;
pub mod convolve;
pub mod decompose;
pub mod error;
pub mod extended_index;
pub mod kernels;
pub mod layer;
pub mod raster;
pub mod rescale;
pub mod recompose;
pub mod transform;

pub use error::Error;
pub use kernels::Kernel;
pub use recompose::RecomposableWaveletLayers;
pub use transform::ATrousTransform;
