use vstd::prelude::*;

verus! {

use crate::arith::{pow2, pow2_usize};
use crate::convolve::{convolve_separable, smoothed_at, stride_fits};
use crate::error::Error;
use crate::kernels::{kernel_half, kernel_separable, Kernel};
use crate::layer::WaveletLayerBuffer;
use crate::raster::{GridView, Raster, INPUT_BOUND, LAYER_BOUND};

/// Whether one decomposition step can run: the kernel has a separable
/// form, the dilation exponent is within the raster dimensions the crate
/// admits, and the dilated taps stay within one mirror reflection.
pub open spec fn decompose_ok(g: GridView, k: Kernel, scale: nat) -> bool {
    &&& kernel_separable(k)
    &&& scale <= 16
    &&& stride_fits(g, k, pow2(scale) as int)
}

/// Element-wise difference of two rasters of the same shape.
fn sub_rasters(a: &Raster, b: &Raster) -> (r: Raster)
    requires
        a@.wf(),
        b@.wf(),
        a@.same_dims(b@),
        a@.bounded(INPUT_BOUND as int),
        b@.bounded(INPUT_BOUND as int),
    ensures
        r@.wf(),
        r@.same_dims(a@),
        forall|i: int|
            0 <= i < r@.data.len() ==> #[trigger] r@.data[i] == a@.data[i] - b@.data[i],
        r@.bounded(LAYER_BOUND as int),
        forall|y: int, x: int, ch: int|
            a@.in_range(y, x, ch) ==> #[trigger] r@.at(y, x, ch) == a@.at(y, x, ch) - b@.at(
                y,
                x,
                ch,
            ),
{
    let da = a.samples();
    let db = b.samples();
    let n = da.len();
    let mut out: Vec<i64> = Vec::new();
    let mut i: usize = 0;
    while i < n
        invariant
            n == da@.len(),
            da@ == a@.data,
            db@ == b@.data,
            a@.wf(),
            b@.wf(),
            a@.same_dims(b@),
            a@.bounded(INPUT_BOUND as int),
            b@.bounded(INPUT_BOUND as int),
            i <= n,
            out@.len() == i,
            forall|j: int| 0 <= j < i ==> #[trigger] out@[j] == da@[j] - db@[j],
            forall|j: int|
                0 <= j < i ==> -(LAYER_BOUND as int) <= #[trigger] out@[j] <= LAYER_BOUND as int,
        decreases n - i,
    {
        out.push(da[i] - db[i]);
        i = i + 1;
    }
    let r = Raster::from_vec(a.width(), a.height(), a.channels(), out);
    proof {
        assert forall|y: int, x: int, ch: int| a@.in_range(y, x, ch) implies #[trigger] r@.at(
            y,
            x,
            ch,
        ) == a@.at(y, x, ch) - b@.at(y, x, ch) by {
            crate::raster::lemma_index_in_bounds(a@, y, x, ch);
            assert(r@.index_of(y, x, ch) == a@.index_of(y, x, ch));
        }
    }
    r
}

/// One level of the stationary wavelet decomposition: smooth the buffer
/// with the dilated kernel, yield the difference as the detail layer, and
/// keep the smoothed buffer as the new approximation.
pub trait WaveletDecompose: Sized {
    spec fn grid(&self) -> GridView;

    /// Replaces `self` by its smoothing at dilation `2^pixel_scale` and
    /// returns the detail layer `old(self) - smoothed`, tagged `Raw` when
    /// `is_raw`, else by the channel count.  Fails, leaving `self`
    /// untouched, when the kernel has no separable form or the dilation
    /// cannot be applied to these dimensions.
    fn wavelet_decompose(&mut self, kernel: Kernel, pixel_scale: usize, is_raw: bool) -> (r: Result<
        WaveletLayerBuffer,
        Error,
    >)
        requires
            old(self).grid().wf(),
            old(self).grid().bounded(INPUT_BOUND as int),
            old(self).grid().channels == 1 || old(self).grid().channels == 3 || is_raw,
        ensures
            decompose_ok(old(self).grid(), kernel, pixel_scale as nat) ==> ({
                &&& r matches Ok(buf)
                &&& final (self).grid().wf()
                &&& final (self).grid().same_dims(old(self).grid())
                &&& final (self).grid().bounded(INPUT_BOUND as int)
                &&& forall|y: int, x: int, ch: int|
                    old(self).grid().in_range(y, x, ch) ==> #[trigger] final (self).grid().at(
                        y,
                        x,
                        ch,
                    ) == smoothed_at(
                        old(self).grid(),
                        kernel,
                        pow2(pixel_scale as nat) as int,
                        y,
                        x,
                        ch,
                    )
                &&& buf.wf()
                &&& buf.grid().same_dims(old(self).grid())
                &&& buf.grid().bounded(LAYER_BOUND as int)
                &&& forall|y: int, x: int, ch: int|
                    old(self).grid().in_range(y, x, ch) ==> #[trigger] buf.grid().at(y, x, ch)
                        == old(self).grid().at(y, x, ch) - final (self).grid().at(y, x, ch)
                &&& (if is_raw {
                    buf matches WaveletLayerBuffer::Raw { .. }
                } else if old(self).grid().channels == 1 {
                    buf matches WaveletLayerBuffer::Grayscale { .. }
                } else {
                    buf matches WaveletLayerBuffer::Rgb { .. }
                })
            }),
            !decompose_ok(old(self).grid(), kernel, pixel_scale as nat) ==> ({
                &&& *final (self) == *old(self)
                &&& r == Err::<WaveletLayerBuffer, Error>(
                    if !kernel_separable(kernel) {
                        Error::UnsupportedKernel
                    } else {
                        Error::ScaleOutOfRange
                    },
                )
            }),
    ;
}

impl WaveletDecompose for Raster {
    open spec fn grid(&self) -> GridView {
        self@
    }

    fn wavelet_decompose(&mut self, kernel: Kernel, pixel_scale: usize, is_raw: bool) -> (r: Result<
        WaveletLayerBuffer,
        Error,
    >) {
        if !kernel.is_separable() {
            return Err(Error::UnsupportedKernel);
        }
        if pixel_scale > 16 {
            return Err(Error::ScaleOutOfRange);
        }
        let stride = pow2_usize(pixel_scale);
        let half = kernel.half();
        let w = self.width();
        let h = self.height();
        proof {
            assert(half <= 2);
            assert(half * stride <= 2 * 65536) by (nonlinear_arith)
                requires
                    0 <= half <= 2,
                    0 <= stride <= 65536,
            ;
        }
        if w == 0 || h == 0 || half * stride > w - 1 || half * stride > h - 1 {
            return Err(Error::ScaleOutOfRange);
        }
        let smoothed = convolve_separable(self, kernel, stride);
        let detail = sub_rasters(self, &smoothed);
        *self = smoothed;
        if is_raw {
            Ok(WaveletLayerBuffer::Raw { data: detail })
        } else if self.channels() == 1 {
            Ok(WaveletLayerBuffer::Grayscale { data: detail })
        } else {
            Ok(WaveletLayerBuffer::Rgb { data: detail })
        }
    }
}

} // verus!
