use vstd::prelude::*;

verus! {

use vstd::arithmetic::div_mod::{
    lemma_div_is_ordered,
    lemma_div_multiples_vanish,
    lemma_div_pos_is_pos,
};
use vstd::arithmetic::mul::{lemma_mul_inequality, lemma_mul_is_commutative};
use crate::aggregate::Aggregate;
use crate::arith::{lemma_pow2_le, pow2};
use crate::convolve::smoothed_at;
use crate::decompose::{decompose_ok, WaveletDecompose};
use crate::error::Error;
use crate::kernels::{kernel_half, kernel_separable, Kernel};
use crate::layer::{layers_sum, lemma_layers_sum_push, WaveletLayer, WaveletLayerBuffer};
use crate::raster::{GridView, Raster, INPUT_BOUND, LAYER_BOUND};

/// The value that a rescale maps `max` to: fixed-point one.
pub const SCALE_ONE: i64 = 65536;

/// Largest magnitude a sample handed to a rescale may have.
pub const SCALE_INPUT_BOUND: i64 = 0x2000_0000_0000_0000;

/// An affine normalization descriptor: `apply` maps `min` to 0 and `max`
/// to `SCALE_ONE`, linearly.
#[derive(Clone, Copy)]
pub struct Scale {
    min: i64,
    max: i64,
    scaling_ratio: i64,
}

impl Scale {
    pub closed spec fn spec_min(self) -> int {
        self.min as int
    }

    pub closed spec fn spec_max(self) -> int {
        self.max as int
    }

    pub closed spec fn spec_ratio(self) -> int {
        self.scaling_ratio as int
    }

    /// The ratio is the recorded range, and the bounds admit the affine
    /// arithmetic.
    pub open spec fn inv(self) -> bool {
        &&& self.spec_ratio() == self.spec_max() - self.spec_min()
        &&& -(SCALE_INPUT_BOUND as int) <= self.spec_min() <= self.spec_max() <= SCALE_INPUT_BOUND
            as int
    }

    /// Records the range `[min, max]`.
    pub fn new(min: i64, max: i64) -> (r: Scale)
        requires
            -(SCALE_INPUT_BOUND as int) <= min <= max <= SCALE_INPUT_BOUND as int,
        ensures
            r.spec_min() == min,
            r.spec_max() == max,
            r.spec_ratio() == max - min,
            r.inv(),
    {
        Scale { min, max, scaling_ratio: max - min }
    }

    pub fn min(&self) -> (r: i64)
        ensures
            r == self.spec_min(),
    {
        self.min
    }

    pub fn max(&self) -> (r: i64)
        ensures
            r == self.spec_max(),
    {
        self.max
    }

    pub fn scaling_ratio(&self) -> (r: i64)
        ensures
            r == self.spec_ratio(),
    {
        self.scaling_ratio
    }

    /// The normalized value: `(value - min) * SCALE_ONE / ratio`, rounding
    /// toward minus infinity; `min` maps to 0 and `max` to `SCALE_ONE`
    /// exactly.  A flat range (`min == max`) is a defined edge case: every
    /// value maps to 0 rather than dividing by zero.
    pub fn apply(&self, value: i64) -> (r: i64)
        requires
            self.inv(),
            self.spec_min() <= value <= self.spec_max(),
        ensures
            self.spec_ratio() == 0 ==> r == 0,
            self.spec_ratio() > 0 ==> r == ((value - self.spec_min()) * (SCALE_ONE as int))
                / self.spec_ratio(),
            0 <= r <= SCALE_ONE,
            value == self.spec_min() ==> r == 0,
            self.spec_ratio() > 0 && value == self.spec_max() ==> r == SCALE_ONE,
    {
        let ratio = self.scaling_ratio;
        if ratio <= 0 {
            return 0;
        }
        let num: i128 = (value as i128 - self.min as i128) * 65536;
        let q = crate::arith::div_euclid_i128(num, ratio as i128);
        proof {
            let v = value - self.spec_min();
            lemma_div_pos_is_pos(v * 65536, ratio as int);
            lemma_mul_inequality(v, ratio as int, 65536);
            lemma_mul_is_commutative(ratio as int, 65536);
            lemma_div_is_ordered(v * 65536, (ratio as int) * 65536, ratio as int);
            lemma_div_multiples_vanish(65536, ratio as int);
            if value == self.min {
                assert(v * 65536 == 0) by (nonlinear_arith)
                    requires
                        v == 0,
                ;
                assert((0int) / (ratio as int) == 0) by {
                    lemma_div_pos_is_pos(0, ratio as int);
                    lemma_div_is_ordered(0, 0, ratio as int);
                    vstd::arithmetic::div_mod::lemma_div_of0(ratio as int);
                }
            }
            if value == self.max {
                assert(v * 65536 == (ratio as int) * 65536);
            }
        }
        q as i64
    }
}

/// The raster a transform decomposes, tagged with its channel layout.
pub enum ATrousTransformInput {
    Grayscale { data: Raster },
    Rgb { data: Raster },
    /// For arbitrary color spaces.
    Raw { data: Raster },
}

impl ATrousTransformInput {
    /// The raster behind the tag.
    pub open spec fn grid(self) -> GridView {
        match self {
            ATrousTransformInput::Grayscale { data } => data@,
            ATrousTransformInput::Rgb { data } => data@,
            ATrousTransformInput::Raw { data } => data@,
        }
    }

    /// The tag states the channel count it stands for.
    pub open spec fn wf(self) -> bool {
        &&& self.grid().wf()
        &&& self matches ATrousTransformInput::Grayscale { .. } ==> self.grid().channels == 1
        &&& self matches ATrousTransformInput::Rgb { .. } ==> self.grid().channels == 3
    }

    /// Whether two inputs carry the same tag.
    pub open spec fn same_variant(self, other: ATrousTransformInput) -> bool {
        match self {
            ATrousTransformInput::Grayscale { .. } => other matches ATrousTransformInput::Grayscale
                { .. },
            ATrousTransformInput::Rgb { .. } => other matches ATrousTransformInput::Rgb { .. },
            ATrousTransformInput::Raw { .. } => other matches ATrousTransformInput::Raw { .. },
        }
    }
}

impl Aggregate for ATrousTransformInput {
    open spec fn agg_samples(&self) -> Seq<i64> {
        self.grid().data
    }

    open spec fn agg_wf(&self) -> bool {
        self.grid().wf()
    }

    fn min(&self) -> (r: i64) {
        match self {
            ATrousTransformInput::Grayscale { data } => data.min(),
            ATrousTransformInput::Rgb { data } => data.min(),
            ATrousTransformInput::Raw { data } => data.min(),
        }
    }

    fn max(&self) -> (r: i64) {
        match self {
            ATrousTransformInput::Grayscale { data } => data.max(),
            ATrousTransformInput::Rgb { data } => data.max(),
            ATrousTransformInput::Raw { data } => data.max(),
        }
    }
}

/// Whether a layer buffer carries the tag that matches the input it was
/// decomposed from.
pub open spec fn variant_matches(buf: WaveletLayerBuffer, inp: ATrousTransformInput) -> bool {
    match inp {
        ATrousTransformInput::Grayscale { .. } => buf matches WaveletLayerBuffer::Grayscale {
            ..
        },
        ATrousTransformInput::Rgb { .. } => buf matches WaveletLayerBuffer::Rgb { .. },
        ATrousTransformInput::Raw { .. } => buf matches WaveletLayerBuffer::Raw { .. },
    }
}

/// Whether every decomposition step of a run over `levels` scales can be
/// applied to dimensions like `g`'s.
pub open spec fn run_ok(g: GridView, k: Kernel, levels: nat) -> bool {
    levels == 0 || decompose_ok(g, k, (levels - 1) as nat)
}

/// A step that can run at one scale can run at every smaller scale.
pub proof fn lemma_decompose_ok_monotone(g: GridView, k: Kernel, s1: nat, s2: nat)
    requires
        s1 <= s2,
        decompose_ok(g, k, s2),
    ensures
        decompose_ok(g, k, s1),
{
    lemma_pow2_le(0, s1);
    lemma_pow2_le(s1, s2);
    let h = kernel_half(k);
    lemma_mul_inequality(pow2(s1) as int, pow2(s2) as int, h);
    lemma_mul_is_commutative(pow2(s1) as int, h);
    lemma_mul_is_commutative(pow2(s2) as int, h);
}

/// The stationary wavelet transform as a finite sequence generator: each
/// step yields one layer, mutating the held approximation, until the
/// residue layer ends the sequence.
pub struct ATrousTransform {
    input: ATrousTransformInput,
    levels: usize,
    kernel: Kernel,
    current_level: usize,
}

impl ATrousTransform {
    pub closed spec fn spec_input(self) -> ATrousTransformInput {
        self.input
    }

    pub closed spec fn spec_levels(self) -> int {
        self.levels as int
    }

    pub closed spec fn spec_kernel(self) -> Kernel {
        self.kernel
    }

    pub closed spec fn spec_level(self) -> int {
        self.current_level as int
    }

    pub open spec fn wf(self) -> bool {
        &&& self.spec_input().wf()
        &&& self.spec_input().grid().bounded(INPUT_BOUND as int)
        &&& self.spec_levels() < usize::MAX
    }

    /// A transform over an already-classified input raster.
    pub fn new(input: ATrousTransformInput, levels: usize, kernel: Kernel) -> (r: ATrousTransform)
        requires
            input.wf(),
            input.grid().bounded(INPUT_BOUND as int),
            levels < usize::MAX,
        ensures
            r.wf(),
            r.spec_input() == input,
            r.spec_levels() == levels,
            r.spec_kernel() == kernel,
            r.spec_level() == 0,
    {
        ATrousTransform { input, levels, kernel, current_level: 0 }
    }

    /// A transform over a raw multi-channel raster, for arbitrary color
    /// spaces.
    pub fn from_raw_buffer(data: Raster, levels: usize, kernel: Kernel) -> (r: ATrousTransform)
        requires
            data@.wf(),
            data@.bounded(INPUT_BOUND as int),
            levels < usize::MAX,
        ensures
            r.wf(),
            r.spec_input() == (ATrousTransformInput::Raw { data }),
            r.spec_levels() == levels,
            r.spec_kernel() == kernel,
            r.spec_level() == 0,
    {
        ATrousTransform { input: ATrousTransformInput::Raw { data }, levels, kernel, current_level: 0 }
    }

    /// A transform bound to the linear-interpolation kernel.
    pub fn linear(input: ATrousTransformInput, levels: usize) -> (r: ATrousTransform)
        requires
            input.wf(),
            input.grid().bounded(INPUT_BOUND as int),
            levels < usize::MAX,
        ensures
            r.wf(),
            r.spec_input() == input,
            r.spec_levels() == levels,
            r.spec_kernel() == Kernel::LinearInterpolationKernel,
            r.spec_level() == 0,
    {
        ATrousTransform::new(input, levels, Kernel::LinearInterpolationKernel)
    }

    /// A transform bound to the low-scale kernel.
    pub fn low_scale(input: ATrousTransformInput, levels: usize) -> (r: ATrousTransform)
        requires
            input.wf(),
            input.grid().bounded(INPUT_BOUND as int),
            levels < usize::MAX,
        ensures
            r.wf(),
            r.spec_input() == input,
            r.spec_levels() == levels,
            r.spec_kernel() == Kernel::LowScaleKernel,
            r.spec_level() == 0,
    {
        ATrousTransform::new(input, levels, Kernel::LowScaleKernel)
    }

    /// A transform bound to the B3-spline kernel.
    pub fn b_spline(input: ATrousTransformInput, levels: usize) -> (r: ATrousTransform)
        requires
            input.wf(),
            input.grid().bounded(INPUT_BOUND as int),
            levels < usize::MAX,
        ensures
            r.wf(),
            r.spec_input() == input,
            r.spec_levels() == levels,
            r.spec_kernel() == Kernel::B3SplineKernel,
            r.spec_level() == 0,
    {
        ATrousTransform::new(input, levels, Kernel::B3SplineKernel)
    }

    pub fn levels(&self) -> (r: usize)
        ensures
            r == self.spec_levels(),
    {
        self.levels
    }

    pub fn kernel(&self) -> (r: Kernel)
        ensures
            r == self.spec_kernel(),
    {
        self.kernel
    }

    pub fn current_level(&self) -> (r: usize)
        ensures
            r == self.spec_level(),
    {
        self.current_level
    }

    /// One step of the sequence.  Yields `None` once exhausted; the
    /// residue layer (a copy of the held approximation, `pixel_scale =
    /// None`) at the final level; otherwise runs one decomposition,
    /// yielding the detail layer tagged with its scale and keeping the
    /// smoothed buffer.  A step whose decomposition cannot run yields the
    /// error and exhausts the sequence.
    pub fn next(&mut self) -> (r: Option<Result<WaveletLayer, Error>>)
        requires
            old(self).wf(),
        ensures
            final (self).wf(),
            final (self).spec_levels() == old(self).spec_levels(),
            final (self).spec_kernel() == old(self).spec_kernel(),
            final (self).spec_input().same_variant(old(self).spec_input()),
            final (self).spec_input().grid().same_dims(old(self).spec_input().grid()),
            old(self).spec_level() > old(self).spec_levels() ==> r is None && *final (self)
                == *old(self),
            old(self).spec_level() == old(self).spec_levels() ==> ({
                &&& r matches Some(step)
                &&& step matches Ok(layer)
                &&& layer.pixel_scale is None
                &&& variant_matches(layer.buffer, old(self).spec_input())
                &&& layer.buffer.grid() == old(self).spec_input().grid()
                &&& final (self).spec_input() == old(self).spec_input()
                &&& final (self).spec_level() == old(self).spec_level() + 1
            }),
            old(self).spec_level() < old(self).spec_levels() && !decompose_ok(
                old(self).spec_input().grid(),
                old(self).spec_kernel(),
                old(self).spec_level() as nat,
            ) ==> ({
                &&& r matches Some(step)
                &&& step matches Err(e)
                &&& e == (if !kernel_separable(old(self).spec_kernel()) {
                    Error::UnsupportedKernel
                } else {
                    Error::ScaleOutOfRange
                })
                &&& final (self).spec_input() == old(self).spec_input()
                &&& final (self).spec_level() == old(self).spec_levels() + 1
            }),
            old(self).spec_level() < old(self).spec_levels() && decompose_ok(
                old(self).spec_input().grid(),
                old(self).spec_kernel(),
                old(self).spec_level() as nat,
            ) ==> ({
                &&& r matches Some(step)
                &&& step matches Ok(layer)
                &&& layer.pixel_scale == Some(old(self).spec_level() as usize)
                &&& variant_matches(layer.buffer, old(self).spec_input())
                &&& layer.buffer.wf()
                &&& layer.buffer.grid().same_dims(old(self).spec_input().grid())
                &&& layer.buffer.grid().bounded(LAYER_BOUND as int)
                &&& forall|y: int, x: int, ch: int|
                    old(self).spec_input().grid().in_range(y, x, ch)
                        ==> #[trigger] layer.buffer.grid().at(y, x, ch) == old(
                        self,
                    ).spec_input().grid().at(y, x, ch) - final (self).spec_input().grid().at(
                        y,
                        x,
                        ch,
                    )
                &&& forall|y: int, x: int, ch: int|
                    old(self).spec_input().grid().in_range(y, x, ch) ==> #[trigger] final (
                    self).spec_input().grid().at(y, x, ch) == smoothed_at(
                        old(self).spec_input().grid(),
                        old(self).spec_kernel(),
                        pow2(old(self).spec_level() as nat) as int,
                        y,
                        x,
                        ch,
                    )
                &&& final (self).spec_level() == old(self).spec_level() + 1
            }),
    {
        let pixel_scale = self.current_level;
        if pixel_scale > self.levels {
            return None;
        }
        if pixel_scale == self.levels {
            self.current_level = pixel_scale + 1;
            let buffer = match &self.input {
                ATrousTransformInput::Grayscale { data } => WaveletLayerBuffer::Grayscale {
                    data: data.clone(),
                },
                ATrousTransformInput::Rgb { data } => WaveletLayerBuffer::Rgb {
                    data: data.clone(),
                },
                ATrousTransformInput::Raw { data } => WaveletLayerBuffer::Raw {
                    data: data.clone(),
                },
            };
            return Some(Ok(WaveletLayer { buffer, pixel_scale: None }));
        }
        let kernel = self.kernel;
        let step = match &mut self.input {
            ATrousTransformInput::Grayscale { data } => data.wavelet_decompose(
                kernel,
                pixel_scale,
                false,
            ),
            ATrousTransformInput::Rgb { data } => data.wavelet_decompose(
                kernel,
                pixel_scale,
                false,
            ),
            ATrousTransformInput::Raw { data } => data.wavelet_decompose(
                kernel,
                pixel_scale,
                true,
            ),
        };
        match step {
            Ok(layer_buffer) => {
                self.current_level = pixel_scale + 1;
                Some(Ok(WaveletLayer { pixel_scale: Some(pixel_scale), buffer: layer_buffer }))
            },
            Err(e) => {
                self.current_level = self.levels + 1;
                Some(Err(e))
            },
        }
    }

    /// Runs the whole sequence and collects it.  On success the result
    /// holds exactly `levels + 1` layers: detail layers tagged
    /// `Some(0), ..., Some(levels - 1)` in order, then the residue tagged
    /// `None` — and the element-wise sum of all layers reproduces the
    /// input raster exactly.
    #[verifier::loop_isolation(false)]
    pub fn collect_layers(self) -> (r: Result<Vec<WaveletLayer>, Error>)
        requires
            self.wf(),
            self.spec_level() == 0,
        ensures
            (r matches Ok(ls)) <==> run_ok(
                self.spec_input().grid(),
                self.spec_kernel(),
                self.spec_levels() as nat,
            ),
            r matches Ok(ls) ==> ({
                &&& ls@.len() == self.spec_levels() + 1
                &&& forall|i: int|
                    0 <= i < self.spec_levels() ==> #[trigger] ls@[i].pixel_scale == Some(
                        i as usize,
                    )
                &&& ls@[self.spec_levels()].pixel_scale is None
                &&& forall|i: int|
                    0 <= i <= self.spec_levels() ==> #[trigger] ls@[i].buffer.wf()
                        && ls@[i].buffer.grid().same_dims(self.spec_input().grid())
                        && ls@[i].buffer.grid().bounded(LAYER_BOUND as int) && variant_matches(
                        ls@[i].buffer,
                        self.spec_input(),
                    )
                &&& forall|y: int, x: int, ch: int|
                    self.spec_input().grid().in_range(y, x, ch) ==> #[trigger] layers_sum(
                        ls@,
                        y,
                        x,
                        ch,
                    ) == self.spec_input().grid().at(y, x, ch)
            }),
            r matches Err(e) ==> e == (if !kernel_separable(self.spec_kernel()) {
                Error::UnsupportedKernel
            } else {
                Error::ScaleOutOfRange
            }),
    {
        let ghost gv = self.spec_input().grid();
        let ghost k = self.spec_kernel();
        let ghost lv = self.spec_levels();
        let ghost inp0 = self.spec_input();
        let mut t = self;
        let mut out: Vec<WaveletLayer> = Vec::new();
        while t.current_level() <= t.levels()
            invariant
                t.wf(),
                t.spec_kernel() == k,
                t.spec_levels() == lv,
                t.spec_input().same_variant(inp0),
                t.spec_input().grid().same_dims(gv),
                gv.wf(),
                0 <= t.spec_level() <= lv + 1,
                out@.len() == t.spec_level(),
                forall|i: int|
                    0 <= i < out@.len() && i < lv ==> #[trigger] out@[i].pixel_scale == Some(
                        i as usize,
                    ),
                forall|i: int|
                    0 <= i < out@.len() && i == lv ==> #[trigger] out@[i].pixel_scale is None,
                forall|i: int|
                    0 <= i < out@.len() ==> #[trigger] out@[i].buffer.wf()
                        && out@[i].buffer.grid().same_dims(gv) && out@[i].buffer.grid().bounded(
                        LAYER_BOUND as int,
                    ) && variant_matches(out@[i].buffer, inp0),
                t.spec_level() <= lv ==> forall|y: int, x: int, ch: int|
                    gv.in_range(y, x, ch) ==> #[trigger] layers_sum(out@, y, x, ch)
                        + t.spec_input().grid().at(y, x, ch) == gv.at(y, x, ch),
                t.spec_level() == lv + 1 ==> forall|y: int, x: int, ch: int|
                    gv.in_range(y, x, ch) ==> #[trigger] layers_sum(out@, y, x, ch) == gv.at(
                        y,
                        x,
                        ch,
                    ),
                forall|s: nat| s < t.spec_level() && s < lv ==> decompose_ok(gv, k, s),
            decreases lv + 1 - t.spec_level(),
        {
            let ghost t_old = t;
            let step = t.next();
            match step {
                Some(res) => match res {
                    Ok(layer) => {
                        proof {
                            lemma_layers_sum_push_all(out@, layer, gv);
                        }
                        out.push(layer);
                    },
                    Err(e) => {
                        proof {
                            assert(!decompose_ok(gv, k, t_old.spec_level() as nat));
                            if lv > 0 && decompose_ok(gv, k, (lv - 1) as nat) {
                                lemma_decompose_ok_monotone(
                                    gv,
                                    k,
                                    t_old.spec_level() as nat,
                                    (lv - 1) as nat,
                                );
                            }
                        }
                        return Err(e);
                    },
                },
                None => {
                    proof {
                        assert(false);
                    }
                    return Err(Error::ScaleOutOfRange);
                },
            }
        }
        proof {
            if lv > 0 {
                assert(decompose_ok(gv, k, (lv - 1) as nat));
            }
        }
        Ok(out)
    }
}

/// Appending a layer extends every per-sample sum by that layer's sample.
proof fn lemma_layers_sum_push_all(ls: Seq<WaveletLayer>, l: WaveletLayer, g: GridView)
    ensures
        forall|y: int, x: int, ch: int|
            g.in_range(y, x, ch) ==> #[trigger] layers_sum(ls.push(l), y, x, ch) == layers_sum(
                ls,
                y,
                x,
                ch,
            ) + l.buffer.grid().at(y, x, ch),
{
    assert forall|y: int, x: int, ch: int| g.in_range(y, x, ch) implies #[trigger] layers_sum(
        ls.push(l),
        y,
        x,
        ch,
    ) == layers_sum(ls, y, x, ch) + l.buffer.grid().at(y, x, ch) by {
        lemma_layers_sum_push(ls, l, y, x, ch);
    }
}

} // verus!
