use vstd::prelude::*;

verus! {

use crate::aggregate::Aggregate;
use crate::arith::{lemma_sum_congruence, sum_of};
use crate::error::Error;
use crate::layer::{layer_series, layers_sum, WaveletLayer, WaveletLayerBuffer};
use crate::raster::{
    lemma_index_in_bounds,
    GridView,
    Raster,
    LAYER_BOUND,
    MAX_CHANNELS,
    MAX_DIM,
};

/// Largest number of layers one recomposition accepts.
pub const MAX_LAYER_COUNT: usize = 0x10_0000;

/// Largest magnitude an accumulated sample can reach: `MAX_LAYER_COUNT`
/// layers of samples within `LAYER_BOUND`.
pub const ACCUM_BOUND: i64 = 0x2000_0000_0000_0000;

/// The channel layout of a recomposed image.
#[derive(Clone, Copy, Debug, PartialEq, Eq, Structural)]
pub enum OutputLayer {
    Grayscale,
    Rgb,
}

impl OutputLayer {
    /// The channel count of the layout: one for grayscale, three for RGB.
    pub fn to_num_channels(self) -> (r: usize)
        ensures
            r == (match self {
                OutputLayer::Grayscale => 1int,
                OutputLayer::Rgb => 3int,
            }),
    {
        match self {
            OutputLayer::Grayscale => 1,
            OutputLayer::Rgb => 3,
        }
    }
}

/// The series of one flat sample position's values across layers.
pub open spec fn layer_flat_series(ls: Seq<WaveletLayer>, p: int) -> spec_fn(int) -> int {
    |i: int| ls[i].buffer.grid().data[p] as int
}

/// The element-wise sum of a sequence of layers at one flat position.
pub open spec fn layers_sum_flat(ls: Seq<WaveletLayer>, p: int) -> int {
    sum_of(layer_flat_series(ls, p), ls.len())
}

/// At an in-range pixel the flat sum is the pixel sum.
pub proof fn lemma_layers_sum_flat_at(ls: Seq<WaveletLayer>, g: GridView, y: int, x: int, ch: int)
    requires
        g.wf(),
        g.in_range(y, x, ch),
        forall|i: int|
            0 <= i < ls.len() ==> (#[trigger] ls[i].buffer.grid()).same_dims(g)
                && ls[i].buffer.grid().wf(),
    ensures
        layers_sum_flat(ls, g.index_of(y, x, ch)) == layers_sum(ls, y, x, ch),
{
    let p = g.index_of(y, x, ch);
    let f1 = layer_flat_series(ls, p);
    let f2 = layer_series(ls, y, x, ch);
    assert forall|i: int| 0 <= i < ls.len() implies #[trigger] f1(i) == #[trigger] f2(i) by {
        let gi = ls[i].buffer.grid();
        assert(gi.index_of(y, x, ch) == p);
    }
    lemma_sum_congruence(f1, f2, ls.len());
}

/// Appending a layer adds its sample to the flat sum.
proof fn lemma_layers_sum_flat_push(ls: Seq<WaveletLayer>, l: WaveletLayer, p: int)
    ensures
        layers_sum_flat(ls.push(l), p) == layers_sum_flat(ls, p) + l.buffer.grid().data[p] as int,
{
    let s1 = ls.push(l);
    let f0 = layer_flat_series(ls, p);
    let f1 = layer_flat_series(s1, p);
    assert forall|i: int| 0 <= i < ls.len() implies #[trigger] f1(i) == #[trigger] f0(i) by {
        assert(s1[i] == ls[i]);
    }
    lemma_sum_congruence(f1, f0, ls.len());
    assert(s1[ls.len() as int] == l);
    assert(sum_of(f1, s1.len()) == sum_of(f1, ls.len()) + f1(ls.len() as int));
}

/// Element-wise sum of two rasters of the same shape, with the callers'
/// magnitude bounds added.
fn add_rasters(a: &Raster, b: &Raster, Ghost(ba): Ghost<int>, Ghost(bb): Ghost<int>) -> (r: Raster)
    requires
        a@.wf(),
        b@.wf(),
        a@.same_dims(b@),
        0 <= ba,
        0 <= bb,
        ba + bb <= 0x4000_0000_0000_0000,
        a@.bounded(ba),
        b@.bounded(bb),
    ensures
        r@.wf(),
        r@.same_dims(a@),
        forall|i: int|
            0 <= i < r@.data.len() ==> #[trigger] r@.data[i] == a@.data[i] + b@.data[i],
        r@.bounded(ba + bb),
{
    let da = a.samples();
    let db = b.samples();
    let n = da.len();
    let mut out: Vec<i64> = Vec::new();
    let mut i: usize = 0;
    while i < n
        invariant
            n == da@.len(),
            da@ == a@.data,
            db@ == b@.data,
            a@.wf(),
            b@.wf(),
            a@.same_dims(b@),
            0 <= ba,
            0 <= bb,
            ba + bb <= 0x4000_0000_0000_0000,
            a@.bounded(ba),
            b@.bounded(bb),
            i <= n,
            out@.len() == i,
            forall|j: int| 0 <= j < i ==> #[trigger] out@[j] == da@[j] + db@[j],
            forall|j: int| 0 <= j < i ==> -(ba + bb) <= #[trigger] out@[j] <= ba + bb,
        decreases n - i,
    {
        out.push(da[i] + db[i]);
        i = i + 1;
    }
    Raster::from_vec(a.width(), a.height(), a.channels(), out)
}

/// Whether a layer carries the given tag and shape.
pub open spec fn layer_fits(l: WaveletLayer, out: OutputLayer, raw: bool, w: int, h: int, c: int) -> bool {
    &&& (if raw {
        l.buffer matches WaveletLayerBuffer::Raw { .. }
    } else if out is Grayscale {
        l.buffer matches WaveletLayerBuffer::Grayscale { .. }
    } else {
        l.buffer matches WaveletLayerBuffer::Rgb { .. }
    })
    &&& l.buffer.grid().width == w
    &&& l.buffer.grid().height == h
    &&& l.buffer.grid().channels == c
}

/// Accumulates a sequence of layers of the expected tag and shape into a
/// zero-initialized raster.
fn accumulate_layers(
    layers: &Vec<WaveletLayer>,
    width: usize,
    height: usize,
    channels: usize,
    out: OutputLayer,
    raw: bool,
) -> (r: Result<Raster, Error>)
    requires
        width <= MAX_DIM,
        height <= MAX_DIM,
        1 <= channels <= MAX_CHANNELS,
        width * height * channels <= usize::MAX,
        layers@.len() <= MAX_LAYER_COUNT,
        forall|i: int|
            0 <= i < layers@.len() ==> (#[trigger] layers@[i].buffer.grid()).bounded(
                LAYER_BOUND as int,
            ) && layers@[i].buffer.grid().wf(),
    ensures
        (r matches Ok(acc)) <==> (forall|i: int|
            0 <= i < layers@.len() ==> layer_fits(
                #[trigger] layers@[i],
                out,
                raw,
                width as int,
                height as int,
                channels as int,
            )),
        r matches Ok(acc) ==> ({
            &&& acc@.wf()
            &&& acc@.width == width
            &&& acc@.height == height
            &&& acc@.channels == channels
            &&& forall|p: int|
                0 <= p < acc@.data.len() ==> #[trigger] acc@.data[p] == layers_sum_flat(
                    layers@,
                    p,
                )
            &&& acc@.bounded(ACCUM_BOUND as int)
        }),
        r matches Err(e) ==> e == Error::LayerMismatch,
{
    let mut acc = Raster::zeros(width, height, channels);
    let n = layers.len();
    let mut i: usize = 0;
    proof {
        assert forall|p: int| 0 <= p < acc@.data.len() implies #[trigger] acc@.data[p]
            == layers_sum_flat(layers@.take(0), p) by {
            assert(layers@.take(0).len() == 0);
        }
    }
    while i < n
        invariant
            n == layers@.len(),
            n <= MAX_LAYER_COUNT,
            width <= MAX_DIM,
            height <= MAX_DIM,
            1 <= channels <= MAX_CHANNELS,
            forall|j: int|
                0 <= j < layers@.len() ==> (#[trigger] layers@[j].buffer.grid()).bounded(
                    LAYER_BOUND as int,
                ) && layers@[j].buffer.grid().wf(),
            i <= n,
            acc@.wf(),
            acc@.width == width,
            acc@.height == height,
            acc@.channels == channels,
            forall|j: int|
                0 <= j < i ==> layer_fits(
                    #[trigger] layers@[j],
                    out,
                    raw,
                    width as int,
                    height as int,
                    channels as int,
                ),
            forall|p: int|
                0 <= p < acc@.data.len() ==> #[trigger] acc@.data[p] == layers_sum_flat(
                    layers@.take(i as int),
                    p,
                ),
            acc@.bounded((i as int) * 0x200_0000_0000),
        decreases n - i,
    {
        let l = &layers[i];
        let fits = match (&l.buffer, raw) {
            (WaveletLayerBuffer::Raw { .. }, true) => true,
            (WaveletLayerBuffer::Grayscale { .. }, false) => match out {
                OutputLayer::Grayscale => true,
                OutputLayer::Rgb => false,
            },
            (WaveletLayerBuffer::Rgb { .. }, false) => match out {
                OutputLayer::Grayscale => false,
                OutputLayer::Rgb => true,
            },
            _ => false,
        };
        let data = l.buffer.raster();
        if !fits || data.width() != width || data.height() != height || data.channels()
            != channels {
            return Err(Error::LayerMismatch);
        }
        let ghost old_acc = acc@;
        acc = add_rasters(
            &acc,
            data,
            Ghost((i as int) * 0x200_0000_0000),
            Ghost(LAYER_BOUND as int),
        );
        proof {
            assert(layers@.take(i + 1) =~= layers@.take(i as int).push(layers@[i as int]));
            assert forall|p: int| 0 <= p < acc@.data.len() implies #[trigger] acc@.data[p]
                == layers_sum_flat(layers@.take(i + 1), p) by {
                lemma_layers_sum_flat_push(layers@.take(i as int), layers@[i as int], p);
            }
        }
        i = i + 1;
    }
    proof {
        assert(layers@.take(n as int) =~= layers@);
    }
    Ok(acc)
}

/// The accumulated samples of a sequence of layers, as a flat buffer of
/// `n` machine samples.
pub open spec fn accumulated_seq(ls: Seq<WaveletLayer>, n: nat) -> Seq<i64> {
    Seq::new(n, |p: int| layers_sum_flat(ls, p) as i64)
}

/// An accumulated sample rescaled to the full 16-bit range: `min` maps to
/// 0 and `max` to 65535, rounding toward minus infinity; a flat range
/// maps everything to 0.
pub open spec fn rescale_u16_spec(v: int, lo: int, hi: int) -> int {
    if hi - lo == 0 {
        0
    } else {
        ((v - lo) * 65535) / (hi - lo)
    }
}

/// An accumulated sample rescaled to fixed-point unit range: `min` maps
/// to 0 and `max` to `SCALE_ONE`, rounding toward minus infinity; a flat
/// range maps everything to 0.
pub open spec fn rescale_unit_spec(v: int, lo: int, hi: int) -> int {
    if hi - lo == 0 {
        0
    } else {
        ((v - lo) * 65536) / (hi - lo)
    }
}

/// Rescales every sample of a raster to the full 16-bit range, using one
/// global minimum and maximum over all channels.
fn rescale_gray16(acc: &Raster) -> (data: Vec<u16>)
    requires
        acc@.wf(),
        acc@.bounded(ACCUM_BOUND as int),
    ensures
        data@.len() == acc@.data.len(),
        forall|p: int|
            0 <= p < data@.len() ==> #[trigger] data@[p] as int == rescale_u16_spec(
                acc@.data[p] as int,
                crate::aggregate::seq_min(acc@.data),
                crate::aggregate::seq_max(acc@.data),
            ),
{
    let lo = acc.min();
    let hi = acc.max();
    let samples = acc.samples();
    let n = samples.len();
    let mut data: Vec<u16> = Vec::new();
    let mut i: usize = 0;
    while i < n
        invariant
            n == samples@.len(),
            samples@ == acc@.data,
            acc@.wf(),
            acc@.bounded(ACCUM_BOUND as int),
            lo == crate::aggregate::seq_min(acc@.data),
            hi == crate::aggregate::seq_max(acc@.data),
            i <= n,
            data@.len() == i,
            forall|p: int|
                0 <= p < i ==> #[trigger] data@[p] as int == rescale_u16_spec(
                    acc@.data[p] as int,
                    lo as int,
                    hi as int,
                ),
        decreases n - i,
    {
        let v = samples[i];
        proof {
            crate::aggregate::lemma_seq_min_max(acc@.data);
            assert(lo <= v <= hi);
        }
        if hi - lo == 0 {
            data.push(0);
        } else {
            let ratio = hi - lo;
            let num: i128 = (v as i128 - lo as i128) * 65535;
            let q = crate::arith::div_euclid_i128(num, ratio as i128);
            proof {
                let vv = v - lo as int;
                vstd::arithmetic::div_mod::lemma_div_pos_is_pos(vv * 65535, ratio as int);
                vstd::arithmetic::mul::lemma_mul_inequality(vv, ratio as int, 65535);
                vstd::arithmetic::mul::lemma_mul_is_commutative(ratio as int, 65535);
                vstd::arithmetic::div_mod::lemma_div_is_ordered(
                    vv * 65535,
                    (ratio as int) * 65535,
                    ratio as int,
                );
                vstd::arithmetic::div_mod::lemma_div_multiples_vanish(65535, ratio as int);
            }
            data.push(q as u16);
        }
        i = i + 1;
    }
    data
}

/// Rescales every sample of a raster to fixed-point unit range, using one
/// global minimum and maximum over all channels.
fn rescale_unit(acc: &Raster) -> (r: Raster)
    requires
        acc@.wf(),
        acc@.bounded(ACCUM_BOUND as int),
    ensures
        r@.wf(),
        r@.same_dims(acc@),
        forall|p: int|
            0 <= p < r@.data.len() ==> #[trigger] r@.data[p] as int == rescale_unit_spec(
                acc@.data[p] as int,
                crate::aggregate::seq_min(acc@.data),
                crate::aggregate::seq_max(acc@.data),
            ),
        r@.bounded(crate::transform::SCALE_ONE as int),
{
    let lo = acc.min();
    let hi = acc.max();
    proof {
        if acc@.data.len() > 0 {
            crate::aggregate::lemma_seq_min_max(acc@.data);
            let i = choose|i: int|
                0 <= i < acc@.data.len() && acc@.data[i] == crate::aggregate::seq_min(acc@.data);
            let j = choose|j: int|
                0 <= j < acc@.data.len() && acc@.data[j] == crate::aggregate::seq_max(acc@.data);
            assert(-(ACCUM_BOUND as int) <= acc@.data[i] <= ACCUM_BOUND as int);
            assert(-(ACCUM_BOUND as int) <= acc@.data[j] <= ACCUM_BOUND as int);
        }
    }
    let scale = crate::transform::Scale::new(lo, hi);
    let samples = acc.samples();
    let n = samples.len();
    let mut data: Vec<i64> = Vec::new();
    let mut i: usize = 0;
    while i < n
        invariant
            n == samples@.len(),
            samples@ == acc@.data,
            acc@.wf(),
            acc@.bounded(ACCUM_BOUND as int),
            lo == crate::aggregate::seq_min(acc@.data),
            hi == crate::aggregate::seq_max(acc@.data),
            scale.inv(),
            scale.spec_min() == lo,
            scale.spec_max() == hi,
            i <= n,
            data@.len() == i,
            forall|p: int|
                0 <= p < i ==> #[trigger] data@[p] as int == rescale_unit_spec(
                    acc@.data[p] as int,
                    lo as int,
                    hi as int,
                ),
            forall|p: int|
                0 <= p < i ==> 0 <= #[trigger] data@[p] <= crate::transform::SCALE_ONE,
        decreases n - i,
    {
        let v = samples[i];
        proof {
            crate::aggregate::lemma_seq_min_max(acc@.data);
            assert(lo <= v <= hi);
        }
        let s = scale.apply(v);
        data.push(s);
        i = i + 1;
    }
    Raster::from_vec(acc.width(), acc.height(), acc.channels(), data)
}

/// A recomposed image, ready for an external encoder: 16-bit grayscale
/// samples, or RGB fixed-point samples in `[0, SCALE_ONE]`.
#[derive(Debug)]
pub enum RecomposedImage {
    Grayscale16 { width: usize, height: usize, data: Vec<u16> },
    Rgb { data: Raster },
}

/// Consuming a finished sequence of layers: summing them element-wise
/// into an output raster, with a final global rescale for display.
pub trait RecomposableWaveletLayers: Sized {
    spec fn layers(&self) -> Seq<WaveletLayer>;

    /// Sums the layers into a zero-initialized accumulator of the
    /// requested channel layout, then rescales by one global
    /// minimum/maximum across all channels: to the full 16-bit range for
    /// grayscale, to fixed-point unit range for RGB.  A layer whose tag
    /// or shape does not fit the requested output is a mismatch error.
    fn recompose_into_image(self, width: usize, height: usize, output_layer: OutputLayer) -> (r:
        Result<RecomposedImage, Error>)
        requires
            width <= MAX_DIM,
            height <= MAX_DIM,
            width * height * 3 <= usize::MAX,
            self.layers().len() <= MAX_LAYER_COUNT,
            forall|i: int|
                0 <= i < self.layers().len() ==> (#[trigger] self.layers()[i].buffer.grid()).bounded(
                    LAYER_BOUND as int,
                ) && self.layers()[i].buffer.grid().wf(),
        ensures
            (r matches Ok(img)) <==> (forall|i: int|
                0 <= i < self.layers().len() ==> layer_fits(
                    #[trigger] self.layers()[i],
                    output_layer,
                    false,
                    width as int,
                    height as int,
                    match output_layer {
                        OutputLayer::Grayscale => 1int,
                        OutputLayer::Rgb => 3int,
                    },
                )),
            r matches Ok(img) ==> (match output_layer {
                OutputLayer::Grayscale => ({
                    &&& img matches RecomposedImage::Grayscale16 { width: w2, height: h2, data }
                    &&& w2 == width
                    &&& h2 == height
                    &&& data@.len() == width * height
                    &&& forall|p: int|
                        0 <= p < data@.len() ==> #[trigger] data@[p] as int == rescale_u16_spec(
                            layers_sum_flat(self.layers(), p),
                            crate::aggregate::seq_min(
                                accumulated_seq(self.layers(), (width * height) as nat),
                            ),
                            crate::aggregate::seq_max(
                                accumulated_seq(self.layers(), (width * height) as nat),
                            ),
                        )
                }),
                OutputLayer::Rgb => ({
                    &&& img matches RecomposedImage::Rgb { data }
                    &&& data@.wf()
                    &&& data@.width == width
                    &&& data@.height == height
                    &&& data@.channels == 3
                    &&& forall|p: int|
                        0 <= p < data@.data.len() ==> #[trigger] data@.data[p] as int
                            == rescale_unit_spec(
                            layers_sum_flat(self.layers(), p),
                            crate::aggregate::seq_min(
                                accumulated_seq(self.layers(), (width * height * 3) as nat),
                            ),
                            crate::aggregate::seq_max(
                                accumulated_seq(self.layers(), (width * height * 3) as nat),
                            ),
                        )
                }),
            }),
            r matches Err(e) ==> e == Error::LayerMismatch,
    ;

    /// Sums raw layers element-wise into a three-channel raster, with no
    /// rescale.  A layer that is not raw, or whose shape does not fit, is
    /// a mismatch error.
    fn recompose_into_raw(self, width: usize, height: usize) -> (r: Result<Raster, Error>)
        requires
            width <= MAX_DIM,
            height <= MAX_DIM,
            width * height * 3 <= usize::MAX,
            self.layers().len() <= MAX_LAYER_COUNT,
            forall|i: int|
                0 <= i < self.layers().len() ==> (#[trigger] self.layers()[i].buffer.grid()).bounded(
                    LAYER_BOUND as int,
                ) && self.layers()[i].buffer.grid().wf(),
        ensures
            (r matches Ok(out)) <==> (forall|i: int|
                0 <= i < self.layers().len() ==> layer_fits(
                    #[trigger] self.layers()[i],
                    OutputLayer::Rgb,
                    true,
                    width as int,
                    height as int,
                    3,
                )),
            r matches Ok(out) ==> ({
                &&& out@.wf()
                &&& out@.width == width
                &&& out@.height == height
                &&& out@.channels == 3
                &&& forall|p: int|
                    0 <= p < out@.data.len() ==> #[trigger] out@.data[p] == layers_sum_flat(
                        self.layers(),
                        p,
                    )
                &&& forall|y: int, x: int, ch: int|
                    out@.in_range(y, x, ch) ==> #[trigger] out@.at(y, x, ch) == layers_sum(
                        self.layers(),
                        y,
                        x,
                        ch,
                    )
            }),
            r matches Err(e) ==> e == Error::LayerMismatch,
    ;
}

impl RecomposableWaveletLayers for Vec<WaveletLayer> {
    open spec fn layers(&self) -> Seq<WaveletLayer> {
        self@
    }

    fn recompose_into_image(self, width: usize, height: usize, output_layer: OutputLayer) -> (r:
        Result<RecomposedImage, Error>) {
        let channels = output_layer.to_num_channels();
        proof {
            assert(width * height * 1 <= width * height * 3 && width * height <= width * height
                * 3) by (nonlinear_arith)
                requires
                    0 <= width * height,
            ;
        }
        let acc = match accumulate_layers(&self, width, height, channels, output_layer, false) {
            Ok(acc) => acc,
            Err(e) => {
                return Err(e);
            },
        };
        proof {
            assert(acc@.data =~= accumulated_seq(self@, acc@.data.len() as nat));
        }
        match output_layer {
            OutputLayer::Grayscale => {
                let data = rescale_gray16(&acc);
                Ok(RecomposedImage::Grayscale16 { width, height, data })
            },
            OutputLayer::Rgb => {
                let data = rescale_unit(&acc);
                Ok(RecomposedImage::Rgb { data })
            },
        }
    }

    fn recompose_into_raw(self, width: usize, height: usize) -> (r: Result<Raster, Error>) {
        proof {
            assert(width * height <= width * height * 3) by (nonlinear_arith)
                requires
                    0 <= width * height,
            ;
        }
        let out = match accumulate_layers(&self, width, height, 3, OutputLayer::Rgb, true) {
            Ok(acc) => acc,
            Err(e) => {
                return Err(e);
            },
        };
        proof {
            assert forall|y: int, x: int, ch: int| out@.in_range(y, x, ch) implies #[trigger] out@.at(
                y,
                x,
                ch,
            ) == layers_sum(self@, y, x, ch) by {
                lemma_index_in_bounds(out@, y, x, ch);
                assert forall|i: int| 0 <= i < self@.len() implies (
                #[trigger] self@[i].buffer.grid()).same_dims(out@)
                    && self@[i].buffer.grid().wf() by {
                    assert(layer_fits(self@[i], OutputLayer::Rgb, true, width as int, height as int, 3));
                }
                lemma_layers_sum_flat_at(self@, out@, y, x, ch);
            }
        }
        Ok(out)
    }
}

/// Reconstruction identity: an output raster that holds the element-wise
/// sum of a completed transform run's layers equals the raster the
/// transform started from, sample for sample.
pub proof fn lemma_reconstruction_identity(
    ls: Seq<WaveletLayer>,
    g: GridView,
    out: GridView,
)
    requires
        g.wf(),
        out.wf(),
        out.same_dims(g),
        forall|y: int, x: int, ch: int|
            g.in_range(y, x, ch) ==> #[trigger] layers_sum(ls, y, x, ch) == g.at(y, x, ch),
        forall|y: int, x: int, ch: int|
            out.in_range(y, x, ch) ==> #[trigger] out.at(y, x, ch) == layers_sum(ls, y, x, ch),
    ensures
        out.data =~= g.data,
{
    crate::raster::lemma_grid_ext(out, g);
}

} // verus!

