use vstd::prelude::*;

verus! {

use vstd::arithmetic::mul::lemma_mul_inequality;

/// Largest admitted width or height of a raster.
pub const MAX_DIM: usize = 65536;

/// Largest admitted channel count of a raster.
pub const MAX_CHANNELS: usize = 16;

/// Largest magnitude admitted for a sample handed to the decomposition.
/// Kernel weight sums stay below `2^12`, so convolution accumulators over
/// such samples stay far inside `i64`.
pub const INPUT_BOUND: i64 = 0x100_0000_0000;

/// Largest magnitude a detail layer can reach: the difference of two
/// samples that are each within `INPUT_BOUND`.
pub const LAYER_BOUND: i64 = 0x200_0000_0000;

/// Mathematical image of a raster: its dimensions and the flat sample
/// sequence, row-major, channels interleaved within a pixel.
pub struct GridView {
    pub width: int,
    pub height: int,
    pub channels: int,
    pub data: Seq<i64>,
}

impl GridView {
    pub open spec fn wf(self) -> bool {
        &&& 0 <= self.width <= MAX_DIM
        &&& 0 <= self.height <= MAX_DIM
        &&& 1 <= self.channels <= MAX_CHANNELS
        &&& self.data.len() == self.width * self.height * self.channels
    }

    /// Flat index of channel `ch` of the pixel in row `y`, column `x`.
    pub open spec fn index_of(self, y: int, x: int, ch: int) -> int {
        (y * self.width + x) * self.channels + ch
    }

    /// Sample of channel `ch` of the pixel in row `y`, column `x`.
    pub open spec fn at(self, y: int, x: int, ch: int) -> int {
        self.data[self.index_of(y, x, ch)] as int
    }

    pub open spec fn in_range(self, y: int, x: int, ch: int) -> bool {
        0 <= y < self.height && 0 <= x < self.width && 0 <= ch < self.channels
    }

    /// Every sample has magnitude at most `b`.
    pub open spec fn bounded(self, b: int) -> bool {
        forall|i: int| 0 <= i < self.data.len() ==> -b <= #[trigger] self.data[i] <= b
    }

    /// Every sample lies in `[lo, hi]`.
    pub open spec fn within(self, lo: int, hi: int) -> bool {
        forall|i: int| 0 <= i < self.data.len() ==> lo <= #[trigger] self.data[i] <= hi
    }

    pub open spec fn same_dims(self, other: GridView) -> bool {
        &&& self.width == other.width
        &&& self.height == other.height
        &&& self.channels == other.channels
    }
}

/// An in-range pixel coordinate addresses a sample inside the flat buffer.
pub proof fn lemma_index_in_bounds(g: GridView, y: int, x: int, ch: int)
    requires
        g.wf(),
        g.in_range(y, x, ch),
    ensures
        0 <= g.index_of(y, x, ch) < g.data.len(),
        0 <= y * g.width + x < g.width * g.height <= g.data.len(),
{
    let w = g.width;
    let h = g.height;
    let c = g.channels;
    assert(0 <= (y * w + x) * c + ch && (y * w + x) * c + ch < w * h * c && 0 <= y * w + x < w * h
        <= w * h * c) by (nonlinear_arith)
        requires
            0 <= y < h,
            0 <= x < w,
            0 <= ch < c,
            1 <= c,
    ;
}

/// Flat indices follow the lexicographic order of `(row, column, channel)`.
pub proof fn lemma_index_lex(g: GridView, a: int, b: int, e: int, y: int, x: int, ch: int)
    requires
        g.wf(),
        g.in_range(a, b, e),
        g.in_range(y, x, ch),
        a < y || (a == y && b < x) || (a == y && b == x && e < ch),
    ensures
        g.index_of(a, b, e) < g.index_of(y, x, ch),
{
    let w = g.width;
    let c = g.channels;
    assert((a * w + b) * c + e < (y * w + x) * c + ch) by (nonlinear_arith)
        requires
            0 <= a < g.height,
            0 <= b < w,
            0 <= e < c,
            0 <= y < g.height,
            0 <= x < w,
            0 <= ch < c,
            1 <= c,
            a < y || (a == y && b < x) || (a == y && b == x && e < ch),
    ;
}

/// Two grids of the same shape whose samples agree pixel-wise are equal.
pub proof fn lemma_grid_ext(a: GridView, b: GridView)
    requires
        a.wf(),
        b.wf(),
        a.same_dims(b),
        forall|y: int, x: int, ch: int|
            a.in_range(y, x, ch) ==> #[trigger] a.at(y, x, ch) == b.at(y, x, ch),
    ensures
        a.data =~= b.data,
{
    let w = a.width;
    let c = a.channels;
    assert forall|i: int| 0 <= i < a.data.len() implies a.data[i] == b.data[i] by {
        let ch = i % c;
        let p = i / c;
        let x = p % w;
        let y = p / w;
        assert(0 <= ch < c && i == p * c + ch) by (nonlinear_arith)
            requires
                0 <= i,
                1 <= c,
                ch == i % c,
                p == i / c,
        ;
        assert(w >= 1) by {
            assert(i < a.data.len());
            assert(a.data.len() == w * a.height * c);
            if w == 0 {
                assert(w * a.height * c == 0) by (nonlinear_arith)
                    requires w == 0,
                ;
            }
        }
        assert(0 <= x < w && p == y * w + x) by (nonlinear_arith)
            requires
                0 <= p,
                1 <= w,
                x == p % w,
                y == p / w,
        ;
        assert(a.in_range(y, x, ch)) by {
            assert(p * c + ch < w * a.height * c);
            assert(y < a.height) by (nonlinear_arith)
                requires
                    p == y * w + x,
                    0 <= x < w,
                    0 <= ch < c,
                    1 <= c,
                    1 <= w,
                    0 <= y,
                    p * c + ch < w * a.height * c,
            ;
        }
        assert(a.at(y, x, ch) == b.at(y, x, ch));
        assert(a.index_of(y, x, ch) == i);
    }
}

/// A dense raster of signed 64-bit fixed-point samples: `channels` samples
/// per pixel, pixels row-major.
#[derive(Debug)]
pub struct Raster {
    width: usize,
    height: usize,
    channels: usize,
    data: Vec<i64>,
}

impl View for Raster {
    type V = GridView;

    closed spec fn view(&self) -> GridView {
        GridView {
            width: self.width as int,
            height: self.height as int,
            channels: self.channels as int,
            data: self.data@,
        }
    }
}

impl Raster {
    /// A raster of the given shape with every sample zero.
    pub fn zeros(width: usize, height: usize, channels: usize) -> (r: Raster)
        requires
            width <= MAX_DIM,
            height <= MAX_DIM,
            1 <= channels <= MAX_CHANNELS,
            width * height * channels <= usize::MAX,
        ensures
            r@.wf(),
            r@.width == width,
            r@.height == height,
            r@.channels == channels,
            forall|i: int| 0 <= i < r@.data.len() ==> #[trigger] r@.data[i] == 0,
    {
        proof {
            assert(width * height <= width * height * channels) by (nonlinear_arith)
                requires
                    0 <= width * height,
                    1 <= channels,
            ;
        }
        let len = width * height * channels;
        let mut data: Vec<i64> = Vec::new();
        let mut i: usize = 0;
        while i < len
            invariant
                i <= len,
                data@.len() == i,
                forall|j: int| 0 <= j < i ==> #[trigger] data@[j] == 0,
            decreases len - i,
        {
            data.push(0);
            i = i + 1;
        }
        Raster { width, height, channels, data }
    }

    /// A raster over a caller-supplied flat sample buffer.
    pub fn from_vec(width: usize, height: usize, channels: usize, data: Vec<i64>) -> (r: Raster)
        requires
            width <= MAX_DIM,
            height <= MAX_DIM,
            1 <= channels <= MAX_CHANNELS,
            data@.len() == width * height * channels,
        ensures
            r@.wf(),
            r@.width == width,
            r@.height == height,
            r@.channels == channels,
            r@.data == data@,
    {
        Raster { width, height, channels, data }
    }

    pub fn width(&self) -> (r: usize)
        ensures
            r == self@.width,
    {
        self.width
    }

    pub fn height(&self) -> (r: usize)
        ensures
            r == self@.height,
    {
        self.height
    }

    pub fn channels(&self) -> (r: usize)
        ensures
            r == self@.channels,
    {
        self.channels
    }

    /// The flat sample buffer, row-major, channels interleaved.
    pub fn samples(&self) -> (r: &Vec<i64>)
        ensures
            r@ == self@.data,
    {
        &self.data
    }

    /// Sample of channel `ch` of the pixel in row `y`, column `x`.
    pub fn get(&self, y: usize, x: usize, ch: usize) -> (v: i64)
        requires
            self@.wf(),
            self@.in_range(y as int, x as int, ch as int),
        ensures
            v == self@.at(y as int, x as int, ch as int),
    {
        let n = self.data.len();
        proof {
            lemma_index_in_bounds(self@, y as int, x as int, ch as int);
            assert(y * self@.width <= y * self@.width + x);
        }
        self.data[(y * self.width + x) * self.channels + ch]
    }
}

impl Clone for Raster {
    /// A clone carries the same shape and samples.
    fn clone(&self) -> (r: Self)
        ensures
            r@ == self@,
    {
        let data = self.data.clone();
        proof {
            assert(data@ =~= self.data@);
        }
        Raster { width: self.width, height: self.height, channels: self.channels, data }
    }
}

} // verus!
