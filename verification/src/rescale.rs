use vstd::prelude::*;

verus! {

use crate::aggregate::{lemma_seq_min_max, seq_max, seq_min};
use crate::raster::{GridView, Raster};
use crate::transform::{Scale, SCALE_INPUT_BOUND};

/// The samples of one channel, in pixel order.
pub open spec fn channel_seq(g: GridView, ch: int) -> Seq<i64> {
    Seq::new((g.width * g.height) as nat, |p: int| g.data[p * g.channels + ch])
}

/// A flat pixel index addresses its channel sample inside the buffer.
proof fn lemma_channel_index(g: GridView, ch: int, p: int)
    requires
        g.wf(),
        0 <= ch < g.channels,
        0 <= p < g.width * g.height,
    ensures
        0 <= p * g.channels + ch < g.data.len(),
{
    let c = g.channels;
    assert(0 <= p * c + ch < g.width * g.height * c) by (nonlinear_arith)
        requires
            0 <= p < g.width * g.height,
            0 <= ch < c,
            1 <= c,
    ;
}

/// The smallest and largest sample of one channel.
fn channel_min_max(r: &Raster, ch: usize) -> (mm: (i64, i64))
    requires
        r@.wf(),
        ch < r@.channels,
    ensures
        mm.0 == seq_min(channel_seq(r@, ch as int)),
        mm.1 == seq_max(channel_seq(r@, ch as int)),
{
    let ghost cs = channel_seq(r@, ch as int);
    let w = r.width();
    let h = r.height();
    let c = r.channels();
    let data = r.samples();
    let dn = data.len();
    proof {
        assert(w * h <= w * h * c) by (nonlinear_arith)
            requires
                0 <= w * h,
                1 <= c,
        ;
        assert(dn == r@.data.len());
        assert(r@.data.len() == w * h * c);
    }
    let count = w * h;
    if count == 0 {
        proof {
            assert(cs.len() == 0);
        }
        return (0, 1);
    }
    proof {
        lemma_channel_index(r@, ch as int, 0);
        assert(cs[0] == r@.data[0 * (c as int) + ch]);
        assert(0 * (c as int) + ch == ch as int);
    }
    let mut lo: i64 = data[ch];
    let mut hi: i64 = lo;
    let mut p: usize = 1;
    proof {
        assert(cs.take(1).len() == 1);
        assert(cs.take(1)[0] == cs[0]);
    }
    while p < count
        invariant
            1 <= p <= count,
            count == r@.width * r@.height,
            w == r@.width,
            h == r@.height,
            c == r@.channels,
            ch < c,
            r@.wf(),
            data@ == r@.data,
            cs == channel_seq(r@, ch as int),
            cs.len() == count,
            r@.data.len() <= usize::MAX,
            lo == seq_min(cs.take(p as int)),
            hi == seq_max(cs.take(p as int)),
        decreases count - p,
    {
        proof {
            lemma_channel_index(r@, ch as int, p as int);
            assert(cs[p as int] == r@.data[(p as int) * (c as int) + ch]);
            assert(cs.take(p + 1).drop_last() =~= cs.take(p as int));
            assert(cs.take(p + 1).last() == cs[p as int]);
        }
        let idx = p * c + ch;
        let v = data[idx];
        if v < lo {
            lo = v;
        }
        if v > hi {
            hi = v;
        }
        p = p + 1;
    }
    proof {
        assert(cs.take(count as int) =~= cs);
    }
    (lo, hi)
}

/// Per-channel rescale descriptors for a three-channel raster: the legacy
/// mode in which each channel is normalized by its own range, as opposed
/// to the one global range a recomposition uses.
pub trait RescalableImage {
    spec fn rsc_grid(&self) -> GridView;

    /// One `Scale` per channel, each recording that channel's own
    /// smallest and largest sample.
    fn get_scaling_parameters(&self) -> (r: [Scale; 3])
        requires
            self.rsc_grid().wf(),
            self.rsc_grid().channels == 3,
            self.rsc_grid().bounded(SCALE_INPUT_BOUND as int),
        ensures
            forall|ch: int|
                0 <= ch < 3 ==> {
                    &&& (#[trigger] r[ch]).spec_min() == seq_min(channel_seq(self.rsc_grid(), ch))
                    &&& r[ch].spec_max() == seq_max(channel_seq(self.rsc_grid(), ch))
                    &&& r[ch].inv()
                },
    ;
}

impl RescalableImage for Raster {
    open spec fn rsc_grid(&self) -> GridView {
        self@
    }

    fn get_scaling_parameters(&self) -> (r: [Scale; 3]) {
        let (lo0, hi0) = channel_min_max(self, 0);
        let (lo1, hi1) = channel_min_max(self, 1);
        let (lo2, hi2) = channel_min_max(self, 2);
        proof {
            lemma_channel_bounds(self@, 0);
            lemma_channel_bounds(self@, 1);
            lemma_channel_bounds(self@, 2);
        }
        let s0 = Scale::new(lo0, hi0);
        let s1 = Scale::new(lo1, hi1);
        let s2 = Scale::new(lo2, hi2);
        let r = [s0, s1, s2];
        proof {
            assert(r[0] == s0);
            assert(r[1] == s1);
            assert(r[2] == s2);
        }
        r
    }
}

/// A bounded raster's channel aggregates are bounded and ordered.
proof fn lemma_channel_bounds(g: GridView, ch: int)
    requires
        g.wf(),
        0 <= ch < g.channels,
        g.bounded(SCALE_INPUT_BOUND as int),
    ensures
        -(SCALE_INPUT_BOUND as int) <= seq_min(channel_seq(g, ch)) <= seq_max(channel_seq(g, ch))
            <= SCALE_INPUT_BOUND as int,
{
    let cs = channel_seq(g, ch);
    if cs.len() == 0 {
    } else {
        lemma_seq_min_max(cs);
        let i = choose|i: int| 0 <= i < cs.len() && cs[i] == seq_min(cs);
        let j = choose|j: int| 0 <= j < cs.len() && cs[j] == seq_max(cs);
        lemma_channel_index(g, ch, i);
        lemma_channel_index(g, ch, j);
        assert(cs[i] == g.data[i * g.channels + ch]);
        assert(cs[j] == g.data[j * g.channels + ch]);
    }
}

} // verus!
