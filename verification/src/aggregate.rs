use vstd::prelude::*;

verus! {

use crate::raster::Raster;

/// Smallest sample of a sequence, or 0 for an empty sequence.
pub open spec fn seq_min(s: Seq<i64>) -> int
    decreases s.len(),
{
    if s.len() == 0 {
        0
    } else if s.len() == 1 {
        s[0] as int
    } else {
        let rest = seq_min(s.drop_last());
        if s.last() as int <= rest {
            s.last() as int
        } else {
            rest
        }
    }
}

/// Largest sample of a sequence, or 1 for an empty sequence.
pub open spec fn seq_max(s: Seq<i64>) -> int
    decreases s.len(),
{
    if s.len() == 0 {
        1
    } else if s.len() == 1 {
        s[0] as int
    } else {
        let rest = seq_max(s.drop_last());
        if s.last() as int >= rest {
            s.last() as int
        } else {
            rest
        }
    }
}

/// On a non-empty sequence the aggregates bound every sample and are
/// themselves samples.
pub proof fn lemma_seq_min_max(s: Seq<i64>)
    requires
        s.len() > 0,
    ensures
        forall|i: int| 0 <= i < s.len() ==> seq_min(s) <= #[trigger] s[i] <= seq_max(s),
        exists|i: int| 0 <= i < s.len() && s[i] == seq_min(s),
        exists|i: int| 0 <= i < s.len() && s[i] == seq_max(s),
        seq_min(s) <= seq_max(s),
    decreases s.len(),
{
    if s.len() > 1 {
        lemma_seq_min_max(s.drop_last());
        assert forall|i: int| 0 <= i < s.len() implies seq_min(s) <= #[trigger] s[i] <= seq_max(
            s,
        ) by {
            if i < s.len() - 1 {
                assert(s.drop_last()[i] == s[i]);
            }
        }
        let j = choose|j: int| 0 <= j < s.drop_last().len() && s.drop_last()[j] == seq_min(
            s.drop_last(),
        );
        let m = choose|m: int| 0 <= m < s.drop_last().len() && s.drop_last()[m] == seq_max(
            s.drop_last(),
        );
        assert(s.drop_last()[j] == s[j]);
        assert(s.drop_last()[m] == s[m]);
        if s.last() as int <= seq_min(s.drop_last()) {
            assert(s[s.len() - 1] == seq_min(s));
        } else {
            assert(s[j] == seq_min(s));
        }
        if s.last() as int >= seq_max(s.drop_last()) {
            assert(s[s.len() - 1] == seq_max(s));
        } else {
            assert(s[m] == seq_max(s));
        }
    } else {
        assert(s[0] == seq_min(s));
        assert(s[0] == seq_max(s));
    }
}

/// Aggregate passes over a sample buffer: the smallest and largest sample,
/// with the defined defaults 0 and 1 for an empty buffer.
pub trait Aggregate {
    spec fn agg_samples(&self) -> Seq<i64>;

    spec fn agg_wf(&self) -> bool;

    fn min(&self) -> (r: i64)
        requires
            self.agg_wf(),
        ensures
            r == seq_min(self.agg_samples()),
    ;

    fn max(&self) -> (r: i64)
        requires
            self.agg_wf(),
        ensures
            r == seq_max(self.agg_samples()),
    ;
}

impl Aggregate for Raster {
    open spec fn agg_samples(&self) -> Seq<i64> {
        self@.data
    }

    open spec fn agg_wf(&self) -> bool {
        self@.wf()
    }

    fn min(&self) -> (r: i64) {
        let data = self.samples();
        let n = data.len();
        if n == 0 {
            return 0;
        }
        let mut cur: i64 = data[0];
        let mut i: usize = 1;
        while i < n
            invariant
                1 <= i <= n,
                n == data@.len(),
                data@ == self@.data,
                cur == seq_min(data@.take(i as int)),
            decreases n - i,
        {
            let v = data[i];
            proof {
                assert(data@.take(i + 1).drop_last() =~= data@.take(i as int));
                assert(data@.take(i + 1).last() == data@[i as int]);
            }
            if v < cur {
                cur = v;
            }
            i = i + 1;
        }
        proof {
            assert(data@.take(n as int) =~= data@);
        }
        cur
    }

    fn max(&self) -> (r: i64) {
        let data = self.samples();
        let n = data.len();
        if n == 0 {
            return 1;
        }
        let mut cur: i64 = data[0];
        let mut i: usize = 1;
        while i < n
            invariant
                1 <= i <= n,
                n == data@.len(),
                data@ == self@.data,
                cur == seq_max(data@.take(i as int)),
            decreases n - i,
        {
            let v = data[i];
            proof {
                assert(data@.take(i + 1).drop_last() =~= data@.take(i as int));
                assert(data@.take(i + 1).last() == data@[i as int]);
            }
            if v > cur {
                cur = v;
            }
            i = i + 1;
        }
        proof {
            assert(data@.take(n as int) =~= data@);
        }
        cur
    }
}

} // verus!
