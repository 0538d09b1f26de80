//! Append-only open-interest time series.
//!
//! Points arrive from periodic polls and from one historical backfill;
//! they are only ever appended in arrival order, and cleared wholesale on
//! an instrument switch.

use vstd::prelude::*;

verus! {

/// An append-only series of `(time, value)` open-interest points.
#[derive(Debug)]
pub struct OpenInterestSeries {
    pub points: Vec<(u64, u64)>,
}

impl OpenInterestSeries {
    /// An empty series.
    pub fn new() -> (r: OpenInterestSeries)
        ensures
            r.points@.len() == 0,
    {
        OpenInterestSeries { points: Vec::new() }
    }

    /// Appends one sample; nothing already stored moves.
    pub fn push(&mut self, time: u64, value: u64)
        ensures
            final(self).points@ == old(self).points@.push((time, value)),
    {
        self.points.push((time, value));
    }

    /// Appends a whole backfill response in order.
    pub fn extend(&mut self, rows: &Vec<(u64, u64)>)
        ensures
            final(self).points@ == old(self).points@ + rows@,
    {
        let ghost s0 = self.points@;
        let n = rows.len();
        let mut i: usize = 0;
        while i < n
            invariant
                0 <= i <= n == rows@.len(),
                self.points@ == s0 + rows@.take(i as int),
            decreases n - i,
        {
            self.points.push(rows[i]);
            proof {
                assert(s0 + rows@.take(i + 1) =~= (s0 + rows@.take(i as int)).push(
                    rows@[i as int],
                ));
            }
            i = i + 1;
        }
        assert(s0 + rows@.take(n as int) =~= s0 + rows@);
    }

    /// The points whose time lies in `[t0, t1]`, in stored order.
    pub fn visible(&self, t0: u64, t1: u64) -> (r: Vec<(u64, u64)>)
        ensures
            r@ == self.points@.filter(|p: (u64, u64)| t0 <= p.0 <= t1),
    {
        let mut out: Vec<(u64, u64)> = Vec::new();
        let n = self.points.len();
        let mut i: usize = 0;
        while i < n
            invariant
                0 <= i <= n == self.points@.len(),
                out@ == self.points@.take(i as int).filter(|p: (u64, u64)| t0 <= p.0 <= t1),
            decreases n - i,
        {
            let p = self.points[i];
            proof {
                assert(self.points@.take(i + 1).drop_last() =~= self.points@.take(i as int));
                reveal(Seq::filter);
            }
            if t0 <= p.0 && p.0 <= t1 {
                out.push(p);
            }
            i = i + 1;
        }
        assert(self.points@.take(n as int) =~= self.points@);
        out
    }

    /// Forgets every point.
    pub fn clear(&mut self)
        ensures
            final(self).points@.len() == 0,
    {
        self.points.clear();
    }
}

} // verus!
