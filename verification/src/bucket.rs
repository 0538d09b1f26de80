//! Price-grid grouping shared by the order-book view and the footprint.
//!
//! A fixed-point price `p` falls in the bucket keyed by the greatest
//! multiple of the bucket size not above `p`, so a bucket keyed `k` covers
//! prices `k .. k + bucket_size`. Keys stay integers, which keeps distinct
//! buckets distinct — the point of the integer-key technique. Totals are
//! `u128`, wide enough for any sum of `u64` quantities a vector can hold.

use vstd::prelude::*;

verus! {

/// The bucket key of price `p` at bucket size `b`: the greatest multiple
/// of `b` not above `p`.
pub open spec fn bucket_of(p: u64, b: u64) -> int
    recommends
        b > 0,
{
    (p as int / b as int) * (b as int)
}

/// Total quantity of the pairs of `s` whose price falls in bucket `k`.
pub open spec fn bucket_sum(s: Seq<(u64, u64)>, b: u64, k: int) -> int
    decreases s.len(),
{
    if s.len() == 0 {
        0
    } else {
        bucket_sum(s.drop_last(), b, k) + if bucket_of(s.last().0, b) == k {
            s.last().1 as int
        } else {
            0
        }
    }
}

/// Some pair of `s` falls in bucket `k`.
pub open spec fn bucket_occupied(s: Seq<(u64, u64)>, b: u64, k: int) -> bool {
    exists|i: int| 0 <= i < s.len() && bucket_of(s[i].0, b) == k
}

/// `g` holds an entry for key `k`.
pub open spec fn has_key(g: Seq<(u64, u128)>, k: int) -> bool {
    exists|i: int| 0 <= i < g.len() && g[i].0 == k
}

/// `g` is exactly the grouping of `s` at bucket size `b`: one entry per
/// occupied bucket, each carrying the total raw quantity of its bucket.
pub open spec fn groups_exactly(s: Seq<(u64, u64)>, b: u64, g: Seq<(u64, u128)>) -> bool {
    &&& forall|i: int, j: int| 0 <= i < j < g.len() ==> (#[trigger] g[i].0) != (#[trigger] g[j].0)
    &&& forall|i: int|
        0 <= i < g.len() ==> bucket_occupied(s, b, (#[trigger] g[i].0) as int) && g[i].1
            == bucket_sum(s, b, g[i].0 as int)
    &&& forall|k: int| bucket_occupied(s, b, k) ==> has_key(g, k)
}

/// A bucket total is bounded by the number of pairs times the largest
/// quantity, so it always fits in `u128`.
proof fn lemma_bucket_sum_bounds(s: Seq<(u64, u64)>, b: u64, k: int)
    ensures
        0 <= bucket_sum(s, b, k) <= s.len() * (u64::MAX as int),
    decreases s.len(),
{
    if s.len() == 0 {
    } else {
        lemma_bucket_sum_bounds(s.drop_last(), b, k);
        assert((s.len() - 1) * (u64::MAX as int) + (u64::MAX as int) == s.len() * (
        u64::MAX as int)) by (nonlinear_arith);
    }
}

/// Groups fixed-point `(price, quantity)` pairs by price bucket. The result
/// keys each occupied bucket once, in first-occurrence order, with the
/// exact total of the quantities that fall in it.
pub fn group_pairs(s: &Vec<(u64, u64)>, b: u64) -> (g: Vec<(u64, u128)>)
    requires
        b > 0,
    ensures
        groups_exactly(s@, b, g@),
{
    let mut g: Vec<(u64, u128)> = Vec::new();
    let n = s.len();
    let mut i: usize = 0;
    while i < n
        invariant
            0 <= i <= n == s@.len(),
            b > 0,
            forall|x: int, y: int|
                0 <= x < y < g@.len() ==> (#[trigger] g@[x].0) != (#[trigger] g@[y].0),
            forall|x: int|
                0 <= x < g@.len() ==> bucket_occupied(s@.take(i as int), b, (#[trigger] g@[x].0) as int)
                    && g@[x].1 == bucket_sum(s@.take(i as int), b, g@[x].0 as int),
            forall|k: int| bucket_occupied(s@.take(i as int), b, k) ==> has_key(g@, k),
        decreases n - i,
    {
        let (p, q) = s[i];
        proof {
            assert((p as int / b as int) * (b as int) <= p as int && 0 <= (p as int / b as int) * (
            b as int)) by (nonlinear_arith)
                requires
                    b > 0,
                    p >= 0,
            ;
        }
        let key: u64 = (p / b) * b;
        proof {
            assert(key as int == bucket_of(p, b));
            assert(s@.take(i + 1).drop_last() =~= s@.take(i as int));
            assert(s@.take(i + 1).last() == (p, q));
            // One more pair moves every bucket total by its own contribution.
            assert forall|k: int|
                bucket_sum(s@.take(i + 1), b, k) == bucket_sum(s@.take(i as int), b, k) + (
                if bucket_of(p, b) == k {
                    q as int
                } else {
                    0
                }) by {}
            // A bucket the prefix occupies is occupied by the longer prefix too,
            // and the new pair occupies its own bucket.
            assert forall|k: int|
                bucket_occupied(s@.take(i as int), b, k) implies bucket_occupied(
                s@.take(i + 1),
                b,
                k,
            ) by {
                let w = choose|w: int|
                    0 <= w < s@.take(i as int).len() && bucket_of(
                        (#[trigger] s@.take(i as int)[w]).0,
                        b,
                    ) == k;
                assert(s@.take(i + 1)[w] == s@.take(i as int)[w]);
            }
            assert(s@.take(i + 1)[i as int] == (p, q));
            assert(bucket_occupied(s@.take(i + 1), b, key as int));
            // A bucket the longer prefix occupies is either the new pair's
            // bucket or one the shorter prefix already occupied.
            assert forall|k: int|
                bucket_occupied(s@.take(i + 1), b, k) && k != key as int implies bucket_occupied(
                s@.take(i as int),
                b,
                k,
            ) by {
                let w = choose|w: int|
                    0 <= w < s@.take(i + 1).len() && bucket_of(
                        (#[trigger] s@.take(i + 1)[w]).0,
                        b,
                    ) == k;
                assert(w < i);
                assert(s@.take(i as int)[w] == s@.take(i + 1)[w]);
            }
        }
        let ghost gpre = g@;
        // Find this key among the entries gathered so far.
        let m = g.len();
        let mut j: usize = 0;
        let mut found = false;
        while j < m && !found
            invariant
                0 <= j <= m == g@.len(),
                g@ == gpre,
                !found ==> forall|x: int| 0 <= x < j ==> (#[trigger] g@[x].0) != key,
                found ==> j < m && g@[j as int].0 == key,
            decreases m - j + (if found { 0int } else { 1int }),
        {
            if g[j].0 == key {
                found = true;
            } else {
                j = j + 1;
            }
        }
        if found {
            let (k0, t0) = g[j];
            proof {
                lemma_bucket_sum_bounds(s@.take(i as int), b, key as int);
                assert((s@.take(i as int).len() as int) * (u64::MAX as int) + (u64::MAX as int)
                    <= (u128::MAX as int)) by (nonlinear_arith)
                    requires
                        s@.take(i as int).len() <= u64::MAX,
                ;
            }
            let t1 = t0 + (q as u128);
            g.set(j, (k0, t1));
            proof {
                assert forall|x: int|
                    0 <= x < g@.len() implies bucket_occupied(
                    s@.take(i + 1),
                    b,
                    (#[trigger] g@[x].0) as int,
                ) && g@[x].1 == bucket_sum(s@.take(i + 1), b, g@[x].0 as int) by {
                    if x != j {
                        assert(g@[x] == gpre[x]);
                    } else {
                        assert(g@[x] == (k0, t1));
                    }
                }
                assert forall|k: int| bucket_occupied(s@.take(i + 1), b, k) implies has_key(
                    g@,
                    k,
                ) by {
                    if k == key as int {
                        assert(g@[j as int].0 == key);
                    } else {
                        assert(bucket_occupied(s@.take(i as int), b, k));
                        assert(has_key(gpre, k));
                        let x = choose|x: int| 0 <= x < gpre.len() && (#[trigger] gpre[x]).0 == k;
                        assert(g@[x].0 == gpre[x].0);
                    }
                }
            }
        } else {
            proof {
                if bucket_occupied(s@.take(i as int), b, key as int) {
                    assert(has_key(gpre, key as int));
                    let x = choose|x: int|
                        0 <= x < gpre.len() && (#[trigger] gpre[x]).0 == key as int;
                    assert(false);
                }
            }
            g.push((key, q as u128));
            proof {
                assert(g@.drop_last() =~= gpre);
                assert forall|x: int|
                    0 <= x < g@.len() implies bucket_occupied(
                    s@.take(i + 1),
                    b,
                    (#[trigger] g@[x].0) as int,
                ) && g@[x].1 == bucket_sum(s@.take(i + 1), b, g@[x].0 as int) by {
                    if x < gpre.len() {
                        assert(g@[x] == gpre[x]);
                    } else {
                        assert(g@[x] == (key, q as u128));
                        assert(bucket_sum(s@.take(i as int), b, key as int) == 0) by {
                            lemma_unoccupied_sum_zero(s@.take(i as int), b, key as int);
                        }
                    }
                }
                assert forall|k: int| bucket_occupied(s@.take(i + 1), b, k) implies has_key(
                    g@,
                    k,
                ) by {
                    if k == key as int {
                        assert(g@[g@.len() - 1].0 == key);
                    } else {
                        assert(bucket_occupied(s@.take(i as int), b, k));
                        assert(has_key(gpre, k));
                        let x = choose|x: int| 0 <= x < gpre.len() && (#[trigger] gpre[x]).0 == k;
                        assert(g@[x].0 == gpre[x].0);
                    }
                }
            }
        }
        i = i + 1;
    }
    assert(s@.take(n as int) =~= s@);
    g
}

/// A bucket no pair falls in totals zero.
proof fn lemma_unoccupied_sum_zero(s: Seq<(u64, u64)>, b: u64, k: int)
    requires
        !bucket_occupied(s, b, k),
    ensures
        bucket_sum(s, b, k) == 0,
    decreases s.len(),
{
    if s.len() > 0 {
        assert(forall|i: int|
            0 <= i < s.drop_last().len() ==> s.drop_last()[i] == (#[trigger] s[i]));
        lemma_unoccupied_sum_zero(s.drop_last(), b, k);
        assert(bucket_of(s.last().0, b) != k) by {
            assert(s[s.len() - 1] == s.last());
        }
    }
}

} // verus!
