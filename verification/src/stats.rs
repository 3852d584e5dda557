//! Mathematical model of roll streams: occurrence counts, sums and
//! per-face histograms, together with the lemmas that connect the
//! itemized and the counted representation of a set of rolls.

use vstd::prelude::*;

verus! {

/// How often the face value `v` occurs in the roll stream `s`.
pub open spec fn face_count(s: Seq<u8>, v: u8) -> int
    decreases s.len(),
{
    if s.len() == 0 {
        0
    } else {
        face_count(s.drop_last(), v) + if s.last() == v {
            1int
        } else {
            0int
        }
    }
}

/// Arithmetic sum of all face values in the roll stream `s`.
pub open spec fn seq_sum(s: Seq<u8>) -> int
    decreases s.len(),
{
    if s.len() == 0 {
        0
    } else {
        seq_sum(s.drop_last()) + s.last()
    }
}

/// Sum of all face values in `s` that differ from the sentinel `sent`.
pub open spec fn non_sentinel_sum(s: Seq<u8>, sent: u8) -> int
    decreases s.len(),
{
    if s.len() == 0 {
        0
    } else {
        non_sentinel_sum(s.drop_last(), sent) + if s.last() == sent {
            0int
        } else {
            s.last() as int
        }
    }
}

/// Total number of samples recorded in a count table.
pub open spec fn counts_total(c: Seq<int>) -> int
    decreases c.len(),
{
    if c.len() == 0 {
        0
    } else {
        counts_total(c.drop_last()) + c.last()
    }
}

/// Sum of the rolls a count table stands for: entry `i` counts rolls of
/// face `i + 1`, so it contributes `(i + 1) * c[i]`.
pub open spec fn weighted_sum(c: Seq<int>) -> int
    decreases c.len(),
{
    if c.len() == 0 {
        0
    } else {
        weighted_sum(c.drop_last()) + c.len() * c.last()
    }
}

/// The count table of width `sides` that the roll stream `s` fills.
pub open spec fn spec_histogram(s: Seq<u8>, sides: int) -> Seq<int> {
    Seq::new(sides as nat, |i: int| face_count(s, (i + 1) as u8))
}

/// View of an executable count table as a mathematical one.
pub open spec fn to_ints(c: Seq<u64>) -> Seq<int> {
    c.map_values(|x: u64| x as int)
}

pub proof fn lemma_face_count_le_len(s: Seq<u8>, v: u8)
    ensures
        0 <= face_count(s, v) <= s.len(),
    decreases s.len(),
{
    if s.len() > 0 {
        lemma_face_count_le_len(s.drop_last(), v);
    }
}

pub proof fn lemma_seq_sum_bounds(s: Seq<u8>, lo: int, hi: int)
    requires
        forall|i: int| 0 <= i < s.len() ==> lo <= #[trigger] s[i] <= hi,
    ensures
        lo * s.len() <= seq_sum(s) <= hi * s.len(),
    decreases s.len(),
{
    if s.len() == 0 {
    } else {
        let s0 = s.drop_last();
        lemma_seq_sum_bounds(s0, lo, hi);
        assert(lo <= s.last() <= hi);
        assert(lo * s0.len() + lo == lo * s.len()) by (nonlinear_arith)
            requires s0.len() == s.len() - 1;
        assert(hi * s0.len() + hi == hi * s.len()) by (nonlinear_arith)
            requires s0.len() == s.len() - 1;
    }
}

pub proof fn lemma_non_sentinel_sum_bounds(s: Seq<u8>, sent: u8)
    ensures
        0 <= non_sentinel_sum(s, sent) <= 255 * s.len(),
    decreases s.len(),
{
    if s.len() > 0 {
        lemma_non_sentinel_sum_bounds(s.drop_last(), sent);
    }
}

pub proof fn lemma_counts_total_nonneg(c: Seq<int>)
    requires
        forall|i: int| 0 <= i < c.len() ==> #[trigger] c[i] >= 0,
    ensures
        counts_total(c) >= 0,
    decreases c.len(),
{
    if c.len() > 0 {
        lemma_counts_total_nonneg(c.drop_last());
    }
}

pub proof fn lemma_elem_le_total(c: Seq<int>, k: int)
    requires
        forall|i: int| 0 <= i < c.len() ==> #[trigger] c[i] >= 0,
        0 <= k < c.len(),
    ensures
        c[k] <= counts_total(c),
    decreases c.len(),
{
    let c0 = c.drop_last();
    if k == c.len() - 1 {
        lemma_counts_total_nonneg(c0);
    } else {
        lemma_elem_le_total(c0, k);
    }
}

pub proof fn lemma_counts_total_update(c: Seq<int>, k: int, delta: int)
    requires
        0 <= k < c.len(),
    ensures
        counts_total(c.update(k, c[k] + delta)) == counts_total(c) + delta,
    decreases c.len(),
{
    let u = c.update(k, c[k] + delta);
    if k == c.len() - 1 {
        assert(u.drop_last() =~= c.drop_last());
    } else {
        assert(u.drop_last() =~= c.drop_last().update(k, c[k] + delta));
        lemma_counts_total_update(c.drop_last(), k, delta);
    }
}

pub proof fn lemma_weighted_sum_update(c: Seq<int>, k: int, delta: int)
    requires
        0 <= k < c.len(),
    ensures
        weighted_sum(c.update(k, c[k] + delta)) == weighted_sum(c) + (k + 1) * delta,
    decreases c.len(),
{
    let u = c.update(k, c[k] + delta);
    if k == c.len() - 1 {
        assert(u.drop_last() =~= c.drop_last());
        assert(c.len() * (c[k] + delta) == c.len() * c[k] + c.len() * delta)
            by (nonlinear_arith);
    } else {
        assert(u.drop_last() =~= c.drop_last().update(k, c[k] + delta));
        lemma_weighted_sum_update(c.drop_last(), k, delta);
    }
}

pub proof fn lemma_weighted_sum_le(c: Seq<int>)
    requires
        forall|i: int| 0 <= i < c.len() ==> #[trigger] c[i] >= 0,
    ensures
        counts_total(c) <= weighted_sum(c) <= c.len() * counts_total(c),
    decreases c.len(),
{
    if c.len() == 0 {
    } else {
        let c0 = c.drop_last();
        lemma_weighted_sum_le(c0);
        lemma_counts_total_nonneg(c0);
        assert(weighted_sum(c0) <= c0.len() * counts_total(c0));
        assert(c0.len() * counts_total(c0) + c.len() * c.last()
            <= c.len() * (counts_total(c0) + c.last())) by (nonlinear_arith)
            requires
                c0.len() == c.len() - 1,
                counts_total(c0) >= 0,
                c.last() >= 0,
                c.len() >= 1;
        assert(c.last() <= c.len() * c.last()) by (nonlinear_arith)
            requires
                c.last() >= 0,
                c.len() >= 1;
    }
}

proof fn lemma_histogram_zero(sides: int)
    requires
        sides >= 0,
    ensures
        counts_total(spec_histogram(Seq::<u8>::empty(), sides)) == 0,
        weighted_sum(spec_histogram(Seq::<u8>::empty(), sides)) == 0,
    decreases sides,
{
    let h = spec_histogram(Seq::<u8>::empty(), sides);
    if sides > 0 {
        lemma_histogram_zero(sides - 1);
        assert(h.drop_last() =~= spec_histogram(Seq::<u8>::empty(), sides - 1));
        assert(h.last() == 0);
    }
}

proof fn lemma_histogram_push(s: Seq<u8>, x: u8, sides: int)
    requires
        1 <= x <= sides <= 255,
    ensures
        spec_histogram(s.push(x), sides) =~= spec_histogram(s, sides).update(
            x - 1,
            spec_histogram(s, sides)[x - 1] + 1,
        ),
{
    let h0 = spec_histogram(s, sides);
    let h1 = spec_histogram(s.push(x), sides);
    assert forall|i: int| 0 <= i < sides implies h1[i] == h0.update(x - 1, h0[x - 1] + 1)[i] by {
        assert(s.push(x).drop_last() =~= s);
        assert(s.push(x).last() == x);
        assert(face_count(s.push(x), (i + 1) as u8) == face_count(s, (i + 1) as u8) + if (i
            + 1) as u8 == x {
            1int
        } else {
            0int
        });
    }
}

/// Itemized and counted bookkeeping agree: for any fixed set of rolls whose
/// faces lie in `[1, sides]`, the arithmetic sum of the rolls equals the
/// weighted sum of the per-face count table, and the table records exactly
/// as many samples as there are rolls.
pub proof fn lemma_itemized_counted_agree(s: Seq<u8>, sides: int)
    requires
        1 <= sides <= 255,
        forall|i: int| 0 <= i < s.len() ==> 1 <= #[trigger] s[i] <= sides,
    ensures
        seq_sum(s) == weighted_sum(spec_histogram(s, sides)),
        counts_total(spec_histogram(s, sides)) == s.len(),
    decreases s.len(),
{
    if s.len() == 0 {
        assert(s =~= Seq::<u8>::empty());
        lemma_histogram_zero(sides);
    } else {
        let s0 = s.drop_last();
        let x = s.last();
        assert(forall|i: int| 0 <= i < s0.len() ==> 1 <= #[trigger] s0[i] <= sides);
        lemma_itemized_counted_agree(s0, sides);
        assert(s =~= s0.push(x));
        lemma_histogram_push(s0, x, sides);
        let h0 = spec_histogram(s0, sides);
        lemma_weighted_sum_update(h0, x - 1, 1);
        lemma_counts_total_update(h0, x - 1, 1);
        assert(weighted_sum(spec_histogram(s, sides)) == weighted_sum(h0) + x);
    }
}

} // verus!
