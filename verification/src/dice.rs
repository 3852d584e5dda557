//! Plain dice: rolling N-sided dice through the software sampler and
//! deriving summary statistics from a roll result, in both the itemized
//! and the counted representation.

use vstd::prelude::*;
use crate::rng;
use crate::stats::{
    counts_total, face_count, lemma_counts_total_update, lemma_elem_le_total,
    lemma_face_count_le_len, lemma_itemized_counted_agree, lemma_seq_sum_bounds,
    lemma_weighted_sum_le, seq_sum, spec_histogram, to_ints, weighted_sum,
};

verus! {

/// One allowed plain die: its number of sides.
pub struct Dice {
    pub sides: u8,
}

/// The catalog of allowed plain die side counts.
pub struct Dices {
    pub dices: Vec<u8>,
}

impl Dices {
    pub fn len(&self) -> (n: usize)
        ensures
            n == self.dices@.len(),
    {
        self.dices.len()
    }

    /// Whether rolling dice with `sides` sides is allowed by this catalog.
    pub fn allows(&self, sides: u8) -> (b: bool)
        ensures
            b == self.dices@.contains(sides),
    {
        let n = self.dices.len();
        let mut i: usize = 0;
        while i < n
            invariant
                n == self.dices@.len(),
                0 <= i <= n,
                forall|j: int| 0 <= j < i ==> self.dices@[j] != sides,
            decreases n - i,
        {
            if self.dices[i] == sides {
                return true;
            }
            i += 1;
        }
        false
    }
}

impl Default for Dices {
    /// The stock catalog: 2, 3, 4, 6, 8, 10, 20 and 100 sides.
    fn default() -> (d: Dices)
        ensures
            d.dices@ =~= seq![2u8, 3u8, 4u8, 6u8, 8u8, 10u8, 20u8, 100u8],
    {
        Dices { dices: vec![2u8, 3u8, 4u8, 6u8, 8u8, 10u8, 20u8, 100u8] }
    }
}

/// The information of one roll request: either every individual face value
/// (`data`, the itemized mode) or a per-face count table (`counts`, the
/// counted mode), never both.
pub struct Results {
    pub counts: Option<Vec<u64>>,
    pub data: Option<Vec<u8>>,
    pub sides: u8,
    pub count: u64,
}

impl Results {
    /// Exactly one representation is present; face values lie in
    /// `[1, sides]`; the sample count is consistent with the contents.
    pub open spec fn wf(&self) -> bool {
        &&& 1 <= self.sides
        &&& !(self.counts is Some && self.data is Some)
        &&& !(self.counts is None && self.data is None)
        &&& (self.counts matches Some(c) ==> c@.len() == self.sides && counts_total(to_ints(c@))
            == self.count)
        &&& (self.data matches Some(d) ==> d@.len() == self.count && forall|i: int|
            0 <= i < d@.len() ==> 1 <= #[trigger] d@[i] <= self.sides)
    }
}

/// Roll `amount` dice with `sides` sides through the software sampler.
///
/// With `old_style` every individual face value is kept; otherwise only
/// the per-face counts are. Every face value lies in `[1, sides]`.
pub fn roll(amount: usize, sides: u8, old_style: bool, rng: &mut rand::rngs::StdRng) -> (r:
    Results)
    requires
        1 <= sides,
    ensures
        r.wf(),
        r.sides == sides,
        r.count == amount,
        r.data is Some <==> old_style,
        r.counts is Some <==> !old_style,
{
    if old_style {
        let mut data: Vec<u8> = Vec::new();
        let mut i: usize = 0;
        while i < amount
            invariant
                1 <= sides,
                0 <= i <= amount,
                data@.len() == i,
                forall|j: int| 0 <= j < data@.len() ==> 1 <= #[trigger] data@[j] <= sides,
            decreases amount - i,
        {
            let v: u64 = rng::sample_inclusive(rng, 1, sides as u64);
            data.push(v as u8);
            i += 1;
        }
        Results { counts: None, data: Some(data), sides, count: amount as u64 }
    } else {
        let mut counts: Vec<u64> = zero_counts(sides);
        let mut i: usize = 0;
        while i < amount
            invariant
                1 <= sides,
                0 <= i <= amount,
                counts@.len() == sides,
                counts_total(to_ints(counts@)) == i,
            decreases amount - i,
        {
            let v: u64 = rng::sample_inclusive(rng, 1, sides as u64);
            let idx: usize = (v - 1) as usize;
            proof {
                assert(forall|j: int| 0 <= j < to_ints(counts@).len()
                    ==> #[trigger] to_ints(counts@)[j] >= 0);
                lemma_elem_le_total(to_ints(counts@), idx as int);
                lemma_counts_total_update(to_ints(counts@), idx as int, 1);
            }
            let ghost before = to_ints(counts@);
            counts[idx] = counts[idx] + 1;
            proof {
                assert(to_ints(counts@) =~= before.update(idx as int, before[idx as int] + 1));
            }
            i += 1;
        }
        Results { counts: Some(counts), data: None, sides, count: amount as u64 }
    }
}

/// A fresh count table of width `sides`, all entries zero.
fn zero_counts(sides: u8) -> (counts: Vec<u64>)
    ensures
        counts@.len() == sides,
        forall|j: int| 0 <= j < counts@.len() ==> #[trigger] counts@[j] == 0,
        counts_total(to_ints(counts@)) == 0,
{
    let mut counts: Vec<u64> = Vec::new();
    let mut i: usize = 0;
    while i < sides as usize
        invariant
            0 <= i <= sides,
            counts@.len() == i,
            forall|j: int| 0 <= j < counts@.len() ==> #[trigger] counts@[j] == 0,
            counts_total(to_ints(counts@)) == 0,
        decreases sides - i,
    {
        let ghost before = to_ints(counts@);
        counts.push(0);
        proof {
            assert(to_ints(counts@).drop_last() =~= before);
        }
        i += 1;
    }
    counts
}

/// Build the per-face count table of an itemized roll stream: entry `i`
/// counts the occurrences of face `i + 1`.
pub fn counts_from_data(data: &Vec<u8>, sides: u8) -> (counts: Vec<u64>)
    requires
        1 <= sides,
        forall|i: int| 0 <= i < data@.len() ==> 1 <= #[trigger] data@[i] <= sides,
    ensures
        counts@.len() == sides,
        forall|i: int| 0 <= i < counts@.len() ==> #[trigger] counts@[i] == face_count(
            data@,
            (i + 1) as u8,
        ),
        to_ints(counts@) =~= spec_histogram(data@, sides as int),
        counts_total(to_ints(counts@)) == data@.len(),
{
    let mut counts: Vec<u64> = zero_counts(sides);
    let n = data.len();
    let mut j: usize = 0;
    while j < n
        invariant
            1 <= sides,
            n == data@.len(),
            0 <= j <= n,
            counts@.len() == sides,
            forall|i: int| 0 <= i < data@.len() ==> 1 <= #[trigger] data@[i] <= sides,
            forall|i: int| 0 <= i < counts@.len() ==> #[trigger] counts@[i] == face_count(
                data@.take(j as int),
                (i + 1) as u8,
            ),
        decreases n - j,
    {
        let face = data[j];
        let idx: usize = (face - 1) as usize;
        proof {
            lemma_face_count_le_len(data@.take(j as int), face);
        }
        let ghost before = counts@;
        counts[idx] = counts[idx] + 1;
        proof {
            assert(data@.take(j + 1).drop_last() =~= data@.take(j as int));
            assert(data@.take(j + 1).last() == data@[j as int]);
            assert forall|i: int| 0 <= i < counts@.len() implies #[trigger] counts@[i]
                == face_count(data@.take(j + 1), (i + 1) as u8) by {
                assert(counts@ =~= before.update(idx as int, (before[idx as int] + 1) as u64));
                assert(face_count(data@.take(j + 1), (i + 1) as u8) == face_count(
                    data@.take(j as int),
                    (i + 1) as u8,
                ) + if (i + 1) as u8 == face {
                    1int
                } else {
                    0int
                });
            }
        }
        j += 1;
    }
    proof {
        assert(data@.take(n as int) =~= data@);
        assert(to_ints(counts@) =~= spec_histogram(data@, sides as int));
        lemma_itemized_counted_agree(data@, sides as int);
    }
    counts
}

/// Sum an itemized roll stream directly.
pub fn itemized_sum(data: &Vec<u8>) -> (s: u64)
    requires
        data@.len() * 255 <= u64::MAX,
    ensures
        s == seq_sum(data@),
{
    let n = data.len();
    let mut s: u64 = 0;
    let mut i: usize = 0;
    while i < n
        invariant
            n == data@.len(),
            data@.len() * 255 <= u64::MAX,
            0 <= i <= n,
            s == seq_sum(data@.take(i as int)),
        decreases n - i,
    {
        proof {
            lemma_seq_sum_bounds(data@.take(i as int), 0, 255);
            assert(data@.take(i + 1).drop_last() =~= data@.take(i as int));
            assert(i * 255 + 255 <= data@.len() * 255) by (nonlinear_arith)
                requires i + 1 <= data@.len();
        }
        s = s + data[i] as u64;
        i += 1;
    }
    proof {
        assert(data@.take(n as int) =~= data@);
    }
    s
}

/// Sum a per-face count table: `Σ (face) * count[face - 1]`.
pub fn counted_sum(counts: &Vec<u64>) -> (s: u64)
    requires
        weighted_sum(to_ints(counts@)) <= u64::MAX,
    ensures
        s == weighted_sum(to_ints(counts@)),
{
    let n = counts.len();
    let mut s: u64 = 0;
    let mut i: usize = 0;
    proof {
        lemma_weighted_prefix_le(to_ints(counts@), 0);
    }
    while i < n
        invariant
            n == counts@.len(),
            weighted_sum(to_ints(counts@)) <= u64::MAX,
            0 <= i <= n,
            s == weighted_sum(to_ints(counts@).take(i as int)),
            s <= weighted_sum(to_ints(counts@)),
        decreases n - i,
    {
        let ghost c = to_ints(counts@);
        proof {
            assert(c.take(i + 1).drop_last() =~= c.take(i as int));
            assert(c.take(i + 1).last() == c[i as int]);
            lemma_weighted_prefix_le(c, i + 1);
            assert(weighted_sum(c.take(i + 1)) == s + (i + 1) * c[i as int]);
            assert(s >= 0 && (i + 1) * c[i as int] >= 0) by (nonlinear_arith)
                requires s >= 0, i >= 0, c[i as int] >= 0;
        }
        let term: u64 = (i as u64 + 1) * counts[i];
        s = s + term;
        i += 1;
    }
    proof {
        assert(to_ints(counts@).take(n as int) =~= to_ints(counts@));
    }
    s
}

/// The fixed game-rule buckets for six-sided dice, derived from a count
/// table: entry `i` of the table counts rolls of face `i + 1`.
pub struct SixSidedBuckets {
    /// Rolls of face 1.
    pub failures: u64,
    /// Rolls of faces 1-2.
    pub failures_improvised: u64,
    /// Rolls of faces 1-3.
    pub failures_fumble: u64,
    /// Rolls of faces 3-6.
    pub successes_wealth: u64,
    /// Rolls of faces 4-6.
    pub successes_luck: u64,
    /// Rolls of faces 5-6.
    pub successes: u64,
}

impl SixSidedBuckets {
    pub open spec fn matches(&self, c: Seq<int>) -> bool {
        &&& c.len() == 6
        &&& self.failures == c[0]
        &&& self.failures_improvised == c[0] + c[1]
        &&& self.failures_fumble == c[0] + c[1] + c[2]
        &&& self.successes_wealth == c[2] + c[3] + c[4] + c[5]
        &&& self.successes_luck == c[3] + c[4] + c[5]
        &&& self.successes == c[4] + c[5]
    }
}

/// A count table of width six spells out to the sum of its six entries.
proof fn lemma_counts_total_six(c: Seq<int>)
    requires
        c.len() == 6,
    ensures
        counts_total(c) == c[0] + c[1] + c[2] + c[3] + c[4] + c[5],
{
    let c5 = c.drop_last();
    let c4 = c5.drop_last();
    let c3 = c4.drop_last();
    let c2 = c3.drop_last();
    let c1 = c2.drop_last();
    let c0 = c1.drop_last();
    assert(counts_total(c0) == 0);
    assert(counts_total(c1) == c[0]);
    assert(counts_total(c2) == c[0] + c[1]);
    assert(counts_total(c3) == c[0] + c[1] + c[2]);
    assert(counts_total(c4) == c[0] + c[1] + c[2] + c[3]);
    assert(counts_total(c5) == c[0] + c[1] + c[2] + c[3] + c[4]);
}

/// Compute the domain buckets of a six-sided count table.
pub fn six_sided_buckets(counts: &Vec<u64>) -> (b: SixSidedBuckets)
    requires
        counts@.len() == 6,
        counts@[0] + counts@[1] + counts@[2] + counts@[3] + counts@[4] + counts@[5]
            <= u64::MAX,
    ensures
        b.matches(to_ints(counts@)),
{
    SixSidedBuckets {
        failures: counts[0],
        failures_improvised: counts[0] + counts[1],
        failures_fumble: counts[0] + counts[1] + counts[2],
        successes_wealth: counts[2] + counts[3] + counts[4] + counts[5],
        successes_luck: counts[3] + counts[4] + counts[5],
        successes: counts[4] + counts[5],
    }
}

/// What `summarize` derives besides the histogram: the six-sided game
/// buckets, or for any other side count the arithmetic sum of all rolls.
pub enum Breakdown {
    SixSided(SixSidedBuckets),
    Total(u64),
}

/// The derived summary of one roll result.
pub struct ResolutionSummary {
    /// Per-face count table; entry `i` counts rolls of face `i + 1`.
    pub counts: Vec<u64>,
    /// Number of samples the result holds.
    pub samples: u64,
    pub sides: u8,
    pub breakdown: Breakdown,
}

/// Derive the summary of a roll result: the per-face histogram and, for
/// six-sided dice, the fixed game buckets, else the arithmetic sum of all
/// rolls. Itemized and counted results with the same underlying samples
/// yield the same summary (`lemma_itemized_counted_agree`).
pub fn summarize(res: &Results) -> (s: ResolutionSummary)
    requires
        res.wf(),
        res.count * res.sides <= u64::MAX,
    ensures
        s.sides == res.sides,
        s.samples == res.count,
        res.counts matches Some(c) ==> s.counts@ == c@,
        res.data matches Some(d) ==> to_ints(s.counts@) =~= spec_histogram(
            d@,
            res.sides as int,
        ),
        counts_total(to_ints(s.counts@)) == res.count,
        res.sides == 6 ==> (s.breakdown matches Breakdown::SixSided(b) && b.matches(
            to_ints(s.counts@),
        )),
        res.sides != 6 ==> (s.breakdown matches Breakdown::Total(t) && t == weighted_sum(
            to_ints(s.counts@),
        )),
        res.sides != 6 ==> (res.data matches Some(d) ==> (s.breakdown matches Breakdown::Total(
            t,
        ) && t == seq_sum(d@))),
{
    let counts: Vec<u64> = match &res.data {
        Some(d) => {
            proof {
                lemma_itemized_counted_agree(d@, res.sides as int);
            }
            counts_from_data(d, res.sides)
        },
        None => {
            match &res.counts {
                Some(c) => clone_counts(c),
                None => {
                    // wf rules this case out
                    proof {
                        assert(false);
                    }
                    Vec::new()
                },
            }
        },
    };
    let breakdown = if res.sides == 6 {
        proof {
            lemma_counts_total_six(to_ints(counts@));
        }
        Breakdown::SixSided(six_sided_buckets(&counts))
    } else {
        proof {
            assert(forall|j: int| 0 <= j < to_ints(counts@).len()
                ==> #[trigger] to_ints(counts@)[j] >= 0);
            lemma_weighted_sum_le(to_ints(counts@));
            assert(counts@.len() * res.count <= res.sides * res.count) by (nonlinear_arith)
                requires counts@.len() <= res.sides, res.count >= 0;
            assert(res.sides * res.count == res.count * res.sides) by (nonlinear_arith);
        }
        Breakdown::Total(counted_sum(&counts))
    };
    proof {
        if res.data is Some {
            lemma_itemized_counted_agree(res.data->0@, res.sides as int);
        }
    }
    ResolutionSummary { counts, samples: res.count, sides: res.sides, breakdown }
}

/// Copy a count table.
fn clone_counts(c: &Vec<u64>) -> (out: Vec<u64>)
    ensures
        out@ == c@,
{
    let n = c.len();
    let mut out: Vec<u64> = Vec::new();
    let mut i: usize = 0;
    while i < n
        invariant
            n == c@.len(),
            0 <= i <= n,
            out@ =~= c@.take(i as int),
        decreases n - i,
    {
        out.push(c[i]);
        i += 1;
    }
    proof {
        assert(c@.take(n as int) =~= c@);
    }
    out
}

/// A prefix of a nonnegative count table never outweighs the whole table.
proof fn lemma_weighted_prefix_le(c: Seq<int>, i: int)
    requires
        0 <= i <= c.len(),
        forall|j: int| 0 <= j < c.len() ==> #[trigger] c[j] >= 0,
    ensures
        0 <= weighted_sum(c.take(i)) <= weighted_sum(c),
    decreases c.len() - i,
{
    if i == c.len() {
        assert(c.take(i) =~= c);
        lemma_weighted_nonneg(c);
    } else {
        lemma_weighted_prefix_le(c, i + 1);
        assert(c.take(i + 1).drop_last() =~= c.take(i));
        assert(c.take(i + 1).last() == c[i]);
        assert(weighted_sum(c.take(i + 1)) == weighted_sum(c.take(i)) + (i + 1) * c[i]);
        assert((i + 1) * c[i] >= 0) by (nonlinear_arith)
            requires i >= 0, c[i] >= 0;
        lemma_weighted_nonneg(c.take(i));
    }
}

proof fn lemma_weighted_nonneg(c: Seq<int>)
    requires
        forall|j: int| 0 <= j < c.len() ==> #[trigger] c[j] >= 0,
    ensures
        weighted_sum(c) >= 0,
    decreases c.len(),
{
    if c.len() > 0 {
        lemma_weighted_nonneg(c.drop_last());
        assert(c.len() * c.last() >= 0) by (nonlinear_arith)
            requires c.len() >= 1, c.last() >= 0;
    }
}

} // verus!
