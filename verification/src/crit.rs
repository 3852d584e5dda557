//! Critical dice: a requested total is decomposed greedily into a stack
//! of denomination dice, every die on the stack is rolled, independent
//! probability tiers are evaluated, and the outcomes are aggregated into
//! a sentinel count and a sum of the ordinary results.

use vstd::prelude::*;
use crate::rng;
use crate::stats::{
    face_count, lemma_face_count_le_len, lemma_non_sentinel_sum_bounds, non_sentinel_sum,
};
use crate::text::{spec_u64_digits, u64_to_string};

verus! {

/// One denomination die: a point value ("weight") and its six faces.
pub struct CritDice {
    pub value: u8,
    pub values: Vec<u8>,
}

/// The plain configuration-file form of a denomination die.
pub struct RawCritDice {
    pub value: u8,
    pub values: Vec<u8>,
}

impl CritDice {
    /// A denomination die has exactly six faces.
    pub open spec fn wf(&self) -> bool {
        self.values@.len() == 6
    }

    /// Roll this die: one uniform draw over the six faces.
    pub fn roll(&self, rng: &mut rand::rngs::StdRng) -> (face: u8)
        requires
            self.wf(),
        ensures
            self.values@.contains(face),
    {
        let idx: usize = rng::sample_inclusive(rng, 0, 5) as usize;
        let face = self.values[idx];
        proof {
            assert(self.values@[idx as int] == face);
        }
        face
    }
}

impl From<RawCritDice> for CritDice {
    fn from(raw: RawCritDice) -> (d: CritDice) {
        CritDice { value: raw.value, values: raw.values }
    }
}

impl vstd::std_specs::convert::FromSpecImpl<RawCritDice> for CritDice {
    open spec fn obeys_from_spec() -> bool {
        true
    }

    open spec fn from_spec(raw: RawCritDice) -> CritDice {
        CritDice { value: raw.value, values: raw.values }
    }
}

/// An independent probability tier ("Level"): active with the configured
/// chance, evaluated once per resolution, unrelated to the dice outcomes.
/// The chance is stored in thousandths of a percent, so `50_000` stands
/// for a 50% trigger chance.
#[derive(Clone, Copy, Debug, PartialEq, Eq, Structural)]
pub struct Level {
    pub lower: u8,
    pub upper: Option<u8>,
    pub percentage_milli: u32,
}

impl Level {
    /// Evaluate the tier: draw one uniform value over the whole percent
    /// scale and trigger iff the configured chance strictly exceeds it.
    /// Nothing more can be promised of a single random draw than the two
    /// degenerate cases.
    pub fn works(&self, rng: &mut rand::rngs::StdRng) -> (b: bool)
        ensures
            self.percentage_milli == 0 ==> !b,
            self.percentage_milli > 100_000 ==> b,
    {
        let draw: u64 = rng::sample_inclusive(rng, 0, 100_000);
        (self.percentage_milli as u64) > draw
    }

    /// The textual range of this tier: its bounds, with an unbounded
    /// upper end spelled out.
    pub open spec fn spec_text(self) -> Seq<char> {
        "Level "@ + spec_u64_digits(self.lower as int) + " - "@ + (match self.upper {
            Some(u) => spec_u64_digits(u as int),
            None => "Keine Begrenzung"@,
        })
    }

    /// Format the tier's range.
    pub fn describe(&self) -> (d: String)
        ensures
            d@ == self.spec_text(),
    {
        let mut s = String::from_str("Level ");
        let lower = u64_to_string(self.lower as u64);
        s.append(lower.as_str());
        s.append(" - ");
        match self.upper {
            Some(u) => {
                let upper = u64_to_string(u as u64);
                s.append(upper.as_str());
            },
            None => {
                s.append("Keine Begrenzung");
            },
        }
        s
    }
}

/// The critical-dice configuration: the ordered denomination catalog, the
/// probability tiers and the sentinel face value.
pub struct CritDices {
    pub dices: Vec<CritDice>,
    pub level: Vec<Level>,
    pub s: u8,
}

/// Why a critical resolution was refused.
#[derive(Clone, Copy, Debug, PartialEq, Eq, Structural)]
pub enum CritError {
    /// The requested total was negative.
    NegativeTotal,
    /// The denomination catalog cannot reach the requested total exactly:
    /// a full catalog scan made no progress.
    UnresolvableTotal,
}

/// Index of the first denomination in `values` whose weight does not
/// exceed `remaining`, scanning in configured order.
pub open spec fn fit_index(values: Seq<u8>, remaining: int) -> Option<int>
    decreases values.len(),
{
    if values.len() == 0 {
        None
    } else if values[0] <= remaining {
        Some(0)
    } else {
        match fit_index(values.drop_first(), remaining) {
            None => None,
            Some(i) => Some(i + 1),
        }
    }
}

/// The greedy, order-sensitive decomposition of `remaining` over the
/// denomination catalog `values`: repeatedly take the first denomination
/// that still fits. `None` when a scan finds no denomination or only a
/// weightless one — then no progress is possible and the total is
/// unresolvable.
pub open spec fn greedy_stack(values: Seq<u8>, remaining: nat) -> Option<Seq<int>>
    decreases remaining,
{
    if remaining == 0 {
        Some(Seq::empty())
    } else {
        match fit_index(values, remaining as int) {
            None => None,
            Some(i) => if !(0 <= i < values.len()) || values[i] == 0 || values[i]
                > remaining {
                // `fit_index` never selects an oversized weight; a selected
                // weight of zero means a scan without progress.
                None
            } else {
                match greedy_stack(values, (remaining - values[i]) as nat) {
                    None => None,
                    Some(rest) => Some(seq![i] + rest),
                }
            },
        }
    }
}

/// Total weight of a stack of catalog indices.
pub open spec fn stack_weight_sum(values: Seq<u8>, st: Seq<int>) -> int
    decreases st.len(),
{
    if st.len() == 0 {
        0
    } else {
        values[st[0]] + stack_weight_sum(values, st.drop_first())
    }
}

pub proof fn lemma_fit_index_char(values: Seq<u8>, remaining: int)
    ensures
        match fit_index(values, remaining) {
            None => forall|j: int| 0 <= j < values.len() ==> #[trigger] values[j] > remaining,
            Some(i) => 0 <= i < values.len() && values[i] <= remaining && forall|j: int|
                0 <= j < i ==> #[trigger] values[j] > remaining,
        },
    decreases values.len(),
{
    if values.len() == 0 {
    } else if values[0] <= remaining {
        assert(fit_index(values, remaining) == Some(0int));
    } else {
        let sub = values.drop_first();
        lemma_fit_index_char(sub, remaining);
        assert(forall|j: int| 0 <= j < sub.len() ==> #[trigger] sub[j] == values[j + 1]);
        if fit_index(sub, remaining) is None {
            assert forall|j: int| 0 <= j < values.len() implies #[trigger] values[j]
                > remaining by {
                if j > 0 {
                    assert(sub[j - 1] > remaining);
                }
            }
        } else {
            let i = fit_index(sub, remaining)->0;
            assert(fit_index(values, remaining) == Some(i + 1));
            assert(values[i + 1] == sub[i]);
            assert forall|j: int| 0 <= j < i + 1 implies #[trigger] values[j] > remaining by {
                if j > 0 {
                    assert(sub[j - 1] > remaining);
                }
            }
        }
    }
}

/// The characterization is exact: the first fitting index is what
/// `fit_index` returns.
pub proof fn lemma_fit_index_exact(values: Seq<u8>, remaining: int, i: int)
    requires
        0 <= i < values.len(),
        values[i] <= remaining,
        forall|j: int| 0 <= j < i ==> #[trigger] values[j] > remaining,
    ensures
        fit_index(values, remaining) == Some(i),
    decreases values.len(),
{
    if values[0] <= remaining {
        assert(i == 0);
    } else {
        assert(forall|j: int| 0 <= j < values.drop_first().len()
            ==> #[trigger] values.drop_first()[j] == values[j + 1]);
        lemma_fit_index_exact(values.drop_first(), remaining, i - 1);
    }
}

/// Whenever the greedy decomposition succeeds, the weights of the stack
/// it produces sum to exactly the requested total.
pub proof fn lemma_greedy_sum(values: Seq<u8>, total: nat)
    requires
        greedy_stack(values, total) is Some,
    ensures
        stack_weight_sum(values, greedy_stack(values, total)->0) == total,
    decreases total,
{
    if total != 0 {
        let i = fit_index(values, total as int)->0;
        assert(0 <= i < values.len() && values[i] != 0 && values[i] <= total);
        let rest_total = (total - values[i]) as nat;
        lemma_greedy_sum(values, rest_total);
        let rest = greedy_stack(values, rest_total)->0;
        assert((seq![i] + rest).drop_first() =~= rest);
    }
}

/// The greedy stack never holds more dice than the total it decomposes.
pub proof fn lemma_greedy_len(values: Seq<u8>, total: nat)
    requires
        greedy_stack(values, total) is Some,
    ensures
        greedy_stack(values, total)->0.len() <= total,
        forall|j: int| 0 <= j < greedy_stack(values, total)->0.len() ==> 0
            <= #[trigger] greedy_stack(values, total)->0[j] < values.len(),
    decreases total,
{
    if total != 0 {
        lemma_fit_index_char(values, total as int);
        let i = fit_index(values, total as int)->0;
        assert(0 <= i < values.len() && values[i] != 0 && values[i] <= total);
        let rest_total = (total - values[i]) as nat;
        lemma_greedy_len(values, rest_total);
        let rest = greedy_stack(values, rest_total)->0;
        assert((seq![i] + rest).drop_first() =~= rest);
        assert(forall|j: int| 1 <= j < (seq![i] + rest).len() ==> (seq![i] + rest)[j] == rest[j
            - 1]);
    }
}

/// A catalog of positive weights that contains a weight of one resolves
/// every total: the greedy decomposition succeeds, and by
/// `lemma_greedy_sum` its stack weighs exactly the total.
pub proof fn lemma_weight_one_resolves(values: Seq<u8>, total: nat)
    requires
        forall|j: int| 0 <= j < values.len() ==> #[trigger] values[j] > 0,
        exists|j: int| 0 <= j < values.len() && #[trigger] values[j] == 1,
    ensures
        greedy_stack(values, total) is Some,
        stack_weight_sum(values, greedy_stack(values, total)->0) == total,
    decreases total,
{
    if total != 0 {
        let w = choose|j: int| 0 <= j < values.len() && #[trigger] values[j] == 1;
        lemma_fit_index_char(values, total as int);
        if fit_index(values, total as int) is None {
            assert(values[w] > total);
            assert(false);
        }
        let i = fit_index(values, total as int)->0;
        assert(0 <= i < values.len() && values[i] > 0 && values[i] <= total);
        lemma_weight_one_resolves(values, (total - values[i]) as nat);
    }
    lemma_greedy_sum(values, total);
}

/// Decomposition exactness at the catalog level, the law behind
/// `CritDices::decompose` and `CritDices::roll`: when every denomination
/// weight of the catalog is positive and some weight is one, every
/// non-negative total decomposes — the greedy stack exists, it holds at
/// most `total` dice, and its weights sum to exactly the total. Via the
/// exact contracts of `decompose` and `roll`, such a catalog makes both
/// calls return `Ok` for every non-negative total.
pub proof fn lemma_catalog_decomposes(d: CritDices, total: nat)
    requires
        forall|j: int| 0 <= j < d.spec_values().len() ==> #[trigger] d.spec_values()[j] > 0,
        exists|j: int| 0 <= j < d.spec_values().len() && #[trigger] d.spec_values()[j] == 1,
    ensures
        greedy_stack(d.spec_values(), total) is Some,
        stack_weight_sum(d.spec_values(), greedy_stack(d.spec_values(), total)->0) == total,
        greedy_stack(d.spec_values(), total)->0.len() <= total,
{
    lemma_weight_one_resolves(d.spec_values(), total);
    lemma_greedy_len(d.spec_values(), total);
}

impl CritDices {
    /// Every die in the catalog has its six faces.
    pub open spec fn wf(&self) -> bool {
        forall|i: int| 0 <= i < self.dices@.len() ==> #[trigger] self.dices@[i].wf()
    }

    /// The ordered weights of the denomination catalog.
    pub open spec fn spec_values(&self) -> Seq<u8> {
        self.dices@.map_values(|d: CritDice| d.value)
    }

    /// Index of the first denomination whose weight does not exceed
    /// `remaining`, or nothing when none fits.
    fn first_fit(&self, remaining: u16) -> (r: Option<usize>)
        ensures
            match r {
                None => fit_index(self.spec_values(), remaining as int) is None,
                Some(i) => i < self.dices@.len() && fit_index(
                    self.spec_values(),
                    remaining as int,
                ) == Some(i as int),
            },
    {
        let ghost values = self.spec_values();
        let n = self.dices.len();
        let mut i: usize = 0;
        while i < n
            invariant
                n == self.dices@.len(),
                values == self.spec_values(),
                values.len() == n,
                0 <= i <= n,
                forall|j: int| 0 <= j < i ==> #[trigger] values[j] > remaining,
            decreases n - i,
        {
            if self.dices[i].value as u16 <= remaining {
                proof {
                    assert(values[i as int] == self.dices@[i as int].value);
                    lemma_fit_index_exact(values, remaining as int, i as int);
                }
                return Some(i);
            }
            proof {
                assert(values[i as int] == self.dices@[i as int].value);
            }
            i += 1;
        }
        proof {
            lemma_fit_index_char(values, remaining as int);
            if fit_index(values, remaining as int) is Some {
                let k = fit_index(values, remaining as int)->0;
                assert(values[k] > remaining);
                assert(false);
            }
        }
        None
    }

    /// Greedily decompose the requested total into a stack of catalog
    /// indices, scanning the catalog in configured order and taking the
    /// first denomination that still fits. A negative total and a total
    /// that the catalog cannot reach exactly are rejected instead of
    /// looping.
    pub fn decompose(&self, value: i16) -> (r: Result<Vec<usize>, CritError>)
        ensures
            value < 0 ==> r matches Err(CritError::NegativeTotal),
            value >= 0 ==> match greedy_stack(self.spec_values(), value as nat) {
                None => r matches Err(CritError::UnresolvableTotal),
                Some(st) => r matches Ok(v) && v@.map_values(|u: usize| u as int) =~= st,
            },
    {
        let ghost values = self.spec_values();
        if value < 0 {
            return Err(CritError::NegativeTotal);
        }
        let total: u16 = value as u16;
        let mut stack: Vec<usize> = Vec::new();
        let mut counter: u16 = total;
        while counter != 0
            invariant
                values == self.spec_values(),
                value >= 0,
                total == value,
                counter <= total,
                match greedy_stack(values, counter as nat) {
                    None => greedy_stack(values, total as nat) is None,
                    Some(rest) => greedy_stack(values, total as nat) matches Some(st) && st
                        =~= stack@.map_values(|u: usize| u as int) + rest,
                },
            decreases counter,
        {
            match self.first_fit(counter) {
                None => {
                    return Err(CritError::UnresolvableTotal);
                },
                Some(i) => {
                    let w: u8 = self.dices[i].value;
                    proof {
                        assert(values[i as int] == self.dices@[i as int].value);
                        lemma_fit_index_char(values, counter as int);
                        assert(w <= counter);
                    }
                    if w == 0 {
                        return Err(CritError::UnresolvableTotal);
                    }
                    let ghost before = stack@.map_values(|u: usize| u as int);
                    stack.push(i);
                    counter = counter - w as u16;
                    proof {
                        assert(stack@.map_values(|u: usize| u as int) =~= before + seq![
                            i as int,
                        ]);
                        if greedy_stack(values, counter as nat) is Some {
                            let rest = greedy_stack(values, counter as nat)->0;
                            assert((before + seq![i as int]) + rest =~= before + (seq![i as int]
                                + rest));
                        }
                    }
                },
            }
        }
        proof {
            assert(stack@.map_values(|u: usize| u as int) + Seq::<int>::empty() =~= stack@
                .map_values(|u: usize| u as int));
        }
        Ok(stack)
    }

    /// Resolve a critical roll: evaluate every probability tier once,
    /// decompose the total greedily, roll every die on the stack and
    /// aggregate the outcomes into a count of sentinel results and the
    /// sum of all other results.
    pub fn roll(&self, value: i16, rng: &mut rand::rngs::StdRng) -> (r: Result<
        CritReport,
        CritError,
    >)
        requires
            self.wf(),
        ensures
            value < 0 ==> r matches Err(CritError::NegativeTotal),
            value >= 0 ==> match greedy_stack(self.spec_values(), value as nat) {
                None => r matches Err(CritError::UnresolvableTotal),
                Some(st) => r matches Ok(rep) && {
                    &&& rep.levels@.len() == self.level@.len()
                    &&& forall|i: int| 0 <= i < rep.levels@.len()
                        ==> (#[trigger] rep.levels@[i]).0 == self.level@[i]
                    &&& forall|i: int| 0 <= i < rep.levels@.len()
                        ==> ((#[trigger] rep.levels@[i]).0.percentage_milli == 0
                        ==> !rep.levels@[i].1)
                    &&& forall|i: int| 0 <= i < rep.levels@.len()
                        ==> ((#[trigger] rep.levels@[i]).0.percentage_milli > 100_000
                        ==> rep.levels@[i].1)
                    &&& rep.results@.len() == st.len()
                    &&& forall|j: int| 0 <= j < st.len()
                        ==> self.dices@[st[j]].values@.contains(#[trigger] rep.results@[j])
                    &&& rep.s_count == face_count(rep.results@, self.s)
                    &&& rep.sum == non_sentinel_sum(rep.results@, self.s)
                },
            },
    {
        let mut levels: Vec<(Level, bool)> = Vec::new();
        let ln = self.level.len();
        let mut i: usize = 0;
        while i < ln
            invariant
                ln == self.level@.len(),
                0 <= i <= ln,
                levels@.len() == i,
                forall|j: int| 0 <= j < levels@.len() ==> (#[trigger] levels@[j]).0
                    == self.level@[j],
                forall|j: int| 0 <= j < levels@.len()
                    ==> ((#[trigger] levels@[j]).0.percentage_milli == 0 ==> !levels@[j].1),
                forall|j: int| 0 <= j < levels@.len()
                    ==> ((#[trigger] levels@[j]).0.percentage_milli > 100_000
                    ==> levels@[j].1),
            decreases ln - i,
        {
            let tier: Level = self.level[i];
            let active = tier.works(rng);
            levels.push((tier, active));
            i += 1;
        }
        let stack: Vec<usize> = match self.decompose(value) {
            Err(e) => {
                return Err(e);
            },
            Ok(st) => st,
        };
        let ghost gstack = greedy_stack(self.spec_values(), value as nat)->0;
        proof {
            lemma_greedy_len(self.spec_values(), value as nat);
            assert(stack@.len() == gstack.len());
        }
        let sn = stack.len();
        let mut results: Vec<u8> = Vec::new();
        let mut j: usize = 0;
        while j < sn
            invariant
                self.wf(),
                sn == stack@.len(),
                stack@.map_values(|u: usize| u as int) =~= gstack,
                forall|k: int| 0 <= k < gstack.len() ==> 0 <= #[trigger] gstack[k]
                    < self.dices@.len(),
                0 <= j <= sn,
                results@.len() == j,
                forall|k: int| 0 <= k < results@.len() ==> self.dices@[gstack[k]].values@
                    .contains(#[trigger] results@[k]),
            decreases sn - j,
        {
            let idx: usize = stack[j];
            proof {
                assert(gstack[j as int] == stack@[j as int] as int);
            }
            let face = self.dices[idx].roll(rng);
            results.push(face);
            j += 1;
        }
        proof {
            assert(gstack.len() <= value as nat);
        }
        let rn = results.len();
        let mut s_count: u64 = 0;
        let mut sum: u64 = 0;
        let mut k: usize = 0;
        while k < rn
            invariant
                rn == results@.len(),
                rn <= 0x8000,
                0 <= k <= rn,
                s_count == face_count(results@.take(k as int), self.s),
                sum == non_sentinel_sum(results@.take(k as int), self.s),
            decreases rn - k,
        {
            proof {
                lemma_face_count_le_len(results@.take(k as int), self.s);
                lemma_non_sentinel_sum_bounds(results@.take(k as int), self.s);
                assert(results@.take(k + 1).drop_last() =~= results@.take(k as int));
                assert(results@.take(k + 1).last() == results@[k as int]);
            }
            let x = results[k];
            if x == self.s {
                s_count = s_count + 1;
            } else {
                sum = sum + x as u64;
            }
            k += 1;
        }
        proof {
            assert(results@.take(rn as int) =~= results@);
        }
        Ok(CritReport { levels, results, s_count, sum })
    }
}

/// The structured outcome of one critical resolution.
pub struct CritReport {
    /// Every configured tier, paired with whether it activated.
    pub levels: Vec<(Level, bool)>,
    /// The face value each die on the decomposition stack rolled.
    pub results: Vec<u8>,
    /// How many rolled outcomes equal the sentinel value.
    pub s_count: u64,
    /// Sum of all rolled outcomes that differ from the sentinel value.
    pub sum: u64,
}

impl Default for CritDices {
    /// The stock critical-dice configuration: four denominations of
    /// weights 1 to 4, three tiers at 50%, 66.666% and 83.333%, and
    /// sentinel value 4.
    fn default() -> (d: CritDices)
        ensures
            d.wf(),
            d.s == 4,
            d.level@ =~= seq![
                Level { lower: 0, upper: Some(9u8), percentage_milli: 50_000 },
                Level { lower: 10, upper: Some(19u8), percentage_milli: 66_666 },
                Level { lower: 20, upper: None, percentage_milli: 83_333 },
            ],
            d.spec_values() =~= seq![1u8, 2u8, 3u8, 4u8],
            d.dices@[0].values@ =~= seq![0u8, 0u8, 0u8, 0u8, 0u8, 1u8],
            d.dices@[1].values@ =~= seq![0u8, 0u8, 0u8, 0u8, 1u8, 2u8],
            d.dices@[2].values@ =~= seq![0u8, 0u8, 0u8, 0u8, 3u8, 2u8],
            d.dices@[3].values@ =~= seq![0u8, 0u8, 1u8, 2u8, 3u8, 4u8],
    {
        CritDices {
            level: vec![
                Level { lower: 0, upper: Some(9), percentage_milli: 50_000 },
                Level { lower: 10, upper: Some(19), percentage_milli: 66_666 },
                Level { lower: 20, upper: None, percentage_milli: 83_333 },
            ],
            dices: vec![
                CritDice { value: 1, values: vec![0, 0, 0, 0, 0, 1] },
                CritDice { value: 2, values: vec![0, 0, 0, 0, 1, 2] },
                CritDice { value: 3, values: vec![0, 0, 0, 0, 3, 2] },
                CritDice { value: 4, values: vec![0, 0, 1, 2, 3, 4] },
            ],
            s: 4,
        }
    }
}

} // verus!
