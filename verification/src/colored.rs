//! Colored dice: weighted six-face dice with a label, a shorthand
//! character, a point value and a display color. Besides single rolls,
//! the catalog supports the "number instead" mode: a requested point
//! total is covered greedily by the highest-valued dice first, and every
//! die instance is rolled.

use vstd::prelude::*;
use crate::rng;
use crate::stats::{lemma_seq_sum_bounds, seq_sum};

verus! {

/// A colored die.
pub struct ColoredDice {
    pub long: String,
    pub short: char,
    pub sites: Vec<u8>,
    pub value: u8,
    pub color: String,
}

/// The plain configuration-file form of a colored die.
pub struct RawColoredDice {
    pub long: String,
    pub short: char,
    pub sites: Vec<u8>,
    pub value: u8,
    pub color: String,
}

/// The mathematical model of a colored die.
#[verifier::ext_equal]
pub struct ColoredDiceV {
    pub long: Seq<char>,
    pub short: char,
    pub sites: Seq<u8>,
    pub value: u8,
    pub color: Seq<char>,
}

impl View for ColoredDice {
    type V = ColoredDiceV;

    open spec fn view(&self) -> ColoredDiceV {
        ColoredDiceV {
            long: self.long@,
            short: self.short,
            sites: self.sites@,
            value: self.value,
            color: self.color@,
        }
    }
}

impl Clone for ColoredDice {
    fn clone(&self) -> (c: Self)
        ensures
            c@ == self@,
    {
        let mut sites: Vec<u8> = Vec::new();
        let n = self.sites.len();
        let mut i: usize = 0;
        while i < n
            invariant
                n == self.sites@.len(),
                0 <= i <= n,
                sites@ =~= self.sites@.take(i as int),
            decreases n - i,
        {
            sites.push(self.sites[i]);
            i += 1;
        }
        proof {
            assert(self.sites@.take(n as int) =~= self.sites@);
        }
        let c = ColoredDice {
            long: self.long.clone(),
            short: self.short,
            sites,
            value: self.value,
            color: self.color.clone(),
        };
        proof {
            assert(c@ =~= self@);
        }
        c
    }
}

impl From<RawColoredDice> for ColoredDice {
    fn from(raw: RawColoredDice) -> (d: ColoredDice) {
        ColoredDice {
            long: raw.long,
            short: raw.short,
            sites: raw.sites,
            value: raw.value,
            color: raw.color,
        }
    }
}

impl vstd::std_specs::convert::FromSpecImpl<RawColoredDice> for ColoredDice {
    open spec fn obeys_from_spec() -> bool {
        true
    }

    open spec fn from_spec(raw: RawColoredDice) -> ColoredDice {
        ColoredDice {
            long: raw.long,
            short: raw.short,
            sites: raw.sites,
            value: raw.value,
            color: raw.color,
        }
    }
}

impl ColoredDice {
    /// Roll this die: a uniform draw over its faces; an empty face table
    /// defensively yields the neutral value zero.
    pub fn roll(&self, rng: &mut rand::rngs::StdRng) -> (face: u8)
        ensures
            self.sites@.len() == 0 ==> face == 0,
            self.sites@.len() > 0 ==> self.sites@.contains(face),
    {
        if self.sites.is_empty() {
            return 0;
        }
        let hi: u64 = (self.sites.len() - 1) as u64;
        let idx: usize = rng::sample_inclusive(rng, 0, hi) as usize;
        let face = self.sites[idx];
        proof {
            assert(self.sites@[idx as int] == face);
        }
        face
    }
}

/// The catalog of colored dice.
pub struct ColoredDices {
    pub dices: Vec<ColoredDice>,
}

/// The models of a catalog's dice, in order.
pub open spec fn views_of(s: Seq<ColoredDice>) -> Seq<ColoredDiceV> {
    s.map_values(|d: ColoredDice| d@)
}

impl ColoredDices {
    pub fn len(&self) -> (n: usize)
        ensures
            n == self.dices@.len(),
    {
        self.dices.len()
    }
}

impl Clone for ColoredDices {
    fn clone(&self) -> (c: Self)
        ensures
            views_of(c.dices@) =~= views_of(self.dices@),
    {
        let n = self.dices.len();
        let mut dices: Vec<ColoredDice> = Vec::new();
        let mut i: usize = 0;
        while i < n
            invariant
                n == self.dices@.len(),
                0 <= i <= n,
                views_of(dices@) =~= views_of(self.dices@).take(i as int),
            decreases n - i,
        {
            let ghost before = views_of(dices@);
            dices.push(self.dices[i].clone());
            proof {
                assert(views_of(dices@) =~= before.push(self.dices@[i as int]@));
            }
            i += 1;
        }
        proof {
            assert(views_of(self.dices@).take(n as int) =~= views_of(self.dices@));
        }
        ColoredDices { dices }
    }
}

impl Default for ColoredDices {
    /// The stock catalog of four colored dice.
    fn default() -> (d: ColoredDices)
        ensures
            d.dices@.len() == 4,
            d.dices@[0]@ =~= (ColoredDiceV {
                long: "Rosa"@,
                short: 'r',
                sites: seq![0u8, 0u8, 0u8, 1u8, 1u8, 2u8],
                value: 1,
                color: "#FF8B8B"@,
            }),
            d.dices@[1]@ =~= (ColoredDiceV {
                long: "Gr\u{fc}n"@,
                short: 'g',
                sites: seq![0u8, 0u8, 1u8, 1u8, 2u8, 2u8],
                value: 2,
                color: "#22FF00"@,
            }),
            d.dices@[2]@ =~= (ColoredDiceV {
                long: "Wei\u{df}"@,
                short: 'w',
                sites: seq![0u8, 1u8, 2u8, 2u8, 2u8, 3u8],
                value: 3,
                color: "#FFFFFF"@,
            }),
            d.dices@[3]@ =~= (ColoredDiceV {
                long: "Schwarz"@,
                short: 's',
                sites: seq![0u8, 1u8, 3u8, 3u8, 3u8, 4u8],
                value: 4,
                color: "#818181"@,
            }),
    {
        ColoredDices {
            dices: vec![
                ColoredDice {
                    long: String::from_str("Rosa"),
                    short: 'r',
                    sites: vec![0, 0, 0, 1, 1, 2],
                    value: 1,
                    color: String::from_str("#FF8B8B"),
                },
                ColoredDice {
                    long: String::from_str("Gr\u{fc}n"),
                    short: 'g',
                    sites: vec![0, 0, 1, 1, 2, 2],
                    value: 2,
                    color: String::from_str("#22FF00"),
                },
                ColoredDice {
                    long: String::from_str("Wei\u{df}"),
                    short: 'w',
                    sites: vec![0, 1, 2, 2, 2, 3],
                    value: 3,
                    color: String::from_str("#FFFFFF"),
                },
                ColoredDice {
                    long: String::from_str("Schwarz"),
                    short: 's',
                    sites: vec![0, 1, 3, 3, 3, 4],
                    value: 4,
                    color: String::from_str("#818181"),
                },
            ],
        }
    }
}

/// Insert a die model into a list already sorted by descending value,
/// behind every entry whose value is at least as large.
pub open spec fn spec_insert_desc(sorted: Seq<ColoredDiceV>, x: ColoredDiceV) -> Seq<
    ColoredDiceV,
>
    decreases sorted.len(),
{
    if sorted.len() == 0 {
        seq![x]
    } else if sorted[0].value >= x.value {
        seq![sorted[0]] + spec_insert_desc(sorted.drop_first(), x)
    } else {
        seq![x] + sorted
    }
}

/// The catalog models sorted by descending value; entries of equal value
/// keep their configured order, as a stable sort leaves them.
pub open spec fn spec_sort_desc(s: Seq<ColoredDiceV>) -> Seq<ColoredDiceV>
    decreases s.len(),
{
    if s.len() == 0 {
        Seq::empty()
    } else {
        spec_insert_desc(spec_sort_desc(s.drop_last()), s.last())
    }
}

proof fn lemma_insert_desc_len(sorted: Seq<ColoredDiceV>, x: ColoredDiceV)
    ensures
        spec_insert_desc(sorted, x).len() == sorted.len() + 1,
    decreases sorted.len(),
{
    if sorted.len() > 0 && sorted[0].value >= x.value {
        lemma_insert_desc_len(sorted.drop_first(), x);
    }
}

pub proof fn lemma_sort_desc_len(s: Seq<ColoredDiceV>)
    ensures
        spec_sort_desc(s).len() == s.len(),
    decreases s.len(),
{
    if s.len() > 0 {
        lemma_sort_desc_len(s.drop_last());
        lemma_insert_desc_len(spec_sort_desc(s.drop_last()), s.last());
    }
}

proof fn lemma_insert_desc_values(sorted: Seq<ColoredDiceV>, x: ColoredDiceV)
    requires
        forall|k: int| 0 <= k < sorted.len() ==> (#[trigger] sorted[k]).value > 0,
        x.value > 0,
    ensures
        forall|k: int| 0 <= k < spec_insert_desc(sorted, x).len() ==> (#[trigger] spec_insert_desc(
            sorted,
            x,
        )[k]).value > 0,
    decreases sorted.len(),
{
    if sorted.len() > 0 && sorted[0].value >= x.value {
        lemma_insert_desc_values(sorted.drop_first(), x);
        assert forall|k: int| 0 <= k < spec_insert_desc(sorted, x).len() implies (
        #[trigger] spec_insert_desc(sorted, x)[k]).value > 0 by {
            if k > 0 {
                assert(spec_insert_desc(sorted, x)[k] == spec_insert_desc(
                    sorted.drop_first(),
                    x,
                )[k - 1]);
            }
        }
    }
}

/// Sorting keeps every value positive when the input values all are.
pub proof fn lemma_sort_desc_values(s: Seq<ColoredDiceV>)
    requires
        forall|k: int| 0 <= k < s.len() ==> (#[trigger] s[k]).value > 0,
    ensures
        forall|k: int| 0 <= k < spec_sort_desc(s).len() ==> (#[trigger] spec_sort_desc(
            s,
        )[k]).value > 0,
    decreases s.len(),
{
    if s.len() > 0 {
        lemma_sort_desc_values(s.drop_last());
        lemma_insert_desc_values(spec_sort_desc(s.drop_last()), s.last());
    }
}

/// Inserting at the first position whose value is smaller is what
/// `spec_insert_desc` does.
proof fn lemma_insert_desc_at(sorted: Seq<ColoredDiceV>, x: ColoredDiceV, j: int)
    requires
        0 <= j <= sorted.len(),
        forall|k: int| 0 <= k < j ==> (#[trigger] sorted[k]).value >= x.value,
        j < sorted.len() ==> sorted[j].value < x.value,
    ensures
        spec_insert_desc(sorted, x) =~= sorted.take(j) + seq![x] + sorted.skip(j),
    decreases j,
{
    if j == 0 {
        if sorted.len() > 0 {
            assert(sorted[0].value < x.value);
        }
        assert(sorted.take(0) =~= Seq::<ColoredDiceV>::empty());
        assert(sorted.skip(0) =~= sorted);
    } else {
        let sub = sorted.drop_first();
        assert(forall|k: int| 0 <= k < sub.len() ==> #[trigger] sub[k] == sorted[k + 1]);
        lemma_insert_desc_at(sub, x, j - 1);
        assert(sorted.take(j) =~= seq![sorted[0]] + sub.take(j - 1));
        assert(sorted.skip(j) =~= sub.skip(j - 1));
        assert(seq![sorted[0]] + (sub.take(j - 1) + seq![x] + sub.skip(j - 1)) =~= sorted.take(
            j,
        ) + seq![x] + sorted.skip(j));
    }
}

/// Sort dice by descending value with a stable insertion sort, as the
/// "number instead" mode consumes them.
fn sort_desc(v: &mut Vec<ColoredDice>)
    ensures
        views_of(final(v)@) =~= spec_sort_desc(views_of(old(v)@)),
{
    let ghost orig = views_of(v@);
    let n = v.len();
    if n == 0 {
        proof {
            assert(views_of(v@) =~= spec_sort_desc(orig));
        }
        return;
    }
    proof {
        lemma_sort_desc_len(orig);
        assert(orig.take(1).drop_last() =~= Seq::<ColoredDiceV>::empty());
        assert(orig.take(1).last() == orig[0]);
        assert(spec_sort_desc(Seq::<ColoredDiceV>::empty()) == Seq::<ColoredDiceV>::empty());
        assert(spec_insert_desc(Seq::<ColoredDiceV>::empty(), orig[0]) =~= seq![orig[0]]);
        assert(spec_sort_desc(orig.take(1)) =~= seq![orig[0]]);
        assert(views_of(v@).take(1) =~= seq![orig[0]]);
        assert(views_of(v@).skip(1) =~= orig.skip(1));
    }
    let mut i: usize = 1;
    while i < n
        invariant
            n == v@.len(),
            orig.len() == n,
            1 <= i <= n,
            views_of(v@).take(i as int) =~= spec_sort_desc(orig.take(i as int)),
            views_of(v@).skip(i as int) =~= orig.skip(i as int),
        decreases n - i,
    {
        let ghost pre = views_of(v@);
        let ghost sortedpre = pre.take(i as int);
        let x = v.remove(i);
        proof {
            assert(x@ == pre[i as int]);
            assert(pre.skip(i as int)[0] == pre[i as int]);
            assert(orig.skip(i as int)[0] == orig[i as int]);
            assert(pre[i as int] == orig[i as int]);
            assert(views_of(v@) =~= pre.remove(i as int));
            assert(views_of(v@).take(i as int) =~= sortedpre);
        }
        let mut j: usize = 0;
        while j < i && v[j].value >= x.value
            invariant
                i <= v@.len(),
                views_of(v@).take(i as int) =~= sortedpre,
                0 <= j <= i,
                forall|k: int| 0 <= k < j ==> (#[trigger] sortedpre[k]).value >= x@.value,
            decreases i - j,
        {
            proof {
                assert(views_of(v@)[j as int] == sortedpre[j as int]);
            }
            j += 1;
        }
        proof {
            if j < i {
                assert(views_of(v@)[j as int] == sortedpre[j as int]);
                assert(sortedpre[j as int].value < x@.value);
            }
        }
        let ghost mid = views_of(v@);
        v.insert(j, x);
        proof {
            lemma_insert_desc_at(sortedpre, x@, j as int);
            assert(views_of(v@) =~= mid.insert(j as int, x@));
            // the insertion happened inside the sorted prefix
            assert(views_of(v@).take(i + 1) =~= sortedpre.take(j as int) + seq![x@]
                + sortedpre.skip(j as int));
            assert(views_of(v@).take(i + 1) =~= spec_insert_desc(sortedpre, x@));
            assert(orig.take(i + 1).drop_last() =~= orig.take(i as int));
            assert(orig.take(i + 1).last() == orig[i as int]);
            assert forall|m: int| 0 <= m < views_of(v@).skip(i + 1).len() implies #[trigger] views_of(
                v@,
            ).skip(i + 1)[m] == orig.skip(i + 1)[m] by {
                assert(views_of(v@)[i + 1 + m] == mid[i + m]);
                assert(mid[i + m] == pre[i + 1 + m]);
                assert(pre.skip(i as int)[1 + m] == pre[i + 1 + m]);
                assert(orig.skip(i as int)[1 + m] == orig[i + 1 + m]);
                assert(pre.skip(i as int) =~= orig.skip(i as int));
            }
            assert(views_of(v@).skip(i + 1) =~= orig.skip(i + 1));
        }
        i += 1;
    }
    proof {
        assert(orig.take(n as int) =~= orig);
        assert(views_of(v@).take(n as int) =~= views_of(v@));
    }
}

/// `sum` is the sum of exactly `count` rolls of the die `die`: a roll
/// stream of that length exists whose faces come from the die's face
/// table — or are the neutral zero when the table is empty — and whose
/// arithmetic sum is `sum`.
pub open spec fn is_sum_of_rolls(sum: u64, die: ColoredDiceV, count: int) -> bool {
    exists|rolls: Seq<u8>|
        {
            &&& rolls.len() == count
            &&& sum == seq_sum(rolls)
            &&& forall|j: int| 0 <= j < rolls.len() ==> if die.sites.len() == 0 {
                rolls[j] == 0
            } else {
                die.sites.contains(#[trigger] rolls[j])
            }
        }
}

/// Sum of the point results in a list of labelled outcomes.
pub open spec fn pair_sum(s: Seq<(u64, String)>) -> int
    decreases s.len(),
{
    if s.len() == 0 {
        0
    } else {
        pair_sum(s.drop_last()) + s.last().0
    }
}

/// The points still to cover after the first `k` dice of the sorted
/// catalog took their share: each die reduces the remainder modulo its
/// value.
pub open spec fn rem_after(sorted: Seq<ColoredDiceV>, amount: int, k: int) -> int
    decreases k,
{
    if k <= 0 {
        amount
    } else {
        rem_after(sorted, amount, k - 1) % sorted[k - 1].value as int
    }
}

proof fn lemma_rem_after_nonneg(sorted: Seq<ColoredDiceV>, amount: int, j: int)
    requires
        0 <= amount,
        0 <= j <= sorted.len(),
        forall|i: int| 0 <= i < sorted.len() ==> (#[trigger] sorted[i]).value > 0,
    ensures
        rem_after(sorted, amount, j) >= 0,
    decreases j,
{
    if j > 0 {
        lemma_rem_after_nonneg(sorted, amount, j - 1);
    }
}

proof fn lemma_rem_after_zero_onward(sorted: Seq<ColoredDiceV>, amount: int, j: int, l: int)
    requires
        0 <= j <= l <= sorted.len(),
        rem_after(sorted, amount, j) == 0,
        forall|i: int| 0 <= i < sorted.len() ==> (#[trigger] sorted[i]).value > 0,
    ensures
        rem_after(sorted, amount, l) == 0,
    decreases l - j,
{
    if l > j {
        assert(rem_after(sorted, amount, j + 1) == 0int % (sorted[j].value as int));
        lemma_rem_after_zero_onward(sorted, amount, j + 1, l);
    }
}

proof fn lemma_insert_desc_keeps_one(sorted: Seq<ColoredDiceV>, x: ColoredDiceV)
    requires
        x.value == 1 || exists|i: int|
            0 <= i < sorted.len() && (#[trigger] sorted[i]).value == 1,
    ensures
        exists|i: int|
            0 <= i < spec_insert_desc(sorted, x).len() && (#[trigger] spec_insert_desc(
                sorted,
                x,
            )[i]).value == 1,
    decreases sorted.len(),
{
    let out = spec_insert_desc(sorted, x);
    if sorted.len() == 0 {
        assert(out[0] == x);
    } else if sorted[0].value >= x.value {
        let sub = sorted.drop_first();
        let inner = spec_insert_desc(sub, x);
        assert(forall|i: int| 0 <= i < sub.len() ==> #[trigger] sub[i] == sorted[i + 1]);
        assert(out[0] == sorted[0]);
        assert(forall|i: int| 0 <= i < inner.len() ==> #[trigger] inner[i] == out[i + 1]);
        if x.value == 1 {
            lemma_insert_desc_keeps_one(sub, x);
        } else {
            let w = choose|i: int| 0 <= i < sorted.len() && (#[trigger] sorted[i]).value == 1;
            if w == 0 {
                assert(out[0].value == 1);
            } else {
                assert(sub[w - 1].value == 1);
                lemma_insert_desc_keeps_one(sub, x);
            }
        }
    } else {
        if x.value == 1 {
            assert(out[0] == x);
        } else {
            let w = choose|i: int| 0 <= i < sorted.len() && (#[trigger] sorted[i]).value == 1;
            assert(out[w + 1] == sorted[w]);
        }
    }
}

proof fn lemma_sort_desc_keeps_one(s: Seq<ColoredDiceV>)
    requires
        exists|i: int| 0 <= i < s.len() && (#[trigger] s[i]).value == 1,
    ensures
        exists|i: int|
            0 <= i < spec_sort_desc(s).len() && (#[trigger] spec_sort_desc(s)[i]).value == 1,
    decreases s.len(),
{
    let w = choose|i: int| 0 <= i < s.len() && (#[trigger] s[i]).value == 1;
    let prefix = s.drop_last();
    if w == s.len() - 1 {
        assert(s.last().value == 1);
        lemma_insert_desc_keeps_one(spec_sort_desc(prefix), s.last());
    } else {
        assert(prefix[w].value == 1);
        lemma_sort_desc_keeps_one(prefix);
        lemma_insert_desc_keeps_one(spec_sort_desc(prefix), s.last());
    }
    assert(spec_sort_desc(s) == spec_insert_desc(spec_sort_desc(prefix), s.last()));
}

/// Full consumption, the law behind the "number instead" mode: when
/// every die value of the catalog is positive and some die has value
/// one, the remainder chain over the sorted catalog ends at zero —
/// together with `resolve_colored`'s per-class clauses, the reported
/// classes jointly account for the whole requested amount.
pub proof fn lemma_resolve_consumes_all(views: Seq<ColoredDiceV>, amount: int)
    requires
        0 <= amount,
        forall|i: int| 0 <= i < views.len() ==> (#[trigger] views[i]).value > 0,
        exists|i: int| 0 <= i < views.len() && (#[trigger] views[i]).value == 1,
    ensures
        rem_after(spec_sort_desc(views), amount, spec_sort_desc(views).len() as int) == 0,
{
    let sorted = spec_sort_desc(views);
    lemma_sort_desc_len(views);
    lemma_sort_desc_values(views);
    lemma_sort_desc_keeps_one(views);
    let k = choose|i: int| 0 <= i < sorted.len() && (#[trigger] sorted[i]).value == 1;
    lemma_rem_after_nonneg(sorted, amount, k);
    assert(rem_after(sorted, amount, k + 1) == rem_after(sorted, amount, k) % (
    sorted[k].value as int));
    lemma_rem_after_zero_onward(sorted, amount, k + 1, sorted.len() as int);
}

/// The "number instead" mode: cover a requested point total greedily with
/// the highest-valued dice first — each die class is rolled as often as
/// its value fits into the remaining total — and report the per-class
/// sums, labelled, together with their grand total.
pub fn resolve_colored(dices: &ColoredDices, amount: u64, rng: &mut rand::rngs::StdRng) -> (r: (
    Vec<(u64, String)>,
    u64,
))
    requires
        forall|i: int| 0 <= i < dices.dices@.len() ==> (#[trigger] dices.dices@[i]).value > 0,
        amount * 255 <= u64::MAX,
    ensures
        r.0@.len() == dices.dices@.len(),
        forall|k: int| 0 <= k < r.0@.len() ==> (#[trigger] r.0@[k]).1@ == spec_sort_desc(
            views_of(dices.dices@),
        )[k].long,
        forall|k: int| 0 <= k < r.0@.len() ==> (#[trigger] r.0@[k]).0 <= 255 * (rem_after(
            spec_sort_desc(views_of(dices.dices@)),
            amount as int,
            k,
        ) / spec_sort_desc(views_of(dices.dices@))[k].value as int),
        forall|k: int| 0 <= k < r.0@.len() ==> #[trigger] is_sum_of_rolls(
            r.0@[k].0,
            spec_sort_desc(views_of(dices.dices@))[k],
            rem_after(spec_sort_desc(views_of(dices.dices@)), amount as int, k) / (
            spec_sort_desc(views_of(dices.dices@))[k].value as int),
        ),
        r.1 == pair_sum(r.0@),
        r.1 <= 255 * amount,
{
    let ghost sorted_spec = spec_sort_desc(views_of(dices.dices@));
    let mut copy: Vec<ColoredDice> = Vec::new();
    let n = dices.dices.len();
    let mut ci: usize = 0;
    while ci < n
        invariant
            n == dices.dices@.len(),
            0 <= ci <= n,
            views_of(copy@) =~= views_of(dices.dices@).take(ci as int),
        decreases n - ci,
    {
        let ghost before = views_of(copy@);
        copy.push(dices.dices[ci].clone());
        proof {
            assert(views_of(copy@) =~= before.push(dices.dices@[ci as int]@));
        }
        ci += 1;
    }
    proof {
        assert(views_of(dices.dices@).take(n as int) =~= views_of(dices.dices@));
        assert(views_of(dices.dices@).len() == n);
    }
    sort_desc(&mut copy);
    proof {
        lemma_sort_desc_len(views_of(dices.dices@));
        assert(forall|i: int| 0 <= i < views_of(dices.dices@).len()
            ==> (#[trigger] views_of(dices.dices@)[i]).value > 0);
        lemma_sort_desc_values(views_of(dices.dices@));
    }
    let mut entries: Vec<(u64, String)> = Vec::new();
    let mut remaining: u64 = amount;
    let mut total: u64 = 0;
    let mut k: usize = 0;
    while k < n
        invariant
            n == dices.dices@.len(),
            views_of(copy@) =~= sorted_spec,
            sorted_spec == spec_sort_desc(views_of(dices.dices@)),
            sorted_spec.len() == n,
            forall|i: int| 0 <= i < sorted_spec.len() ==> (#[trigger] sorted_spec[i]).value > 0,
            amount * 255 <= u64::MAX,
            0 <= k <= n,
            entries@.len() == k,
            forall|i: int| 0 <= i < entries@.len() ==> (#[trigger] entries@[i]).1@
                == sorted_spec[i].long,
            forall|i: int| 0 <= i < entries@.len() ==> (#[trigger] entries@[i]).0 <= 255 * (
            rem_after(sorted_spec, amount as int, i) / sorted_spec[i].value as int),
            forall|i: int| 0 <= i < entries@.len() ==> #[trigger] is_sum_of_rolls(
                entries@[i].0,
                sorted_spec[i],
                rem_after(sorted_spec, amount as int, i) / (sorted_spec[i].value as int),
            ),
            remaining == rem_after(sorted_spec, amount as int, k as int),
            remaining <= amount,
            total == pair_sum(entries@),
            total <= 255 * (amount - remaining),
        decreases n - k,
    {
        let die = &copy[k];
        proof {
            assert(die@ == sorted_spec[k as int]);
        }
        let value: u64 = die.value as u64;
        let count: u64 = remaining / value;
        proof {
            assert(count <= remaining) by (nonlinear_arith)
                requires count == remaining / value, value >= 1, remaining >= 0;
            assert(count * 255 <= amount * 255) by (nonlinear_arith)
                requires count <= amount;
        }
        let result: u64 = roll_colored(die, count, rng);
        let ghost before = entries@;
        entries.push((result, die.long.clone()));
        proof {
            assert(entries@.drop_last() =~= before);
            assert(count as int == rem_after(sorted_spec, amount as int, k as int) / (
            sorted_spec[k as int].value as int));
            assert(is_sum_of_rolls(entries@[k as int].0, sorted_spec[k as int], count as int));
        }
        let new_remaining: u64 = remaining % value;
        proof {
            assert(rem_after(sorted_spec, amount as int, k + 1) == rem_after(
                sorted_spec,
                amount as int,
                k as int,
            ) % sorted_spec[k as int].value as int);
            assert(new_remaining <= remaining) by (nonlinear_arith)
                requires new_remaining == remaining % value, value >= 1, remaining >= 0;
            // the rolled share stays within what this die class consumed
            assert(count * value + new_remaining == remaining) by (nonlinear_arith)
                requires
                    count == remaining / value,
                    new_remaining == remaining % value,
                    value >= 1,
                    remaining >= 0;
            assert(count <= count * value) by (nonlinear_arith)
                requires count >= 0, value >= 1;
            assert(total + result <= 255 * (amount - new_remaining)) by (nonlinear_arith)
                requires
                    total <= 255 * (amount - remaining),
                    result <= count * 255,
                    count * value + new_remaining == remaining,
                    count <= count * value,
                    remaining <= amount,
                    new_remaining >= 0;
        }
        total = total + result;
        remaining = new_remaining;
        k += 1;
    }
    (entries, total)
}

/// Sum `count` rolls of one colored die.
pub fn roll_colored(die: &ColoredDice, count: u64, rng: &mut rand::rngs::StdRng) -> (sum: u64)
    requires
        count * 255 <= u64::MAX,
    ensures
        sum <= count * 255,
        is_sum_of_rolls(sum, die@, count as int),
{
    let mut sum: u64 = 0;
    let mut i: u64 = 0;
    let ghost mut rolls: Seq<u8> = Seq::empty();
    while i < count
        invariant
            count * 255 <= u64::MAX,
            0 <= i <= count,
            rolls.len() == i,
            sum == seq_sum(rolls),
            sum <= i * 255,
            forall|j: int| 0 <= j < rolls.len() ==> if die.sites@.len() == 0 {
                rolls[j] == 0
            } else {
                die.sites@.contains(#[trigger] rolls[j])
            },
        decreases count - i,
    {
        let face = die.roll(rng);
        proof {
            assert(i * 255 + 255 <= count * 255) by (nonlinear_arith)
                requires i + 1 <= count;
            let prev = rolls;
            rolls = rolls.push(face);
            assert(rolls.drop_last() =~= prev);
            assert(rolls.last() == face);
        }
        sum = sum + face as u64;
        i += 1;
    }
    proof {
        assert(die@.sites == die.sites@);
        assert(is_sum_of_rolls(sum, die@, count as int));
    }
    sum
}

} // verus!
