use rand::SeedableRng;
use wuerfeln::dice::{
    counts_from_data, counted_sum, itemized_sum, roll, six_sided_buckets, summarize, Breakdown,
    Dices, Results,
};

fn rng(seed: u64) -> rand::rngs::StdRng {
    rand::rngs::StdRng::seed_from_u64(seed)
}

/// Scenario: 100 six-sided dice in the itemized mode give exactly 100
/// entries, each in 1..=6.
#[test]
fn roll_simple_hundred_d6() {
    let mut g = rng(7);
    let res = roll(100, 6, true, &mut g);
    let data = res.data.expect("itemized mode keeps every roll");
    assert_eq!(data.len(), 100);
    for &face in &data {
        assert!(1 <= face && face <= 6);
    }
    assert!(res.counts.is_none());
    assert_eq!(res.sides, 6);
    assert_eq!(res.count, 100);
}

/// Range invariant: for many side counts and amounts, every face value
/// lies in [1, sides], in both collection modes.
#[test]
fn range_invariant_all_sides() {
    let mut g = rng(11);
    for sides in 2..=100u8 {
        let res = roll(60, sides, true, &mut g);
        for &face in res.data.as_ref().unwrap() {
            assert!(1 <= face && face <= sides);
        }
        let res = roll(60, sides, false, &mut g);
        let counts = res.counts.as_ref().unwrap();
        assert_eq!(counts.len(), sides as usize);
        let total: u64 = counts.iter().sum();
        assert_eq!(total, 60);
    }
    // one large batch
    let res = roll(10000, 6, true, &mut g);
    let data = res.data.unwrap();
    assert_eq!(data.len(), 10000);
    for &face in &data {
        assert!(1 <= face && face <= 6);
    }
}

/// Uniformity: a chi-square goodness-of-fit test over 100000 rolls of a
/// six-sided die stays far below the rejection bound for five degrees
/// of freedom.
#[test]
fn uniformity_chi_square_d6() {
    let mut g = rng(42);
    let n: usize = 100000;
    let res = roll(n, 6, false, &mut g);
    let counts = res.counts.unwrap();
    let expected = n as f64 / 6.0;
    let mut chi2 = 0.0f64;
    for &c in &counts {
        let diff = c as f64 - expected;
        chi2 += diff * diff / expected;
    }
    // p = 0.0001 at 5 degrees of freedom is about 25.7
    assert!(chi2 < 25.7, "chi-square statistic too large: {}", chi2);
}

/// Histogram/sum agreement: itemized and counted mode yield the same sum
/// for the same fixed set of rolls.
#[test]
fn itemized_and_counted_sum_agree() {
    let data: Vec<u8> = vec![1, 4, 4, 2, 6, 3, 3, 3, 5, 1, 6, 6, 6, 2];
    let counts = counts_from_data(&data, 6);
    assert_eq!(counts, vec![2, 2, 3, 2, 1, 4]);
    let a = itemized_sum(&data);
    let b = counted_sum(&counts);
    assert_eq!(a, b);
    assert_eq!(a, 52);
}

/// The two interchangeable representations summarize identically.
#[test]
fn summaries_agree_across_modes() {
    let data: Vec<u8> = vec![2, 9, 9, 1, 5, 7, 7, 7, 3, 10];
    let counts = counts_from_data(&data, 10);
    let itemized = Results {
        counts: None,
        data: Some(data.clone()),
        sides: 10,
        count: data.len() as u64,
    };
    let counted = Results {
        counts: Some(counts),
        data: None,
        sides: 10,
        count: data.len() as u64,
    };
    let s1 = summarize(&itemized);
    let s2 = summarize(&counted);
    assert_eq!(s1.counts, s2.counts);
    assert_eq!(s1.samples, s2.samples);
    assert_eq!(s1.sides, s2.sides);
    match (s1.breakdown, s2.breakdown) {
        (Breakdown::Total(a), Breakdown::Total(b)) => {
            assert_eq!(a, b);
            assert_eq!(a, 60);
        }
        _ => panic!("ten-sided results summarize to a total"),
    }
}

/// Scenario: the fixed six-sided bucket rules on a known count table.
#[test]
fn six_sided_buckets_scenario() {
    let counts: Vec<u64> = vec![10, 5, 8, 12, 7, 9];
    let b = six_sided_buckets(&counts);
    assert_eq!(b.failures, 10);
    assert_eq!(b.failures_improvised, 15);
    assert_eq!(b.failures_fumble, 23);
    assert_eq!(b.successes_wealth, 36);
    assert_eq!(b.successes_luck, 28);
    assert_eq!(b.successes, 16);
}

/// The same buckets come out of a full summary of six-sided results.
#[test]
fn summarize_six_sided_buckets() {
    let counts: Vec<u64> = vec![10, 5, 8, 12, 7, 9];
    let res = Results {
        counts: Some(counts),
        data: None,
        sides: 6,
        count: 51,
    };
    match summarize(&res).breakdown {
        Breakdown::SixSided(b) => {
            assert_eq!(b.successes, 16);
            assert_eq!(b.failures, 10);
        }
        Breakdown::Total(_) => panic!("six-sided results get buckets"),
    }
}

#[test]
fn default_dice_catalog() {
    let dices = Dices::default();
    assert_eq!(dices.dices, vec![2, 3, 4, 6, 8, 10, 20, 100]);
    assert_eq!(dices.len(), 8);
    assert!(dices.allows(6));
    assert!(!dices.allows(7));
}
