use rand::SeedableRng;
use wuerfeln::crit::{CritDice, CritDices, CritError, Level, RawCritDice};

fn rng(seed: u64) -> rand::rngs::StdRng {
    rand::rngs::StdRng::seed_from_u64(seed)
}

fn catalog(weights: &[u8]) -> CritDices {
    CritDices {
        dices: weights
            .iter()
            .map(|&w| CritDice {
                value: w,
                values: vec![0, 0, 0, 0, 0, w],
            })
            .collect(),
        level: Vec::new(),
        s: 4,
    }
}

/// Scenario: catalog weights [4, 3, 2, 1] decompose a total of 10 into
/// two weight-4 dice and one weight-2 die, by the greedy first-fit rule.
#[test]
fn greedy_decomposition_scenario() {
    let crits = catalog(&[4, 3, 2, 1]);
    let stack = crits.decompose(10).expect("a weight of one resolves every total");
    let weights: Vec<u8> = stack.iter().map(|&i| crits.dices[i].value).collect();
    assert_eq!(weights, vec![4, 4, 2]);
}

/// Decomposition exactness: with a weight of one in the catalog, the
/// stack weights sum to the requested total, for a sweep of totals.
#[test]
fn decomposition_sums_to_total() {
    let crits = catalog(&[4, 3, 2, 1]);
    for total in 0..=200i16 {
        let stack = crits.decompose(total).expect("a weight of one resolves every total");
        let sum: i16 = stack.iter().map(|&i| crits.dices[i].value as i16).sum();
        assert_eq!(sum, total);
    }
}

#[test]
fn unresolvable_total_is_rejected() {
    let crits = catalog(&[4, 3, 2]);
    assert_eq!(crits.decompose(5), Err(CritError::UnresolvableTotal));
    // a weightless denomination means a scan without progress
    let stuck = catalog(&[0]);
    assert_eq!(stuck.decompose(3), Err(CritError::UnresolvableTotal));
}

#[test]
fn negative_total_is_rejected() {
    let crits = catalog(&[4, 3, 2, 1]);
    assert_eq!(crits.decompose(-1), Err(CritError::NegativeTotal));
    let mut g = rng(9);
    assert!(matches!(crits.roll(-7, &mut g), Err(CritError::NegativeTotal)));
}

#[test]
fn crit_roll_aggregates_sentinels_and_sum() {
    let crits = CritDices::default();
    let mut g = rng(21);
    let report = crits.roll(10, &mut g).expect("the stock catalog holds a weight of one");
    // the stock catalog starts with the weight-1 die, so first fit takes
    // it ten times; its faces are only 0 and 1
    assert_eq!(report.results.len(), 10);
    for &outcome in &report.results {
        assert!(outcome <= 1);
    }
    // sentinel 4 never shows among those faces
    assert_eq!(report.s_count, 0);
    let plain_sum: u64 = report.results.iter().map(|&x| x as u64).sum();
    assert_eq!(report.sum, plain_sum);
    // no tiers were drawn away: all three stay listed with their outcome
    assert_eq!(report.levels.len(), 3);
    for (tier, _) in &report.levels {
        assert!(crits.level.contains(tier));
    }
}

#[test]
fn sentinel_outcomes_are_counted_separately() {
    // every face is the sentinel, so the whole stack counts as sentinels
    let crits = CritDices {
        dices: vec![CritDice {
            value: 1,
            values: vec![4, 4, 4, 4, 4, 4],
        }],
        level: Vec::new(),
        s: 4,
    };
    let mut g = rng(5);
    let report = crits.roll(6, &mut g).unwrap();
    assert_eq!(report.s_count, 6);
    assert_eq!(report.sum, 0);
}

#[test]
fn zero_chance_tier_never_fires() {
    let tier = Level {
        lower: 0,
        upper: None,
        percentage_milli: 0,
    };
    let mut g = rng(13);
    for _ in 0..200 {
        assert!(!tier.works(&mut g));
    }
}

#[test]
fn tier_text_spells_out_bounds() {
    let bounded = Level {
        lower: 0,
        upper: Some(9),
        percentage_milli: 50_000,
    };
    assert_eq!(bounded.describe(), "Level 0 - 9");
    let open = Level {
        lower: 20,
        upper: None,
        percentage_milli: 83_333,
    };
    assert_eq!(open.describe(), "Level 20 - Keine Begrenzung");
}

#[test]
fn default_crit_catalog() {
    let crits = CritDices::default();
    assert_eq!(crits.s, 4);
    assert_eq!(crits.level.len(), 3);
    assert_eq!(crits.level[0].percentage_milli, 50_000);
    assert_eq!(crits.level[2].upper, None);
    let weights: Vec<u8> = crits.dices.iter().map(|d| d.value).collect();
    assert_eq!(weights, vec![1, 2, 3, 4]);
    assert_eq!(crits.dices[3].values, vec![0, 0, 1, 2, 3, 4]);
}

#[test]
fn raw_dice_convert_plainly() {
    let raw = RawCritDice {
        value: 3,
        values: vec![0, 0, 0, 0, 3, 2],
    };
    let die = CritDice::from(raw);
    assert_eq!(die.value, 3);
    assert_eq!(die.values, vec![0, 0, 0, 0, 3, 2]);
}
