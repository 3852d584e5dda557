use rand::SeedableRng;
use wuerfeln::colored::{resolve_colored, roll_colored, ColoredDice, ColoredDices, RawColoredDice};

fn rng(seed: u64) -> rand::rngs::StdRng {
    rand::rngs::StdRng::seed_from_u64(seed)
}

/// Scenario: a die with faces [0, 0, 0, 1, 1, 2] only ever rolls 0, 1 or
/// 2, and 0 falls roughly three times as often as 2.
#[test]
fn colored_die_weighted_faces() {
    let die = ColoredDice {
        long: String::from("Rosa"),
        short: 'r',
        sites: vec![0, 0, 0, 1, 1, 2],
        value: 1,
        color: String::from("#FF8B8B"),
    };
    let mut g = rng(17);
    let mut zeros = 0u32;
    let mut twos = 0u32;
    for _ in 0..1000 {
        let outcome = die.roll(&mut g);
        assert!(outcome <= 2);
        if outcome == 0 {
            zeros += 1;
        }
        if outcome == 2 {
            twos += 1;
        }
    }
    let ratio = zeros as f64 / twos as f64;
    assert!(2.0 < ratio && ratio < 4.5, "unexpected weighting: {}", ratio);
}

#[test]
fn empty_face_table_yields_zero() {
    let die = ColoredDice {
        long: String::from("leer"),
        short: 'l',
        sites: Vec::new(),
        value: 1,
        color: String::from("#000000"),
    };
    let mut g = rng(2);
    assert_eq!(die.roll(&mut g), 0);
    assert_eq!(roll_colored(&die, 5, &mut g), 0);
}

#[test]
fn roll_colored_sums_within_range() {
    let die = ColoredDice {
        long: String::from("Schwarz"),
        short: 's',
        sites: vec![0, 1, 3, 3, 3, 4],
        value: 4,
        color: String::from("#818181"),
    };
    let mut g = rng(23);
    assert_eq!(roll_colored(&die, 0, &mut g), 0);
    let sum = roll_colored(&die, 100, &mut g);
    assert!(sum <= 400);
}

/// The "number instead" mode covers the requested total with the
/// highest-valued dice first.
#[test]
fn resolve_colored_consumes_by_value() {
    let catalog = ColoredDices::default();
    let mut g = rng(31);
    let (entries, total) = resolve_colored(&catalog, 10, &mut g);
    let labels: Vec<&str> = entries.iter().map(|e| e.1.as_str()).collect();
    assert_eq!(labels, vec!["Schwarz", "Weiß", "Grün", "Rosa"]);
    // 10 = 2 * 4 + 0 * 3 + 1 * 2 + 0 * 1: the classes without a share
    // contribute nothing
    assert_eq!(entries[1].0, 0);
    assert_eq!(entries[3].0, 0);
    assert!(entries[0].0 <= 2 * 4);
    assert!(entries[2].0 <= 2);
    let sum: u64 = entries.iter().map(|e| e.0).sum();
    assert_eq!(total, sum);
}

/// With single-valued face tables the per-class sums are forced: each
/// class must report the sum of exactly `floor(remaining / value)` rolls
/// of its own die.
#[test]
fn resolve_colored_rolls_every_share() {
    let catalog = ColoredDices {
        dices: vec![
            ColoredDice {
                long: String::from("Einser"),
                short: 'e',
                sites: vec![1, 1, 1, 1, 1, 1],
                value: 2,
                color: String::from("#101010"),
            },
            ColoredDice {
                long: String::from("Zweier"),
                short: 'z',
                sites: vec![2, 2, 2, 2, 2, 2],
                value: 1,
                color: String::from("#202020"),
            },
        ],
    };
    let mut g = rng(37);
    // 5 = 2 * 2 + 1: two rolls of the value-2 die (faces all 1), one of
    // the value-1 die (faces all 2)
    let (entries, total) = resolve_colored(&catalog, 5, &mut g);
    assert_eq!(entries[0], (2, String::from("Einser")));
    assert_eq!(entries[1], (2, String::from("Zweier")));
    assert_eq!(total, 4);
}

#[test]
fn default_colored_catalog() {
    let catalog = ColoredDices::default();
    assert_eq!(catalog.len(), 4);
    assert_eq!(catalog.dices[0].long, "Rosa");
    assert_eq!(catalog.dices[0].short, 'r');
    assert_eq!(catalog.dices[0].sites, vec![0, 0, 0, 1, 1, 2]);
    assert_eq!(catalog.dices[1].long, "Grün");
    assert_eq!(catalog.dices[2].long, "Weiß");
    assert_eq!(catalog.dices[2].value, 3);
    assert_eq!(catalog.dices[3].color, "#818181");
}

#[test]
fn raw_colored_dice_converts_plainly() {
    let raw = RawColoredDice {
        long: String::from("Rosa"),
        short: 'r',
        sites: vec![0, 0, 0, 1, 1, 2],
        value: 1,
        color: String::from("#FF8B8B"),
    };
    let die = ColoredDice::from(raw);
    assert_eq!(die.long, "Rosa");
    assert_eq!(die.sites, vec![0, 0, 0, 1, 1, 2]);
    assert_eq!(die.value, 1);
}
