use rand::SeedableRng;
use wuerfeln::dice::Dices;
use wuerfeln::disadvantage::{get_random, Advantage, Disadvantage};
use wuerfeln::menu::{handle_input, MenuAction};
use wuerfeln::prefs::Settings;
use wuerfeln::spells::Spells;

fn rng(seed: u64) -> rand::rngs::StdRng {
    rand::rngs::StdRng::seed_from_u64(seed)
}

#[test]
fn menu_decisions() {
    let allowed = Dices::default();
    assert_eq!(handle_input("exit", &allowed), MenuAction::Quit);
    assert_eq!(handle_input("e", &allowed), MenuAction::Quit);
    assert_eq!(handle_input("help", &allowed), MenuAction::Help);
    assert_eq!(handle_input("h", &allowed), MenuAction::Help);
    assert_eq!(handle_input("6", &allowed), MenuAction::Roll(6));
    assert_eq!(handle_input("100", &allowed), MenuAction::Roll(100));
    assert_eq!(handle_input("7", &allowed), MenuAction::NotAllowed);
    assert_eq!(handle_input("sechs", &allowed), MenuAction::NotANumber);
    assert_eq!(handle_input("-6", &allowed), MenuAction::NotANumber);
    assert_eq!(handle_input("", &allowed), MenuAction::NotANumber);
}

#[test]
fn default_settings() {
    let s = Settings::default();
    assert!(s.old_style);
    assert!(!s.no_tutorial);
    assert!(!s.no_summary_message);
    assert!(!s.no_select_dice_select);
    assert!(s.number_instead);
}

#[test]
fn spell_groups_and_rolls() {
    let groups = Spells::defaults();
    assert_eq!(groups.len(), 5);
    assert_eq!(groups[0].name, "Projektionszauber");
    assert_eq!(groups[4].name, "Kampfzauber");
    assert_eq!(groups[4].spells.len(), 17);
    assert_eq!(groups[2].spells, vec![
        "Binden",
        "Heilige Erlösung",
        "Segnen",
        "Späher",
        "Verbannen",
    ]);
    let mut g = rng(19);
    for group in &groups {
        let spell = group.roll(&mut g);
        assert!(group.spells.contains(&spell));
    }
}

#[test]
fn random_disadvantage_comes_from_catalog() {
    let catalog = vec![
        Disadvantage {
            name: String::from("Pech"),
            description: String::from("Immer zur falschen Zeit am falschen Ort."),
        },
        Disadvantage {
            name: String::from("Neugier"),
            description: String::from("Muss alles sofort wissen."),
        },
    ];
    let mut g = rng(29);
    for _ in 0..20 {
        let drawn = get_random(&catalog, &mut g);
        assert!(catalog.iter().any(|d| d.name == drawn.name && d.description == drawn.description));
    }
    assert!(Disadvantage::defaults().is_empty());
    assert!(Advantage::defaults().is_empty());
}
