//! Spell groups: named lists of spell names, one of which can be drawn
//! at random.

use vstd::prelude::*;
use crate::rng;

verus! {

/// One spell group: its name and the spells it holds.
pub struct Spells {
    pub spells: Vec<String>,
    pub name: String,
}

impl Spells {
    /// Draw one spell of this group uniformly.
    pub fn roll(&self, rng: &mut rand::rngs::StdRng) -> (r: String)
        requires
            self.spells@.len() > 0,
        ensures
            exists|i: int| 0 <= i < self.spells@.len() && r@ == #[trigger] self.spells@[i]@,
    {
        let hi: u64 = (self.spells.len() - 1) as u64;
        let idx: usize = rng::sample_inclusive(rng, 0, hi) as usize;
        let r = self.spells[idx].clone();
        proof {
            assert(r@ == self.spells@[idx as int]@);
        }
        r
    }

    /// The stock spell groups.
    #[verifier::rlimit(40)]
    pub fn defaults() -> (r: Vec<Spells>)
        ensures
            r@.len() == 5,
            r@[0].name@ == "Projektionszauber"@,
            r@[0].spells@.len() == 14,
            r@[0].spells@[0]@ == "Astrale Ohren"@,
            r@[0].spells@[1]@ == "Astrale Projektion"@,
            r@[0].spells@[2]@ == "Astrales Rauschen"@,
            r@[0].spells@[3]@ == "Erleuchten"@,
            r@[0].spells@[4]@ == "Erschaffen"@,
            r@[0].spells@[5]@ == "Extraktor"@,
            r@[0].spells@[6]@ == "Hologramm"@,
            r@[0].spells@[7]@ == "Kunst der Natur"@,
            r@[0].spells@[8]@ == "Leuchte"@,
            r@[0].spells@[9]@ == "Molekularsicht"@,
            r@[0].spells@[10]@ == "Trugbild"@,
            r@[0].spells@[11]@ == "Vision\u{e4}r"@,
            r@[0].spells@[12]@ == "Wetterkontrolle"@,
            r@[0].spells@[13]@ == "Zeichnen"@,
            r@[1].name@ == "Heil- und Schutzzauber"@,
            r@[1].spells@.len() == 10,
            r@[1].spells@[0]@ == "Attributsschub"@,
            r@[1].spells@[1]@ == "Desinfektor"@,
            r@[1].spells@[2]@ == "Elementarschild"@,
            r@[1].spells@[3]@ == "Fl\u{e4}chenwirkung"@,
            r@[1].spells@[4]@ == "G\u{f6}ttlicher Segen"@,
            r@[1].spells@[5]@ == "Heilkreis"@,
            r@[1].spells@[6]@ == "Heilung"@,
            r@[1].spells@[7]@ == "Manablockade"@,
            r@[1].spells@[8]@ == "Projektilschild"@,
            r@[1].spells@[9]@ == "Reparator"@,
            r@[2].name@ == "Geistermagie"@,
            r@[2].spells@.len() == 5,
            r@[2].spells@[0]@ == "Binden"@,
            r@[2].spells@[1]@ == "Heilige Erl\u{f6}sung"@,
            r@[2].spells@[2]@ == "Segnen"@,
            r@[2].spells@[3]@ == "Sp\u{e4}her"@,
            r@[2].spells@[4]@ == "Verbannen"@,
            r@[3].name@ == "Manipulationszauber"@,
            r@[3].spells@.len() == 13,
            r@[3].spells@[0]@ == "Brecher"@,
            r@[3].spells@[1]@ == "Feger"@,
            r@[3].spells@[2]@ == "Freie Zunge"@,
            r@[3].spells@[3]@ == "Humanzauber"@,
            r@[3].spells@[4]@ == "Mobbewusstsein"@,
            r@[3].spells@[5]@ == "Molekularbearbeitung"@,
            r@[3].spells@[6]@ == "Morpher"@,
            r@[3].spells@[7]@ == "Offenes Buch"@,
            r@[3].spells@[8]@ == "Reinigen"@,
            r@[3].spells@[9]@ == "Schrumpfen"@,
            r@[3].spells@[10]@ == "Statusbrecher"@,
            r@[3].spells@[11]@ == "Vergr\u{f6}\u{df}ern"@,
            r@[3].spells@[12]@ == "Zeitkontrolle"@,
            r@[4].name@ == "Kampfzauber"@,
            r@[4].spells@.len() == 17,
            r@[4].spells@[0]@ == "Dampfgarer"@,
            r@[4].spells@[1]@ == "Elementar-Emitter"@,
            r@[4].spells@[2]@ == "Energieball"@,
            r@[4].spells@[3]@ == "Feuerball"@,
            r@[4].spells@[4]@ == "Flamme"@,
            r@[4].spells@[5]@ == "H\u{f6}llenschrei"@,
            r@[4].spells@[6]@ == "Inferno"@,
            r@[4].spells@[7]@ == "Komprimator"@,
            r@[4].spells@[8]@ == "Manablitz"@,
            r@[4].spells@[9]@ == "Parasit"@,
            r@[4].spells@[10]@ == "Sandsturm"@,
            r@[4].spells@[11]@ == "Schnee"@,
            r@[4].spells@[12]@ == "Todesfluch"@,
            r@[4].spells@[13]@ == "Sprengball"@,
            r@[4].spells@[14]@ == "Toxin"@,
            r@[4].spells@[15]@ == "Trance"@,
            r@[4].spells@[16]@ == "Windhose"@,
    {
        let projection = Spells {
            name: String::from_str("Projektionszauber"),
            spells: owned_names(
                vec![
                    "Astrale Ohren",
                    "Astrale Projektion",
                    "Astrales Rauschen",
                    "Erleuchten",
                    "Erschaffen",
                    "Extraktor",
                    "Hologramm",
                    "Kunst der Natur",
                    "Leuchte",
                    "Molekularsicht",
                    "Trugbild",
                    "Vision\u{e4}r",
                    "Wetterkontrolle",
                    "Zeichnen",
                ],
            ),
        };
        let healing = Spells {
            name: String::from_str("Heil- und Schutzzauber"),
            spells: owned_names(
                vec![
                    "Attributsschub",
                    "Desinfektor",
                    "Elementarschild",
                    "Fl\u{e4}chenwirkung",
                    "G\u{f6}ttlicher Segen",
                    "Heilkreis",
                    "Heilung",
                    "Manablockade",
                    "Projektilschild",
                    "Reparator",
                ],
            ),
        };
        let spirit = Spells {
            name: String::from_str("Geistermagie"),
            spells: owned_names(
                vec![
                    "Binden",
                    "Heilige Erl\u{f6}sung",
                    "Segnen",
                    "Sp\u{e4}her",
                    "Verbannen",
                ],
            ),
        };
        let manipulation = Spells {
            name: String::from_str("Manipulationszauber"),
            spells: owned_names(
                vec![
                    "Brecher",
                    "Feger",
                    "Freie Zunge",
                    "Humanzauber",
                    "Mobbewusstsein",
                    "Molekularbearbeitung",
                    "Morpher",
                    "Offenes Buch",
                    "Reinigen",
                    "Schrumpfen",
                    "Statusbrecher",
                    "Vergr\u{f6}\u{df}ern",
                    "Zeitkontrolle",
                ],
            ),
        };
        let combat = Spells {
            name: String::from_str("Kampfzauber"),
            spells: owned_names(
                vec![
                    "Dampfgarer",
                    "Elementar-Emitter",
                    "Energieball",
                    "Feuerball",
                    "Flamme",
                    "H\u{f6}llenschrei",
                    "Inferno",
                    "Komprimator",
                    "Manablitz",
                    "Parasit",
                    "Sandsturm",
                    "Schnee",
                    "Todesfluch",
                    "Sprengball",
                    "Toxin",
                    "Trance",
                    "Windhose",
                ],
            ),
        };
        vec![projection, healing, spirit, manipulation, combat]
    }
}

/// Turn a list of borrowed names into owned ones.
fn owned_names(names: Vec<&str>) -> (r: Vec<String>)
    ensures
        r@.len() == names@.len(),
        forall|i: int| 0 <= i < r@.len() ==> (#[trigger] r@[i])@ == names@[i]@,
{
    let n = names.len();
    let mut r: Vec<String> = Vec::new();
    let mut i: usize = 0;
    while i < n
        invariant
            n == names@.len(),
            0 <= i <= n,
            r@.len() == i,
            forall|j: int| 0 <= j < r@.len() ==> (#[trigger] r@[j])@ == names@[j]@,
        decreases n - i,
    {
        r.push(names[i].to_owned());
        i += 1;
    }
    r
}

} // verus!
