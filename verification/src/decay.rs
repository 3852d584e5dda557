//! The decay-series toy simulator: a particle state, the operations that
//! transform it, and its textual description. Negative particle counts
//! are clamped to zero by validation.

use vstd::prelude::*;
use crate::text::{
    i64_to_string, parse_i64, spec_i64_text, spec_parse_i64, spec_split, split_char,
};

verus! {

/// A particle state: counts of electrons, protons and neutrons.
#[derive(Clone, Copy, PartialEq, Eq, Structural, Debug, Hash)]
pub struct State {
    pub electrons: i64,
    pub protons: i64,
    pub neutrons: i64,
}

/// Clamp a particle count to zero from below.
pub open spec fn clamp0(v: int) -> int {
    if v >= 0 {
        v
    } else {
        0
    }
}

impl State {
    /// The state with every negative count replaced by zero.
    pub open spec fn spec_validate(self) -> State {
        State {
            electrons: clamp0(self.electrons as int) as i64,
            protons: clamp0(self.protons as int) as i64,
            neutrons: clamp0(self.neutrons as int) as i64,
        }
    }

    /// Replace negative particle counts by zero.
    pub fn validate(&self) -> (s: State)
        ensures
            s == self.spec_validate(),
    {
        State {
            electrons: if self.electrons >= 0 {
                self.electrons
            } else {
                0
            },
            protons: if self.protons >= 0 {
                self.protons
            } else {
                0
            },
            neutrons: if self.neutrons >= 0 {
                self.neutrons
            } else {
                0
            },
        }
    }

    /// The category text of this state.
    pub open spec fn spec_description(self) -> Seq<char> {
        if self.neutrons == 0 && self.electrons == self.protons {
            "Monster Nr. "@ + spec_i64_text(self.protons as int)
        } else if self.neutrons != 0 {
            if self.protons == self.electrons {
                "Pflanze der 2. Generation Nr. "@ + spec_i64_text(self.protons as int)
            } else if self.protons < self.electrons {
                "Pflanze der 3. Generation Nr. "@ + spec_i64_text(self.protons as int)
            } else {
                "Pflanze der 1. Generation Nr. "@ + spec_i64_text(self.protons as int)
            }
        } else {
            "Nicht abgedeckt"@
        }
    }

    /// Describe the state: a numbered monster when it has no neutrons and
    /// balanced charges, a numbered plant generation when it has
    /// neutrons, and a fixed text otherwise.
    pub fn get_description(&self) -> (d: String)
        ensures
            d@ == self.spec_description(),
    {
        if self.neutrons == 0 && self.electrons == self.protons {
            let mut s = String::from_str("Monster Nr. ");
            let num = i64_to_string(self.protons);
            s.append(num.as_str());
            s
        } else if self.neutrons != 0 {
            if self.protons == self.electrons {
                let mut s = String::from_str("Pflanze der 2. Generation Nr. ");
                let num = i64_to_string(self.protons);
                s.append(num.as_str());
                s
            } else if self.protons < self.electrons {
                let mut s = String::from_str("Pflanze der 3. Generation Nr. ");
                let num = i64_to_string(self.protons);
                s.append(num.as_str());
                s
            } else {
                let mut s = String::from_str("Pflanze der 1. Generation Nr. ");
                let num = i64_to_string(self.protons);
                s.append(num.as_str());
                s
            }
        } else {
            String::from_str("Nicht abgedeckt")
        }
    }

    /// The state that semicolon-separated text denotes: exactly three
    /// numbers, each parsed as a 64-bit integer, then validated. Text of
    /// any other shape denotes nothing.
    pub open spec fn spec_text_state(s: Seq<char>) -> Option<State> {
        let parts = spec_split(s, ';');
        if parts.len() == 3 && spec_parse_i64(parts[0]) is Some && spec_parse_i64(
            parts[1],
        ) is Some && spec_parse_i64(parts[2]) is Some {
            Some(
                State {
                    electrons: spec_parse_i64(parts[0])->0,
                    protons: spec_parse_i64(parts[1])->0,
                    neutrons: spec_parse_i64(parts[2])->0,
                }.spec_validate(),
            )
        } else {
            None
        }
    }

    /// What the untyped conversions yield: the denoted state, or the
    /// zero state on malformed text — `From` must cover every input,
    /// so the fault cannot surface there; `from_text` reports it.
    pub open spec fn spec_from_text(s: Seq<char>) -> State {
        match State::spec_text_state(s) {
            Some(st) => st,
            None => State { electrons: 0, protons: 0, neutrons: 0 },
        }
    }

    /// Parse semicolon-separated text into a state. Text that does not
    /// hold exactly three well-formed numbers is rejected, if and only
    /// if — the typed form of the failure the conversions cannot raise.
    pub fn from_text(text: &str) -> (r: Option<State>)
        ensures
            r == State::spec_text_state(text@),
            r is Some <==> {
                let parts = spec_split(text@, ';');
                parts.len() == 3 && spec_parse_i64(parts[0]) is Some && spec_parse_i64(
                    parts[1],
                ) is Some && spec_parse_i64(parts[2]) is Some
            },
    {
        let parts: Vec<String> = split_char(text, ';');
        let ghost sparts = spec_split(text@, ';');
        proof {
            assert(parts@.map_values(|p: String| p@).len() == parts@.len());
        }
        if parts.len() != 3 {
            return None;
        }
        proof {
            assert(parts@[0]@ == sparts[0]);
            assert(parts@[1]@ == sparts[1]);
            assert(parts@[2]@ == sparts[2]);
        }
        let e = parse_i64(parts[0].as_str());
        let p = parse_i64(parts[1].as_str());
        let n = parse_i64(parts[2].as_str());
        match (e, p, n) {
            (Some(e), Some(p), Some(n)) => Some(
                State { electrons: e, protons: p, neutrons: n }.validate(),
            ),
            _ => None,
        }
    }

    /// The total form behind `From`: the denoted state, or the zero
    /// state on malformed text.
    fn from_text_or_zero(text: &str) -> (s: State)
        ensures
            s == State::spec_from_text(text@),
    {
        match State::from_text(text) {
            Some(st) => st,
            None => State { electrons: 0, protons: 0, neutrons: 0 },
        }
    }
}

impl From<(i64, i64, i64)> for State {
    fn from(parts: (i64, i64, i64)) -> (s: State) {
        State { electrons: parts.0, protons: parts.1, neutrons: parts.2 }.validate()
    }
}

impl vstd::std_specs::convert::FromSpecImpl<(i64, i64, i64)> for State {
    open spec fn obeys_from_spec() -> bool {
        true
    }

    open spec fn from_spec(parts: (i64, i64, i64)) -> State {
        State { electrons: parts.0, protons: parts.1, neutrons: parts.2 }.spec_validate()
    }
}

impl From<(i32, i32, i32)> for State {
    fn from(parts: (i32, i32, i32)) -> (s: State) {
        State { electrons: parts.0 as i64, protons: parts.1 as i64, neutrons: parts.2 as i64 }
            .validate()
    }
}

impl vstd::std_specs::convert::FromSpecImpl<(i32, i32, i32)> for State {
    open spec fn obeys_from_spec() -> bool {
        true
    }

    open spec fn from_spec(parts: (i32, i32, i32)) -> State {
        State {
            electrons: parts.0 as i64,
            protons: parts.1 as i64,
            neutrons: parts.2 as i64,
        }.spec_validate()
    }
}

impl From<(i16, i16, i16)> for State {
    fn from(parts: (i16, i16, i16)) -> (s: State) {
        State { electrons: parts.0 as i64, protons: parts.1 as i64, neutrons: parts.2 as i64 }
            .validate()
    }
}

impl vstd::std_specs::convert::FromSpecImpl<(i16, i16, i16)> for State {
    open spec fn obeys_from_spec() -> bool {
        true
    }

    open spec fn from_spec(parts: (i16, i16, i16)) -> State {
        State {
            electrons: parts.0 as i64,
            protons: parts.1 as i64,
            neutrons: parts.2 as i64,
        }.spec_validate()
    }
}

impl From<(i8, i8, i8)> for State {
    fn from(parts: (i8, i8, i8)) -> (s: State) {
        State { electrons: parts.0 as i64, protons: parts.1 as i64, neutrons: parts.2 as i64 }
            .validate()
    }
}

impl vstd::std_specs::convert::FromSpecImpl<(i8, i8, i8)> for State {
    open spec fn obeys_from_spec() -> bool {
        true
    }

    open spec fn from_spec(parts: (i8, i8, i8)) -> State {
        State {
            electrons: parts.0 as i64,
            protons: parts.1 as i64,
            neutrons: parts.2 as i64,
        }.spec_validate()
    }
}

impl From<(u32, u32, u32)> for State {
    fn from(parts: (u32, u32, u32)) -> (s: State) {
        State { electrons: parts.0 as i64, protons: parts.1 as i64, neutrons: parts.2 as i64 }
            .validate()
    }
}

impl vstd::std_specs::convert::FromSpecImpl<(u32, u32, u32)> for State {
    open spec fn obeys_from_spec() -> bool {
        true
    }

    open spec fn from_spec(parts: (u32, u32, u32)) -> State {
        State {
            electrons: parts.0 as i64,
            protons: parts.1 as i64,
            neutrons: parts.2 as i64,
        }.spec_validate()
    }
}

impl From<(u16, u16, u16)> for State {
    fn from(parts: (u16, u16, u16)) -> (s: State) {
        State { electrons: parts.0 as i64, protons: parts.1 as i64, neutrons: parts.2 as i64 }
            .validate()
    }
}

impl vstd::std_specs::convert::FromSpecImpl<(u16, u16, u16)> for State {
    open spec fn obeys_from_spec() -> bool {
        true
    }

    open spec fn from_spec(parts: (u16, u16, u16)) -> State {
        State {
            electrons: parts.0 as i64,
            protons: parts.1 as i64,
            neutrons: parts.2 as i64,
        }.spec_validate()
    }
}

impl From<(u8, u8, u8)> for State {
    fn from(parts: (u8, u8, u8)) -> (s: State) {
        State { electrons: parts.0 as i64, protons: parts.1 as i64, neutrons: parts.2 as i64 }
            .validate()
    }
}

impl vstd::std_specs::convert::FromSpecImpl<(u8, u8, u8)> for State {
    open spec fn obeys_from_spec() -> bool {
        true
    }

    open spec fn from_spec(parts: (u8, u8, u8)) -> State {
        State {
            electrons: parts.0 as i64,
            protons: parts.1 as i64,
            neutrons: parts.2 as i64,
        }.spec_validate()
    }
}

impl From<&str> for State {
    fn from(string: &str) -> (s: State) {
        State::from_text_or_zero(string)
    }
}

impl vstd::std_specs::convert::FromSpecImpl<&str> for State {
    open spec fn obeys_from_spec() -> bool {
        true
    }

    open spec fn from_spec(string: &str) -> State {
        State::spec_from_text(string@)
    }
}

impl From<String> for State {
    fn from(string: String) -> (s: State) {
        State::from_text_or_zero(string.as_str())
    }
}

impl vstd::std_specs::convert::FromSpecImpl<String> for State {
    open spec fn obeys_from_spec() -> bool {
        true
    }

    open spec fn from_spec(string: String) -> State {
        State::spec_from_text(string@)
    }
}

/// One decay operation: a display name and the change it makes to each
/// particle count.
pub struct Operation {
    pub display: String,
    pub electrons: Option<i64>,
    pub protons: Option<i64>,
    pub neutrons: Option<i64>,
}

/// The mathematical result of applying a delta to one particle count.
pub open spec fn spec_shift(cur: i64, delta: Option<i64>) -> int {
    cur + match delta {
        None => 0int,
        Some(v) => v as int,
    }
}

impl Operation {
    /// Apply this operation to a state: add each configured delta to its
    /// count, then clamp negative counts to zero. The preconditions rule
    /// out 64-bit overflow of the intermediate sums.
    pub fn apply(&self, state: State) -> (s: State)
        requires
            i64::MIN <= spec_shift(state.electrons, self.electrons) <= i64::MAX,
            i64::MIN <= spec_shift(state.protons, self.protons) <= i64::MAX,
            i64::MIN <= spec_shift(state.neutrons, self.neutrons) <= i64::MAX,
        ensures
            s.electrons == clamp0(spec_shift(state.electrons, self.electrons)),
            s.protons == clamp0(spec_shift(state.protons, self.protons)),
            s.neutrons == clamp0(spec_shift(state.neutrons, self.neutrons)),
    {
        let mut new_state = state;
        match self.electrons {
            None => {},
            Some(val) => {
                new_state.electrons = new_state.electrons + val;
            },
        }
        match self.protons {
            None => {},
            Some(val) => {
                new_state.protons = new_state.protons + val;
            },
        }
        match self.neutrons {
            None => {},
            Some(val) => {
                new_state.neutrons = new_state.neutrons + val;
            },
        }
        new_state.validate()
    }

    /// The stock operation catalog: alpha, the four beta variants, gamma
    /// and delta.
    pub fn defaults() -> (r: Vec<Operation>)
        ensures
            r@.len() == 7,
            r@[0].display@ == "Alpha"@ && r@[0].electrons is None && r@[0].protons == Some(
                -2i64,
            ) && r@[0].neutrons == Some(-2i64),
            r@[1].display@ == "Beta hin"@ && r@[1].electrons == Some(1i64) && r@[1].protons
                == Some(1i64) && r@[1].neutrons == Some(-1i64),
            r@[2].display@ == "Beta r\u{fc}ck"@ && r@[2].electrons == Some(-1i64)
                && r@[2].protons == Some(-1i64) && r@[2].neutrons == Some(1i64),
            r@[3].display@ == "Beta hin minus"@ && r@[3].electrons == Some(1i64)
                && r@[3].protons == Some(-1i64) && r@[3].neutrons == Some(1i64),
            r@[4].display@ == "Beta r\u{fc}ck plus"@ && r@[4].electrons == Some(-1i64)
                && r@[4].protons == Some(1i64) && r@[4].neutrons == Some(-1i64),
            r@[5].display@ == "Gamma"@ && r@[5].electrons == Some(-1i64) && r@[5].protons
                is None && r@[5].neutrons is None,
            r@[6].display@ == "Delta"@ && r@[6].electrons == Some(2i64) && r@[6].protons
                == Some(-1i64) && r@[6].neutrons is None,
    {
        vec![
            Operation {
                display: String::from_str("Alpha"),
                electrons: None,
                protons: Some(-2),
                neutrons: Some(-2),
            },
            Operation {
                display: String::from_str("Beta hin"),
                electrons: Some(1),
                protons: Some(1),
                neutrons: Some(-1),
            },
            Operation {
                display: String::from_str("Beta r\u{fc}ck"),
                electrons: Some(-1),
                protons: Some(-1),
                neutrons: Some(1),
            },
            Operation {
                display: String::from_str("Beta hin minus"),
                electrons: Some(1),
                protons: Some(-1),
                neutrons: Some(1),
            },
            Operation {
                display: String::from_str("Beta r\u{fc}ck plus"),
                electrons: Some(-1),
                protons: Some(1),
                neutrons: Some(-1),
            },
            Operation {
                display: String::from_str("Gamma"),
                electrons: Some(-1),
                protons: None,
                neutrons: None,
            },
            Operation {
                display: String::from_str("Delta"),
                electrons: Some(2),
                protons: Some(-1),
                neutrons: None,
            },
        ]
    }
}

} // verus!
