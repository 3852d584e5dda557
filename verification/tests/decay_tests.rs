use wuerfeln::decay::{Operation, State};

#[test]
fn test_validation() {
    let invalid = State {
        electrons: -1,
        protons: 10,
        neutrons: -10000,
    };
    let valid = invalid.validate();
    assert_eq!(valid.protons, 10);
    assert_eq!(valid.electrons, 0);
    assert_eq!(valid.neutrons, 0);
}

#[test]
fn test_description() {
    let test_state = State {
        electrons: 0,
        protons: 1,
        neutrons: 0,
    };
    assert_eq!(test_state.get_description(), "Nicht abgedeckt");
}

#[test]
fn test_froms() {
    assert_eq!(
        State::from("10;-10;0"),
        State {
            electrons: 10,
            protons: 0,
            neutrons: 0
        }
    );
    assert_eq!(
        State::from((10, -10, 0)),
        State {
            electrons: 10,
            protons: 0,
            neutrons: 0
        }
    );
    assert_eq!(
        State::from((10i64, -10, 0)),
        State {
            electrons: 10,
            protons: 0,
            neutrons: 0
        }
    );

    assert_eq!(
        State::from((10i16, -10, 0)),
        State {
            electrons: 10,
            protons: 0,
            neutrons: 0
        }
    );

    assert_eq!(
        State::from((10i8, -10, 0)),
        State {
            electrons: 10,
            protons: 0,
            neutrons: 0
        }
    );
    assert_eq!(
        State::from((10u8, 10, 0)),
        State {
            electrons: 10,
            protons: 10,
            neutrons: 0
        }
    );
}

#[test]
fn description_monster() {
    let state = State {
        electrons: 5,
        protons: 5,
        neutrons: 0,
    };
    assert_eq!(state.get_description(), "Monster Nr. 5");
}

#[test]
fn description_plant_generations() {
    let second = State {
        electrons: 3,
        protons: 3,
        neutrons: 1,
    };
    assert_eq!(second.get_description(), "Pflanze der 2. Generation Nr. 3");
    let third = State {
        electrons: 3,
        protons: 2,
        neutrons: 1,
    };
    assert_eq!(third.get_description(), "Pflanze der 3. Generation Nr. 2");
    let first = State {
        electrons: 1,
        protons: 2,
        neutrons: 1,
    };
    assert_eq!(first.get_description(), "Pflanze der 1. Generation Nr. 2");
}

#[test]
fn from_text_rejects_malformed() {
    // the inputs on which the untyped conversion cannot report a fault
    assert_eq!(State::from_text("22,4,3"), None);
    assert_eq!(State::from_text("A;B;C"), None);
    assert_eq!(State::from_text(""), None);
    assert_eq!(State::from_text("1;2"), None);
    assert_eq!(State::from_text("1;2;3;4"), None);
    let zero = State {
        electrons: 0,
        protons: 0,
        neutrons: 0,
    };
    assert_eq!(State::from("22,4,3"), zero);
    assert_eq!(State::from("A;B;C"), zero);
    assert_eq!(
        State::from_text("1;2;3"),
        Some(State {
            electrons: 1,
            protons: 2,
            neutrons: 3
        })
    );
}

#[test]
fn from_string_parses() {
    assert_eq!(
        State::from(String::from("1;2;3")),
        State {
            electrons: 1,
            protons: 2,
            neutrons: 3
        }
    );
}

#[test]
fn operation_defaults_catalog() {
    let ops = Operation::defaults();
    assert_eq!(ops.len(), 7);
    assert_eq!(ops[0].display, "Alpha");
    assert_eq!(ops[0].electrons, None);
    assert_eq!(ops[0].protons, Some(-2));
    assert_eq!(ops[0].neutrons, Some(-2));
    assert_eq!(ops[1].display, "Beta hin");
    assert_eq!(ops[2].display, "Beta rück");
    assert_eq!(ops[3].display, "Beta hin minus");
    assert_eq!(ops[4].display, "Beta rück plus");
    assert_eq!(ops[5].display, "Gamma");
    assert_eq!(ops[6].display, "Delta");
}

#[test]
fn operation_apply_adds_and_clamps() {
    let ops = Operation::defaults();
    let state = State {
        electrons: 4,
        protons: 1,
        neutrons: 1,
    };
    // alpha removes two protons and two neutrons; both clamp at zero
    let after = ops[0].apply(state);
    assert_eq!(
        after,
        State {
            electrons: 4,
            protons: 0,
            neutrons: 0
        }
    );
    // beta hin: one electron and one proton in, one neutron out
    let after = ops[1].apply(state);
    assert_eq!(
        after,
        State {
            electrons: 5,
            protons: 2,
            neutrons: 0
        }
    );
}
