//! Character advantages and disadvantages: named entries with a
//! description, one of which can be drawn at random.

use vstd::prelude::*;
use crate::rng;

verus! {

/// One disadvantage: its name and description.
pub struct Disadvantage {
    pub name: String,
    pub description: String,
}

/// One advantage: its name and description.
pub struct Advantage {
    pub name: String,
    pub description: String,
}

impl Disadvantage {
    /// The built-in catalog ships empty; entries come from the
    /// configuration file.
    pub fn defaults() -> (r: Vec<Disadvantage>)
        ensures
            r@.len() == 0,
    {
        Vec::new()
    }
}

impl Advantage {
    /// The built-in catalog ships empty; entries come from the
    /// configuration file.
    pub fn defaults() -> (r: Vec<Advantage>)
        ensures
            r@.len() == 0,
    {
        Vec::new()
    }
}

/// Draw one disadvantage of the catalog uniformly.
pub fn get_random(adv: &Vec<Disadvantage>, rng: &mut rand::rngs::StdRng) -> (r: Disadvantage)
    requires
        adv@.len() > 0,
    ensures
        exists|i: int|
            0 <= i < adv@.len() && r.name@ == (#[trigger] adv@[i]).name@ && r.description@
                == adv@[i].description@,
{
    let hi: u64 = (adv.len() - 1) as u64;
    let idx: usize = rng::sample_inclusive(rng, 0, hi) as usize;
    let chosen = &adv[idx];
    let r = Disadvantage { name: chosen.name.clone(), description: chosen.description.clone() };
    proof {
        assert(r.name@ == adv@[idx as int].name@);
        assert(r.description@ == adv@[idx as int].description@);
    }
    r
}

} // verus!
