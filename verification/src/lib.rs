//! A verified core for a tabletop-dice utility: entropy handling,
//! unbiased sampling, plain, colored and critical dice, and result
//! aggregation. The surrounding program contributes only I/O: prompts,
//! configuration files and terminal colors.

pub mod color;
pub mod colored;
pub mod common;
pub mod crit;
pub mod decay;
pub mod disadvantage;
pub mod dice;
pub mod entropy;
pub mod menu;
pub mod prefs;
pub mod rng;
pub mod spells;
pub mod stats;
pub mod text;
