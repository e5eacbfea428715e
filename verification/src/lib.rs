//! Route selection daemon core: probe classification, node scoring, switch
//! decisions with hysteresis, and the configuration model.

pub mod clash_verge;
pub mod cli;
pub mod config;
pub mod controller;
pub mod group;
pub mod memory;
pub mod probe;
pub mod report;
pub mod round;
pub mod runner;
pub mod score;
pub mod select;
pub mod store;
pub mod text;

use vstd::prelude::*;

verus! {

/// The package version of this library.
pub fn app_version() -> (v: &'static str)
    ensures
        v@ == "0.1.0"@,
        v@.len() > 0,
{
    let v = "0.1.0";
    proof {
        reveal_strlit("0.1.0");
    }
    v
}

} // verus!
