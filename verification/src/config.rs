//! The saved settings: the manual band selections and the SIM slot.
use vstd::prelude::*;

verus! {

/// Saved settings. Every field defaults when missing: no bands, slot 0.
#[derive(Debug, Clone, PartialEq)]
pub struct Config {
    pub manual_lte: Vec<i32>,
    pub manual_nr_nsa: Vec<i32>,
    pub manual_nr_sa: Vec<i32>,
    pub slot: i32,
}

impl Default for Config {
    fn default() -> (c: Self)
        ensures
            c.manual_lte@ == Seq::<i32>::empty(),
            c.manual_nr_nsa@ == Seq::<i32>::empty(),
            c.manual_nr_sa@ == Seq::<i32>::empty(),
            c.slot == 0,
    {
        Config { manual_lte: Vec::new(), manual_nr_nsa: Vec::new(), manual_nr_sa: Vec::new(), slot: 0 }
    }
}

} // verus!
