use vstd::prelude::*;
use crate::ips_rules::IPSRules;
use crate::visualization::Coloration;

verus! {

/// Voter process fixed to two parties with unit change rate. The variants
/// name the two parties; any variant carries the same rules.
#[derive(Clone, Copy, PartialEq, Eq, Structural)]
pub enum TwoVoterProcess {
    PartyA,
    PartyB,
}

impl IPSRules for TwoVoterProcess {
    open spec fn spec_num_states(&self) -> int {
        2
    }

    open spec fn spec_vacuum_rate(&self, current: int, goal: int) -> u64 {
        0
    }

    open spec fn spec_neighbor_rate(&self, current: int, goal: int, sender: int) -> u64 {
        if goal == sender && current != goal {
            1
        } else {
            0
        }
    }

    open spec fn wf(&self) -> bool {
        true
    }

    proof fn wf_facts(&self) {
    }

    fn num_states(&self) -> (k: usize) {
        2
    }

    fn get_vacuum_mutation_rate(&self, current: usize, goal: usize) -> (r: u64) {
        0
    }

    fn get_neighbor_mutation_rate(&self, current: usize, goal: usize, sender: usize) -> (r: u64) {
        if goal == sender && current != goal {
            1
        } else {
            0
        }
    }
}


impl Coloration for TwoVoterProcess {
    open spec fn spec_color(&self, state: int) -> [u8; 4] {
        if state == 0 {
            [255u8, 0u8, 255u8, 255u8]
        } else {
            [255u8, 255u8, 0u8, 255u8]
        }
    }

    open spec fn colorable(&self, state: int) -> bool {
        0 <= state < 2
    }

    fn get_color(&self, state: usize) -> (color: [u8; 4]) {
        if state == 0 {
            [255, 0, 255, 255]
        } else {
            [255, 255, 0, 255]
        }
    }
}

} // verus!
