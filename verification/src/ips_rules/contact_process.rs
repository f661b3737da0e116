use vstd::prelude::*;
use crate::ips_rules::IPSRules;
use crate::visualization::Coloration;
use crate::RATE_LIMIT;

verus! {

/// The contact process: an earlier name of the susceptible-infected process,
/// kept for callers that still use it. State 0 is susceptible, state 1 is
/// infected.
pub struct ContactProcess {
    pub birth_rate: u64,
    pub death_rate: u64,
}

impl IPSRules for ContactProcess {
    open spec fn spec_num_states(&self) -> int {
        2
    }

    open spec fn spec_vacuum_rate(&self, current: int, goal: int) -> u64 {
        if current == 1 && goal == 0 {
            self.death_rate
        } else {
            0
        }
    }

    open spec fn spec_neighbor_rate(&self, current: int, goal: int, sender: int) -> u64 {
        if current == 0 && goal == 1 && sender == 1 {
            self.birth_rate
        } else {
            0
        }
    }

    open spec fn wf(&self) -> bool {
        self.birth_rate <= RATE_LIMIT && self.death_rate <= RATE_LIMIT
    }

    proof fn wf_facts(&self) {
    }

    fn num_states(&self) -> (k: usize) {
        2
    }

    fn get_vacuum_mutation_rate(&self, current: usize, goal: usize) -> (r: u64) {
        if current == 1 && goal == 0 {
            self.death_rate
        } else {
            0
        }
    }

    fn get_neighbor_mutation_rate(&self, current: usize, goal: usize, sender: usize) -> (r: u64) {
        if current == 0 && goal == 1 && sender == 1 {
            self.birth_rate
        } else {
            0
        }
    }
}


impl Coloration for ContactProcess {
    open spec fn spec_color(&self, state: int) -> [u8; 4] {
        if state == 0 {
            [0u8, 0u8, 0u8, 255u8]
        } else {
            [211u8, 47u8, 47u8, 255u8]
        }
    }

    open spec fn colorable(&self, state: int) -> bool {
        0 <= state < 2
    }

    fn get_color(&self, state: usize) -> (color: [u8; 4]) {
        if state == 0 {
            // susceptible
            [0, 0, 0, 255]
        } else {
            // infected
            [211, 47, 47, 255]
        }
    }
}

} // verus!
