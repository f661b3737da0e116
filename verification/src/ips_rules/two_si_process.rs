use vstd::prelude::*;
use crate::ips_rules::IPSRules;
use crate::visualization::Coloration;
use crate::RATE_LIMIT;

verus! {

/// Susceptible-infected process with two identical invasive species.
/// State 0 is empty ground, states 1 and 2 are the two species. Both die
/// spontaneously at `death_rate`, spread into ground at `birth_rate` per
/// neighbor of their kind, and convert particles of the other species at
/// `compete_rate` per neighbor of their kind.
pub struct TwoSIProcess {
    pub birth_rate: u64,
    pub death_rate: u64,
    pub compete_rate: u64,
}

impl IPSRules for TwoSIProcess {
    open spec fn spec_num_states(&self) -> int {
        3
    }

    open spec fn spec_vacuum_rate(&self, current: int, goal: int) -> u64 {
        if (current == 1 || current == 2) && goal == 0 {
            self.death_rate
        } else {
            0
        }
    }

    open spec fn spec_neighbor_rate(&self, current: int, goal: int, sender: int) -> u64 {
        if current == 0 && goal == 1 && sender == 1 {
            self.birth_rate
        } else if current == 0 && goal == 2 && sender == 2 {
            self.birth_rate
        } else if current == 1 && goal == 2 && sender == 2 {
            self.compete_rate
        } else if current == 2 && goal == 1 && sender == 1 {
            self.compete_rate
        } else {
            0
        }
    }

    open spec fn wf(&self) -> bool {
        self.birth_rate <= RATE_LIMIT && self.death_rate <= RATE_LIMIT && self.compete_rate
            <= RATE_LIMIT
    }

    proof fn wf_facts(&self) {
    }

    fn num_states(&self) -> (k: usize) {
        3
    }

    fn get_vacuum_mutation_rate(&self, current: usize, goal: usize) -> (r: u64) {
        if (current == 1 || current == 2) && goal == 0 {
            self.death_rate
        } else {
            0
        }
    }

    fn get_neighbor_mutation_rate(&self, current: usize, goal: usize, sender: usize) -> (r: u64) {
        if current == 0 && goal == 1 && sender == 1 {
            self.birth_rate
        } else if current == 0 && goal == 2 && sender == 2 {
            self.birth_rate
        } else if current == 1 && goal == 2 && sender == 2 {
            self.compete_rate
        } else if current == 2 && goal == 1 && sender == 1 {
            self.compete_rate
        } else {
            0
        }
    }
}


impl Coloration for TwoSIProcess {
    open spec fn spec_color(&self, state: int) -> [u8; 4] {
        if state == 0 {
            [0u8, 0u8, 0u8, 255u8]
        } else if state == 1 {
            [180u8, 12u8, 13u8, 255u8]
        } else {
            [16u8, 128u8, 16u8, 255u8]
        }
    }

    open spec fn colorable(&self, state: int) -> bool {
        0 <= state < 3
    }

    fn get_color(&self, state: usize) -> (color: [u8; 4]) {
        if state == 0 {
            [0, 0, 0, 255]
        } else if state == 1 {
            [180, 12, 13, 255]
        } else {
            [16, 128, 16, 255]
        }
    }
}

} // verus!
