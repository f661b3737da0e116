use vstd::prelude::*;
use crate::graph::Graph;
use crate::ips_rules::{nb_weighted, row_upto, IPSRules};
use crate::solver::{counts_at, lemma_count_zero, spec_total_rate, total_rate_upto, valid_config, vertex_rate};
use crate::visualization::Coloration;
use crate::RATE_LIMIT;

verus! {

/// Susceptible-infected (contact) process. State 0 is susceptible, state 1
/// is infected. An infected particle recovers spontaneously at
/// `death_rate`; a susceptible particle is infected at `birth_rate` per
/// infected neighbor.
pub struct SIProcess {
    pub birth_rate: u64,
    pub death_rate: u64,
}

impl IPSRules for SIProcess {
    open spec fn spec_num_states(&self) -> int {
        2
    }

    open spec fn spec_vacuum_rate(&self, current: int, goal: int) -> u64 {
        if current == 1 && goal == 0 {
            self.death_rate
        } else {
            0
        }
    }

    open spec fn spec_neighbor_rate(&self, current: int, goal: int, sender: int) -> u64 {
        if current == 0 && goal == 1 && sender == 1 {
            self.birth_rate
        } else {
            0
        }
    }

    open spec fn wf(&self) -> bool {
        self.birth_rate <= RATE_LIMIT && self.death_rate <= RATE_LIMIT
    }

    proof fn wf_facts(&self) {
    }

    fn num_states(&self) -> (k: usize) {
        2
    }

    fn get_vacuum_mutation_rate(&self, current: usize, goal: usize) -> (r: u64) {
        if current == 1 && goal == 0 {
            self.death_rate
        } else {
            0
        }
    }

    fn get_neighbor_mutation_rate(&self, current: usize, goal: usize, sender: usize) -> (r: u64) {
        if current == 0 && goal == 1 && sender == 1 {
            self.birth_rate
        } else {
            0
        }
    }
}


impl Coloration for SIProcess {
    open spec fn spec_color(&self, state: int) -> [u8; 4] {
        if state == 0 {
            [0u8, 0u8, 0u8, 255u8]
        } else {
            [211u8, 47u8, 47u8, 255u8]
        }
    }

    open spec fn colorable(&self, state: int) -> bool {
        0 <= state < 2
    }

    fn get_color(&self, state: usize) -> (color: [u8; 4]) {
        if state == 0 {
            // susceptible
            [0, 0, 0, 255]
        } else {
            // infected
            [211, 47, 47, 255]
        }
    }
}


/// Without a single infected vertex the system is entirely still: every
/// rate is zero, so the configuration never changes. In particular, with a
/// zero birth rate an epidemic can never start from nothing.
pub proof fn lemma_si_quiescent_without_infected<G: Graph>(
    process: &SIProcess,
    graph: &G,
    cfg: Seq<usize>,
)
    requires
        process.wf(),
        graph.wf(),
        cfg.len() == graph.spec_nr_points(),
        valid_config(*process, cfg),
        forall|i: int| 0 <= i < cfg.len() ==> (#[trigger] cfg[i]) != 1,
    ensures
        spec_total_rate(*process, *graph, cfg) == 0,
{
    lemma_si_total_zero_upto(process, graph, cfg, graph.spec_nr_points());
}

proof fn lemma_si_total_zero_upto<G: Graph>(
    process: &SIProcess,
    graph: &G,
    cfg: Seq<usize>,
    upto: int,
)
    requires
        process.wf(),
        graph.wf(),
        cfg.len() == graph.spec_nr_points(),
        valid_config(*process, cfg),
        forall|i: int| 0 <= i < cfg.len() ==> (#[trigger] cfg[i]) != 1,
        upto <= graph.spec_nr_points(),
    ensures
        total_rate_upto(*process, *graph, cfg, upto) == 0,
    decreases upto,
{
    if upto > 0 {
        lemma_si_total_zero_upto(process, graph, cfg, upto - 1);
        let v = upto - 1;
        let counts = counts_at(*process, *graph, cfg, v);
        graph.wf_facts();
        assert(cfg[v] == 0);
        // A susceptible vertex has no infected neighbor to catch anything
        // from, and no spontaneous transitions at all.
        lemma_count_zero(cfg, graph.spec_neighbors(v), 1);
        assert(counts[1] == 0);
        assert forall|g: int| true implies nb_weighted(*process, 0, g, counts, 2) == 0 by {
            assert(nb_weighted(*process, 0, g, counts, 2) == nb_weighted(*process, 0, g, counts, 1)
                + counts[1] * process.spec_neighbor_rate(0, g, 1));
            assert(nb_weighted(*process, 0, g, counts, 1) == nb_weighted(*process, 0, g, counts, 0)
                + counts[0] * process.spec_neighbor_rate(0, g, 0));
            assert(process.spec_neighbor_rate(0, g, 0) == 0);
            assert(counts[0] * 0 == 0) by (nonlinear_arith);
        }
        assert(vertex_rate(*process, *graph, cfg, v) == 0) by {
            assert(counts.len() == 2);
            assert(row_upto(*process, 0, counts, 2) == row_upto(*process, 0, counts, 1)
                + crate::ips_rules::spec_mutation_rate(*process, 0, 1, counts));
            assert(row_upto(*process, 0, counts, 1) == row_upto(*process, 0, counts, 0)
                + crate::ips_rules::spec_mutation_rate(*process, 0, 0, counts));
        }
    }
}

} // verus!
