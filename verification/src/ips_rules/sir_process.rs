use vstd::prelude::*;
use crate::graph::Graph;
use crate::ips_rules::{
    lemma_nb_weighted_nonneg, lemma_nb_weighted_positive_witness, IPSRules,
};
use crate::solver::{
    count_in_config, counts_at, event_step, is_run, lemma_count_in_config_update, solver_trace,
    valid_config,
};
use crate::visualization::Coloration;
use crate::RATE_LIMIT;

verus! {

/// Susceptible-infected-removed process. State 0 is susceptible, state 1 is
/// infected, state 2 is removed. An infected particle is removed
/// spontaneously at `death_rate`; a susceptible particle is infected at
/// `birth_rate` per infected neighbor. Removed particles never change again.
pub struct SIRProcess {
    pub birth_rate: u64,
    pub death_rate: u64,
}

impl IPSRules for SIRProcess {
    open spec fn spec_num_states(&self) -> int {
        3
    }

    open spec fn spec_vacuum_rate(&self, current: int, goal: int) -> u64 {
        if current == 1 && goal == 2 {
            self.death_rate
        } else {
            0
        }
    }

    open spec fn spec_neighbor_rate(&self, current: int, goal: int, sender: int) -> u64 {
        if current == 0 && goal == 1 && sender == 1 {
            self.birth_rate
        } else {
            0
        }
    }

    open spec fn wf(&self) -> bool {
        self.birth_rate <= RATE_LIMIT && self.death_rate <= RATE_LIMIT
    }

    proof fn wf_facts(&self) {
    }

    fn num_states(&self) -> (k: usize) {
        3
    }

    fn get_vacuum_mutation_rate(&self, current: usize, goal: usize) -> (r: u64) {
        if current == 1 && goal == 2 {
            self.death_rate
        } else {
            0
        }
    }

    fn get_neighbor_mutation_rate(&self, current: usize, goal: usize, sender: usize) -> (r: u64) {
        if current == 0 && goal == 1 && sender == 1 {
            self.birth_rate
        } else {
            0
        }
    }
}


impl Coloration for SIRProcess {
    open spec fn spec_color(&self, state: int) -> [u8; 4] {
        if state == 0 {
            [0u8, 0u8, 0u8, 255u8]
        } else if state == 1 {
            [180u8, 12u8, 13u8, 255u8]
        } else {
            [97u8, 97u8, 97u8, 255u8]
        }
    }

    open spec fn colorable(&self, state: int) -> bool {
        0 <= state < 3
    }

    fn get_color(&self, state: usize) -> (color: [u8; 4]) {
        if state == 0 {
            [0, 0, 0, 255]
        } else if state == 1 {
            [180, 12, 13, 255]
        } else {
            [97, 97, 97, 255]
        }
    }
}


/// One admissible event of this process can only infect a susceptible
/// vertex or remove an infected one: the removed count never falls and the
/// susceptible count never rises.
pub proof fn lemma_sir_step_monotone<G: Graph>(
    process: &SIRProcess,
    graph: &G,
    before: Seq<usize>,
    after: Seq<usize>,
)
    requires
        process.wf(),
        graph.wf(),
        before.len() == graph.spec_nr_points(),
        valid_config(*process, before),
        event_step(*process, *graph, before, after),
    ensures
        count_in_config(after, 2) >= count_in_config(before, 2),
        count_in_config(after, 0) <= count_in_config(before, 0),
{
    let (v, g): (int, usize) = choose|v: int, g: usize|
        #![trigger before.update(v, g)]
        0 <= v < graph.spec_nr_points() && g < process.spec_num_states() && after
            == before.update(v, g) && crate::ips_rules::spec_mutation_rate(
            *process,
            before[v] as int,
            g as int,
            counts_at(*process, *graph, before, v),
        ) > 0;
    let counts = counts_at(*process, *graph, before, v);
    let cur = before[v] as int;
    lemma_nb_weighted_nonneg(*process, cur, g as int, counts, counts.len() as int);
    if process.spec_vacuum_rate(cur, g as int) > 0 {
        assert(cur == 1 && g == 2);
    } else {
        lemma_nb_weighted_positive_witness(*process, cur, g as int, counts, counts.len() as int);
        let s = choose|s: int|
            0 <= s < counts.len() && #[trigger] process.spec_neighbor_rate(cur, g as int, s) > 0
                && counts[s] > 0;
        assert(cur == 0 && g == 1);
    }
    lemma_count_in_config_update(before, v, g, 2);
    lemma_count_in_config_update(before, v, g, 0);
}

/// Along any run of this process the removed count is nondecreasing and
/// the susceptible count nonincreasing.
pub proof fn lemma_sir_run_monotone<G: Graph>(
    process: &SIRProcess,
    graph: &G,
    run: Seq<Seq<usize>>,
    i: int,
    j: int,
)
    requires
        process.wf(),
        graph.wf(),
        is_run(*process, *graph, run),
        0 <= i <= j < run.len(),
    ensures
        count_in_config(run[j], 2) >= count_in_config(run[i], 2),
        count_in_config(run[j], 0) <= count_in_config(run[i], 0),
    decreases j - i,
{
    if i < j {
        lemma_sir_run_monotone(process, graph, run, i, j - 1);
        assert(event_step(*process, *graph, run[j - 1], run[j]));
        lemma_sir_step_monotone(process, graph, run[j - 1], run[j]);
    }
}

/// Across the snapshots the solver recorded, the removed count is
/// nondecreasing and the susceptible count nonincreasing.
pub proof fn lemma_sir_record_monotone<G: Graph>(
    process: &SIRProcess,
    graph: &G,
    initial: Seq<usize>,
    record: Seq<usize>,
    final_states: Seq<usize>,
    steps_recorded: u64,
    steps_taken: u64,
    run: Seq<Seq<usize>>,
    pos: Seq<int>,
    k1: int,
    k2: int,
)
    requires
        process.wf(),
        graph.wf(),
        solver_trace(
            *process,
            *graph,
            initial,
            record,
            final_states,
            steps_recorded,
            steps_taken,
            run,
            pos,
        ),
        0 <= k1 <= k2 < steps_recorded,
    ensures
        ({
            let n = graph.spec_nr_points();
            count_in_config(record.subrange(k2 * n, (k2 + 1) * n), 2) >= count_in_config(
                record.subrange(k1 * n, (k1 + 1) * n),
                2,
            ) && count_in_config(record.subrange(k2 * n, (k2 + 1) * n), 0) <= count_in_config(
                record.subrange(k1 * n, (k1 + 1) * n),
                0,
            )
        }),
{
    let n = graph.spec_nr_points();
    assert(record.subrange(k1 * n, (k1 + 1) * n) == run[pos[k1]]);
    assert(record.subrange(k2 * n, (k2 + 1) * n) == run[pos[k2]]);
    assert(pos[k1] <= pos[k2]);
    lemma_sir_run_monotone(process, graph, run, pos[k1], pos[k2]);
}

} // verus!
