use vstd::prelude::*;
use crate::graph::Graph;
use crate::ips_rules::{
    lemma_nb_weighted_term_lower, lemma_row_term_lower, nb_weighted, row_upto, spec_mutation_rate,
    IPSRules,
};
use crate::solver::{
    count_state, counts_at, lemma_count_at_least, lemma_count_zero, lemma_total_rate_lower,
    spec_total_rate, total_rate_upto, valid_config, vertex_rate,
};
use crate::visualization::Coloration;
use crate::{RATE_LIMIT, STATE_LIMIT};

verus! {

/// Voter process with `nr_parties` parties. A particle changes to a party at
/// `change_rate` per neighbor of that party; there are no spontaneous
/// changes.
pub struct VoterProcess {
    pub nr_parties: usize,
    pub change_rate: u64,
}

impl IPSRules for VoterProcess {
    open spec fn spec_num_states(&self) -> int {
        self.nr_parties as int
    }

    open spec fn spec_vacuum_rate(&self, current: int, goal: int) -> u64 {
        0
    }

    open spec fn spec_neighbor_rate(&self, current: int, goal: int, sender: int) -> u64 {
        if goal == sender && current != goal {
            self.change_rate
        } else {
            0
        }
    }

    open spec fn wf(&self) -> bool {
        1 <= self.nr_parties <= STATE_LIMIT && self.change_rate <= RATE_LIMIT
    }

    proof fn wf_facts(&self) {
    }

    fn num_states(&self) -> (k: usize) {
        self.nr_parties
    }

    fn get_vacuum_mutation_rate(&self, current: usize, goal: usize) -> (r: u64) {
        0
    }

    fn get_neighbor_mutation_rate(&self, current: usize, goal: usize, sender: usize) -> (r: u64) {
        if goal == sender && current != goal {
            self.change_rate
        } else {
            0
        }
    }
}


/// The colors of the first ten parties, from a common plotting palette.
pub open spec fn spec_palette_color(state: int) -> [u8; 4] {
    if state == 0 {
        [4u8, 88u8, 147u8, 255u8]
    } else if state == 1 {
        [219u8, 97u8, 0u8, 255u8]
    } else if state == 2 {
        [16u8, 128u8, 16u8, 255u8]
    } else if state == 3 {
        [180u8, 12u8, 13u8, 255u8]
    } else if state == 4 {
        [116u8, 74u8, 156u8, 255u8]
    } else if state == 5 {
        [109u8, 57u8, 46u8, 255u8]
    } else if state == 6 {
        [193u8, 88u8, 160u8, 255u8]
    } else if state == 7 {
        [97u8, 97u8, 97u8, 255u8]
    } else if state == 8 {
        [154u8, 156u8, 7u8, 255u8]
    } else if state == 9 {
        [0u8, 157u8, 174u8, 255u8]
    } else {
        [255u8, 255u8, 255u8, 255u8]
    }
}

fn palette_color(state: usize) -> (color: [u8; 4])
    ensures
        color == spec_palette_color(state as int),
{
    if state == 0 {
        [4, 88, 147, 255]
    } else if state == 1 {
        [219, 97, 0, 255]
    } else if state == 2 {
        [16, 128, 16, 255]
    } else if state == 3 {
        [180, 12, 13, 255]
    } else if state == 4 {
        [116, 74, 156, 255]
    } else if state == 5 {
        [109, 57, 46, 255]
    } else if state == 6 {
        [193, 88, 160, 255]
    } else if state == 7 {
        [97, 97, 97, 255]
    } else if state == 8 {
        [154, 156, 7, 255]
    } else if state == 9 {
        [0, 157, 174, 255]
    } else {
        [255, 255, 255, 255]
    }
}

impl Coloration for VoterProcess {
    open spec fn spec_color(&self, state: int) -> [u8; 4] {
        if self.nr_parties <= 10 {
            spec_palette_color(state)
        } else {
            let brightness = ((255 * state / (self.nr_parties as int)) as u8);
            [brightness, brightness, brightness, 255u8]
        }
    }

    open spec fn colorable(&self, state: int) -> bool {
        0 <= state < self.nr_parties
    }

    fn get_color(&self, state: usize) -> (color: [u8; 4]) {
        if self.nr_parties <= 10 {
            palette_color(state)
        } else {
            proof {
                assert(255 * (state as int) < 255 * (self.nr_parties as int)) by (nonlinear_arith)
                    requires (state as int) < self.nr_parties as int;
                assert(255 * (self.nr_parties as int) == (self.nr_parties as int) * 255)
                    by (nonlinear_arith);
                vstd::arithmetic::div_mod::lemma_multiply_divide_lt(
                    255 * (state as int),
                    self.nr_parties as int,
                    255,
                );
                vstd::arithmetic::div_mod::lemma_div_pos_is_pos(
                    255 * (state as int),
                    self.nr_parties as int,
                );
            }
            let brightness = ((255u128 * (state as u128)) / (self.nr_parties as u128)) as u8;
            [brightness, brightness, brightness, 255]
        }
    }
}


/// A unanimous configuration of the voter process is absorbing: no
/// neighbor disagrees with anyone, so the total reactivity is zero.
pub proof fn lemma_voter_unanimous_zero<G: Graph>(
    process: &VoterProcess,
    graph: &G,
    cfg: Seq<usize>,
)
    requires
        process.wf(),
        graph.wf(),
        cfg.len() == graph.spec_nr_points(),
        valid_config(*process, cfg),
        forall|i: int, j: int|
            0 <= i < cfg.len() && 0 <= j < cfg.len() ==> #[trigger] cfg[i] == #[trigger] cfg[j],
    ensures
        spec_total_rate(*process, *graph, cfg) == 0,
{
    lemma_voter_total_zero_upto(process, graph, cfg, graph.spec_nr_points());
}

proof fn lemma_voter_nb_zero<G: Graph>(
    process: &VoterProcess,
    graph: &G,
    cfg: Seq<usize>,
    v: int,
    goal: int,
    upto: int,
)
    requires
        process.wf(),
        graph.wf(),
        cfg.len() == graph.spec_nr_points(),
        valid_config(*process, cfg),
        0 <= v < cfg.len(),
        forall|i: int, j: int|
            0 <= i < cfg.len() && 0 <= j < cfg.len() ==> #[trigger] cfg[i] == #[trigger] cfg[j],
        0 <= upto <= process.nr_parties,
    ensures
        nb_weighted(*process, cfg[v] as int, goal, counts_at(*process, *graph, cfg, v), upto)
            == 0,
    decreases upto,
{
    let counts = counts_at(*process, *graph, cfg, v);
    let c0 = cfg[v] as int;
    if upto > 0 {
        lemma_voter_nb_zero(process, graph, cfg, v, goal, upto - 1);
        let s = upto - 1;
        if process.spec_neighbor_rate(c0, goal, s) == 0 {
            assert(counts[s] * process.spec_neighbor_rate(c0, goal, s) == 0) by (nonlinear_arith)
                requires process.spec_neighbor_rate(c0, goal, s) == 0;
        } else {
            // The rate is positive only towards the sender's own party,
            // and nobody holds a party other than the common one.
            assert(goal == s && c0 != goal);
            graph.wf_facts();
            assert(forall|i: int| 0 <= i < cfg.len() ==> (#[trigger] cfg[i]) != s as usize);
            lemma_count_zero(cfg, graph.spec_neighbors(v), s as usize);
            assert(counts[s] == 0);
            assert(0 * process.spec_neighbor_rate(c0, goal, s) == 0) by (nonlinear_arith);
        }
    }
}

proof fn lemma_voter_total_zero_upto<G: Graph>(
    process: &VoterProcess,
    graph: &G,
    cfg: Seq<usize>,
    upto: int,
)
    requires
        process.wf(),
        graph.wf(),
        cfg.len() == graph.spec_nr_points(),
        valid_config(*process, cfg),
        forall|i: int, j: int|
            0 <= i < cfg.len() && 0 <= j < cfg.len() ==> #[trigger] cfg[i] == #[trigger] cfg[j],
        upto <= graph.spec_nr_points(),
    ensures
        total_rate_upto(*process, *graph, cfg, upto) == 0,
    decreases upto,
{
    if upto > 0 {
        lemma_voter_total_zero_upto(process, graph, cfg, upto - 1);
        let v = upto - 1;
        lemma_voter_row_zero_upto(process, graph, cfg, v, process.nr_parties as int);
    }
}

proof fn lemma_voter_row_zero_upto<G: Graph>(
    process: &VoterProcess,
    graph: &G,
    cfg: Seq<usize>,
    v: int,
    upto: int,
)
    requires
        process.wf(),
        graph.wf(),
        cfg.len() == graph.spec_nr_points(),
        valid_config(*process, cfg),
        0 <= v < cfg.len(),
        forall|i: int, j: int|
            0 <= i < cfg.len() && 0 <= j < cfg.len() ==> #[trigger] cfg[i] == #[trigger] cfg[j],
        0 <= upto <= process.nr_parties,
    ensures
        row_upto(*process, cfg[v] as int, counts_at(*process, *graph, cfg, v), upto) == 0,
    decreases upto,
{
    if upto > 0 {
        lemma_voter_row_zero_upto(process, graph, cfg, v, upto - 1);
        graph.wf_facts();
        crate::graph::lemma_degree_bound(*graph, v);
        crate::solver::lemma_counts_sum(
            process.spec_num_states(),
            cfg,
            graph.spec_neighbors(v),
        );
        assert(counts_at(*process, *graph, cfg, v).len() == process.nr_parties);
        lemma_voter_nb_zero(
            process,
            graph,
            cfg,
            v,
            upto - 1,
            process.nr_parties as int,
        );
    }
}

/// One disagreeing edge gives the voter process a positive total
/// reactivity: the vertex on one side can be converted by the other.
pub proof fn lemma_voter_edge_positive<G: Graph>(
    process: &VoterProcess,
    graph: &G,
    cfg: Seq<usize>,
    u: usize,
    v: usize,
)
    requires
        process.wf(),
        process.change_rate >= 1,
        graph.wf(),
        cfg.len() == graph.spec_nr_points(),
        valid_config(*process, cfg),
        u < graph.spec_nr_points(),
        v < graph.spec_nr_points(),
        graph.spec_neighbors(u as int).contains(v),
        cfg[u as int] != cfg[v as int],
    ensures
        spec_total_rate(*process, *graph, cfg) > 0,
{
    graph.wf_facts();
    process.wf_facts();
    crate::graph::lemma_degree_bound(*graph, u as int);
    let k = process.nr_parties as int;
    let cu = cfg[u as int] as int;
    let gv = cfg[v as int] as int;
    assert(0 <= gv < k);
    let counts = counts_at(*process, *graph, cfg, u as int);
    lemma_count_at_least(cfg, graph.spec_neighbors(u as int), v);
    crate::solver::lemma_count_state_nonneg(cfg, graph.spec_neighbors(u as int), gv);
    assert(counts.len() == k);
    assert(counts[gv] == count_state(cfg, graph.spec_neighbors(u as int), gv) as u64);
    assert(counts[gv] >= 1);
    assert(process.spec_neighbor_rate(cu, gv, gv) == process.change_rate);
    lemma_nb_weighted_term_lower(*process, cu, gv, counts, gv, counts.len() as int);
    assert(counts[gv] * process.spec_neighbor_rate(cu, gv, gv) >= 1) by (nonlinear_arith)
        requires
            counts[gv] >= 1,
            process.spec_neighbor_rate(cu, gv, gv) >= 1;
    assert(spec_mutation_rate(*process, cu, gv, counts) >= 1);
    lemma_row_term_lower(*process, cu, counts, gv, k);
    assert(vertex_rate(*process, *graph, cfg, u as int) >= 1);
    lemma_total_rate_lower(*process, *graph, cfg, u as int, graph.spec_nr_points());
}

/// A walk through the graph whose consecutive vertices are neighbors.
pub open spec fn is_path<G: Graph>(graph: G, path: Seq<usize>) -> bool {
    &&& path.len() >= 1
    &&& forall|i: int| 0 <= i < path.len() ==> (#[trigger] path[i]) < graph.spec_nr_points()
    &&& forall|i: int|
        0 <= i < path.len() - 1 ==> graph.spec_neighbors(#[trigger] path[i] as int).contains(
            path[i + 1],
        )
}

/// Two vertices joined by some path.
pub open spec fn reachable_pair<G: Graph>(graph: G, u: usize, v: usize) -> bool {
    exists|path: Seq<usize>|
        #[trigger] is_path(graph, path) && path[0] == u && path.last() == v
}

/// Every vertex can be walked to from every other.
pub open spec fn spec_connected<G: Graph>(graph: G) -> bool {
    forall|u: usize, v: usize|
        u < graph.spec_nr_points() && v < graph.spec_nr_points() ==> #[trigger] reachable_pair(
            graph,
            u,
            v,
        )
}

/// A path whose endpoints disagree contains a disagreeing edge, so the
/// total reactivity is positive.
pub proof fn lemma_voter_path_positive<G: Graph>(
    process: &VoterProcess,
    graph: &G,
    cfg: Seq<usize>,
    path: Seq<usize>,
)
    requires
        process.wf(),
        process.change_rate >= 1,
        graph.wf(),
        cfg.len() == graph.spec_nr_points(),
        valid_config(*process, cfg),
        is_path(*graph, path),
        cfg[path[0] as int] != cfg[path.last() as int],
    ensures
        spec_total_rate(*process, *graph, cfg) > 0,
    decreases path.len(),
{
    assert(path.len() >= 2);
    if cfg[path[0] as int] != cfg[path[1] as int] {
        graph.wf_facts();
        lemma_voter_edge_positive(process, graph, cfg, path[0], path[1]);
    } else {
        let rest = path.drop_first();
        assert(forall|i: int| 0 <= i < rest.len() ==> (#[trigger] rest[i]) == path[i + 1]);
        assert(is_path(*graph, rest));
        assert(rest.last() == path.last());
        lemma_voter_path_positive(process, graph, cfg, rest);
    }
}

/// On a connected graph, every non-unanimous voter configuration has a
/// strictly positive total reactivity; together with the unanimity law the
/// process can only stop on a unanimous configuration.
pub proof fn lemma_voter_disagreement_positive<G: Graph>(
    process: &VoterProcess,
    graph: &G,
    cfg: Seq<usize>,
    i: usize,
    j: usize,
)
    requires
        process.wf(),
        process.change_rate >= 1,
        graph.wf(),
        cfg.len() == graph.spec_nr_points(),
        valid_config(*process, cfg),
        spec_connected(*graph),
        i < graph.spec_nr_points(),
        j < graph.spec_nr_points(),
        cfg[i as int] != cfg[j as int],
    ensures
        spec_total_rate(*process, *graph, cfg) > 0,
{
    assert(reachable_pair(*graph, i, j));
    let path = choose|path: Seq<usize>|
        #[trigger] is_path(*graph, path) && path[0] == i && path.last() == j;
    lemma_voter_path_positive(process, graph, cfg, path);
}

} // verus!
