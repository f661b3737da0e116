use vstd::prelude::*;
use vstd::multiset::Multiset;
use crate::graph::{lemma_degree_bound, Graph};
use crate::ips_rules::{
    get_reactivity, lemma_reactivity_bounds, row_upto, spec_mutation_rate,
    spec_neighbor_reactivity, spec_reactivity, IPSRules,
};
use crate::seq_sum::{lemma_sum_bounded, lemma_sum_entry_le, lemma_sum_nonneg, lemma_sum_update, sum_u64};
use crate::exponential_distribution::{StandardExponential, EXPONENTIAL_MAX_Q32};
use crate::weighted_index::{
    lemma_patches_reach_target, patched, wi_new, wi_sample, wi_update, wi_weights, WeightedIndexU64,
};
use rand::rngs::StdRng;
use crate::{MUTATION_CAP, ROW_CAP, TOTAL_CAP, VERTEX_LIMIT};

verus! {

/// The largest single clock advance one event can cause:
/// `EXPONENTIAL_MAX_Q32 * 2^32`, reached when the total reactivity is one.
/// The solver stops early rather than let the clock pass
/// `u128::MAX - TIME_STEP_CAP`.
pub const TIME_STEP_CAP: u128 = 818323753067687706624;

/// When the simulation stops.
pub enum HaltCondition {
    /// Stop once the simulated time reaches the limit. Time is kept in
    /// 64-bit fixed point: one time unit is `2^64`.
    TimePassed(u128),
    /// Stop once this many snapshots have been recorded.
    StepsRecorded(u64),
    /// Stop once this many events have been taken. One event past the
    /// budget is deliberately permitted: the bound is inclusive.
    StepsTaken(u64),
}

impl HaltCondition {
    pub open spec fn spec_should_continue(
        &self,
        time_passed: u128,
        steps_recorded: u64,
        steps_taken: u64,
    ) -> bool {
        match self {
            HaltCondition::TimePassed(limit) => time_passed < *limit,
            HaltCondition::StepsRecorded(limit) => steps_recorded < *limit,
            HaltCondition::StepsTaken(limit) => steps_taken <= *limit,
        }
    }

    /// Should the simulation go on, given the current bookkeeping?
    pub fn should_continue(&self, time_passed: u128, steps_recorded: u64, steps_taken: u64) -> (r:
        bool)
        ensures
            r == self.spec_should_continue(time_passed, steps_recorded, steps_taken),
    {
        match self {
            HaltCondition::TimePassed(limit) => time_passed < *limit,
            HaltCondition::StepsRecorded(limit) => steps_recorded < *limit,
            HaltCondition::StepsTaken(limit) => steps_taken <= *limit,
        }
    }
}

/// When a snapshot of the configuration is appended to the record.
pub enum RecordCondition {
    /// Record at every whole multiple of the given time interval, in the
    /// same 64-bit fixed point as the halt condition. One long event can
    /// cross several grid lines and then records that many copies.
    ConstantTime(u128),
    /// Record every nth event.
    EveryNthStep(u64),
    /// Only record the final state.
    Final(),
}

impl RecordCondition {
    /// The interval or period, where there is one, is positive.
    pub open spec fn wf(&self) -> bool {
        match self {
            RecordCondition::ConstantTime(interval) => *interval > 0,
            RecordCondition::EveryNthStep(n) => *n > 0,
            RecordCondition::Final() => true,
        }
    }

    pub open spec fn spec_how_often(
        &self,
        time_passed: u128,
        time_step: u128,
        steps_taken: u64,
    ) -> int {
        match self {
            RecordCondition::ConstantTime(interval) => time_passed as int / *interval as int - (
            time_passed - time_step) as int / *interval as int,
            RecordCondition::EveryNthStep(n) => {
                if steps_taken % *n == 0 {
                    1
                } else {
                    0
                }
            },
            RecordCondition::Final() => 0,
        }
    }

    /// How many copies of the pre-event configuration to record after an
    /// event that moved the clock from `time_passed - time_step` to
    /// `time_passed`.
    pub fn how_often_record(&self, time_passed: u128, time_step: u128, steps_taken: u64) -> (r:
        u128)
        requires
            self.wf(),
            time_step <= time_passed,
        ensures
            r as int == self.spec_how_often(time_passed, time_step, steps_taken),
    {
        match self {
            RecordCondition::ConstantTime(interval) => {
                proof {
                    vstd::arithmetic::div_mod::lemma_div_is_ordered(
                        (time_passed - time_step) as int,
                        time_passed as int,
                        *interval as int,
                    );
                    vstd::arithmetic::div_mod::lemma_div_pos_is_pos(
                        (time_passed - time_step) as int,
                        *interval as int,
                    );
                }
                time_passed / *interval - (time_passed - time_step) / *interval
            },
            RecordCondition::EveryNthStep(n) => {
                if steps_taken % *n == 0 {
                    1
                } else {
                    0
                }
            },
            RecordCondition::Final() => 0,
        }
    }
}

/// How many of the listed neighbors hold state `s` under `cfg`.
pub open spec fn count_state(cfg: Seq<usize>, nbrs: Seq<usize>, s: int) -> int
    decreases nbrs.len(),
{
    if nbrs.len() == 0 {
        0
    } else {
        count_state(cfg, nbrs.drop_last(), s) + (if cfg[nbrs.last() as int] == s {
            1int
        } else {
            0int
        })
    }
}

/// The neighbor-state counts of a vertex list, as the dense vector the
/// rate functions consume: entry `s` counts the listed vertices in state
/// `s`.
pub open spec fn state_counts(k: int, cfg: Seq<usize>, nbrs: Seq<usize>) -> Seq<u64> {
    Seq::new(k as nat, |s: int| count_state(cfg, nbrs, s) as u64)
}

/// The neighbor-state counts of vertex `v` in the graph.
pub open spec fn counts_at<R: IPSRules, G: Graph>(
    rules: R,
    graph: G,
    cfg: Seq<usize>,
    v: int,
) -> Seq<u64> {
    state_counts(rules.spec_num_states(), cfg, graph.spec_neighbors(v))
}

/// The reactivity of vertex `v` under the configuration `cfg`: the row sum
/// of its mutation rates.
pub open spec fn vertex_rate<R: IPSRules, G: Graph>(
    rules: R,
    graph: G,
    cfg: Seq<usize>,
    v: int,
) -> int {
    spec_reactivity(rules, cfg[v] as int, counts_at(rules, graph, cfg, v))
}

/// Every entry of the configuration is a state of the rule set.
pub open spec fn valid_config<R: IPSRules>(rules: R, cfg: Seq<usize>) -> bool {
    forall|i: int| 0 <= i < cfg.len() ==> (#[trigger] cfg[i]) < rules.spec_num_states()
}

/// Sum of the reactivities of the first `upto` vertices.
pub open spec fn total_rate_upto<R: IPSRules, G: Graph>(
    rules: R,
    graph: G,
    cfg: Seq<usize>,
    upto: int,
) -> int
    decreases upto,
{
    if upto <= 0 {
        0
    } else {
        total_rate_upto(rules, graph, cfg, upto - 1) + vertex_rate(rules, graph, cfg, upto - 1)
    }
}

/// The total reactivity of a configuration: the sum of all vertex
/// reactivities.
pub open spec fn spec_total_rate<R: IPSRules, G: Graph>(rules: R, graph: G, cfg: Seq<usize>) -> int {
    total_rate_upto(rules, graph, cfg, graph.spec_nr_points())
}

pub proof fn lemma_count_state_nonneg(cfg: Seq<usize>, nbrs: Seq<usize>, s: int)
    ensures
        0 <= count_state(cfg, nbrs, s) <= nbrs.len(),
    decreases nbrs.len(),
{
    if nbrs.len() > 0 {
        lemma_count_state_nonneg(cfg, nbrs.drop_last(), s);
    }
}

/// Extending the neighbor list by one vertex raises exactly the count of
/// that vertex's state.
proof fn lemma_state_counts_push(k: int, cfg: Seq<usize>, nbrs: Seq<usize>, x: usize)
    requires
        x < cfg.len(),
        cfg[x as int] < k,
        nbrs.len() <= VERTEX_LIMIT,
    ensures
        state_counts(k, cfg, nbrs.push(x)) =~= state_counts(k, cfg, nbrs).update(
            cfg[x as int] as int,
            (count_state(cfg, nbrs, cfg[x as int] as int) + 1) as u64,
        ),
        forall|s: int|
            0 <= s < k ==> count_state(cfg, #[trigger] nbrs.push(x), s) == count_state(
                cfg,
                nbrs,
                s,
            ) + (if cfg[x as int] == s {
                1int
            } else {
                0int
            }),
{
    assert(nbrs.push(x).drop_last() =~= nbrs);
    assert(nbrs.push(x).last() == x);
    assert forall|s: int| 0 <= s < k implies count_state(cfg, #[trigger] nbrs.push(x), s)
        == count_state(cfg, nbrs, s) + (if cfg[x as int] == s {
        1int
    } else {
        0int
    }) by {
        lemma_count_state_nonneg(cfg, nbrs, s);
    }
    assert forall|s: int|
        0 <= s < k implies state_counts(k, cfg, nbrs.push(x))[s] == state_counts(
        k,
        cfg,
        nbrs,
    ).update(cfg[x as int] as int, (count_state(cfg, nbrs, cfg[x as int] as int) + 1) as u64)[s]
        by {
        lemma_count_state_nonneg(cfg, nbrs, s);
        lemma_count_state_nonneg(cfg, nbrs.push(x), s);
    }
}

/// With a valid configuration the counts over a list of vertices sum to
/// the length of the list: each listed vertex is counted exactly once.
pub proof fn lemma_counts_sum(k: int, cfg: Seq<usize>, nbrs: Seq<usize>)
    requires
        k >= 1,
        nbrs.len() <= VERTEX_LIMIT,
        forall|j: int| 0 <= j < nbrs.len() ==> (#[trigger] nbrs[j]) < cfg.len(),
        forall|i: int| 0 <= i < cfg.len() ==> (#[trigger] cfg[i]) < k,
    ensures
        sum_u64(state_counts(k, cfg, nbrs)) == nbrs.len(),
    decreases nbrs.len(),
{
    if nbrs.len() == 0 {
        lemma_zero_counts_sum(k, cfg, nbrs);
    } else {
        let prefix = nbrs.drop_last();
        let x = nbrs.last();
        assert(forall|j: int| 0 <= j < prefix.len() ==> (#[trigger] prefix[j]) == nbrs[j]);
        lemma_counts_sum(k, cfg, prefix);
        lemma_state_counts_push(k, cfg, prefix, x);
        assert(prefix.push(x) =~= nbrs);
        assert(state_counts(k, cfg, nbrs) == state_counts(k, cfg, prefix.push(x)));
        let s0 = cfg[x as int] as int;
        lemma_count_state_nonneg(cfg, prefix, s0);
        lemma_sum_update(
            state_counts(k, cfg, prefix),
            s0,
            (count_state(cfg, prefix, s0) + 1) as u64,
        );
        assert(state_counts(k, cfg, prefix)[s0] == count_state(cfg, prefix, s0) as u64);
    }
}

proof fn lemma_zero_counts_sum(k: int, cfg: Seq<usize>, nbrs: Seq<usize>)
    requires
        nbrs.len() == 0,
        k >= 0,
    ensures
        sum_u64(state_counts(k, cfg, nbrs)) == 0,
    decreases k,
{
    if k > 0 {
        assert(state_counts(k, cfg, nbrs).drop_last() =~= state_counts(k - 1, cfg, nbrs));
        lemma_zero_counts_sum(k - 1, cfg, nbrs);
    }
}

/// Compute the dense neighbor-state counts of a vertex list.
pub fn compute_counts<R: IPSRules>(rules: &R, cfg: &Vec<usize>, nbrs: &Vec<usize>) -> (counts: Vec<
    u64,
>)
    requires
        rules.wf(),
        forall|j: int| 0 <= j < nbrs@.len() ==> (#[trigger] nbrs@[j]) < cfg@.len(),
        valid_config(*rules, cfg@),
        nbrs@.len() <= VERTEX_LIMIT,
    ensures
        counts@ == state_counts(rules.spec_num_states(), cfg@, nbrs@),
        sum_u64(counts@) == nbrs@.len(),
{
    let k = rules.num_states();
    let mut counts: Vec<u64> = Vec::new();
    for s in 0..k
        invariant
            counts@.len() == s,
            forall|i: int| 0 <= i < s ==> counts@[i] == 0,
    {
        counts.push(0);
    }
    proof {
        assert(counts@ =~= state_counts(k as int, cfg@, nbrs@.take(0))) by {
            assert forall|s: int| 0 <= s < k implies count_state(cfg@, nbrs@.take(0), s) == 0 by {
                assert(nbrs@.take(0) =~= Seq::<usize>::empty());
            }
        }
    }
    let m = nbrs.len();
    for j in 0..m
        invariant
            rules.wf(),
            k == rules.spec_num_states(),
            m == nbrs@.len(),
            forall|jj: int| 0 <= jj < nbrs@.len() ==> (#[trigger] nbrs@[jj]) < cfg@.len(),
            valid_config(*rules, cfg@),
            nbrs@.len() <= VERTEX_LIMIT,
            counts@.len() == k,
            counts@ == state_counts(k as int, cfg@, nbrs@.take(j as int)),
    {
        let x = nbrs[j];
        let sx = cfg[x];
        proof {
            assert(nbrs@.take(j + 1).drop_last() =~= nbrs@.take(j as int));
            assert(nbrs@.take(j + 1) =~= nbrs@.take(j as int).push(nbrs@[j as int]));
            lemma_state_counts_push(k as int, cfg@, nbrs@.take(j as int), nbrs@[j as int]);
            lemma_count_state_nonneg(cfg@, nbrs@.take(j as int), sx as int);
            assert(counts@[sx as int] == count_state(cfg@, nbrs@.take(j as int), sx as int));
        }
        let c = counts[sx];
        counts.set(sx, c + 1);
        proof {
            assert(counts@ =~= state_counts(k as int, cfg@, nbrs@.take(j + 1)));
        }
    }
    proof {
        rules.wf_facts();
        assert(nbrs@.take(m as int) =~= nbrs@);
        lemma_counts_sum(k as int, cfg@, nbrs@);
    }
    counts
}


/// Changing the state of a vertex that is not listed does not change any
/// count over the list.
proof fn lemma_count_same(cfg: Seq<usize>, nbrs: Seq<usize>, v: usize, g: usize, s: int)
    requires
        !nbrs.contains(v),
        v < cfg.len(),
        forall|j: int| 0 <= j < nbrs.len() ==> (#[trigger] nbrs[j]) < cfg.len(),
    ensures
        count_state(cfg.update(v as int, g), nbrs, s) == count_state(cfg, nbrs, s),
    decreases nbrs.len(),
{
    if nbrs.len() > 0 {
        assert(!nbrs.drop_last().contains(v)) by {
            if nbrs.drop_last().contains(v) {
                let i = choose|i: int|
                    0 <= i < nbrs.drop_last().len() && nbrs.drop_last()[i] == v;
                assert(nbrs[i] == v);
                assert(nbrs.contains(v));
            }
        }
        assert(nbrs.last() != v) by {
            assert(nbrs[nbrs.len() - 1] == nbrs.last());
            if nbrs.last() == v {
                assert(nbrs.contains(v));
            }
        }
        assert(forall|j: int|
            0 <= j < nbrs.drop_last().len() ==> (#[trigger] nbrs.drop_last()[j]) == nbrs[j]);
        assert(nbrs[nbrs.len() - 1] < cfg.len());
        lemma_count_same(cfg, nbrs.drop_last(), v, g, s);
    }
}

/// A listed vertex contributes at least one to the count of its state.
pub proof fn lemma_count_at_least(cfg: Seq<usize>, nbrs: Seq<usize>, v: usize)
    requires
        nbrs.contains(v),
        v < cfg.len(),
    ensures
        count_state(cfg, nbrs, cfg[v as int] as int) >= 1,
    decreases nbrs.len(),
{
    lemma_count_state_nonneg(cfg, nbrs.drop_last(), cfg[v as int] as int);
    if nbrs.last() == v {
    } else {
        assert(nbrs.drop_last().contains(v)) by {
            let i = choose|i: int| 0 <= i < nbrs.len() && nbrs[i] == v;
            assert(nbrs.drop_last()[i] == v);
        }
        lemma_count_at_least(cfg, nbrs.drop_last(), v);
    }
}

/// Changing the state of a vertex listed exactly once moves one count from
/// its old state to its new state.
proof fn lemma_count_swap(cfg: Seq<usize>, nbrs: Seq<usize>, v: usize, g: usize, s: int)
    requires
        nbrs.no_duplicates(),
        nbrs.contains(v),
        v < cfg.len(),
        forall|j: int| 0 <= j < nbrs.len() ==> (#[trigger] nbrs[j]) < cfg.len(),
    ensures
        count_state(cfg.update(v as int, g), nbrs, s) == count_state(cfg, nbrs, s) - (if cfg[
            v as int
        ] == s {
            1int
        } else {
            0int
        }) + (if g == s {
            1int
        } else {
            0int
        }),
    decreases nbrs.len(),
{
    let prefix = nbrs.drop_last();
    assert(forall|i: int| 0 <= i < prefix.len() ==> (#[trigger] prefix[i]) == nbrs[i]);
    if nbrs.last() == v {
        assert(!prefix.contains(v)) by {
            if prefix.contains(v) {
                let i = choose|i: int| 0 <= i < prefix.len() && prefix[i] == v;
                assert(nbrs[i] == v);
                assert(nbrs[nbrs.len() - 1] == v);
                assert(nbrs[i] == nbrs[nbrs.len() - 1]);
            }
        }
        lemma_count_same(cfg, prefix, v, g, s);
    } else {
        assert(prefix.contains(v)) by {
            let i = choose|i: int| 0 <= i < nbrs.len() && nbrs[i] == v;
            assert(i < prefix.len());
            assert(prefix[i] == v);
        }
        lemma_count_swap(cfg, prefix, v, g, s);
    }
}

/// An event at `v` leaves the reactivity of any vertex that is not `v` and
/// not a neighbor of `v` unchanged.
proof fn lemma_rate_unchanged<R: IPSRules, G: Graph>(
    rules: R,
    graph: G,
    cfg: Seq<usize>,
    v: usize,
    g: usize,
    m: int,
)
    requires
        graph.wf(),
        cfg.len() == graph.spec_nr_points(),
        0 <= m < graph.spec_nr_points(),
        v < graph.spec_nr_points(),
        m != v,
        !graph.spec_neighbors(m).contains(v),
    ensures
        vertex_rate(rules, graph, cfg.update(v as int, g), m) == vertex_rate(rules, graph, cfg, m),
{
    graph.wf_facts();
    let cfg2 = cfg.update(v as int, g);
    assert(counts_at(rules, graph, cfg2, m).len() == counts_at(rules, graph, cfg, m).len());
    assert forall|s: int|
        0 <= s < counts_at(rules, graph, cfg2, m).len() implies counts_at(
        rules,
        graph,
        cfg2,
        m,
    )[s] == counts_at(rules, graph, cfg, m)[s] by {
        lemma_count_same(cfg, graph.spec_neighbors(m), v, g, s);
        assert(count_state(cfg2, graph.spec_neighbors(m), s) == count_state(
            cfg,
            graph.spec_neighbors(m),
            s,
        ));
    }
    assert(counts_at(rules, graph, cfg2, m) =~= counts_at(rules, graph, cfg, m));
    assert(cfg2[m] == cfg[m]);
}

/// An event at `v` does not change `v`'s own neighbor counts; its new
/// reactivity is the row sum of its new state under the old counts.
proof fn lemma_rate_at_event_vertex<R: IPSRules, G: Graph>(
    rules: R,
    graph: G,
    cfg: Seq<usize>,
    v: usize,
    g: usize,
)
    requires
        graph.wf(),
        cfg.len() == graph.spec_nr_points(),
        v < graph.spec_nr_points(),
    ensures
        vertex_rate(rules, graph, cfg.update(v as int, g), v as int) == spec_reactivity(
            rules,
            g as int,
            counts_at(rules, graph, cfg, v as int),
        ),
{
    graph.wf_facts();
    let cfg2 = cfg.update(v as int, g);
    let k = rules.spec_num_states();
    assert(counts_at(rules, graph, cfg2, v as int).len() == counts_at(
        rules,
        graph,
        cfg,
        v as int,
    ).len());
    assert forall|s: int|
        0 <= s < counts_at(rules, graph, cfg2, v as int).len() implies counts_at(
        rules,
        graph,
        cfg2,
        v as int,
    )[s] == counts_at(rules, graph, cfg, v as int)[s] by {
        lemma_count_same(cfg, graph.spec_neighbors(v as int), v, g, s);
        assert(count_state(cfg2, graph.spec_neighbors(v as int), s) == count_state(
            cfg,
            graph.spec_neighbors(v as int),
            s,
        ));
    }
    assert(counts_at(rules, graph, cfg2, v as int) =~= counts_at(rules, graph, cfg, v as int));
    assert(cfg2[v as int] == g);
}

/// An event at `v` changes the reactivity of each neighbor `n` by the
/// difference of the neighbor reactivities towards the old and the new
/// state, and can never push it below zero.
proof fn lemma_rate_at_neighbor<R: IPSRules, G: Graph>(
    rules: R,
    graph: G,
    cfg: Seq<usize>,
    v: usize,
    g: usize,
    n: usize,
)
    requires
        rules.wf(),
        graph.wf(),
        cfg.len() == graph.spec_nr_points(),
        valid_config(rules, cfg),
        v < graph.spec_nr_points(),
        n < graph.spec_nr_points(),
        g < rules.spec_num_states(),
        n != v,
        graph.spec_neighbors(n as int).contains(v),
    ensures
        vertex_rate(rules, graph, cfg.update(v as int, g), n as int) == vertex_rate(
            rules,
            graph,
            cfg,
            n as int,
        ) - spec_neighbor_reactivity(rules, cfg[n as int] as int, cfg[v as int] as int)
            + spec_neighbor_reactivity(rules, cfg[n as int] as int, g as int),
        vertex_rate(rules, graph, cfg, n as int) >= spec_neighbor_reactivity(
            rules,
            cfg[n as int] as int,
            cfg[v as int] as int,
        ),
{
    rules.wf_facts();
    graph.wf_facts();
    lemma_degree_bound(graph, n as int);
    let k = rules.spec_num_states();
    let nbrs = graph.spec_neighbors(n as int);
    let old_state = cfg[v as int];
    let cur = cfg[n as int] as int;
    let cfg2 = cfg.update(v as int, g);
    let counts = counts_at(rules, graph, cfg, n as int);
    lemma_count_at_least(cfg, nbrs, v);
    assert(counts[old_state as int] == count_state(cfg, nbrs, old_state as int)) by {
        lemma_count_state_nonneg(cfg, nbrs, old_state as int);
    }
    // The old reactivity dominates what is subtracted.
    crate::ips_rules::lemma_reactivity_lower_bound(rules, cur, counts, old_state as int);
    crate::ips_rules::lemma_row_nonneg(
        rules,
        cur,
        counts.update(old_state as int, (counts[old_state as int] - 1) as u64),
        rules.spec_num_states(),
    );

    if g == old_state {
        assert(cfg2 =~= cfg);
        assert(vertex_rate(rules, graph, cfg2, n as int) == vertex_rate(rules, graph, cfg, n as int));
    } else {
        let mid = counts.update(old_state as int, (counts[old_state as int] - 1) as u64);
        let fin = mid.update(g as int, (mid[g as int] + 1) as u64);
        assert(counts_at(rules, graph, cfg2, n as int) =~= fin) by {
            assert forall|s: int|
                0 <= s < k implies count_state(cfg2, nbrs, s) == count_state(cfg, nbrs, s) - (
            if old_state == s {
                1int
            } else {
                0int
            }) + (if g == s {
                1int
            } else {
                0int
            }) by {
                lemma_count_swap(cfg, nbrs, v, g, s);
            }
            assert forall|s: int| 0 <= s < k implies counts_at(rules, graph, cfg2, n as int)[s]
                == fin[s] by {
                lemma_count_state_nonneg(cfg, nbrs, s);
                lemma_count_state_nonneg(cfg2, nbrs, s);
                lemma_count_swap(cfg, nbrs, v, g, s);
            }
        }
        assert(mid[g as int] == counts[g as int]);
        assert(counts[g as int] < u64::MAX) by {
            lemma_count_state_nonneg(cfg, nbrs, g as int);
            crate::graph::lemma_distinct_bounded_len(nbrs, graph.spec_nr_points());
        }
        crate::ips_rules::lemma_reactivity_swap(rules, cur, counts, old_state as int, g as int);
        assert(cfg2[n as int] == cfg[n as int]);
    }
}

/// A reactivity vector whose entries are the vertex rates sums, prefix by
/// prefix, to the total rate.
proof fn lemma_sum_matches_total<R: IPSRules, G: Graph>(
    rules: R,
    graph: G,
    cfg: Seq<usize>,
    react: Seq<u64>,
    upto: int,
)
    requires
        react.len() == graph.spec_nr_points(),
        forall|i: int|
            0 <= i < react.len() ==> (#[trigger] react[i]) as int == vertex_rate(
                rules,
                graph,
                cfg,
                i,
            ),
        0 <= upto <= react.len(),
    ensures
        sum_u64(react.take(upto)) == total_rate_upto(rules, graph, cfg, upto),
    decreases upto,
{
    if upto > 0 {
        lemma_sum_matches_total(rules, graph, cfg, react, upto - 1);
        assert(react.take(upto).drop_last() =~= react.take(upto - 1));
        assert(react.take(upto).last() == react[upto - 1]);
    }
}

/// The live state of one simulation: the configuration, the reactivity of
/// every vertex, and their running total.
pub struct EventState {
    pub states: Vec<usize>,
    pub reactivities: Vec<u64>,
    pub total_reactivity: u64,
}

impl EventState {
    /// The solver's central invariant, maintained across every event:
    /// every entry of `reactivities` is exactly the row sum of the mutation
    /// rates of its vertex under the current configuration, and
    /// `total_reactivity` is exactly the sum of the reactivity vector.
    pub open spec fn inv<R: IPSRules, G: Graph>(&self, rules: R, graph: G) -> bool {
        &&& rules.wf()
        &&& graph.wf()
        &&& self.states@.len() == graph.spec_nr_points()
        &&& valid_config(rules, self.states@)
        &&& self.reactivities@.len() == graph.spec_nr_points()
        &&& forall|i: int|
            0 <= i < self.reactivities@.len() ==> (#[trigger] self.reactivities@[i]) as int
                == vertex_rate(rules, graph, self.states@, i)
        &&& self.total_reactivity as int == sum_u64(self.reactivities@)
    }

    /// Bounds that follow from the invariant: every reactivity fits under
    /// the row cap and the total under the total cap.
    pub proof fn lemma_inv_bounds<R: IPSRules, G: Graph>(&self, rules: R, graph: G)
        requires
            self.inv(rules, graph),
        ensures
            forall|i: int|
                0 <= i < self.reactivities@.len() ==> (#[trigger] self.reactivities@[i])
                    <= ROW_CAP,
            self.total_reactivity <= TOTAL_CAP,
            sum_u64(self.reactivities@) == spec_total_rate(rules, graph, self.states@),
    {
        rules.wf_facts();
        graph.wf_facts();
        let n = graph.spec_nr_points();
        assert forall|i: int|
            0 <= i < self.reactivities@.len() implies (#[trigger] self.reactivities@[i])
            <= ROW_CAP by {
            self.lemma_row_cap(rules, graph, i);
        }
        lemma_sum_bounded(self.reactivities@, ROW_CAP as int);
        assert(self.reactivities@.len() * (ROW_CAP as int) <= (VERTEX_LIMIT as int) * (
        ROW_CAP as int)) by (nonlinear_arith)
            requires self.reactivities@.len() <= VERTEX_LIMIT as int;
        assert(self.reactivities@.take(n) =~= self.reactivities@);
        lemma_sum_matches_total(rules, graph, self.states@, self.reactivities@, n);
    }

    /// One vertex rate fits under the row cap.
    proof fn lemma_row_cap<R: IPSRules, G: Graph>(&self, rules: R, graph: G, i: int)
        requires
            self.inv(rules, graph),
            0 <= i < graph.spec_nr_points(),
        ensures
            0 <= vertex_rate(rules, graph, self.states@, i) <= ROW_CAP,
    {
        rules.wf_facts();
        graph.wf_facts();
        lemma_degree_bound(graph, i);
        lemma_counts_sum(
            rules.spec_num_states(),
            self.states@,
            graph.spec_neighbors(i),
        );
        lemma_reactivity_bounds(
            rules,
            self.states@[i] as int,
            counts_at(rules, graph, self.states@, i),
        );
    }

    /// Build the state for an initial configuration: compute every
    /// vertex's reactivity from its neighborhood, and their sum.
    pub fn new<R: IPSRules, G: Graph>(rules: &R, graph: &G, initial_condition: Vec<usize>) -> (
        state: EventState)
        requires
            rules.wf(),
            graph.wf(),
            initial_condition@.len() == graph.spec_nr_points(),
            valid_config(*rules, initial_condition@),
        ensures
            state.inv(*rules, *graph),
            state.states@ == initial_condition@,
    {
        proof {
            rules.wf_facts();
            graph.wf_facts();
        }
        let n = graph.nr_points();
        let states = initial_condition;
        let mut reactivities: Vec<u64> = Vec::new();
        for i in 0..n
            invariant
                rules.wf(),
                graph.wf(),
                n == graph.spec_nr_points(),
                states@.len() == n,
                valid_config(*rules, states@),
                reactivities@.len() == i,
                forall|j: int|
                    0 <= j < i ==> (#[trigger] reactivities@[j]) as int == vertex_rate(
                        *rules,
                        *graph,
                        states@,
                        j,
                    ),
                forall|j: int| 0 <= j < i ==> (#[trigger] reactivities@[j]) <= ROW_CAP,
        {
            let neighbors = graph.get_neighbors(i);
            proof {
                graph.wf_facts();
                lemma_degree_bound(*graph, i as int);
            }
            let counts = compute_counts(rules, &states, &neighbors);
            let rate = get_reactivity(rules, states[i], &counts);
            reactivities.push(rate);
        }
        let mut total: u64 = 0;
        let mut i: usize = 0;
        proof {
            assert(reactivities@.take(0) =~= Seq::<u64>::empty());
        }
        while i < n
            invariant
                i <= n,
                n <= VERTEX_LIMIT,
                n == reactivities@.len(),
                forall|j: int|
                    0 <= j < n ==> (#[trigger] reactivities@[j]) <= ROW_CAP,
                total as int == sum_u64(reactivities@.take(i as int)),
                total <= i * ROW_CAP,
            decreases n - i,
        {
            proof {
                assert(reactivities@.take(i + 1).drop_last() =~= reactivities@.take(i as int));
                assert(reactivities@.take(i + 1).last() == reactivities@[i as int]);
                assert((i + 1) * ROW_CAP == i * ROW_CAP + ROW_CAP) by (nonlinear_arith);
                assert(i * ROW_CAP <= 65536 * ROW_CAP) by (nonlinear_arith)
                    requires 0 <= i <= 65536, ROW_CAP == 1099528404992u64;
            }
            total = total + reactivities[i];
            i = i + 1;
        }
        proof {
            assert(reactivities@.take(n as int) =~= reactivities@);
        }
        let state = EventState { states, reactivities, total_reactivity: total };
        proof {
            assert forall|j: int|
                0 <= j < n implies (#[trigger] state.reactivities@[j]) <= ROW_CAP by {}
        }
        state
    }
}



/// Nondecreasing order on an index list.
pub open spec fn sorted_le(s: Seq<usize>) -> bool {
    forall|p: int, q: int| 0 <= p < q < s.len() ==> s[p] <= s[q]
}

/// Whether some patch in the batch writes index `j`.
pub open spec fn patch_covers(patches: Seq<(usize, u64)>, j: int) -> bool {
    exists|p: int| 0 <= p < patches.len() && (#[trigger] patches[p]).0 == j
}

/// Insert a value into a sorted index list, keeping it sorted.
fn insert_sorted(indexes: &mut Vec<usize>, x: usize)
    requires
        sorted_le(old(indexes)@),
    ensures
        sorted_le(final(indexes)@),
        final(indexes)@.to_multiset() == old(indexes)@.to_multiset().insert(x),
        final(indexes)@.len() == old(indexes)@.len() + 1,
{
    let n = indexes.len();
    let mut p: usize = 0;
    while p < n && indexes[p] < x
        invariant
            p <= n,
            n == indexes@.len(),
            indexes@ == old(indexes)@,
            forall|q: int| 0 <= q < p ==> (#[trigger] indexes@[q]) < x,
        decreases n - p,
    {
        p = p + 1;
    }
    indexes.insert(p, x);
    proof {
        old(indexes)@.insert_ensures(p as int, x);
        assert(sorted_le(indexes@)) by {
            assert forall|a: int, b: int| 0 <= a < b < indexes@.len() implies indexes@[a]
                <= indexes@[b] by {
                if a < p && b == p {
                } else if a == p && b > p {
                    assert(indexes@[b] == old(indexes)@[b - 1]);
                    assert(old(indexes)@[b - 1] >= x) by {
                        if b - 1 >= p {
                            if b - 1 > p {
                                assert(old(indexes)@[p as int] <= old(indexes)@[b - 1]);
                            }
                            if p < n {
                                assert(old(indexes)@[p as int] >= x);
                            }
                        }
                    }
                }
            }
        }
        vstd::seq_lib::to_multiset_insert(old(indexes)@, p as int, x);
    }
}

/// One vertex rate of a valid configuration fits under the row cap.
proof fn lemma_vertex_rate_cap<R: IPSRules, G: Graph>(rules: R, graph: G, cfg: Seq<usize>, i: int)
    requires
        rules.wf(),
        graph.wf(),
        cfg.len() == graph.spec_nr_points(),
        valid_config(rules, cfg),
        0 <= i < graph.spec_nr_points(),
    ensures
        0 <= vertex_rate(rules, graph, cfg, i) <= ROW_CAP,
{
    rules.wf_facts();
    graph.wf_facts();
    lemma_degree_bound(graph, i);
    lemma_counts_sum(rules.spec_num_states(), cfg, graph.spec_neighbors(i));
    lemma_reactivity_bounds(rules, cfg[i] as int, counts_at(rules, graph, cfg, i));
}

impl EventState {
    /// Apply one event: write `new_state` into `location`, recompute the
    /// reactivity of `location` from the unchanged neighbor counts, and
    /// repair each neighbor's reactivity and the running total by the
    /// difference of the neighbor reactivities towards the old and the new
    /// state. Returns the weight patches for the weighted index: the
    /// changed vertices in ascending order, each with its new reactivity;
    /// every vertex outside the batch kept its reactivity.
    pub fn apply_event<R: IPSRules, G: Graph>(
        &mut self,
        rules: &R,
        graph: &G,
        location: usize,
        new_state: usize,
        neighbors: &Vec<usize>,
        neighbor_counts: &Vec<u64>,
    ) -> (patches: Vec<(usize, u64)>)
        requires
            old(self).inv(*rules, *graph),
            location < graph.spec_nr_points(),
            new_state < rules.spec_num_states(),
            neighbors@ == graph.spec_neighbors(location as int),
            neighbor_counts@ == counts_at(*rules, *graph, old(self).states@, location as int),
        ensures
            final(self).inv(*rules, *graph),
            final(self).states@ == old(self).states@.update(location as int, new_state),
            patches@.len() >= 1,
            forall|p: int, q: int|
                0 <= p < q < patches@.len() ==> (#[trigger] patches@[p]).0 < (
                #[trigger] patches@[q]).0,
            forall|p: int|
                0 <= p < patches@.len() ==> (#[trigger] patches@[p]).0
                    < graph.spec_nr_points() && patches@[p].1 == final(self).reactivities@[
                    patches@[p].0 as int
                ],
            forall|j: int|
                0 <= j < graph.spec_nr_points() && !patch_covers(patches@, j)
                    ==> final(self).reactivities@[j] == old(self).reactivities@[j],
    {
        proof {
            rules.wf_facts();
            graph.wf_facts();
            self.lemma_inv_bounds(*rules, *graph);
            lemma_degree_bound(*graph, location as int);
        }
        let ghost old_cfg = self.states@;
        let ghost n = graph.spec_nr_points();
        let old_state = self.states[location];
        self.states.set(location, new_state);
        let ghost new_cfg = self.states@;

        // The chosen vertex's own counts are unchanged: it is not its own
        // neighbor, so its new rate is its new state's row sum under the
        // counts computed before the event.
        proof {
            lemma_counts_sum(rules.spec_num_states(), old_cfg, graph.spec_neighbors(location as int));
        }
        let new_rate = get_reactivity(rules, new_state, neighbor_counts);
        proof {
            lemma_rate_at_event_vertex(*rules, *graph, old_cfg, location, new_state);
            lemma_sum_entry_le(self.reactivities@, location as int);
            lemma_sum_update(self.reactivities@, location as int, new_rate);
        }
        let carried = self.total_reactivity - self.reactivities[location];
        self.reactivities.set(location, new_rate);
        proof {
            assert forall|i: int|
                0 <= i < n implies (#[trigger] self.reactivities@[i]) <= ROW_CAP by {
                if i != location {
                    lemma_vertex_rate_cap(*rules, *graph, old_cfg, i);
                }
            }
            lemma_sum_bounded(self.reactivities@, ROW_CAP as int);
            assert(self.reactivities@.len() * (ROW_CAP as int) <= (VERTEX_LIMIT as int) * (
            ROW_CAP as int)) by (nonlinear_arith)
                requires self.reactivities@.len() <= VERTEX_LIMIT as int;
        }
        self.total_reactivity = carried + new_rate;

        let m = neighbors.len();
        for j in 0..m
            invariant
                rules.wf(),
                graph.wf(),
                n == graph.spec_nr_points(),
                m == neighbors@.len(),
                neighbors@ == graph.spec_neighbors(location as int),
                location < n,
                new_state < rules.spec_num_states(),
                old_cfg == old(self).states@,
                old_cfg.len() == n,
                valid_config(*rules, old_cfg),
                old_state == old_cfg[location as int],
                new_cfg == old_cfg.update(location as int, new_state),
                self.states@ == new_cfg,
                valid_config(*rules, new_cfg),
                self.reactivities@.len() == n,
                old(self).reactivities@.len() == n,
                forall|i: int|
                    0 <= i < n ==> (#[trigger] old(self).reactivities@[i]) as int == vertex_rate(
                        *rules,
                        *graph,
                        old_cfg,
                        i,
                    ),
                self.reactivities@[location as int] as int == vertex_rate(
                    *rules,
                    *graph,
                    new_cfg,
                    location as int,
                ),
                forall|jj: int|
                    0 <= jj < j ==> (#[trigger] self.reactivities@[neighbors@[jj] as int]) as int
                        == vertex_rate(*rules, *graph, new_cfg, neighbors@[jj] as int),
                forall|jj: int|
                    j <= jj < m ==> (#[trigger] self.reactivities@[neighbors@[jj] as int])
                        == old(self).reactivities@[neighbors@[jj] as int],
                forall|i: int|
                    0 <= i < n && i != location && !neighbors@.contains(i as usize) ==> (
                    #[trigger] self.reactivities@[i]) == old(self).reactivities@[i],
                self.total_reactivity as int == sum_u64(self.reactivities@),
        {
            let nb = neighbors[j];
            proof {
                graph.wf_facts();
                assert(neighbors@.contains(nb)) by {
                    assert(neighbors@[j as int] == nb);
                }
                assert(nb < n && nb != location);
                assert(graph.spec_neighbors(nb as int).contains(location));
                lemma_rate_at_neighbor(*rules, *graph, old_cfg, location, new_state, nb);
                // This neighbor's rate is still its pre-event rate: the
                // list has no duplicates.
                assert(graph.spec_neighbors(location as int).no_duplicates());
                assert(self.reactivities@[nb as int] == old(self).reactivities@[nb as int]);
            }
            let cur_state = self.states[nb];
            proof {
                assert(new_cfg[nb as int] == old_cfg[nb as int]);
            }
            let old_spread = crate::ips_rules::get_neighbor_reactivity(rules, cur_state, old_state);
            let new_spread = crate::ips_rules::get_neighbor_reactivity(rules, cur_state, new_state);
            let r_old = self.reactivities[nb];
            proof {
                lemma_vertex_rate_cap(*rules, *graph, new_cfg, nb as int);
                lemma_sum_entry_le(self.reactivities@, nb as int);
                lemma_sum_update(
                    self.reactivities@,
                    nb as int,
                    (r_old - old_spread + new_spread) as u64,
                );
            }
            let r_new = r_old - old_spread + new_spread;
            self.reactivities.set(nb, r_new);
            proof {
                assert forall|i: int|
                    0 <= i < n implies (#[trigger] self.reactivities@[i]) <= ROW_CAP by {
                    if i == nb as int || i == location as int {
                        lemma_vertex_rate_cap(*rules, *graph, new_cfg, i);
                    } else {
                        lemma_vertex_rate_cap(*rules, *graph, old_cfg, i);
                        if !(self.reactivities@[i] == old(self).reactivities@[i]) {
                            // Any other changed entry is an already
                            // repaired neighbor and carries a new-state
                            // rate.
                            lemma_vertex_rate_cap(*rules, *graph, new_cfg, i);
                        }
                    }
                }
                lemma_sum_bounded(self.reactivities@, ROW_CAP as int);
                assert(self.reactivities@.len() * (ROW_CAP as int) <= (VERTEX_LIMIT as int) * (
                ROW_CAP as int)) by (nonlinear_arith)
                    requires self.reactivities@.len() <= VERTEX_LIMIT as int;
            }
            self.total_reactivity = self.total_reactivity - old_spread + new_spread;
            proof {
                assert forall|jj: int|
                    j + 1 <= jj < m implies (#[trigger] self.reactivities@[neighbors@[jj] as int])
                    == old(self).reactivities@[neighbors@[jj] as int] by {
                    assert(neighbors@[jj] != nb) by {
                        assert(neighbors@.no_duplicates());
                    }
                }
            }
        }

        // Every untouched vertex keeps its rate; with the repairs above,
        // the whole vector again matches the new configuration.
        proof {
            graph.wf_facts();
            assert forall|i: int|
                0 <= i < n implies (#[trigger] self.reactivities@[i]) as int == vertex_rate(
                *rules,
                *graph,
                new_cfg,
                i,
            ) by {
                if i == location as int {
                } else if neighbors@.contains(i as usize) {
                    let jj = choose|jj: int|
                        0 <= jj < neighbors@.len() && neighbors@[jj] == i as usize;
                } else {
                    assert(!graph.spec_neighbors(i).contains(location)) by {
                        if graph.spec_neighbors(i).contains(location) {
                            assert(graph.spec_neighbors(location as int).contains(i as usize));
                        }
                    }
                    lemma_rate_unchanged(*rules, *graph, old_cfg, location, new_state, i);
                }
            }
        }

        // Assemble the patch batch: the changed vertices in ascending
        // order, each with its new weight.
        let mut indexes: Vec<usize> = Vec::new();
        insert_sorted(&mut indexes, location);
        proof {
            Seq::<usize>::empty().to_multiset_ensures();
            assert(Seq::<usize>::empty().to_multiset() =~= Multiset::<usize>::empty());
            assert(neighbors@.take(0) =~= Seq::<usize>::empty());
        }
        for j in 0..m
            invariant
                m == neighbors@.len(),
                sorted_le(indexes@),
                indexes@.len() == j + 1,
                indexes@.to_multiset() == neighbors@.take(j as int).to_multiset().insert(
                    location,
                ),
        {
            proof {
                neighbors@.take(j as int).to_multiset_ensures();
                assert(neighbors@.take(j + 1).drop_last() =~= neighbors@.take(j as int));
                assert(neighbors@.take(j + 1) =~= neighbors@.take(j as int).push(
                    neighbors@[j as int],
                ));
                assert(Multiset::<usize>::empty().insert(location).insert(neighbors@[j as int])
                    =~= Multiset::<usize>::empty().insert(neighbors@[j as int]).insert(location));
            }
            insert_sorted(&mut indexes, neighbors[j]);
            proof {
                assert(indexes@.to_multiset() =~= neighbors@.take(j + 1).to_multiset().insert(
                    location,
                )) by {
                    neighbors@.take(j as int).to_multiset_ensures();
                }
            }
        }
        proof {
            assert(neighbors@.take(m as int) =~= neighbors@);
            // Membership carries over from the multiset, and every count
            // is one, so the sorted list is strictly increasing.
            indexes@.to_multiset_ensures();
            neighbors@.to_multiset_ensures();
            neighbors@.lemma_multiset_has_no_duplicates();
            assert forall|x: usize| indexes@.to_multiset().contains(x) implies indexes@.to_multiset().count(
                x,
            ) == 1 by {
                if x == location {
                    assert(!neighbors@.contains(location));
                    assert(neighbors@.to_multiset().count(location) == 0);
                } else {
                    assert(neighbors@.to_multiset().count(x) == indexes@.to_multiset().count(x));
                }
            }
            indexes@.lemma_multiset_has_no_duplicates_conv();
            assert forall|p: int| 0 <= p < indexes@.len() implies (#[trigger] indexes@[p])
                < graph.spec_nr_points() by {
                assert(indexes@.contains(indexes@[p]));
                assert(indexes@.to_multiset().count(indexes@[p]) > 0);
                if indexes@[p] != location {
                    assert(neighbors@.to_multiset().count(indexes@[p]) > 0);
                    assert(neighbors@.contains(indexes@[p]));
                    let q = choose|q: int|
                        0 <= q < neighbors@.len() && neighbors@[q] == indexes@[p];
                }
            }
        }
        let len = indexes.len();
        let mut patches: Vec<(usize, u64)> = Vec::new();
        for j in 0..len
            invariant
                len == indexes@.len(),
                indexes@.no_duplicates(),
                sorted_le(indexes@),
                forall|p: int|
                    0 <= p < indexes@.len() ==> (#[trigger] indexes@[p])
                        < self.reactivities@.len(),
                patches@.len() == j,
                forall|p: int|
                    0 <= p < j ==> (#[trigger] patches@[p]) == (
                        indexes@[p],
                        self.reactivities@[indexes@[p] as int],
                    ),
        {
            let idx = indexes[j];
            let weight = self.reactivities[idx];
            patches.push((idx, weight));
        }
        proof {
            assert(patches@.len() == indexes@.len());
            indexes@.to_multiset_ensures();
            neighbors@.to_multiset_ensures();
            assert(indexes@.contains(location)) by {
                assert(indexes@.to_multiset().count(location) > 0);
            }
            assert(patches@.len() >= 1) by {
                let p = choose|p: int| 0 <= p < indexes@.len() && indexes@[p] == location;
            }
            assert forall|jx: int|
                0 <= jx < n && !patch_covers(patches@, jx) implies self.reactivities@[jx] == old(
                self,
            ).reactivities@[jx] by {
                if jx == location as int {
                    let p = choose|p: int| 0 <= p < indexes@.len() && indexes@[p] == location;
                    assert(patches@[p].0 == jx);
                } else if neighbors@.contains(jx as usize) {
                    assert(indexes@.to_multiset().count(jx as usize) > 0);
                    assert(indexes@.contains(jx as usize));
                    let p = choose|p: int|
                        0 <= p < indexes@.len() && indexes@[p] == jx as usize;
                    assert(patches@[p].0 == jx);
                }
            }
        }
        patches
    }
}

/// The invariant pins the reactivity vector and its total: two solver
/// states over the same configuration agree on both. This is what makes
/// reverting an event exact: whichever way a configuration was reached,
/// its rates are the same.
pub proof fn lemma_state_determined<R: IPSRules, G: Graph>(
    rules: R,
    graph: G,
    s1: &EventState,
    s2: &EventState,
)
    requires
        s1.inv(rules, graph),
        s2.inv(rules, graph),
        s1.states@ == s2.states@,
    ensures
        s1.reactivities@ == s2.reactivities@,
        s1.total_reactivity == s2.total_reactivity,
{
    assert(s1.reactivities@ =~= s2.reactivities@);
}

/// Reverting an event — writing the old state back and repairing with the
/// roles of the two states swapped — restores the reactivity vector and
/// the total exactly.
pub proof fn lemma_revert_restores<R: IPSRules, G: Graph>(
    rules: R,
    graph: G,
    before: &EventState,
    after: &EventState,
    reverted: &EventState,
    location: usize,
    new_state: usize,
)
    requires
        before.inv(rules, graph),
        after.inv(rules, graph),
        reverted.inv(rules, graph),
        location < graph.spec_nr_points(),
        after.states@ == before.states@.update(location as int, new_state),
        reverted.states@ == after.states@.update(
            location as int,
            before.states@[location as int],
        ),
    ensures
        reverted.states@ == before.states@,
        reverted.reactivities@ == before.reactivities@,
        reverted.total_reactivity == before.total_reactivity,
{
    assert(reverted.states@ =~= before.states@);
    lemma_state_determined(rules, graph, before, reverted);
}



/// Copy a configuration.
fn clone_states(states: &Vec<usize>) -> (copy: Vec<usize>)
    ensures
        copy@ == states@,
{
    let mut copy: Vec<usize> = Vec::new();
    let n = states.len();
    for i in 0..n
        invariant
            n == states@.len(),
            copy@ == states@.take(i as int),
    {
        copy.push(states[i]);
        proof {
            assert(copy@ =~= states@.take(i + 1));
        }
    }
    proof {
        assert(states@.take(n as int) =~= states@);
    }
    copy
}

/// Append one snapshot of the configuration to the flat record.
fn append_snapshot(record: &mut Vec<usize>, states: &Vec<usize>)
    ensures
        final(record)@ == old(record)@ + states@,
{
    let n = states.len();
    for i in 0..n
        invariant
            n == states@.len(),
            record@ == old(record)@ + states@.take(i as int),
    {
        record.push(states[i]);
        proof {
            assert(record@ =~= old(record)@ + states@.take(i + 1));
        }
    }
    proof {
        assert(states@.take(n as int) =~= states@);
        assert(record@ =~= old(record)@ + states@);
    }
}

/// One admissible event: the two configurations differ at exactly one
/// vertex, and the rate of that change under the first configuration is
/// positive.
pub open spec fn event_step<R: IPSRules, G: Graph>(
    rules: R,
    graph: G,
    before: Seq<usize>,
    after: Seq<usize>,
) -> bool {
    exists|v: int, g: usize|
        #![trigger before.update(v, g)]
        0 <= v < graph.spec_nr_points() && g < rules.spec_num_states() && after == before.update(
            v,
            g,
        ) && spec_mutation_rate(rules, before[v] as int, g as int, counts_at(rules, graph, before, v))
            > 0
}

/// A possible history of the system: consecutive configurations are
/// related by one admissible event each.
pub open spec fn is_run<R: IPSRules, G: Graph>(rules: R, graph: G, run: Seq<Seq<usize>>) -> bool {
    &&& run.len() >= 1
    &&& forall|i: int|
        0 <= i < run.len() ==> (#[trigger] run[i]).len() == graph.spec_nr_points()
            && valid_config(rules, run[i])
    &&& forall|i: int|
        0 <= i < run.len() - 1 ==> event_step(rules, graph, #[trigger] run[i], run[i + 1])
}

/// What the solver returned really happened: there is a run of admissible
/// events from the initial to the final configuration, one per event
/// taken, and the record consists of snapshots of that run, in order, the
/// last being the final configuration.
pub open spec fn solver_trace<R: IPSRules, G: Graph>(
    rules: R,
    graph: G,
    initial: Seq<usize>,
    record: Seq<usize>,
    final_states: Seq<usize>,
    steps_recorded: u64,
    steps_taken: u64,
    run: Seq<Seq<usize>>,
    pos: Seq<int>,
) -> bool {
    let n = graph.spec_nr_points();
    &&& is_run(rules, graph, run)
    &&& run.len() <= steps_taken + 1
    &&& run[0] == initial
    &&& run.last() == final_states
    &&& steps_recorded >= 1
    &&& pos.len() == steps_recorded
    &&& forall|k: int| 0 <= k < pos.len() ==> 0 <= #[trigger] pos[k] < run.len()
    &&& forall|k1: int, k2: int| 0 <= k1 <= k2 < pos.len() ==> #[trigger] pos[k1] <= #[trigger] pos[k2]
    &&& pos.last() == run.len() - 1
    &&& record.len() == steps_recorded * n
    &&& forall|k: int|
        0 <= k < pos.len() ==> record.subrange(k * n, (k + 1) * n) == run[#[trigger] pos[k]]
}

/// Everything the solver promises of its return values.
pub open spec fn solver_post<R: IPSRules, G: Graph>(
    rules: R,
    graph: G,
    halting_condition: HaltCondition,
    record_condition: RecordCondition,
    initial: Seq<usize>,
    record: Seq<usize>,
    final_states: Seq<usize>,
    time_passed: u128,
    steps_recorded: u64,
    steps_taken: u64,
) -> bool {
    &&& exists|run: Seq<Seq<usize>>, pos: Seq<int>|
        solver_trace(rules, graph, initial, record, final_states, steps_recorded, steps_taken, run, pos)
    &&& spec_total_rate(rules, graph, initial) == 0 ==> (steps_taken == 0 && steps_recorded == 2
        && final_states == initial && record == initial + initial && time_passed == 0)
    &&& steps_taken == 0 ==> (final_states == initial && time_passed == 0)
    // The run only ends for one of the reasons the design names: the halt
    // policy said stop (the final snapshot is not counted when it is
    // consulted), the system is absorbing, or a machine capacity was hit.
    &&& {
        ||| !halting_condition.spec_should_continue(
            time_passed,
            (steps_recorded - 1) as u64,
            steps_taken,
        )
        ||| spec_total_rate(rules, graph, final_states) == 0
        ||| steps_taken == u64::MAX
        ||| time_passed > u128::MAX - TIME_STEP_CAP
    }
    // The record policy governs the snapshot count: recording only the
    // final state leaves exactly one snapshot, and recording every nth
    // event at most one snapshot per event, plus the final one.
    &&& (record_condition is Final && spec_total_rate(rules, graph, initial) > 0 ==> steps_recorded
        == 1)
    &&& (record_condition is EveryNthStep && spec_total_rate(rules, graph, initial) > 0
        ==> steps_recorded <= steps_taken + 1)
}

/// Simulate an interacting particle system with the Gillespie algorithm.
///
/// Starting from `initial_condition`, events are drawn one at a time: an
/// exponential waiting time scaled by the total reactivity, a vertex drawn
/// with probability proportional to its reactivity, and a target state
/// drawn with probability proportional to its mutation rate. After each
/// event only the chosen vertex and its neighbors have their rates
/// repaired. The loop runs until the halt condition says stop or the
/// system becomes absorbing (or, far beyond any practical run, the event
/// counter, the snapshot counter or the fixed-point clock would overflow
/// its machine word); the record collects snapshots as the record
/// condition directs, and the final configuration is always appended
/// last. `solver_post` states all of this of the returned values.
///
/// Returns the flat record, the final configuration, the simulated time in
/// 64-bit fixed point, the number of snapshots recorded, and the number of
/// events taken.
pub fn particle_system_solver<R: IPSRules, G: Graph>(
    ips_rules: &R,
    graph: &G,
    initial_condition: Vec<usize>,
    halting_condition: HaltCondition,
    record_condition: RecordCondition,
    rng: &mut StdRng,
) -> (result: (Vec<usize>, Vec<usize>, u128, u64, u64))
    requires
        ips_rules.wf(),
        graph.wf(),
        initial_condition@.len() == graph.spec_nr_points(),
        valid_config(*ips_rules, initial_condition@),
        record_condition.wf(),
    ensures
        solver_post(
            *ips_rules,
            *graph,
            halting_condition,
            record_condition,
            initial_condition@,
            result.0@,
            result.1@,
            result.2,
            result.3,
            result.4,
        ),
{
    proof {
        ips_rules.wf_facts();
        graph.wf_facts();
    }
    let ghost initial = initial_condition@;
    let n = graph.nr_points();
    let mut state = EventState::new(ips_rules, graph, initial_condition);
    proof {
        state.lemma_inv_bounds(*ips_rules, *graph);
    }
    let mut states_record: Vec<usize> = Vec::new();
    let mut time_passed: u128 = 0;
    let mut steps_recorded: u64 = 0;
    let mut steps_taken: u64 = 0;
    let ghost mut run: Seq<Seq<usize>> = seq![initial];
    let ghost mut pos: Seq<int> = Seq::empty();

    let mut location_index: WeightedIndexU64;
    match wi_new(&state.reactivities) {
        Ok(index) => {
            location_index = index;
        },
        Err(_) => {
            // All rates are zero from the start: the record is the initial
            // configuration, once as the only snapshot and once as the
            // final state.
            proof {
                assert(spec_total_rate(*ips_rules, *graph, initial) == 0);
            }
            append_snapshot(&mut states_record, &state.states);
            append_snapshot(&mut states_record, &state.states);
            steps_recorded = 2;
            proof {
                pos = seq![0int, 0int];
                assert(run[0] == initial && run.last() == state.states@);
                assert(states_record@.len() == 2 * n);
                assert(pos[0] == 0 && pos[1] == 0);
                assert forall|k: int|
                    0 <= k < pos.len() implies states_record@.subrange(
                    k * (n as int),
                    (k + 1) * (n as int),
                ) == run[#[trigger] pos[k]] by {
                    if k == 0 {
                        assert(states_record@.subrange(0 * (n as int), (0 + 1) * (n as int))
                            =~= initial);
                    } else {
                        assert(k == 1);
                        assert(states_record@.subrange(1 * (n as int), (1 + 1) * (n as int))
                            =~= initial);
                    }
                }
                assert(solver_trace(
                    *ips_rules,
                    *graph,
                    initial,
                    states_record@,
                    state.states@,
                    2u64,
                    0u64,
                    run,
                    pos,
                ));
                assert(exists|r2: Seq<Seq<usize>>, p2: Seq<int>|
                    solver_trace(
                        *ips_rules,
                        *graph,
                        initial,
                        states_record@,
                        state.states@,
                        2u64,
                        0u64,
                        r2,
                        p2,
                    ));
                assert(states_record@ =~= initial + initial);
                assert(solver_post(
                    *ips_rules,
                    *graph,
                    halting_condition,
                    record_condition,
                    initial,
                    states_record@,
                    state.states@,
                    0u128,
                    2u64,
                    0u64,
                ));
            }
            return (states_record, state.states, 0, 2, 0);
        },
    }
    proof {
        assert(spec_total_rate(*ips_rules, *graph, initial) > 0) by {
            lemma_sum_nonneg(state.reactivities@);
        }
    }

    while halting_condition.should_continue(time_passed, steps_recorded, steps_taken)
        invariant_except_break
            wi_weights(location_index) == state.reactivities@,
            sum_u64(state.reactivities@) > 0,
        invariant
            ips_rules.wf(),
            graph.wf(),
            record_condition.wf(),
            n == graph.spec_nr_points(),
            state.inv(*ips_rules, *graph),
            is_run(*ips_rules, *graph, run),
            run.len() <= steps_taken + 1,
            run[0] == initial,
            run.last() == state.states@,
            pos.len() == steps_recorded,
            forall|k: int| 0 <= k < pos.len() ==> 0 <= #[trigger] pos[k] <= run.len() - 2,
            forall|k1: int, k2: int|
                0 <= k1 <= k2 < pos.len() ==> #[trigger] pos[k1] <= #[trigger] pos[k2],
            states_record@.len() == steps_recorded * n,
            forall|k: int|
                0 <= k < pos.len() ==> states_record@.subrange(
                    k * (n as int),
                    (k + 1) * (n as int),
                ) == run[#[trigger] pos[k]],
            steps_taken == 0 ==> time_passed == 0,
            steps_recorded < u64::MAX,
            record_condition is Final ==> steps_recorded == 0,
            record_condition is EveryNthStep ==> steps_recorded <= steps_taken,
        ensures
            !halting_condition.spec_should_continue(time_passed, steps_recorded, steps_taken)
                || sum_u64(state.reactivities@) == 0 || steps_taken == u64::MAX || time_passed
                > u128::MAX - TIME_STEP_CAP,
        decreases u64::MAX - steps_taken,
    {
        if steps_taken == u64::MAX {
            break;
        }
        steps_taken = steps_taken + 1;
        let prev_state = clone_states(&state.states);

        // Advance the clock by an exponential waiting time scaled by the
        // total reactivity.
        let exp = StandardExponential::sample(rng);
        let dt = ((exp.0 as u128) * 0x100000000u128) / (state.total_reactivity as u128);
        proof {
            // One event advances the clock by at most the largest
            // exponential draw over a total reactivity of one.
            assert(state.total_reactivity >= 1);
            vstd::arithmetic::div_mod::lemma_div_nonincreasing(
                ((exp.0 as u128) * 0x100000000u128) as int,
                state.total_reactivity as int,
            );
            assert((exp.0 as u128) * 0x100000000u128 <= (EXPONENTIAL_MAX_Q32 as u128)
                * 0x100000000u128);
            assert((EXPONENTIAL_MAX_Q32 as u128) * 0x100000000u128 == TIME_STEP_CAP);
            assert(dt <= TIME_STEP_CAP);
        }
        if time_passed > u128::MAX - dt {
            break;
        }
        time_passed = time_passed + dt;

        // Draw the event vertex with probability proportional to its
        // reactivity.
        let location = wi_sample(&location_index, rng);
        proof {
            ips_rules.wf_facts();
            graph.wf_facts();
            state.lemma_inv_bounds(*ips_rules, *graph);
            lemma_degree_bound(*graph, location as int);
        }
        let neighbors = graph.get_neighbors(location);
        proof {
            assert forall|j: int|
                0 <= j < neighbors@.len() implies (#[trigger] neighbors@[j])
                < state.states@.len() by {
                assert(neighbors@[j] == graph.spec_neighbors(location as int)[j]);
            }
            assert(neighbors@.len() <= VERTEX_LIMIT);
        }
        let neighbor_counts = compute_counts(ips_rules, &state.states, &neighbors);

        // Build the categorical over target states and draw one.
        let k = ips_rules.num_states();
        let current_state = state.states[location];
        let mut change_rates: Vec<u64> = Vec::new();
        for goal in 0..k
            invariant
                ips_rules.wf(),
                graph.wf(),
                n == graph.spec_nr_points(),
                k == ips_rules.spec_num_states(),
                state.inv(*ips_rules, *graph),
                location < n,
                current_state == state.states@[location as int],
                neighbors@ == graph.spec_neighbors(location as int),
                neighbor_counts@ == counts_at(*ips_rules, *graph, state.states@, location as int),
                sum_u64(neighbor_counts@) <= VERTEX_LIMIT,
                change_rates@.len() == goal,
                forall|g: int|
                    0 <= g < goal ==> (#[trigger] change_rates@[g]) as int == spec_mutation_rate(
                        *ips_rules,
                        current_state as int,
                        g,
                        neighbor_counts@,
                    ),
                forall|g: int| 0 <= g < goal ==> (#[trigger] change_rates@[g]) <= MUTATION_CAP,
                sum_u64(change_rates@) == row_upto(
                    *ips_rules,
                    current_state as int,
                    neighbor_counts@,
                    goal as int,
                ),
        {
            let rate = crate::ips_rules::get_mutation_rate(
                ips_rules,
                current_state,
                goal,
                &neighbor_counts,
            );
            let ghost before_rates = change_rates@;
            change_rates.push(rate);
            proof {
                assert(change_rates@.drop_last() =~= before_rates);
                assert(change_rates@.last() == rate);
            }
        }
        proof {
            ips_rules.wf_facts();
            lemma_sum_bounded(change_rates@, MUTATION_CAP as int);
            assert(change_rates@.len() * (MUTATION_CAP as int) <= 16 * (MUTATION_CAP as int))
                by (nonlinear_arith)
                requires change_rates@.len() <= 16;
        }
        proof {
            // The categorical sums to the chosen vertex's reactivity, and
            // the weighted index never hands out a vertex of weight zero:
            // the all-zero exit below can never fire here.
            assert(sum_u64(change_rates@) == vertex_rate(
                *ips_rules,
                *graph,
                state.states@,
                location as int,
            ));
            assert(sum_u64(change_rates@) > 0);
        }
        let goal_state: usize;
        match wi_new(&change_rates) {
            Ok(distr_to_state) => {
                goal_state = wi_sample(&distr_to_state, rng);
            },
            Err(_) => {
                // No transition is possible at the chosen vertex; with the
                // reactivities kept exactly, this cannot happen.
                break;
            },
        }

        // Apply the event and repair the touched rates.
        let ghost before_cfg = state.states@;
        let ghost before_react = state.reactivities@;
        let patches = state.apply_event(
            ips_rules,
            graph,
            location,
            goal_state,
            &neighbors,
            &neighbor_counts,
        );
        proof {
            let old_run = run;
            run = run.push(state.states@);
            assert(event_step(*ips_rules, *graph, before_cfg, state.states@)) by {
                assert(state.states@ == before_cfg.update(location as int, goal_state));
            }
            assert(is_run(*ips_rules, *graph, run)) by {
                assert forall|i: int|
                    0 <= i < run.len() - 1 implies event_step(
                    *ips_rules,
                    *graph,
                    #[trigger] run[i],
                    run[i + 1],
                ) by {
                    if i < old_run.len() - 1 {
                        assert(run[i] == old_run[i] && run[i + 1] == old_run[i + 1]);
                        assert(event_step(*ips_rules, *graph, old_run[i], old_run[i + 1]));
                    } else {
                        assert(run[i] == before_cfg && run[i + 1] == state.states@);
                    }
                }
            }
            // The patch batch carries the repaired weights to the index.
            state.lemma_inv_bounds(*ips_rules, *graph);
            assert forall|j: int|
                0 <= j < before_react.len() && (forall|p: int|
                    0 <= p < patches@.len() ==> (#[trigger] patches@[p]).0 != j) implies
                before_react[j] == state.reactivities@[j] by {
                assert(!patch_covers(patches@, j));
            }
            lemma_patches_reach_target(before_react, patches@, state.reactivities@);
        }
        match wi_update(&mut location_index, &patches) {
            Ok(_) => {},
            Err(_) => {
                // Every weight has fallen to zero: the system is absorbing.
                break;
            },
        }

        // Record as many copies of the pre-event configuration as the
        // record condition asks for, stopping early if the halt condition
        // trips.
        let how_often = record_condition.how_often_record(time_passed, dt, steps_taken);
        let ghost recorded_before_batch = steps_recorded;
        let mut copies: u128 = 0;
        while copies < how_often
            invariant_except_break
                steps_recorded <= recorded_before_batch + copies,
            invariant
                record_condition.wf(),
                copies <= how_often,
                n == graph.spec_nr_points(),
                prev_state@ == run[run.len() - 2],
                run.len() >= 2,
                is_run(*ips_rules, *graph, run),
                run[0] == initial,
                pos.len() == steps_recorded,
                forall|k2: int| 0 <= k2 < pos.len() ==> 0 <= #[trigger] pos[k2] <= run.len() - 2,
                forall|k1: int, k2: int|
                    0 <= k1 <= k2 < pos.len() ==> #[trigger] pos[k1] <= #[trigger] pos[k2],
                states_record@.len() == steps_recorded * n,
                forall|k2: int|
                    0 <= k2 < pos.len() ==> states_record@.subrange(
                        k2 * (n as int),
                        (k2 + 1) * (n as int),
                    ) == run[#[trigger] pos[k2]],
                steps_recorded < u64::MAX,
            ensures
                steps_recorded <= recorded_before_batch + how_often,
            decreases how_often - copies,
        {
            if steps_recorded >= 0xfffffffffffffffeu64 {
                break;
            }
            let ghost old_record = states_record@;
            append_snapshot(&mut states_record, &prev_state);
            steps_recorded = steps_recorded + 1;
            proof {
                pos = pos.push(run.len() - 2);
                assert(states_record@.len() == steps_recorded * n) by (nonlinear_arith)
                    requires
                        states_record@.len() == old_record.len() + n,
                        old_record.len() == (steps_recorded - 1) * (n as int),
                        states_record@.len() == old_record.len() + n;
                assert forall|k2: int|
                    0 <= k2 < pos.len() implies states_record@.subrange(
                    k2 * (n as int),
                    (k2 + 1) * (n as int),
                ) == run[#[trigger] pos[k2]] by {
                    assert((k2 + 1) * (n as int) == k2 * (n as int) + n) by (nonlinear_arith);
                    assert(k2 * (n as int) >= 0) by (nonlinear_arith)
                        requires k2 >= 0, n >= 1;
                    if k2 < pos.len() - 1 {
                        assert(pos[k2] == pos.drop_last()[k2]);
                        assert(k2 + 1 <= pos.len() - 1);
                        assert((k2 + 1) * (n as int) <= (pos.len() - 1) * (n as int))
                            by (nonlinear_arith)
                            requires k2 + 1 <= pos.len() - 1, n >= 1;
                        assert(states_record@.subrange(k2 * (n as int), (k2 + 1) * (n as int))
                            =~= old_record.subrange(k2 * (n as int), (k2 + 1) * (n as int)));
                    } else {
                        assert(states_record@.subrange(k2 * (n as int), (k2 + 1) * (n as int))
                            =~= prev_state@);
                    }
                }
            }
            if !halting_condition.should_continue(time_passed, steps_recorded, steps_taken) {
                break;
            }
            copies = copies + 1;
        }
        proof {
            // Restore the record-policy bookkeeping: recording only the
            // final state appends nothing, and recording every nth event
            // appends at most once per event.
            if record_condition is Final {
                assert(how_often == 0);
            }
            if record_condition is EveryNthStep {
                assert(how_often <= 1);
            }
        }
    }

    // Always append the final configuration as the last snapshot.
    let ghost old_record = states_record@;
    let ghost old_pos = pos;
    append_snapshot(&mut states_record, &state.states);
    steps_recorded = steps_recorded + 1;
    proof {
        pos = pos.push(run.len() - 1);
        assert(states_record@.len() == steps_recorded * n) by (nonlinear_arith)
            requires
                states_record@.len() == old_record.len() + n,
                old_record.len() == (steps_recorded - 1) * (n as int);
        assert forall|k2: int|
            0 <= k2 < pos.len() implies states_record@.subrange(
            k2 * (n as int),
            (k2 + 1) * (n as int),
        ) == run[#[trigger] pos[k2]] by {
            assert((k2 + 1) * (n as int) == k2 * (n as int) + n) by (nonlinear_arith);
            assert(k2 * (n as int) >= 0) by (nonlinear_arith)
                requires k2 >= 0, n >= 1;
            if k2 < pos.len() - 1 {
                assert(pos[k2] == old_pos[k2]);
                assert(k2 + 1 <= pos.len() - 1);
                assert((k2 + 1) * (n as int) <= (pos.len() - 1) * (n as int)) by (nonlinear_arith)
                    requires k2 + 1 <= pos.len() - 1, n >= 1;
                assert(states_record@.subrange(k2 * (n as int), (k2 + 1) * (n as int))
                    =~= old_record.subrange(k2 * (n as int), (k2 + 1) * (n as int)));
            } else {
                assert(states_record@.subrange(k2 * (n as int), (k2 + 1) * (n as int))
                    =~= state.states@);
                assert(run[pos[k2]] == run.last());
            }
        }
        assert(solver_trace(
            *ips_rules,
            *graph,
            initial,
            states_record@,
            state.states@,
            steps_recorded,
            steps_taken,
            run,
            pos,
        ));
        assert(exists|r2: Seq<Seq<usize>>, p2: Seq<int>|
            solver_trace(
                *ips_rules,
                *graph,
                initial,
                states_record@,
                state.states@,
                steps_recorded,
                steps_taken,
                r2,
                p2,
            ));
        if steps_taken == 0 {
            assert(run.len() == 1);
            assert(run.last() == run[0]);
        }
        // The loop only ended because the halt policy said stop, the
        // system became absorbing, or a machine capacity was reached.
        state.lemma_inv_bounds(*ips_rules, *graph);
        if sum_u64(state.reactivities@) == 0 {
            assert(spec_total_rate(*ips_rules, *graph, state.states@) == 0);
        }
        assert(solver_post(
            *ips_rules,
            *graph,
            halting_condition,
            record_condition,
            initial,
            states_record@,
            state.states@,
            time_passed,
            steps_recorded,
            steps_taken,
        ));
    }
    (states_record, state.states, time_passed, steps_recorded, steps_taken)
}



/// A state that no vertex holds is never counted.
pub proof fn lemma_count_zero(cfg: Seq<usize>, nbrs: Seq<usize>, s: usize)
    requires
        forall|j: int| 0 <= j < nbrs.len() ==> (#[trigger] nbrs[j]) < cfg.len(),
        forall|i: int| 0 <= i < cfg.len() ==> (#[trigger] cfg[i]) != s,
    ensures
        count_state(cfg, nbrs, s as int) == 0,
    decreases nbrs.len(),
{
    if nbrs.len() > 0 {
        assert(forall|j: int|
            0 <= j < nbrs.drop_last().len() ==> (#[trigger] nbrs.drop_last()[j]) == nbrs[j]);
        lemma_count_zero(cfg, nbrs.drop_last(), s);
        assert(cfg[nbrs[nbrs.len() - 1] as int] != s);
    }
}

/// The total rate dominates every single vertex rate.
pub proof fn lemma_total_rate_lower<R: IPSRules, G: Graph>(
    rules: R,
    graph: G,
    cfg: Seq<usize>,
    v: int,
    upto: int,
)
    requires
        rules.wf(),
        graph.wf(),
        cfg.len() == graph.spec_nr_points(),
        valid_config(rules, cfg),
        0 <= v < upto <= graph.spec_nr_points(),
    ensures
        total_rate_upto(rules, graph, cfg, upto) >= vertex_rate(rules, graph, cfg, v),
    decreases upto,
{
    crate::ips_rules::lemma_row_nonneg(
        rules,
        cfg[upto - 1] as int,
        counts_at(rules, graph, cfg, upto - 1),
        rules.spec_num_states(),
    );
    if v < upto - 1 {
        lemma_total_rate_lower(rules, graph, cfg, v, upto - 1);
    } else {
        lemma_total_rate_nonneg(rules, graph, cfg, upto - 1);
    }
}

/// Every partial total rate is nonnegative.
pub proof fn lemma_total_rate_nonneg<R: IPSRules, G: Graph>(
    rules: R,
    graph: G,
    cfg: Seq<usize>,
    upto: int,
)
    ensures
        total_rate_upto(rules, graph, cfg, upto) >= 0,
    decreases upto,
{
    if upto > 0 {
        lemma_total_rate_nonneg(rules, graph, cfg, upto - 1);
        crate::ips_rules::lemma_row_nonneg(
            rules,
            cfg[upto - 1] as int,
            counts_at(rules, graph, cfg, upto - 1),
            rules.spec_num_states(),
        );
    }
}

/// How many vertices of the whole configuration hold state `s`.
pub open spec fn count_in_config(cfg: Seq<usize>, s: usize) -> int
    decreases cfg.len(),
{
    if cfg.len() == 0 {
        0
    } else {
        count_in_config(cfg.drop_last(), s) + (if cfg.last() == s {
            1int
        } else {
            0int
        })
    }
}

/// Changing one vertex moves one count from its old state to its new one.
pub proof fn lemma_count_in_config_update(cfg: Seq<usize>, v: int, g: usize, s: usize)
    requires
        0 <= v < cfg.len(),
    ensures
        count_in_config(cfg.update(v, g), s) == count_in_config(cfg, s) - (if cfg[v] == s {
            1int
        } else {
            0int
        }) + (if g == s {
            1int
        } else {
            0int
        }),
    decreases cfg.len(),
{
    let cfg2 = cfg.update(v, g);
    if v == cfg.len() - 1 {
        assert(cfg2.drop_last() =~= cfg.drop_last());
        assert(cfg2.last() == g);
    } else {
        assert(cfg2.drop_last() =~= cfg.drop_last().update(v, g));
        lemma_count_in_config_update(cfg.drop_last(), v, g, s);
        assert(cfg2.last() == cfg.last());
    }
}


impl EventState {
    /// Recompute the total reactivity from scratch. With integer rates
    /// the incremental total never drifts: the recomputed sum is exactly
    /// the running total.
    pub fn recomputed_total<R: IPSRules, G: Graph>(&self, rules: &R, graph: &G) -> (total: u64)
        requires
            self.inv(*rules, *graph),
        ensures
            total == self.total_reactivity,
    {
        proof {
            self.lemma_inv_bounds(*rules, *graph);
            graph.wf_facts();
            assert(self.reactivities@.take(0) =~= Seq::<u64>::empty());
        }
        let n = self.reactivities.len();
        let mut total: u64 = 0;
        let mut i: usize = 0;
        while i < n
            invariant
                i <= n,
                n <= VERTEX_LIMIT,
                n == self.reactivities@.len(),
                forall|j: int| 0 <= j < n ==> (#[trigger] self.reactivities@[j]) <= ROW_CAP,
                total as int == sum_u64(self.reactivities@.take(i as int)),
                total <= i * ROW_CAP,
            decreases n - i,
        {
            proof {
                assert(self.reactivities@.take(i + 1).drop_last() =~= self.reactivities@.take(
                    i as int,
                ));
                assert(self.reactivities@.take(i + 1).last() == self.reactivities@[i as int]);
                assert((i + 1) * ROW_CAP == i * ROW_CAP + ROW_CAP) by (nonlinear_arith);
                assert(i * ROW_CAP <= 65536 * ROW_CAP) by (nonlinear_arith)
                    requires 0 <= i <= 65536, ROW_CAP == 1099528404992u64;
            }
            total = total + self.reactivities[i];
            i = i + 1;
        }
        proof {
            assert(self.reactivities@.take(n as int) =~= self.reactivities@);
        }
        total
    }
}


} // verus!
