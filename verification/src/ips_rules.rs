use vstd::prelude::*;
use crate::seq_sum::sum_u64;
use crate::{RATE_LIMIT, STATE_LIMIT, VERTEX_LIMIT, MUTATION_CAP, ROW_CAP};

pub mod contact_process;
pub mod si_process;
pub mod sir_process;
pub mod three_voter_process;
pub mod two_si_process;
pub mod two_voter_process;
pub mod voter_process;

verus! {

/// Rules for the evolution of an interacting particle system.
///
/// States are the integers `0 .. spec_num_states()`. Rates are nonnegative
/// integers in a caller-chosen unit; scaling every rate by a common factor
/// only rescales simulated time. `reactivity` is the rate of leaving a state
/// for any other state; `mutation` is the rate of moving to one specific
/// state.
pub trait IPSRules: Sized {
    /// How many states the system has; states are `0 .. spec_num_states()`.
    spec fn spec_num_states(&self) -> int;

    /// Rate of a spontaneous change `current -> goal`, without any neighbor.
    spec fn spec_vacuum_rate(&self, current: int, goal: int) -> u64;

    /// Additional rate of the change `current -> goal` contributed by one
    /// neighbor in state `sender`.
    spec fn spec_neighbor_rate(&self, current: int, goal: int, sender: int) -> u64;

    /// The rule set is usable by the solver: the state count and every rate
    /// are within the fixed machine limits, and a state never has a rate of
    /// changing into itself.
    spec fn wf(&self) -> bool;

    /// Consequences of `wf` that generic code may rely on.
    proof fn wf_facts(&self)
        requires
            self.wf(),
        ensures
            1 <= self.spec_num_states() <= STATE_LIMIT,
            forall|c: int, g: int| #[trigger] self.spec_vacuum_rate(c, g) <= RATE_LIMIT,
            forall|c: int, g: int, s: int| #[trigger] self.spec_neighbor_rate(c, g, s) <= RATE_LIMIT,
            forall|c: int| #[trigger] self.spec_vacuum_rate(c, c) == 0,
            forall|c: int, s: int| #[trigger] self.spec_neighbor_rate(c, c, s) == 0,
    ;

    /// Number of states, as a machine word.
    fn num_states(&self) -> (k: usize)
        requires
            self.wf(),
        ensures
            k == self.spec_num_states(),
    ;

    /// All states of the system, in their fixed order `0, 1, ..`.
    fn all_states(&self) -> (states: Vec<usize>)
        requires
            self.wf(),
        ensures
            states@.len() == self.spec_num_states(),
            forall|i: int| 0 <= i < states@.len() ==> states@[i] == i,
    {
        let k = self.num_states();
        let mut states: Vec<usize> = Vec::new();
        for j in 0..k
            invariant
                states@.len() == j,
                forall|i: int| 0 <= i < j ==> states@[i] == i,
        {
            states.push(j);
        }
        states
    }

    /// Rate at which a particle in state `current` changes to `goal`
    /// spontaneously.
    fn get_vacuum_mutation_rate(&self, current: usize, goal: usize) -> (r: u64)
        requires
            self.wf(),
            current < self.spec_num_states(),
            goal < self.spec_num_states(),
        ensures
            r == self.spec_vacuum_rate(current as int, goal as int),
    ;

    /// Increase of the rate of the change `current -> goal` due to one
    /// neighbor in state `sender`.
    fn get_neighbor_mutation_rate(&self, current: usize, goal: usize, sender: usize) -> (r: u64)
        requires
            self.wf(),
            current < self.spec_num_states(),
            goal < self.spec_num_states(),
            sender < self.spec_num_states(),
        ensures
            r == self.spec_neighbor_rate(current as int, goal as int, sender as int),
    ;

}

/// Neighbor-induced part of the rate `current -> goal`: the sum over the
/// first `upto` states `s` of `counts[s] * neighbor_rate(current, goal, s)`.
pub open spec fn nb_weighted<R: IPSRules>(
    rules: R,
    current: int,
    goal: int,
    counts: Seq<u64>,
    upto: int,
) -> int
    decreases upto,
{
    if upto <= 0 {
        0
    } else {
        nb_weighted(rules, current, goal, counts, upto - 1) + counts[upto - 1]
            * rules.spec_neighbor_rate(current, goal, upto - 1)
    }
}

/// Full rate of the change `current -> goal` given the neighbor counts.
pub open spec fn spec_mutation_rate<R: IPSRules>(
    rules: R,
    current: int,
    goal: int,
    counts: Seq<u64>,
) -> int {
    rules.spec_vacuum_rate(current, goal) + nb_weighted(
        rules,
        current,
        goal,
        counts,
        counts.len() as int,
    )
}

/// Sum of `spec_mutation_rate` over the first `upto` goal states.
pub open spec fn row_upto<R: IPSRules>(rules: R, current: int, counts: Seq<u64>, upto: int) -> int
    decreases upto,
{
    if upto <= 0 {
        0
    } else {
        row_upto(rules, current, counts, upto - 1) + spec_mutation_rate(
            rules,
            current,
            upto - 1,
            counts,
        )
    }
}

/// Total rate at which a particle in state `current` with the given neighbor
/// counts changes to any state: the row sum of the mutation rates.
pub open spec fn spec_reactivity<R: IPSRules>(rules: R, current: int, counts: Seq<u64>) -> int {
    row_upto(rules, current, counts, rules.spec_num_states())
}

/// Sum of `spec_neighbor_rate(current, goal, sender)` over the first `upto`
/// goals.
pub open spec fn nbr_react_upto<R: IPSRules>(
    rules: R,
    current: int,
    sender: int,
    upto: int,
) -> int
    decreases upto,
{
    if upto <= 0 {
        0
    } else {
        nbr_react_upto(rules, current, sender, upto - 1) + rules.spec_neighbor_rate(
            current,
            upto - 1,
            sender,
        )
    }
}

/// Increase of the reactivity of a particle in state `current` due to one
/// neighbor in state `sender`.
pub open spec fn spec_neighbor_reactivity<R: IPSRules>(rules: R, current: int, sender: int) -> int {
    nbr_react_upto(rules, current, sender, rules.spec_num_states())
}

pub proof fn lemma_nb_weighted_step<R: IPSRules>(
    rules: R,
    current: int,
    goal: int,
    counts: Seq<u64>,
    s: int,
)
    requires
        s >= 0,
    ensures
        nb_weighted(rules, current, goal, counts, s + 1) == nb_weighted(
            rules,
            current,
            goal,
            counts,
            s,
        ) + counts[s] * rules.spec_neighbor_rate(current, goal, s),
{
}

pub proof fn lemma_nb_weighted_nonneg<R: IPSRules>(
    rules: R,
    current: int,
    goal: int,
    counts: Seq<u64>,
    upto: int,
)
    ensures
        nb_weighted(rules, current, goal, counts, upto) >= 0,
    decreases upto,
{
    if upto > 0 {
        lemma_nb_weighted_nonneg(rules, current, goal, counts, upto - 1);
        assert(counts[upto - 1] * rules.spec_neighbor_rate(current, goal, upto - 1) >= 0)
            by (nonlinear_arith);
    }
}

/// The neighbor-induced part is bounded by the rate limit times the number of
/// neighbors counted.
pub proof fn lemma_nb_weighted_bound<R: IPSRules>(
    rules: R,
    current: int,
    goal: int,
    counts: Seq<u64>,
    upto: int,
)
    requires
        rules.wf(),
        0 <= upto <= counts.len(),
    ensures
        nb_weighted(rules, current, goal, counts, upto) <= RATE_LIMIT * sum_u64(
            counts.take(upto),
        ),
    decreases upto,
{
    rules.wf_facts();
    if upto > 0 {
        lemma_nb_weighted_bound(rules, current, goal, counts, upto - 1);
        assert(counts.take(upto).drop_last() =~= counts.take(upto - 1));
        assert(counts.take(upto).last() == counts[upto - 1]);
        assert(counts[upto - 1] * rules.spec_neighbor_rate(current, goal, upto - 1) <= counts[upto
            - 1] * RATE_LIMIT) by (nonlinear_arith)
            requires rules.spec_neighbor_rate(current, goal, upto - 1) <= RATE_LIMIT;
        assert(RATE_LIMIT * sum_u64(counts.take(upto)) == RATE_LIMIT * sum_u64(
            counts.take(upto - 1),
        ) + RATE_LIMIT * counts[upto - 1]) by (nonlinear_arith)
            requires sum_u64(counts.take(upto)) == sum_u64(counts.take(upto - 1)) + counts[upto - 1];
    } else {
        assert(counts.take(0) =~= Seq::<u64>::empty());
    }
}

/// A mutation rate is nonnegative and, when the counts sum to at most the
/// vertex limit, bounded by `MUTATION_CAP`.
pub proof fn lemma_mutation_rate_bounds<R: IPSRules>(
    rules: R,
    current: int,
    goal: int,
    counts: Seq<u64>,
)
    requires
        rules.wf(),
        sum_u64(counts) <= VERTEX_LIMIT,
    ensures
        0 <= spec_mutation_rate(rules, current, goal, counts),
        spec_mutation_rate(rules, current, goal, counts) <= MUTATION_CAP,
{
    rules.wf_facts();
    lemma_nb_weighted_nonneg(rules, current, goal, counts, counts.len() as int);
    lemma_nb_weighted_bound(rules, current, goal, counts, counts.len() as int);
    assert(counts.take(counts.len() as int) =~= counts);
    assert(RATE_LIMIT * sum_u64(counts) <= RATE_LIMIT * (VERTEX_LIMIT as int)) by (nonlinear_arith)
        requires sum_u64(counts) <= VERTEX_LIMIT as int, RATE_LIMIT == 1048576u64;
}

/// A row sum is nonnegative, whatever the counts.
pub proof fn lemma_row_nonneg<R: IPSRules>(rules: R, current: int, counts: Seq<u64>, upto: int)
    ensures
        row_upto(rules, current, counts, upto) >= 0,
    decreases upto,
{
    if upto > 0 {
        lemma_row_nonneg(rules, current, counts, upto - 1);
        lemma_nb_weighted_nonneg(rules, current, upto - 1, counts, counts.len() as int);
    }
}

/// A row sum is nonnegative and bounded by `upto * MUTATION_CAP`.
pub proof fn lemma_row_bounds<R: IPSRules>(rules: R, current: int, counts: Seq<u64>, upto: int)
    requires
        rules.wf(),
        sum_u64(counts) <= VERTEX_LIMIT,
    ensures
        0 <= row_upto(rules, current, counts, upto),
        row_upto(rules, current, counts, upto) <= (if upto >= 0 { upto } else { 0 })
            * MUTATION_CAP,
    decreases upto,
{
    if upto > 0 {
        lemma_row_bounds(rules, current, counts, upto - 1);
        lemma_mutation_rate_bounds(rules, current, upto - 1, counts);
        assert(upto * MUTATION_CAP == (upto - 1) * MUTATION_CAP + MUTATION_CAP)
            by (nonlinear_arith);
    }
}

/// The reactivity of any state under bounded counts fits in `ROW_CAP`.
pub proof fn lemma_reactivity_bounds<R: IPSRules>(rules: R, current: int, counts: Seq<u64>)
    requires
        rules.wf(),
        sum_u64(counts) <= VERTEX_LIMIT,
    ensures
        0 <= spec_reactivity(rules, current, counts),
        spec_reactivity(rules, current, counts) <= ROW_CAP,
{
    rules.wf_facts();
    lemma_row_bounds(rules, current, counts, rules.spec_num_states());
    assert(rules.spec_num_states() * MUTATION_CAP <= 16 * MUTATION_CAP) by (nonlinear_arith)
        requires 0 <= rules.spec_num_states() <= 16, MUTATION_CAP == 68720525312u64;
}

pub proof fn lemma_nbr_react_nonneg<R: IPSRules>(rules: R, current: int, sender: int, upto: int)
    ensures
        nbr_react_upto(rules, current, sender, upto) >= 0,
    decreases upto,
{
    if upto > 0 {
        lemma_nbr_react_nonneg(rules, current, sender, upto - 1);
    }
}

pub proof fn lemma_nbr_react_bound<R: IPSRules>(rules: R, current: int, sender: int, upto: int)
    requires
        rules.wf(),
        upto <= 16,
    ensures
        0 <= nbr_react_upto(rules, current, sender, upto),
        nbr_react_upto(rules, current, sender, upto) <= (if upto >= 0 { upto } else { 0 })
            * RATE_LIMIT,
        nbr_react_upto(rules, current, sender, upto) <= ROW_CAP,
    decreases upto,
{
    rules.wf_facts();
    if upto > 0 {
        lemma_nbr_react_bound(rules, current, sender, upto - 1);
        assert(upto * RATE_LIMIT == (upto - 1) * RATE_LIMIT + RATE_LIMIT) by (nonlinear_arith);
        assert(upto * RATE_LIMIT <= 16 * RATE_LIMIT) by (nonlinear_arith)
            requires 0 < upto <= 16, RATE_LIMIT == 1048576u64;
    }
}

/// Raising one neighbor count by one raises the row sum by exactly the
/// neighbor reactivity of that sender state: the repair step of the solver.
pub proof fn lemma_row_increment<R: IPSRules>(
    rules: R,
    current: int,
    counts: Seq<u64>,
    s: int,
    upto: int,
)
    requires
        0 <= s < counts.len(),
        counts[s] < u64::MAX,
    ensures
        row_upto(rules, current, counts.update(s, (counts[s] + 1) as u64), upto) == row_upto(
            rules,
            current,
            counts,
            upto,
        ) + nbr_react_upto(rules, current, s, upto),
    decreases upto,
{
    let counts2 = counts.update(s, (counts[s] + 1) as u64);
    if upto > 0 {
        lemma_row_increment(rules, current, counts, s, upto - 1);
        lemma_nb_weighted_increment(rules, current, upto - 1, counts, s, counts.len() as int);
    }
}

proof fn lemma_nb_weighted_increment<R: IPSRules>(
    rules: R,
    current: int,
    goal: int,
    counts: Seq<u64>,
    s: int,
    upto: int,
)
    requires
        0 <= s < counts.len(),
        counts[s] < u64::MAX,
        upto <= counts.len(),
    ensures
        nb_weighted(rules, current, goal, counts.update(s, (counts[s] + 1) as u64), upto)
            == nb_weighted(rules, current, goal, counts, upto) + (if s < upto {
            rules.spec_neighbor_rate(current, goal, s) as int
        } else {
            0
        }),
    decreases upto,
{
    let counts2 = counts.update(s, (counts[s] + 1) as u64);
    if upto > 0 {
        lemma_nb_weighted_increment(rules, current, goal, counts, s, upto - 1);
        if s == upto - 1 {
            assert(counts2[upto - 1] == counts[upto - 1] + 1);
            assert((counts[upto - 1] + 1) * rules.spec_neighbor_rate(current, goal, upto - 1)
                == counts[upto - 1] * rules.spec_neighbor_rate(current, goal, upto - 1)
                + rules.spec_neighbor_rate(current, goal, upto - 1)) by (nonlinear_arith);
        } else {
            assert(counts2[upto - 1] == counts[upto - 1]);
        }
    }
}

/// A state with at least one neighbor counted in state `s` has reactivity at
/// least the neighbor reactivity towards `s`; subtracting it in the repair
/// step can therefore never go below zero.
pub proof fn lemma_reactivity_lower_bound<R: IPSRules>(
    rules: R,
    current: int,
    counts: Seq<u64>,
    s: int,
)
    requires
        0 <= s < counts.len(),
        counts[s] >= 1,
    ensures
        spec_reactivity(rules, current, counts) >= spec_neighbor_reactivity(rules, current, s)
            + spec_reactivity(rules, current, counts.update(s, (counts[s] - 1) as u64)),
        spec_reactivity(rules, current, counts.update(s, (counts[s] - 1) as u64)) == spec_reactivity(
            rules,
            current,
            counts,
        ) - spec_neighbor_reactivity(rules, current, s),
{
    let k = rules.spec_num_states();
    let lower = counts.update(s, (counts[s] - 1) as u64);
    lemma_row_increment(rules, current, lower, s, k);
    assert(lower.update(s, (lower[s] + 1) as u64) =~= counts);
}

/// Replacing one neighbor's state `a` by `b` changes the row sum by the
/// difference of the two neighbor reactivities.
pub proof fn lemma_reactivity_swap<R: IPSRules>(
    rules: R,
    current: int,
    counts: Seq<u64>,
    a: int,
    b: int,
)
    requires
        0 <= a < counts.len(),
        0 <= b < counts.len(),
        a != b,
        counts[a] >= 1,
        counts[b] < u64::MAX,
    ensures
        spec_reactivity(
            rules,
            current,
            counts.update(a, (counts[a] - 1) as u64).update(b, (counts[b] + 1) as u64),
        ) == spec_reactivity(rules, current, counts) - spec_neighbor_reactivity(rules, current, a)
            + spec_neighbor_reactivity(rules, current, b),
{
    let k = rules.spec_num_states();
    let mid = counts.update(a, (counts[a] - 1) as u64);
    lemma_reactivity_lower_bound(rules, current, counts, a);
    lemma_row_increment(rules, current, mid, b, k);
    assert(mid[b] == counts[b]);
}

/// Rate at which a particle in state `current` changes to any other state
/// due to one neighbor in state `sender`.
pub fn get_neighbor_reactivity<R: IPSRules>(rules: &R, current: usize, sender: usize) -> (r: u64)
    requires
        rules.wf(),
        current < rules.spec_num_states(),
        sender < rules.spec_num_states(),
    ensures
        r == spec_neighbor_reactivity(*rules, current as int, sender as int),
        r <= ROW_CAP,
{
    proof {
        rules.wf_facts();
        lemma_nbr_react_bound(*rules, current as int, sender as int, rules.spec_num_states());
    }
    let k = rules.num_states();
    let mut running_rate: u64 = 0;
    for goal in 0..k
        invariant
            rules.wf(),
            current < k,
            sender < k,
            k == rules.spec_num_states(),
            running_rate == nbr_react_upto(*rules, current as int, sender as int, goal as int),
            running_rate <= goal * RATE_LIMIT,
    {
        proof {
            rules.wf_facts();
            assert((goal + 1) * RATE_LIMIT == goal * RATE_LIMIT + RATE_LIMIT) by (nonlinear_arith);
            assert(goal * RATE_LIMIT <= 16 * RATE_LIMIT) by (nonlinear_arith)
                requires 0 <= goal <= 16, RATE_LIMIT == 1048576u64;
        }
        running_rate = running_rate + rules.get_neighbor_mutation_rate(current, goal, sender);
    }
    running_rate
}

/// Rate of the change `current -> goal` under the given counts of
/// neighbor states (`neighbor_counts[s]` neighbors in state `s`).
pub fn get_mutation_rate<R: IPSRules>(rules: &R, current: usize, goal: usize, neighbor_counts: &Vec<u64>) -> (r: u64)
    requires
        rules.wf(),
        current < rules.spec_num_states(),
        goal < rules.spec_num_states(),
        neighbor_counts@.len() == rules.spec_num_states(),
        sum_u64(neighbor_counts@) <= VERTEX_LIMIT,
    ensures
        r == spec_mutation_rate(*rules, current as int, goal as int, neighbor_counts@),
        r <= MUTATION_CAP,
{
    proof {
        rules.wf_facts();
        lemma_mutation_rate_bounds(*rules, current as int, goal as int, neighbor_counts@);
    }
    let k = rules.num_states();
    let mut acc: u128 = rules.get_vacuum_mutation_rate(current, goal) as u128;
    for s in 0..k
        invariant
            rules.wf(),
            current < k,
            goal < k,
            k == rules.spec_num_states(),
            neighbor_counts@.len() == k,
            acc == rules.spec_vacuum_rate(current as int, goal as int)
                + nb_weighted(*rules, current as int, goal as int, neighbor_counts@, s as int),
            acc <= RATE_LIMIT + s * 0x1000000000000000000000,
    {
        proof {
            rules.wf_facts();
            lemma_nb_weighted_step(*rules, current as int, goal as int, neighbor_counts@, s as int);
            assert((s + 1) * 0x1000000000000000000000 == s * 0x1000000000000000000000
                + 0x1000000000000000000000) by (nonlinear_arith);
            assert((neighbor_counts@[s as int] as int)
                * (rules.spec_neighbor_rate(current as int, goal as int, s as int) as int)
                <= 0xffffffffffffffff * 1048576) by (nonlinear_arith)
                requires
                    neighbor_counts@[s as int] <= 0xffffffffffffffffu64,
                    rules.spec_neighbor_rate(current as int, goal as int, s as int) <= 1048576;
            assert(16 * 0x1000000000000000000000 < u128::MAX);
        }
        let rate = rules.get_neighbor_mutation_rate(current, goal, s);
        let count = neighbor_counts[s];
        proof {
            assert((count as int) * (rate as int) <= 0xffffffffffffffff * 1048576)
                by (nonlinear_arith)
                requires count <= 0xffffffffffffffffu64, rate <= 1048576u64;
        }
        let term = (count as u128) * (rate as u128);
        assert(term <= 0x1000000000000000000000);
        acc = acc + term;
        assert(acc <= RATE_LIMIT + (s + 1) * 0x1000000000000000000000);
    }
    proof {
        lemma_mutation_rate_bounds(*rules, current as int, goal as int, neighbor_counts@);
    }
    acc as u64
}

/// Rate at which a particle in state `current` changes to any other state
/// under the given counts of neighbor states.
pub fn get_reactivity<R: IPSRules>(rules: &R, current: usize, neighbor_counts: &Vec<u64>) -> (r: u64)
    requires
        rules.wf(),
        current < rules.spec_num_states(),
        neighbor_counts@.len() == rules.spec_num_states(),
        sum_u64(neighbor_counts@) <= VERTEX_LIMIT,
    ensures
        r == spec_reactivity(*rules, current as int, neighbor_counts@),
        r <= ROW_CAP,
{
    proof {
        rules.wf_facts();
        lemma_row_bounds(*rules, current as int, neighbor_counts@, rules.spec_num_states());
    }
    let k = rules.num_states();
    let mut running_rate: u64 = 0;
    for goal in 0..k
        invariant
            rules.wf(),
            current < k,
            k == rules.spec_num_states(),
            neighbor_counts@.len() == k,
            sum_u64(neighbor_counts@) <= VERTEX_LIMIT,
            running_rate == row_upto(*rules, current as int, neighbor_counts@, goal as int),
            running_rate <= goal * MUTATION_CAP,
    {
        proof {
            rules.wf_facts();
            assert((goal + 1) * MUTATION_CAP == goal * MUTATION_CAP + MUTATION_CAP)
                by (nonlinear_arith);
            assert(goal * MUTATION_CAP <= 16 * MUTATION_CAP) by (nonlinear_arith)
                requires 0 <= goal <= 16, MUTATION_CAP == 68720525312u64;
        }
        running_rate = running_rate + get_mutation_rate(rules, current, goal, neighbor_counts);
    }
    running_rate
}



/// The neighbor-induced part dominates each of its terms.
pub proof fn lemma_nb_weighted_term_lower<R: IPSRules>(
    rules: R,
    current: int,
    goal: int,
    counts: Seq<u64>,
    s: int,
    upto: int,
)
    requires
        0 <= s < upto,
    ensures
        nb_weighted(rules, current, goal, counts, upto) >= counts[s] * rules.spec_neighbor_rate(
            current,
            goal,
            s,
        ),
    decreases upto,
{
    if s == upto - 1 {
        lemma_nb_weighted_nonneg(rules, current, goal, counts, upto - 1);
    } else {
        lemma_nb_weighted_term_lower(rules, current, goal, counts, s, upto - 1);
        assert(counts[upto - 1] * rules.spec_neighbor_rate(current, goal, upto - 1) >= 0)
            by (nonlinear_arith);
    }
}

/// A positive neighbor-induced part has a positive term: some counted
/// sender state has a positive rate towards the goal.
pub proof fn lemma_nb_weighted_positive_witness<R: IPSRules>(
    rules: R,
    current: int,
    goal: int,
    counts: Seq<u64>,
    upto: int,
)
    requires
        nb_weighted(rules, current, goal, counts, upto) > 0,
    ensures
        exists|s: int|
            0 <= s < upto && #[trigger] rules.spec_neighbor_rate(current, goal, s) > 0 && counts[s]
                > 0,
    decreases upto,
{
    if upto > 0 {
        let term = counts[upto - 1] * rules.spec_neighbor_rate(current, goal, upto - 1);
        if nb_weighted(rules, current, goal, counts, upto - 1) > 0 {
            lemma_nb_weighted_positive_witness(rules, current, goal, counts, upto - 1);
            let s = choose|s: int|
                0 <= s < upto - 1 && #[trigger] rules.spec_neighbor_rate(current, goal, s) > 0
                    && counts[s] > 0;
            assert(rules.spec_neighbor_rate(current, goal, s) > 0 && counts[s] > 0);
        } else {
            assert(term > 0);
            assert(counts[upto - 1] > 0 && rules.spec_neighbor_rate(current, goal, upto - 1) > 0)
                by (nonlinear_arith)
                requires term > 0, term == counts[upto - 1] * rules.spec_neighbor_rate(current, goal, upto - 1);
        }
    }
}

/// A row sum dominates each of its mutation rates.
pub proof fn lemma_row_term_lower<R: IPSRules>(
    rules: R,
    current: int,
    counts: Seq<u64>,
    goal: int,
    upto: int,
)
    requires
        0 <= goal < upto,
    ensures
        row_upto(rules, current, counts, upto) >= spec_mutation_rate(rules, current, goal, counts),
    decreases upto,
{
    if goal == upto - 1 {
        lemma_row_nonneg(rules, current, counts, upto - 1);
    } else {
        lemma_row_term_lower(rules, current, counts, goal, upto - 1);
        lemma_nb_weighted_nonneg(rules, current, upto - 1, counts, counts.len() as int);
    }
}

} // verus!
