use vstd::prelude::*;
use std::collections::HashMap;
use crate::rng::rand_index_below;
use rand::rngs::StdRng;

verus! {

broadcast use vstd::std_specs::hash::axiom_usize_obeys_hash_table_key_model,
    vstd::std_specs::hash::axiom_random_state_builds_valid_hashers;

/// Make an initial condition of length `graph_size`: every vertex holds
/// `fill`, except those listed in `different`, which hold their listed
/// state.
pub fn assemble_initial_condition(
    fill: usize,
    different: HashMap<usize, usize>,
    graph_size: usize,
) -> (initial_condition: Vec<usize>)
    ensures
        initial_condition@.len() == graph_size,
        forall|i: int|
            0 <= i < graph_size ==> #[trigger] initial_condition@[i] == (if different@.contains_key(
                i as usize,
            ) {
                different@[i as usize]
            } else {
                fill
            }),
{
    let mut initial_condition: Vec<usize> = Vec::new();
    for i in 0..graph_size
        invariant
            initial_condition@.len() == i,
            forall|j: int|
                0 <= j < i ==> #[trigger] initial_condition@[j] == (if different@.contains_key(
                    j as usize,
                ) {
                    different@[j as usize]
                } else {
                    fill
                }),
    {
        match different.get(&i) {
            Some(state) => {
                initial_condition.push(*state);
            },
            None => {
                initial_condition.push(fill);
            },
        }
    }
    initial_condition
}

/// Make an initial condition of length `grid_size` by drawing each entry
/// uniformly from `states`. Weights can be assigned by repeating an entry.
pub fn assemble_random_initial_condition(
    states: Vec<usize>,
    grid_size: usize,
    rng: &mut StdRng,
) -> (initial_condition: Vec<usize>)
    requires
        states@.len() >= 1,
    ensures
        initial_condition@.len() == grid_size,
        forall|i: int|
            0 <= i < grid_size ==> states@.contains(#[trigger] initial_condition@[i]),
{
    let mut initial_condition: Vec<usize> = Vec::new();
    for i in 0..grid_size
        invariant
            states@.len() >= 1,
            initial_condition@.len() == i,
            forall|j: int|
                0 <= j < i ==> states@.contains(#[trigger] initial_condition@[j]),
    {
        let pick = rand_index_below(rng, states.len());
        initial_condition.push(states[pick]);
    }
    initial_condition
}

} // verus!
