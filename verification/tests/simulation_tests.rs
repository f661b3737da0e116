use ips_solver::assemble_initial_condition::assemble_initial_condition;
use ips_solver::graph::Graph;
use ips_solver::graph::grid_n_d::GridND;
use ips_solver::ips_rules::si_process::SIProcess;
use ips_solver::ips_rules::sir_process::SIRProcess;
use ips_solver::ips_rules::two_si_process::TwoSIProcess;
use ips_solver::ips_rules::voter_process::VoterProcess;
use ips_solver::rng::rng_from_seed;
use ips_solver::solver::{
    compute_counts, particle_system_solver, EventState, HaltCondition, RecordCondition,
};
use ips_solver::visualization::render_rgba;
use rand::Rng;
use rand::SeedableRng;
use rand::rngs::StdRng;
use std::collections::HashMap;

const ONE: u128 = 1u128 << 64;

fn count_of(states: &[usize], s: usize) -> usize {
    states.iter().filter(|x| **x == s).count()
}

#[test]
fn unanimous_voters_stop_immediately_with_two_snapshots() {
    // All-equal start: the total reactivity is zero, the solver stops at
    // once, and the record holds the initial and the (equal) final state.
    let rules = VoterProcess { nr_parties: 3, change_rate: 1 };
    let graph = GridND::from_cyclic(vec![10]);
    let initial = vec![1usize; 10];
    let mut rng = rng_from_seed(17);
    let (record, final_states, time, recorded, taken) = particle_system_solver(
        &rules,
        &graph,
        initial.clone(),
        HaltCondition::TimePassed(100 * ONE),
        RecordCondition::Final(),
        &mut rng,
    );
    assert_eq!(taken, 0);
    assert_eq!(time, 0);
    assert_eq!(recorded, 2);
    assert_eq!(final_states, initial);
    assert_eq!(record.len(), 20);
    assert_eq!(&record[0..10], &initial[..]);
    assert_eq!(&record[10..20], &initial[..]);
}

#[test]
fn zero_event_budget_still_permits_one_event() {
    // The event bound is inclusive, so a budget of zero still lets one
    // event through before the halt trips.
    let rules = VoterProcess { nr_parties: 2, change_rate: 1 };
    let graph = GridND::from_cyclic(vec![4, 4]);
    let mut initial = vec![0usize; 16];
    for i in 0..8 {
        initial[i] = 1;
    }
    let mut rng = rng_from_seed(23);
    let (record, final_states, _time, recorded, taken) = particle_system_solver(
        &rules,
        &graph,
        initial,
        HaltCondition::StepsTaken(0),
        RecordCondition::Final(),
        &mut rng,
    );
    assert_eq!(taken, 1);
    assert_eq!(recorded, 1);
    assert_eq!(record, final_states);
}

#[test]
fn sir_epidemic_burns_out_before_the_time_budget() {
    // One infected vertex on the 4x4 torus; removal is fast. The run must
    // end by exhaustion of all rates, far before the configured time, and
    // leave no infected vertex behind.
    let rules = SIRProcess { birth_rate: 2, death_rate: 2 };
    let graph = GridND::from_cyclic(vec![4, 4]);
    let mut different: HashMap<usize, usize> = HashMap::new();
    different.insert(5, 1);
    let initial = assemble_initial_condition(0, different, 16);
    let mut rng = rng_from_seed(41);
    let (record, final_states, time, recorded, _taken) = particle_system_solver(
        &rules,
        &graph,
        initial,
        HaltCondition::TimePassed(1_000_000 * ONE),
        RecordCondition::EveryNthStep(1),
        &mut rng,
    );
    assert!(time < 1_000_000 * ONE);
    assert_eq!(count_of(&final_states, 1), 0);
    assert_eq!(
        count_of(&final_states, 0) + count_of(&final_states, 2),
        16
    );
    // Across the recorded snapshots the removed count never falls and the
    // susceptible count never rises.
    let n = 16;
    let mut prev_removed = 0;
    let mut prev_susceptible = n;
    for k in 0..recorded as usize {
        let frame = &record[k * n..(k + 1) * n];
        let removed = count_of(frame, 2);
        let susceptible = count_of(frame, 0);
        assert!(removed >= prev_removed, "removed count fell at frame {}", k);
        assert!(
            susceptible <= prev_susceptible,
            "susceptible count rose at frame {}",
            k
        );
        prev_removed = removed;
        prev_susceptible = susceptible;
    }
}

#[test]
fn si_infection_on_a_circle_of_nine() {
    // One seed in the middle of a cyclic line of nine, recorded on a
    // constant time grid. Until the infection dies out completely, every
    // frame holds at least one infected vertex; afterwards every frame is
    // the all-susceptible configuration. The last frame is the final
    // configuration.
    let rules = SIProcess { birth_rate: 14, death_rate: 10 };
    let graph = GridND::from_cyclic(vec![9]);
    let initial = vec![0, 0, 0, 0, 1, 0, 0, 0, 0];
    let mut rng = rng_from_seed(2024);
    let (record, final_states, _time, recorded, taken) = particle_system_solver(
        &rules,
        &graph,
        initial,
        HaltCondition::TimePassed(2 * ONE),
        RecordCondition::ConstantTime(ONE / 10),
        &mut rng,
    );
    assert!(taken >= 1);
    let n = 9;
    assert_eq!(record.len(), recorded as usize * n);
    let mut extinct = false;
    for k in 0..recorded as usize {
        let frame = &record[k * n..(k + 1) * n];
        if extinct {
            assert_eq!(count_of(frame, 1), 0);
        }
        if count_of(frame, 1) == 0 {
            extinct = true;
        }
    }
    assert_eq!(&record[(recorded as usize - 1) * n..], &final_states[..]);
}

#[test]
fn two_si_species_are_statistically_symmetric() {
    // The two species have identical rates; over many seeded runs their
    // final occupancies must be indistinguishable.
    let rules = TwoSIProcess { birth_rate: 2, death_rate: 1, compete_rate: 1 };
    let graph = GridND::from_cyclic(vec![8, 8]);
    let mut total_first: u64 = 0;
    let mut total_second: u64 = 0;
    for seed in 0..30u64 {
        let mut init_rng = StdRng::seed_from_u64(1000 + seed);
        let initial: Vec<usize> = (0..64).map(|_| init_rng.gen_range(0..3usize)).collect();
        let mut rng = rng_from_seed(seed);
        let (_record, final_states, _time, _recorded, _taken) = particle_system_solver(
            &rules,
            &graph,
            initial,
            HaltCondition::StepsTaken(400),
            RecordCondition::Final(),
            &mut rng,
        );
        total_first += count_of(&final_states, 1) as u64;
        total_second += count_of(&final_states, 2) as u64;
    }
    let diff = total_first.abs_diff(total_second);
    let sum = total_first + total_second;
    assert!(sum > 0);
    assert!(
        5 * diff <= sum,
        "species occupancy is lopsided: {} vs {}",
        total_first,
        total_second
    );
}

#[test]
fn reactivities_are_exact_and_reverting_restores_them() {
    // The live reactivity vector and total always equal what a fresh
    // computation over the current configuration gives, and undoing an
    // event restores them exactly.
    let rules = SIProcess { birth_rate: 14, death_rate: 10 };
    let graph = GridND::from_cyclic(vec![9]);
    let initial = vec![0, 0, 0, 1, 1, 0, 0, 0, 0];
    let original = EventState::new(&rules, &graph, initial.clone());
    let expected_total: u64 = original.reactivities.iter().sum();
    assert_eq!(original.total_reactivity, expected_total);
    assert_eq!(original.recomputed_total(&rules, &graph), original.total_reactivity);

    let mut state = EventState::new(&rules, &graph, initial.clone());
    let neighbors = graph.get_neighbors(4);
    let counts = compute_counts(&rules, &state.states, &neighbors);
    state.apply_event(&rules, &graph, 4, 0, &neighbors, &counts);

    // The repaired vector matches a from-scratch computation.
    let fresh = EventState::new(&rules, &graph, state.states.clone());
    assert_eq!(state.reactivities, fresh.reactivities);
    assert_eq!(state.total_reactivity, fresh.total_reactivity);
    assert_eq!(state.recomputed_total(&rules, &graph), state.total_reactivity);
    let total_after: u64 = state.reactivities.iter().sum();
    assert_eq!(state.total_reactivity, total_after);

    // Reverting the event restores the original bookkeeping exactly.
    let neighbors_back = graph.get_neighbors(4);
    let counts_back = compute_counts(&rules, &state.states, &neighbors_back);
    state.apply_event(&rules, &graph, 4, 1, &neighbors_back, &counts_back);
    assert_eq!(state.states, original.states);
    assert_eq!(state.reactivities, original.reactivities);
    assert_eq!(state.total_reactivity, original.total_reactivity);
}

#[test]
fn rendering_maps_states_to_their_colors() {
    let rules = SIProcess { birth_rate: 1, death_rate: 1 };
    let pixels = render_rgba(&rules, &vec![0usize, 1, 0]);
    assert_eq!(
        pixels,
        vec![0, 0, 0, 255, 211, 47, 47, 255, 0, 0, 0, 255]
    );
}

#[test]
fn si_without_births_dies_out() {
    // With a zero birth rate the infection can only recede; the run ends
    // in the all-susceptible absorbing state well before the time budget.
    let rules = SIProcess { birth_rate: 0, death_rate: 10 };
    let graph = GridND::from_cyclic(vec![4, 4]);
    let mut different: HashMap<usize, usize> = HashMap::new();
    different.insert(3, 1);
    different.insert(9, 1);
    let initial = assemble_initial_condition(0, different, 16);
    let mut rng = rng_from_seed(8);
    let (_record, final_states, time, _recorded, taken) = particle_system_solver(
        &rules,
        &graph,
        initial,
        HaltCondition::TimePassed(1_000_000 * ONE),
        RecordCondition::Final(),
        &mut rng,
    );
    assert!(time < 1_000_000 * ONE);
    assert_eq!(taken, 2);
    assert_eq!(final_states, vec![0usize; 16]);
}
