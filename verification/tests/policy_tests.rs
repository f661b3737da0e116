use ips_solver::solver::{HaltCondition, RecordCondition};

const ONE: u128 = 1u128 << 64;

#[test]
fn halt_time_passed_is_strict() {
    let halt = HaltCondition::TimePassed(5 * ONE);
    assert!(halt.should_continue(4 * ONE, 0, 0));
    assert!(halt.should_continue(5 * ONE - 1, 0, 0));
    assert!(!halt.should_continue(5 * ONE, 0, 0));
}

#[test]
fn halt_steps_recorded_is_strict() {
    let halt = HaltCondition::StepsRecorded(3);
    assert!(halt.should_continue(0, 2, 0));
    assert!(!halt.should_continue(0, 3, 0));
}

#[test]
fn halt_steps_taken_allows_one_past_budget() {
    // The event budget is deliberately inclusive: with the count at the
    // budget the simulation still continues once more.
    let halt = HaltCondition::StepsTaken(3);
    assert!(halt.should_continue(0, 0, 3));
    assert!(!halt.should_continue(0, 0, 4));
}

#[test]
fn record_final_never_records_during_the_run() {
    let record = RecordCondition::Final();
    assert_eq!(record.how_often_record(7 * ONE, ONE, 12), 0);
}

#[test]
fn record_every_nth_step() {
    let record = RecordCondition::EveryNthStep(3);
    assert_eq!(record.how_often_record(0, 0, 1), 0);
    assert_eq!(record.how_often_record(0, 0, 3), 1);
    assert_eq!(record.how_often_record(0, 0, 4), 0);
    assert_eq!(record.how_often_record(0, 0, 6), 1);
}

#[test]
fn record_constant_time_counts_grid_crossings() {
    let record = RecordCondition::ConstantTime(ONE);
    // A step from time 0.5 to time 0.9 crosses no whole multiple.
    assert_eq!(record.how_often_record(9 * ONE / 10, 4 * ONE / 10, 1), 0);
    // A step from time 0.9 to time 1.1 crosses one.
    assert_eq!(record.how_often_record(11 * ONE / 10, 2 * ONE / 10, 1), 1);
    // A long step from 0.5 to 3.5 crosses three.
    assert_eq!(record.how_often_record(7 * ONE / 2, 3 * ONE, 1), 3);
}
