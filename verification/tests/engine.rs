//! Trigger engine behaviour on concrete inputs.

use coco::dec::Dec;
use coco::triggers::{
    gap_observation_pow10, EvalTriggers, GapObservation, TargetTriggers,
};

#[test]
fn eval_trigger_base_sequence_dimension_two() {
    // dimension 2, bases [1,2,5]: thresholds 2,4,10,20,40,100,200,400,1000,...
    let mut eng = EvalTriggers::new(vec![1, 2, 5], 2, vec![]).unwrap();
    let mut fired_at = Vec::new();
    for count in 1u64..=1000 {
        if eng.observe(count) {
            fired_at.push(count);
        }
    }
    assert_eq!(fired_at, vec![2, 4, 10, 20, 40, 100, 200, 400, 1000]);
}

#[test]
fn eval_trigger_five_evaluations_fire_at_two_and_four() {
    // Five evaluations at dimension 2 fire at counts 2 and 4 only, not 10.
    let mut eng = EvalTriggers::new(vec![1, 2, 5], 2, vec![]).unwrap();
    let decisions: Vec<bool> = (1u64..=5).map(|c| eng.observe(c)).collect();
    assert_eq!(decisions, vec![false, true, false, true, false]);
}

#[test]
fn eval_trigger_jump_consumes_multiple_thresholds() {
    // A jump of the counter consumes every threshold it passed, firing once.
    let mut eng = EvalTriggers::new(vec![1, 2, 5], 2, vec![]).unwrap();
    assert!(eng.observe(50));
    assert!(!eng.observe(51));
    assert!(eng.observe(100));
}

#[test]
fn eval_trigger_extra_marks_fire() {
    let mut eng = EvalTriggers::new(vec![1000000], 1, vec![3, 7]).unwrap();
    let mut fired_at = Vec::new();
    for count in 1u64..=100 {
        if eng.observe(count) {
            fired_at.push(count);
        }
    }
    assert_eq!(fired_at, vec![3, 7]);
}

#[test]
fn eval_trigger_rejects_bad_configuration() {
    assert!(EvalTriggers::new(vec![], 2, vec![]).is_none());
    assert!(EvalTriggers::new(vec![1, 0], 2, vec![]).is_none());
    assert!(EvalTriggers::new(vec![1], 0, vec![]).is_none());
    assert!(EvalTriggers::new(vec![1], 2, vec![3, 2]).is_none());
    assert!(EvalTriggers::new(vec![1], 2, vec![0, 2]).is_none());
}

#[test]
fn target_trigger_monotone_consumption() {
    // Once a level is consumed it never fires again, even after regression.
    let mut t = TargetTriggers::new();
    assert!(t.observe(GapObservation::Level(5)));
    assert!(!t.observe(GapObservation::Level(7)));
    assert!(!t.observe(GapObservation::Level(5)));
    assert!(t.observe(GapObservation::Level(4)));
    assert!(!t.observe(GapObservation::Level(4)));
    assert!(!t.observe(GapObservation::Level(6)));
}

#[test]
fn target_trigger_target_reached_fires_once() {
    let mut t = TargetTriggers::new();
    assert!(t.observe(GapObservation::TargetReached));
    assert!(!t.observe(GapObservation::TargetReached));
    // Reaching the target consumes every threshold: no later level fires.
    assert!(!t.observe(GapObservation::Level(100)));
}

#[test]
fn gap_observation_power_of_ten_levels() {
    let eps = Dec { m: 1, e: -8 };
    // One target per decade: the level of 10^e is e itself.
    assert_eq!(
        gap_observation_pow10(2, 1, eps),
        GapObservation::Level(2)
    );
    assert_eq!(
        gap_observation_pow10(-8, 1, eps),
        GapObservation::Level(-8)
    );
    assert_eq!(
        gap_observation_pow10(-9, 1, eps),
        GapObservation::TargetReached
    );
    // One hundred targets per decade: the level scales.
    assert_eq!(
        gap_observation_pow10(2, 100, eps),
        GapObservation::Level(200)
    );
}

#[test]
fn decimal_comparisons_are_exact() {
    let a = Dec { m: 1, e: -9 };
    let b = Dec { m: 1, e: -8 };
    assert!(a.lt(&b));
    assert!(!b.lt(&a));
    assert!(a.le(&b));
    // Equal values in different representations.
    let ten_a = Dec { m: 10, e: 0 };
    let ten_b = Dec { m: 1, e: 1 };
    assert!(ten_a.le(&ten_b));
    assert!(ten_b.le(&ten_a));
    assert!(!ten_a.lt(&ten_b));
    // Mixed signs and scales.
    assert!(Dec { m: -3, e: 8 }.lt(&Dec { m: 2, e: -9 }));
    assert!(Dec { m: 25, e: -1 }.lt(&Dec { m: 3, e: 0 }));
    assert!(Dec { m: 999999999999999999, e: 2 }.lt(&Dec { m: 1, e: 21 }));
}
