//! The evaluation protocol on concrete problems.

use coco::dec::Dec;
use coco::observer::{Observer, ObserverEnv, ObserverName};
use coco::problem::{EvalError, RoiDim};
use coco::suite::{ProblemTemplate, Suite};
use coco::triggers::{gap_observation_pow10, GapObservation};

fn sphere_template(dimension: usize) -> ProblemTemplate {
    ProblemTemplate {
        function_name: String::from("sphere"),
        function_index: 1,
        dimension_index: 0,
        instance_index: 1,
        dimension,
        n_objectives: 1,
        n_constraints: 0,
        n_integer_vars: 0,
        roi: vec![RoiDim { lower_m: -5, upper_m: 5, e: 0 }; dimension],
        optimum: Dec { m: 0, e: 0 },
        final_target: Dec { m: 1, e: -8 },
        initial: None,
    }
}

fn single_suite(dimension: usize) -> Suite {
    Suite::new(String::from("bbob"), true, vec![sphere_template(dimension)]).unwrap()
}

#[test]
fn wrong_length_fails_fast_without_counting() {
    // An evaluation with a wrong-sized buffer is rejected and leaves the
    // evaluation counter untouched.
    let mut suite = single_suite(2);
    let mut p = suite.next_problem(None).unwrap();
    let x_short = vec![Dec { m: 0, e: 0 }];
    let y = vec![Dec { m: 3, e: 0 }];
    assert_eq!(
        p.evaluate_function(&x_short, &y, GapObservation::Level(0)),
        Err(EvalError::DimensionMismatch)
    );
    assert_eq!(p.evaluations(), 0);
    let x = vec![Dec { m: 0, e: 0 }, Dec { m: 1, e: 0 }];
    let y_bad = vec![];
    assert_eq!(
        p.evaluate_function(&x, &y_bad, GapObservation::Level(0)),
        Err(EvalError::ObjectiveCountMismatch)
    );
    assert_eq!(p.evaluations(), 0);
    assert!(p.evaluate_function(&x, &y, GapObservation::Level(0)).is_ok());
    assert_eq!(p.evaluations(), 1);
}

#[test]
fn final_target_hit_latches() {
    // false until an evaluation's gap falls below the target precision,
    // true from then on.
    let mut suite = single_suite(1);
    let mut p = suite.next_problem(None).unwrap();
    let x = vec![Dec { m: 0, e: 0 }];
    assert!(!p.final_target_hit());
    p.evaluate_function(&x, &vec![Dec { m: 100, e: 0 }], GapObservation::Level(2)).unwrap();
    assert!(!p.final_target_hit());
    p.evaluate_function(&x, &vec![Dec { m: 1, e: -9 }], GapObservation::TargetReached).unwrap();
    assert!(p.final_target_hit());
    p.evaluate_function(&x, &vec![Dec { m: 100, e: 0 }], GapObservation::Level(2)).unwrap();
    assert!(p.final_target_hit());
    assert_eq!(p.final_target_value(), Dec { m: 1, e: -8 });
    assert_eq!(p.best_value(), Dec { m: 0, e: 0 });
}

#[test]
fn target_trigger_scenario_one_target_per_decade() {
    // One target per decade, precision 1e-8, optimum 0. Gaps
    // [100, 10, 1, 1e-9] fire at the first observation, at the 100 -> 10 and
    // 10 -> 1 crossings, and once as "target reached"; a repeated gap of 1
    // does not fire again. The single count base of one million keeps
    // evaluation-count triggers out of the picture.
    let opts = "number_target_triggers: 1 base_evaluation_triggers: 1000000 \
                number_evaluation_triggers: 0";
    let env = ObserverEnv { existing_folders: vec![], evaluation_marks: vec![] };
    let obs = Observer::new(ObserverName::Bbob, opts, &env).unwrap();
    let mut suite = single_suite(1);
    let mut p = suite.next_problem(Some(&obs)).unwrap();
    let x = vec![Dec { m: 0, e: 0 }];
    let eps = Dec { m: 1, e: -8 };
    let gaps: Vec<(Dec, i32)> = vec![
        (Dec { m: 100, e: 0 }, 2),
        (Dec { m: 10, e: 0 }, 1),
        (Dec { m: 1, e: 0 }, 0),
        (Dec { m: 1, e: -9 }, -9),
        (Dec { m: 1, e: 0 }, 0),
    ];
    let mut decisions = Vec::new();
    for (value, e10) in gaps {
        let gap = gap_observation_pow10(e10, 1, eps);
        decisions.push(p.evaluate_function(&x, &vec![value], gap).unwrap());
    }
    assert_eq!(decisions, vec![true, true, true, true, false]);
    assert!(p.final_target_hit());
}

#[test]
fn count_trigger_scenario_dimension_two() {
    // Evaluation-count triggers at dimension 2 with bases [1,2,5] and no
    // extra marks fire at counts 2 and 4 within five evaluations. The gap
    // level is constant, so the target trigger fires only on the first
    // observation.
    let opts = "base_evaluation_triggers: 1,2,5 number_evaluation_triggers: 0";
    let env = ObserverEnv { existing_folders: vec![], evaluation_marks: vec![] };
    let obs = Observer::new(ObserverName::Bbob, opts, &env).unwrap();
    let mut suite = single_suite(2);
    let mut p = suite.next_problem(Some(&obs)).unwrap();
    let x = vec![Dec { m: 0, e: 0 }, Dec { m: 0, e: 0 }];
    let y = vec![Dec { m: 100, e: 0 }];
    let mut decisions = Vec::new();
    for _ in 0..5 {
        decisions.push(p.evaluate_function(&x, &y, GapObservation::Level(200)).unwrap());
    }
    assert_eq!(decisions, vec![true, true, false, true, false]);
}

#[test]
fn best_observed_tracks_the_minimum() {
    let mut suite = single_suite(1);
    let mut p = suite.next_problem(None).unwrap();
    let x = vec![Dec { m: 0, e: 0 }];
    assert_eq!(p.best_observed(), None);
    p.evaluate_function(&x, &vec![Dec { m: 7, e: 0 }], GapObservation::Level(1)).unwrap();
    assert_eq!(p.best_observed(), Some(Dec { m: 7, e: 0 }));
    p.evaluate_function(&x, &vec![Dec { m: 9, e: 0 }], GapObservation::Level(1)).unwrap();
    assert_eq!(p.best_observed(), Some(Dec { m: 7, e: 0 }));
    p.evaluate_function(&x, &vec![Dec { m: 25, e: -1 }], GapObservation::Level(1)).unwrap();
    assert_eq!(p.best_observed(), Some(Dec { m: 25, e: -1 }));
}

#[test]
fn constraint_evaluations_count_separately() {
    let mut template = sphere_template(2);
    template.n_constraints = 1;
    let mut suite = Suite::new(String::from("cons"), false, vec![template]).unwrap();
    let mut p = suite.next_problem(None).unwrap();
    let x = vec![Dec { m: 0, e: 0 }, Dec { m: 0, e: 0 }];
    let g = vec![Dec { m: 1, e: 0 }];
    assert_eq!(p.evaluate_constraint(&x, &g), Ok(()));
    assert_eq!(p.evaluations_constraints(), 1);
    assert_eq!(p.evaluations(), 0);
    let g_bad = vec![];
    assert_eq!(
        p.evaluate_constraint(&x, &g_bad),
        Err(EvalError::ConstraintCountMismatch)
    );
    assert_eq!(p.evaluations_constraints(), 1);
}

#[test]
fn initial_solution_is_midpoint_without_designated_point() {
    let mut template = sphere_template(2);
    template.roi = vec![
        RoiDim { lower_m: -5, upper_m: 5, e: 0 },
        RoiDim { lower_m: 0, upper_m: 5, e: 0 },
    ];
    let mut suite = Suite::new(String::from("toy"), false, vec![template]).unwrap();
    let p = suite.next_problem(None).unwrap();
    let start = p.initial_solution();
    assert_eq!(start, vec![Dec { m: 0, e: 0 }, Dec { m: 25, e: -1 }]);
}

#[test]
fn initial_solution_uses_designated_point() {
    let mut template = sphere_template(2);
    template.initial = Some(vec![Dec { m: 1, e: 0 }, Dec { m: 2, e: 0 }]);
    let mut suite = Suite::new(String::from("toy"), false, vec![template]).unwrap();
    let p = suite.next_problem(None).unwrap();
    assert_eq!(p.initial_solution(), vec![Dec { m: 1, e: 0 }, Dec { m: 2, e: 0 }]);
}

#[test]
fn shape_accessors_and_ranges() {
    let mut suite = single_suite(3);
    let p = suite.next_problem(None).unwrap();
    assert_eq!(p.dimension(), 3);
    assert_eq!(p.number_of_objectives(), 1);
    assert_eq!(p.number_of_constraints(), 0);
    assert_eq!(p.number_of_integer_variables(), 0);
    assert_eq!(p.function_index(), 1);
    assert_eq!(p.dimension_index(), 0);
    assert_eq!(p.instance_index(), 1);
    let ranges = p.get_ranges_of_interest();
    assert_eq!(ranges.len(), 3);
    assert_eq!(ranges[0], (Dec { m: -5, e: 0 }, Dec { m: 5, e: 0 }));
}
