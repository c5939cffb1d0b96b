//! Suite iteration, random access, and problem identifiers.

use coco::dec::Dec;
use coco::problem::RoiDim;
use coco::suite::{ProblemTemplate, Suite};

fn template(name: &str, f: usize, d_idx: usize, i: usize, dimension: usize) -> ProblemTemplate {
    ProblemTemplate {
        function_name: String::from(name),
        function_index: f,
        dimension_index: d_idx,
        instance_index: i,
        dimension,
        n_objectives: 1,
        n_constraints: 0,
        n_integer_vars: 0,
        roi: vec![RoiDim { lower_m: -5, upper_m: 5, e: 0 }; dimension],
        optimum: Dec { m: 0, e: 0 },
        final_target: Dec { m: 1, e: -8 },
        initial: None,
    }
}

#[test]
fn iteration_is_ordered_and_exhaustion_is_terminal() {
    let mut suite = Suite::new(
        String::from("bbob"),
        true,
        vec![template("sphere", 1, 0, 1, 2), template("ellipsoid", 2, 0, 1, 2)],
    )
    .unwrap();
    assert_eq!(suite.len(), 2);
    let p1 = suite.next_problem(None).unwrap();
    assert_eq!(p1.function_index(), 1);
    let p2 = suite.next_problem(None).unwrap();
    assert_eq!(p2.function_index(), 2);
    assert!(suite.next_problem(None).is_none());
    // Exhaustion is terminal: the cursor does not wrap around.
    assert!(suite.next_problem(None).is_none());
}

#[test]
fn indexed_problem_identifier_format() {
    let mut suite = Suite::new(String::from("bbob"), true, vec![template("sphere", 1, 0, 3, 2)])
        .unwrap();
    let p = suite.next_problem(None).unwrap();
    assert_eq!(p.id(), "bbob_f1_i3_d2");
    assert_eq!(p.name(), "sphere");
}

#[test]
fn simple_problem_identifier_format() {
    let mut suite = Suite::new(String::from("toy"), false, vec![template("sphere", 0, 1, 0, 4)])
        .unwrap();
    let p = suite.next_problem(None).unwrap();
    assert_eq!(p.id(), "sphere_d4");
}

#[test]
fn random_access_by_triple() {
    let suite = Suite::new(
        String::from("bbob"),
        true,
        vec![template("sphere", 1, 0, 1, 2), template("ellipsoid", 2, 1, 1, 3)],
    )
    .unwrap();
    let p = suite.problem_by_function_dimension_instance(2, 1, 1, None).unwrap();
    assert_eq!(p.name(), "ellipsoid");
    assert_eq!(p.dimension(), 3);
    // A triple outside the catalogue fails.
    assert!(suite.problem_by_function_dimension_instance(9, 0, 1, None).is_none());
}

#[test]
fn suite_rejects_malformed_templates() {
    let mut bad = template("sphere", 1, 0, 1, 2);
    bad.dimension = 0;
    assert!(Suite::new(String::from("bbob"), true, vec![bad]).is_none());
    let mut bad_roi = template("sphere", 1, 0, 1, 2);
    bad_roi.roi = vec![RoiDim { lower_m: 5, upper_m: -5, e: 0 }; 2];
    assert!(Suite::new(String::from("bbob"), true, vec![bad_roi]).is_none());
}

#[test]
fn large_counter_identifier_digits() {
    let mut suite = Suite::new(
        String::from("bbob"),
        true,
        vec![template("sphere", 107, 0, 20, 40)],
    )
    .unwrap();
    let p = suite.next_problem(None).unwrap();
    assert_eq!(p.id(), "bbob_f107_i20_d40");
}
