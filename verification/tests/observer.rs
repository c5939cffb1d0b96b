//! Observer construction: option parsing, validation, folder policy.

use coco::dec::Dec;
use coco::observer::{Observer, ObserverEnv, ObserverName};
use coco::triggers::GapObservation;

fn empty_env() -> ObserverEnv {
    ObserverEnv { existing_folders: vec![], evaluation_marks: vec![] }
}

#[test]
fn observer_name_wire_strings() {
    assert_eq!(ObserverName::Bbob.as_str(), "bbob");
    assert_eq!(ObserverName::BbobBiobj.as_str(), "bbob-biobj");
    assert_eq!(ObserverName::Toy.as_str(), "toy");
    assert_eq!(ObserverName::NoObserver.as_str(), "no-observer");
}

#[test]
fn observer_defaults() {
    let o = Observer::new(ObserverName::Bbob, "", &empty_env()).unwrap();
    assert_eq!(o.result_folder(), "default");
    assert_eq!(o.config.algorithm_name.as_str(), "ALG");
    assert_eq!(o.config.algorithm_info.as_str(), "");
    assert_eq!(o.config.number_target_triggers, 100);
    assert_eq!(o.config.target_precision, Dec { m: 1, e: -8 });
    assert_eq!(o.config.number_evaluation_triggers, 20);
    assert_eq!(o.config.base_evaluation_triggers, vec![1, 2, 5]);
    assert_eq!(o.config.precision_x, 8);
    assert_eq!(o.config.precision_f, 15);
    assert_eq!(o.config.precision_g, 3);
    assert_eq!(o.config.log_discrete_as_int, 0);
}

#[test]
fn observer_parses_documented_keys() {
    let opts = "result_folder: data algorithm_name: mysolver \
                algorithm_info: \"a plain solver\" number_target_triggers: 5 \
                target_precision: 1e-6 number_evaluation_triggers: 0 \
                base_evaluation_triggers: 1,2 precision_x: 6 precision_f: 10 \
                precision_g: 2 log_discrete_as_int: 1";
    let o = Observer::new(ObserverName::Bbob, opts, &empty_env()).unwrap();
    assert_eq!(o.result_folder(), "data");
    assert_eq!(o.config.algorithm_name.as_str(), "mysolver");
    assert_eq!(o.config.algorithm_info.as_str(), "a plain solver");
    assert_eq!(o.config.number_target_triggers, 5);
    assert_eq!(o.config.target_precision, Dec { m: 1, e: -6 });
    assert_eq!(o.config.number_evaluation_triggers, 0);
    assert_eq!(o.config.base_evaluation_triggers, vec![1, 2]);
    assert_eq!(o.config.precision_x, 6);
    assert_eq!(o.config.precision_f, 10);
    assert_eq!(o.config.precision_g, 2);
    assert_eq!(o.config.log_discrete_as_int, 1);
}

#[test]
fn observer_parses_fractional_precision() {
    let o = Observer::new(ObserverName::Toy, "target_precision: 0.5", &empty_env()).unwrap();
    assert_eq!(o.config.target_precision, Dec { m: 5, e: -1 });
    let o2 = Observer::new(ObserverName::Toy, "target_precision: 2.5e-3", &empty_env()).unwrap();
    assert_eq!(o2.config.target_precision, Dec { m: 25, e: -4 });
}

#[test]
fn observer_ignores_unknown_keys() {
    let o = Observer::new(ObserverName::Bbob, "someday: maybe", &empty_env()).unwrap();
    assert_eq!(o.config.number_target_triggers, 100);
}

#[test]
fn observer_rejects_malformed_configuration() {
    let env = empty_env();
    // Non-numeric where a number is needed.
    assert!(Observer::new(ObserverName::Bbob, "number_target_triggers: abc", &env).is_none());
    // A negative count is not a number here.
    assert!(Observer::new(ObserverName::Bbob, "number_target_triggers: -3", &env).is_none());
    // Zero targets per decade are invalid.
    assert!(Observer::new(ObserverName::Bbob, "number_target_triggers: 0", &env).is_none());
    // The precision must be positive.
    assert!(Observer::new(ObserverName::Bbob, "target_precision: -1", &env).is_none());
    assert!(Observer::new(ObserverName::Bbob, "target_precision: 0", &env).is_none());
    // The base list must hold positive numbers.
    assert!(Observer::new(ObserverName::Bbob, "base_evaluation_triggers: 1,0,5", &env).is_none());
    // A pair without its colon is malformed.
    assert!(Observer::new(ObserverName::Bbob, "result_folder data", &env).is_none());
    assert!(Observer::new(ObserverName::Bbob, "junk", &env).is_none());
    // An unterminated quote is malformed.
    assert!(Observer::new(ObserverName::Bbob, "algorithm_info: \"half", &env).is_none());
}

#[test]
fn no_observer_variant_yields_none() {
    assert!(Observer::new(ObserverName::NoObserver, "", &empty_env()).is_none());
}

#[test]
fn observer_rejects_bad_evaluation_marks() {
    let env = ObserverEnv { existing_folders: vec![], evaluation_marks: vec![3, 2] };
    assert!(Observer::new(ObserverName::Bbob, "", &env).is_none());
    let env0 = ObserverEnv { existing_folders: vec![], evaluation_marks: vec![0, 2] };
    assert!(Observer::new(ObserverName::Bbob, "", &env0).is_none());
}

#[test]
fn result_folder_collisions_get_suffixes() {
    // Two successive constructions over the same output area never collide:
    // the second takes the first free three-digit suffix.
    let opts = "result_folder: data";
    let env1 = empty_env();
    let o1 = Observer::new(ObserverName::Bbob, opts, &env1).unwrap();
    assert_eq!(o1.result_folder(), "data");
    let env2 = ObserverEnv {
        existing_folders: vec![String::from("data")],
        evaluation_marks: vec![],
    };
    let o2 = Observer::new(ObserverName::Bbob, opts, &env2).unwrap();
    assert_eq!(o2.result_folder(), "data_001");
    let env3 = ObserverEnv {
        existing_folders: vec![String::from("data"), String::from("data_001")],
        evaluation_marks: vec![],
    };
    let o3 = Observer::new(ObserverName::Bbob, opts, &env3).unwrap();
    assert_eq!(o3.result_folder(), "data_002");
}

#[test]
fn result_folder_skips_to_first_free_suffix() {
    let env = ObserverEnv {
        existing_folders: vec![
            String::from("data"),
            String::from("data_001"),
            String::from("data_003"),
        ],
        evaluation_marks: vec![],
    };
    let o = Observer::new(ObserverName::Bbob, "result_folder: data", &env).unwrap();
    assert_eq!(o.result_folder(), "data_002");
}

#[test]
fn on_evaluation_delegates_to_the_problem_engine() {
    let opts = "base_evaluation_triggers: 1 number_evaluation_triggers: 0";
    let obs = Observer::new(ObserverName::Bbob, opts, &empty_env()).unwrap();
    let mut engine = obs.new_engine(1).unwrap();
    // Count 1 is the first base threshold, and a first gap level fires too.
    assert!(obs.on_evaluation(&mut engine, GapObservation::Level(3), 1));
    // Count 2 is no threshold and the level did not improve.
    assert!(!obs.on_evaluation(&mut engine, GapObservation::Level(3), 2));
    // An improved level fires regardless of the count.
    assert!(obs.on_evaluation(&mut engine, GapObservation::Level(2), 3));
    // The next base threshold is 10.
    assert!(obs.on_evaluation(&mut engine, GapObservation::Level(5), 10));
}
