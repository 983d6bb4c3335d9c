use arris_debug::battery::{holds_counts, oracle_case};
use arris_debug::fixtures::Counts;
use arris_debug::part::OracleSolid;
use arris_debug::battery::{key, Class, Refused};
use arris_debug::differential::Outcome;
use arris_debug::histogram::{Cycle, Stage};
use arris_debug::ops::{OpFailure, ReadRefusal};
use arris_debug::survey::class_name;

#[test]
fn a_solid_is_keyed_by_id_and_instance() {
    assert_eq!(key(42, 3), "#42[3]");
    assert_eq!(key(0, 0), "#0[0]");
}

#[test]
fn only_the_counting_outcomes_have_a_class() {
    assert_eq!(Class::of(&Outcome::Agree), Some(Class::Agree));
    assert_eq!(
        Class::of(&Outcome::ArrisRefuses("Profile".into())),
        Some(Class::ArrisRefuses("Profile".into()))
    );
    assert_eq!(Class::of(&Outcome::Panic("x".into())), None);
    assert_eq!(class_name(&Class::OracleRefuses), "oracle-refuses");
    assert_eq!(class_name(&Class::WaitsOn("s".into())), "waits-on");
}

#[test]
fn a_refused_stage_blocks_its_cycle() {
    assert_eq!(Refused::Read(ReadRefusal::Gap).blocks(Stage::Read), Some(Cycle::Healing));
    assert_eq!(
        Refused::Op(OpFailure::Internal { fault: "Split".into() }).blocks(Stage::Fillet),
        None
    );
}

#[test]
fn counts_are_held_only_where_every_solid_of_the_entity_holds_them() {
    let c = Counts { vertices: 8, edges: 12, faces: 6, loops: 6, shells: 1, solids: 1 };
    let held = OracleSolid { id: 7, occt_heals: false, unhealed_counts: None, counts: c, euler_characteristic: None, genus: None };
    let healed = OracleSolid { id: 7, occt_heals: true, unhealed_counts: None, counts: c, euler_characteristic: None, genus: None };
    let other = OracleSolid { id: 9, occt_heals: true, unhealed_counts: None, counts: c, euler_characteristic: None, genus: None };
    assert!(holds_counts(&[held, other], 7));
    assert!(!holds_counts(&[held, healed, other], 7));
    assert!(!holds_counts(&[held, other], 9));
    assert!(holds_counts(&[], 7));
}

#[test]
fn an_unanswered_stage_names_the_script_to_rerun() {
    let battery: Vec<(String, Vec<(String, u32)>)> = vec![
        ("#3[0]".to_string(), vec![("box_cut".to_string(), 1), ("fillet".to_string(), 2)]),
        ("#4[0]".to_string(), vec![("box_cut".to_string(), 3)]),
    ];
    assert_eq!(oracle_case(&battery, "#3[0]", "fillet"), Ok(&2));
    assert_eq!(oracle_case(&battery, "#4[0]", "box_cut"), Ok(&3));
    assert_eq!(
        oracle_case(&battery, "#4[0]", "fillet"),
        Err("#4[0] fillet has no answer in expected.json: rerun tools/oracle/expected.py".to_string())
    );
    assert_eq!(
        oracle_case(&battery, "#5[0]", "box_cut"),
        Err("#5[0] box_cut has no answer in expected.json: rerun tools/oracle/expected.py".to_string())
    );
}

#[test]
fn two_placements_have_two_keys() {
    assert_eq!(key(7, 0), "#7[0]");
    assert_ne!(key(1, 23), key(12, 3));
    assert_ne!(key(12, 3), key(123, 0));
}
