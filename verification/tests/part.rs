use arris_debug::fixtures::Counts;
use arris_debug::part::{
    check_hash, check_listed, dump_path, held, lint, sha256_hex, Held, OracleSolid, Outcome, PartShape, PartSolid, ReadRefused,
    Reading,
};

#[test]
fn a_solid_dump_is_named_by_id_and_instance() {
    assert_eq!(dump_path("real/nist-ctc-01", 12, 0), "real/nist-ctc-01/dump.12.0.txt");
    assert_eq!(dump_path("", 7, 3), "dump.7.3.txt");
    let s = PartSolid {
        id: 5,
        instance: 1,
        outcome: Outcome::Refused(ReadRefused { kind: "Gap".into(), why: "a gap".into() }),
    };
    assert!(matches!(s.outcome, Outcome::Refused(_)));
}

#[test]
fn a_step_file_is_held_to_its_recorded_hash() {
    let abc = "ba7816bf8f01cfea414140de5dae2223b00361a396177a9cb410ff61f20015ad";
    assert_eq!(sha256_hex(b"abc"), abc);
    assert_eq!(check_hash(b"abc", abc), Ok(()));
    let err = check_hash(b"abd", abc).unwrap_err();
    assert!(err.starts_with("hashes to "), "{err}");
    assert!(err.ends_with(&format!(", not the fixture's {abc}")), "{err}");
    assert_eq!(err.len(), "hashes to ".len() + 64 + ", not the fixture's ".len() + 64);
}

fn counts(faces: usize) -> Counts {
    Counts { vertices: 8, edges: 12, faces, loops: faces, shells: 1, solids: 1 }
}

#[test]
fn a_reading_is_held_to_counts_healing_did_not_change() {
    let plain = OracleSolid { id: 1, occt_heals: false, unhealed_counts: None, counts: counts(6), euler_characteristic: None, genus: None };
    assert_eq!(plain.held_counts(), Some(counts(6)));
    let healed_same = OracleSolid { id: 2, occt_heals: true, unhealed_counts: Some(counts(6)), counts: counts(6), euler_characteristic: None, genus: None };
    assert_eq!(healed_same.held_counts(), Some(counts(6)));
    let healed_other = OracleSolid { id: 3, occt_heals: true, unhealed_counts: Some(counts(7)), counts: counts(6), euler_characteristic: None, genus: None };
    assert_eq!(healed_other.held_counts(), None);
    let healed_unread = OracleSolid { id: 4, occt_heals: true, unhealed_counts: None, counts: counts(6), euler_characteristic: None, genus: None };
    assert_eq!(healed_unread.held_counts(), None);
}

#[test]
fn a_reading_is_held_to_the_outcome_recorded() {
    let refused = Outcome::Refused(ReadRefused { kind: "gap past the cap".into(), why: "sliver".into() });
    let gap = Reading::Refusal { kind: "gap past the cap".into(), text: "a gap of 0.3 mm".into() };
    let other = Reading::Refusal { kind: "open loop".into(), text: "loop #9".into() };
    assert_eq!(held("#1[0]", &Outcome::Read, &Reading::Body), Held::Read);
    assert_eq!(held("#1[0]", &Outcome::Read, &gap), Held::Unrecorded);
    assert_eq!(held("#1[0]", &refused, &gap), Held::Refused);
    assert_eq!(
        held("#1[0]", &refused, &other),
        Held::Mismatch("#1[0] is refused as open loop (loop #9), not as gap past the cap".into())
    );
    assert_eq!(
        held("#2[1]", &refused, &Reading::Body),
        Held::Mismatch("#2[1] reads, where the fixture records a refusal as gap past the cap: lift it".into())
    );
}

#[test]
fn a_file_reads_to_the_instances_its_fixture_lists() {
    assert_eq!(check_listed(&[(12, 0), (13, 1)], &[(12, 0), (13, 1)]), Ok(()));
    let found = [(12u64, 0u32), (13, 1)];
    let listed = [(12u64, 0u32)];
    assert_eq!(
        check_listed(&found, &listed),
        Err(format!("the file reads to the solid instances {found:?}, but the fixture lists {listed:?}"))
    );
    assert_eq!(
        check_listed(&[], &[(1, 0)]),
        Err("the file reads to the solid instances [], but the fixture lists [(1, 0)]".to_string())
    );
}

fn part_shape(solids: Vec<PartSolid>) -> PartShape {
    PartShape {
        file: "part.step".into(),
        sha256: "ba7816bf8f01cfea414140de5dae2223b00361a396177a9cb410ff61f20015ad".into(),
        source: "NIST".into(),
        licence: "public domain".into(),
        solids,
    }
}

#[test]
fn a_clean_part_fixture_has_no_problem() {
    let solids = vec![PartSolid { id: 12, instance: 0, outcome: Outcome::Read }];
    let v = lint("tests/fixtures/real/p", "real/p", "h", "h", &part_shape(solids), Ok(b"abc"), &[], &[true]);
    assert!(v.is_empty(), "{v:?}");
}

#[test]
fn a_part_fixture_s_problems_come_in_order() {
    let c = Counts { vertices: 8, edges: 12, faces: 6, loops: 6, shells: 1, solids: 1 };
    let off = OracleSolid {
        id: 12,
        occt_heals: false,
        unhealed_counts: None,
        counts: c,
        euler_characteristic: Some(0),
        genus: Some(0),
    };
    let on = OracleSolid { id: 13, euler_characteristic: Some(2), ..off };
    let solids = vec![
        PartSolid { id: 12, instance: 0, outcome: Outcome::Read },
        PartSolid {
            id: 13,
            instance: 1,
            outcome: Outcome::Refused(ReadRefused { kind: "gap past the cap".into(), why: "  ".into() }),
        },
    ];
    let mut part = part_shape(solids);
    part.licence = " ".into();
    let v = lint("tests/fixtures/real/p", "real/p", "new", "old", &part, Ok(b"abd"), &[off, on], &[false, false]);
    assert_eq!(v.len(), 6, "{v:?}");
    assert_eq!(v[0], "real/p: expected.json is stale: recipe hash old but the fixture hashes to new — rerun tools/oracle/expected.py");
    assert!(v[1].starts_with("real/p: part.step hashes to "), "{}", v[1]);
    assert!(v[1].ends_with(", not the fixture's ba7816bf8f01cfea414140de5dae2223b00361a396177a9cb410ff61f20015ad"));
    assert_eq!(v[2], "real/p: a part names its source and quotes its licence");
    assert_eq!(v[3], "real/p: the oracle's #12 is off the Euler line: χ 0, 2(S − G) 2");
    assert_eq!(v[4], "real/p: #12[0] reads but dump.12.0.txt is not committed (ARRIS_BLESS=1)");
    assert_eq!(v[5], "real/p: #13[1] is refused as gap past the cap with no reason why the refusal is right");
}

#[test]
fn a_part_under_regression_holds_no_dump() {
    let solids = vec![PartSolid { id: 5, instance: 0, outcome: Outcome::Read }];
    let v = lint("tests/fixtures/regression/p", "regression/p", "h", "h", &part_shape(solids.clone()), Err("missing"), &[], &[true]);
    assert_eq!(
        v,
        vec![
            "regression/p: part.step: missing".to_string(),
            "regression/p: tests/fixtures/regression/p/dump.5.0.txt is committed under regression/: the part passes, so it moves into its area".to_string(),
        ]
    );
    assert_eq!(
        lint("tests/fixtures/regression/p", "regression/p", "h", "h", &part_shape(solids), Ok(b"abc"), &[], &[false]),
        Vec::<String>::new()
    );
}

#[test]
fn a_part_is_held_to_the_outcome_it_records() {
    let recorded = Outcome::Refused(ReadRefused { kind: "gap past the cap".into(), why: "a sliver".into() });
    let offset = Reading::Refusal { kind: "offset".into(), text: "an offset surface".into() };
    let Held::Mismatch(what) = held("#9[0]", &recorded, &offset) else {
        panic!("an offset is not a gap");
    };
    assert!(what.contains("is refused as offset"), "{what}");

    let lifted = Outcome::Refused(ReadRefused { kind: "offset".into(), why: "none".into() });
    let Held::Mismatch(what) = held("#9[0]", &lifted, &Reading::Body) else {
        panic!("the part reads");
    };
    assert!(what.contains("lift it"), "{what}");
}
