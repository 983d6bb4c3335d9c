use arris_debug::battery::Class;
use arris_debug::histogram::{blocks_reason, blocks_refusal, Cycle, Histogram, Stage};
use arris_debug::part::{Outcome, PartRecord, ReadRefused, SolidRecord};
use arris_debug::ops::{refusal, EntityKind, OpFailure, ReadRefusal, Reason};
use arris_debug::survey::{Counted, Report};

#[test]
fn the_print_is_independent_of_order() {
    let adds: [(&str, Stage, &str, &str); 4] = [
        (
            "real/a",
            Stage::Fillet,
            "Degenerate(TangentChain)",
            "blend network",
        ),
        ("real/b", Stage::Read, "gap past the cap", "healing"),
        (
            "real/a",
            Stage::BoxCut,
            "Unsupported(plane × NURBS)",
            "NURBS",
        ),
        (
            "real/a",
            Stage::DrillX,
            "Unsupported(plane × NURBS)",
            "NURBS",
        ),
    ];
    let mut forward = Histogram::new();
    let mut backward = Histogram::new();
    for a in adds {
        forward.add_refusal(a.0, a.1, a.2, a.3);
    }
    for a in adds.iter().rev() {
        backward.add_refusal(a.0, a.1, a.2, a.3);
    }
    assert_eq!(forward.markdown(), backward.markdown());
    assert_eq!(forward.parts_blocked("NURBS"), 1);
    assert!(
        forward
            .markdown()
            .contains("| NURBS | 1 | 0 | 0 | 0 | 1 | 0 |")
    );
}

#[test]
fn a_markdown_lists_every_named_cycle() {
    let mut h = Histogram::new();
    h.add_read("real/a");
    h.add_refusal("real/b", Stage::Read, "gap past the cap", "healing");
    let text = h.markdown();
    assert!(text.contains("| healing | 1 | 1 |"));
    assert!(text.contains("| NURBS | 0 |"));
    assert!(text.starts_with("2 parts, 2 solids: 1 read, 1 refused."));
}

#[test]
fn a_report_counts_its_classes_and_refusals() {
    let report = Report {
        part: "real/c".into(),
        read: 2,
        refusals: vec![Counted {
            at: "#3[0]".into(),
            stage: "fillet".into(),
            name: "Degenerate(TangentChain)".into(),
            cycle: "blend network".into(),
        }],
        classes: vec![
            ("#3[0]".into(), "box_cut".into(), "agree".into()),
            ("#3[0]".into(), "fillet".into(), "arris-refuses".into()),
        ],
        failures: vec![],
    };
    let mut h = Histogram::new();
    assert!(h.has_room_for(&report));
    h.add_report(&report);
    assert_eq!(h.parts_blocked("blend network"), 1);
    let text = h.markdown();
    assert!(text.starts_with("1 parts, 2 solids: 2 read, 0 refused. 2 battery stages: 1 agree"), "{text}");
}

#[test]
fn every_refusal_kind_maps_to_its_cycle() {
    let unsupported = |name: &str| blocks_refusal(&ReadRefusal::Unsupported { name: name.into() });
    assert_eq!(unsupported("FACE_BASED_SURFACE_MODEL"), Cycle::Healing);
    assert_eq!(unsupported("TESSELLATED_SOLID"), Cycle::Itself("faceted"));
    assert_eq!(
        unsupported("SHELL_BASED_SURFACE_MODEL in a CONSTRUCTIVE_GEOMETRY_REPRESENTATION"),
        Cycle::Itself("supplemental geometry")
    );
    assert_eq!(unsupported("VERTEX_LOOP"), Cycle::Itself("outside the subset"));
    assert_eq!(blocks_refusal(&ReadRefusal::Gap), Cycle::Healing);
    assert_eq!(blocks_refusal(&ReadRefusal::Pcurve), Cycle::Nurbs);
    assert_eq!(blocks_refusal(&ReadRefusal::Offset), Cycle::Sweep);
}

#[test]
fn an_unsupported_pair_splits_by_nurbs_and_stage() {
    let kind = |name: &str, nurbs: bool| EntityKind { name: name.into(), nurbs };
    let pair = |a: EntityKind, b: EntityKind| OpFailure::Unsupported { a, b };
    let nurbs_pair = pair(kind("plane", false), kind("NURBS", true));
    assert_eq!(blocks_reason(Stage::BoxCut, &nurbs_pair), Some(Cycle::Nurbs));
    assert_eq!(refusal(&nurbs_pair), "Unsupported(plane × NURBS)");
    let plain = pair(kind("circle", false), kind("plane", false));
    assert_eq!(blocks_reason(Stage::Fillet, &plain), Some(Cycle::BlendNetwork));
    assert_eq!(blocks_reason(Stage::DrillX, &plain), Some(Cycle::Itself("unsupported pair")));
    let fault = OpFailure::Internal { fault: "Invariant".into() };
    assert_eq!(blocks_reason(Stage::BoxCut, &fault), None);
    assert_eq!(refusal(&fault), "Internal(Invariant)");
    let chain = OpFailure::Degenerate { reason: Reason::TangentChain };
    assert_eq!(blocks_reason(Stage::Fillet, &chain), Some(Cycle::BlendNetwork));
    assert_eq!(refusal(&chain), "Degenerate(TangentChain)");
    let empty = OpFailure::Degenerate { reason: Reason::Empty };
    assert_eq!(blocks_reason(Stage::BoxCut, &empty), Some(Cycle::Itself("no material")));
}

#[test]
fn a_stage_is_found_by_its_name() {
    assert_eq!(Stage::of_name("drill_y"), Some(Stage::DrillY));
    assert_eq!(Stage::of_name("drill"), None);
    assert_eq!(Stage::WriteRead.name(), "write_read");
}

fn solid(id: u64, outcome: Outcome, battery: Vec<(&str, Class)>, blocks: Vec<(&str, &str)>) -> SolidRecord {
    SolidRecord {
        id,
        instance: 0,
        outcome,
        battery: battery.into_iter().map(|(n, c)| (n.to_string(), c)).collect(),
        blocks: blocks.into_iter().map(|(s, c)| (s.to_string(), c.to_string())).collect(),
    }
}

#[test]
fn a_part_fixture_counts_reads_refusals_and_classes() {
    let fixture = PartRecord {
        name: "real/d".into(),
        waits_on: vec![],
        solids: vec![
            solid(
                7,
                Outcome::Read,
                vec![("box_cut", Class::Agree), ("fillet", Class::ArrisRefuses("Degenerate(TangentChain)".into()))],
                vec![("fillet", "blend network")],
            ),
            solid(
                9,
                Outcome::Refused(ReadRefused { kind: "gap past the cap".into(), why: "sliver".into() }),
                vec![],
                vec![("read", "healing")],
            ),
        ],
    };
    let mut h = Histogram::new();
    assert!(h.has_room_for_part(&fixture));
    assert!(h.add_part(&fixture).is_ok());
    assert_eq!(h.parts_blocked("blend network"), 1);
    assert_eq!(h.parts_blocked("healing"), 1);
    let text = h.markdown();
    assert!(text.starts_with("1 parts, 2 solids: 1 read, 1 refused. 2 battery stages: 1 agree"), "{text}");
}

#[test]
fn a_part_that_waits_is_not_counted() {
    let fixture = PartRecord { name: "real/e".into(), waits_on: vec!["seam-split".into()], solids: vec![] };
    let mut h = Histogram::new();
    let err = h.add_part(&fixture).unwrap_err();
    assert_eq!(err.part, "real/e");
    assert_eq!(err.what, "waits on seam-split");
    assert!(h.markdown().starts_with("0 parts"), "{}", h.markdown());
}

#[test]
fn a_refusal_without_a_cycle_stops_the_count() {
    let fixture = PartRecord {
        name: "real/f".into(),
        waits_on: vec![],
        solids: vec![solid(
            3,
            Outcome::Read,
            vec![("fillet", Class::ArrisRefuses("Degenerate(TangentChain)".into()))],
            vec![],
        )],
    };
    let mut h = Histogram::new();
    let err = h.add_part(&fixture).unwrap_err();
    assert_eq!(err.what, "#3[0] fillet records no cycle");
}

#[test]
fn a_stage_that_waits_stops_the_count() {
    let fixture = PartRecord {
        name: "real/g".into(),
        waits_on: vec![],
        solids: vec![solid(4, Outcome::Read, vec![("drill_x", Class::WaitsOn("thin-wall".into()))], vec![])],
    };
    let mut h = Histogram::new();
    assert_eq!(h.add_part(&fixture).unwrap_err().what, "#4[0] drill_x waits on thin-wall");
    let unknown = PartRecord {
        name: "real/h".into(),
        waits_on: vec![],
        solids: vec![solid(5, Outcome::Read, vec![("polish", Class::Agree)], vec![])],
    };
    assert_eq!(h.add_part(&unknown).unwrap_err().what, "#5[0]: no stage polish");
}

#[test]
fn part_fixtures_print_the_same_in_either_order() {
    let a = PartRecord {
        name: "real/a".into(),
        waits_on: vec![],
        solids: vec![solid(1, Outcome::Read, vec![("fillet", Class::ArrisRefuses("Degenerate(TangentChain)".into()))], vec![("fillet", "blend network")])],
    };
    let b = PartRecord {
        name: "real/b".into(),
        waits_on: vec![],
        solids: vec![solid(
            2,
            Outcome::Refused(ReadRefused { kind: "gap past the cap".into(), why: "sliver".into() }),
            vec![("box_cut", Class::Agree)],
            vec![("read", "healing")],
        )],
    };
    let mut ab = Histogram::new();
    ab.add_part(&a).unwrap();
    ab.add_part(&b).unwrap();
    let mut ba = Histogram::new();
    ba.add_part(&b).unwrap();
    ba.add_part(&a).unwrap();
    assert_eq!(ab.markdown(), ba.markdown());
}

#[test]
fn a_default_histogram_is_a_new_one() {
    assert_eq!(Histogram::default().markdown(), Histogram::new().markdown());
    assert!(Histogram::default().markdown().starts_with(
        "0 parts, 0 solids: 0 read, 0 refused. 0 battery stages: 0 agree, 0 both refuse, 0 Open CASCADE refuses, 0 Arris refuses."
    ));
}

#[test]
fn a_cycle_blocks_each_part_once_under_its_first_stage() {
    let mut h = Histogram::new();
    h.add_refusal("real/a", Stage::Fillet, "Degenerate(TangentChain)", "blend network");
    h.add_refusal("real/a", Stage::BoxCut, "Degenerate(TangentContact)", "blend network");
    h.add_refusal("real/b", Stage::Fillet, "Degenerate(TangentChain)", "blend network");
    h.add("real/c");
    assert_eq!(h.parts_blocked("blend network"), 2);
    assert_eq!(h.parts_blocked("healing"), 0);
    let text = h.markdown();
    assert!(text.contains("| blend network | 2 | 0 | 0 | 0 | 1 | 0 | 0 | 0 | 1 |"), "{text}");
    assert!(text.starts_with("3 parts, 0 solids"), "{text}");
}
