use arris_debug::battery::Refused;
use arris_debug::differential::Outcome;
use arris_debug::histogram::blocks_refusal;
use arris_debug::ops::{OpFailure, ReadRefusal, Reason};
use arris_debug::survey::{after_oracle, after_read, battery_solids, record_solid, record_stage, unaccounted, ReadSolid, Report, SolidRead};

fn solid(id: u64, read: bool, held: bool) -> SolidRead {
    SolidRead { id, read, held }
}

#[test]
fn the_battery_runs_on_the_first_placement_of_each_solid_held() {
    let solids = [solid(7, true, false), solid(7, true, true), solid(7, true, true), solid(9, true, true), solid(4, false, false)];
    assert_eq!(battery_solids(&solids), vec![false, true, false, true, false]);
}

#[test]
fn an_oracle_solid_nothing_accounts_for_is_a_failure() {
    let solids = [solid(3, false, false), solid(5, true, false)];
    assert!(unaccounted(&[3, 5], &solids).is_empty());
    assert_eq!(
        unaccounted(&[8, 3, 3, 8, 8], &solids),
        vec![
            "Open CASCADE reads 2 solid(s) of #3 that Arris neither reads nor refuses",
            "Open CASCADE reads 3 solid(s) of #8 that Arris neither reads nor refuses",
        ]
    );
}

#[test]
fn a_judged_stage_records_its_class_and_its_refusal() {
    let mut r = Report { part: "fetched/p".into(), ..Report::default() };
    record_stage(&mut r, "#3[0]", "box_cut", &Outcome::Agree, None);
    let tangent = OpFailure::Degenerate { reason: Reason::TangentContact };
    record_stage(
        &mut r,
        "#3[0]",
        "fillet",
        &Outcome::ArrisRefuses("Degenerate(TangentContact)".into()),
        Some(&Refused::Op(tangent)),
    );
    assert_eq!(
        r.classes,
        vec![
            ("#3[0]".to_string(), "box_cut".to_string(), "agree".to_string()),
            ("#3[0]".to_string(), "fillet".to_string(), "arris-refuses".to_string()),
        ]
    );
    assert_eq!(r.refusals.len(), 1);
    assert_eq!(r.refusals[0].at, "#3[0]");
    assert_eq!(r.refusals[0].stage, "fillet");
    assert_eq!(r.refusals[0].name, "Degenerate(TangentContact)");
    assert!(r.failures.is_empty());
}

#[test]
fn a_kernel_bug_at_a_stage_is_a_failure() {
    let mut r = Report::default();
    record_stage(&mut r, "#4[1]", "drill_x", &Outcome::Panic("boom".into()), None);
    assert!(r.classes.is_empty());
    assert_eq!(r.failures, vec!["#4[1] drill_x: Panic: boom".to_string()]);
    let fault = OpFailure::Internal { fault: "Split".into() };
    record_stage(&mut r, "#4[1]", "fillet", &Outcome::ArrisRefuses("Internal(Split)".into()), Some(&Refused::Op(fault)));
    assert_eq!(r.failures[1], "#4[1] fillet: Internal(Split)");
    assert!(r.refusals.is_empty());
}

#[test]
fn a_solid_is_counted_read_or_refused_at_the_read() {
    let mut r = Report::default();
    record_solid(&mut r, "#1[0]", None);
    record_solid(&mut r, "#2[0]", Some(("gap past the cap", &ReadRefusal::Gap)));
    assert_eq!(r.read, 1);
    assert_eq!(r.refusals.len(), 1);
    assert_eq!(r.refusals[0].at, "#2[0]");
    assert_eq!(r.refusals[0].stage, "read");
    assert_eq!(r.refusals[0].name, "gap past the cap");
    assert_eq!(r.refusals[0].cycle, "healing");
    assert_eq!(blocks_refusal(&ReadRefusal::Gap).name(), "healing");
}

fn read_solid(id: u64, refusal: Option<(&str, ReadRefusal)>) -> ReadSolid {
    ReadSolid { id, instance: 0, refusal: refusal.map(|(k, r)| (k.to_string(), r)) }
}

#[test]
fn a_file_read_to_nothing_or_refused_whole_stops_the_survey() {
    let mut r = Report::default();
    assert!(!after_read(&mut r, &[]));
    assert_eq!(r.failures, vec!["the reader returns no solid and no refusal: a solid it does not see".to_string()]);

    let mut r = Report::default();
    let refused = [read_solid(1, Some(("gap past the cap", ReadRefusal::Gap))), read_solid(2, Some(("offset", ReadRefusal::Offset)))];
    assert!(!after_read(&mut r, &refused));
    assert_eq!(r.refusals.len(), 2);
    assert_eq!(r.refusals[1].at, "#2[0]");
    assert_eq!(r.read, 0);
    assert!(r.failures.is_empty());

    let mut r = Report::default();
    let mixed = [read_solid(1, None), read_solid(2, Some(("offset", ReadRefusal::Offset)))];
    assert!(after_read(&mut r, &mixed));
    assert_eq!(r, Report::default());
}

#[test]
fn an_oracle_that_cannot_read_leaves_the_reads_unverified() {
    let mixed = [read_solid(1, None), read_solid(2, Some(("offset", ReadRefusal::Offset)))];
    let mut r = Report::default();
    assert!(after_oracle(&mut r, &mixed, Ok(())));
    assert_eq!(r, Report::default());
    assert!(!after_oracle(&mut r, &mixed, Err("Open CASCADE refuses the file: no".into())));
    assert_eq!(r.read, 1);
    assert_eq!(r.refusals.len(), 1);
    assert_eq!(r.failures, vec!["Open CASCADE refuses the file: no".to_string()]);
    let mut r = Report::default();
    assert!(!after_oracle(&mut r, &mixed[1..], Err("no".into())));
    assert!(r.failures.is_empty());
}
