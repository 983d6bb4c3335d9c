use arris_debug::corpus::Stage;
use arris_debug::differential::{
    cases, checker_row, counts_of, excluded, keeps_failure, outcome_histogram, exclusion_of_panic, exclusion_problems, exclusions,
    internal_is, net_of_removable, panicked, report_lines, shrink_budget, sort_built, Shrink, sort_staged, Answer, Built, Exclusion, Outcome, Staged, Symptom,
    CHECKER_GUARD,
};
use arris_debug::fixtures::Counts;
use arris_debug::ops::{OpFailure, Reason};

#[test]
fn a_panic_is_a_checker_violation_only_from_the_guard() {
    let guard = panicked(&format!("{CHECKER_GUARD}\nL4 …"));
    assert!(matches!(guard, Outcome::CheckerViolation(_)));
    assert_eq!(
        panicked("index out of bounds"),
        Outcome::Panic("index out of bounds".into())
    );
    assert!(guard.fails() && !Outcome::BothRefuse.fails());
}

#[test]
fn an_exclusion_covers_its_symptom_and_nothing_else() {
    let all = exclusions();
    let l4 = Outcome::CheckerViolation("L4 f21: hole loop 0 lies outside every outer loop".into());
    let e1 = Outcome::CheckerViolation("E1 e7: the range is not increasing".into());
    let Outcome::Excluded { name, outcome } = excluded(l4.clone(), &all) else {
        panic!("the L4 symptom is excluded");
    };
    assert_eq!(name, "hole-loop-outside-every-outer-loop");
    assert_eq!(*outcome, l4);
    assert!(!excluded(l4, &all).fails());
    assert_eq!(excluded(e1.clone(), &all), e1);
    assert_eq!(excluded(Outcome::Agree, &all), Outcome::Agree);
    let fewer = Outcome::Disagree {
        stage: Stage::Counts,
        what: "counts Counts { vertices: 6, edges: 9, faces: 5, loops: 5, shells: 1, solids: 1 } but the oracle says Counts { vertices: 6, edges: 9, faces: 5, loops: 6, shells: 2, solids: 1 }".into(),
    };
    assert_eq!(counts_of(&fewer, "shells"), Some((1, 2)));
    assert!(matches!(
        excluded(fewer, &all),
        Outcome::Excluded {
            name: "missing-shell",
            ..
        }
    ));
    let more = Outcome::Disagree {
        stage: Stage::Counts,
        what: "counts Counts { vertices: 7, edges: 10, faces: 5, loops: 5, shells: 1, solids: 1 } but the oracle says Counts { vertices: 6, edges: 9, faces: 5, loops: 5, shells: 1, solids: 1 }".into(),
    };
    assert!(
        excluded(more, &all).fails(),
        "a vertex more is no exclusion's"
    );
    assert!(internal_is(
        &Outcome::Internal("Internal(Split)".into()),
        "Internal(Split)"
    ));
    assert_eq!(
        checker_row("the result fails the checker:\nL5 f47: loop 0 intersects itself").as_deref(),
        Some("L5")
    );
}

#[test]
fn an_exclusion_whose_fixture_is_gone_is_a_problem() {
    let gone = Exclusion {
        name: "gone",
        fixtures: vec!["no-such-fixture"],
        symptom: "",
        covers: Symptom::InternalIs(""),
    };
    let waiting: Vec<&str> = exclusions().iter().flat_map(|e| e.fixtures.clone()).collect();
    let problems = exclusion_problems(&[gone.clone()], &waiting);
    assert_eq!(problems.len(), 1, "{problems:?}");
    assert!(problems[0].contains("regression/no-such-fixture"));
    let none = Exclusion {
        fixtures: vec![],
        ..gone
    };
    assert!(exclusion_problems(&[none], &waiting)[0].contains("cites no"));
}

#[test]
fn every_exclusion_cites_a_fixture_that_waits() {
    let all = exclusions();
    let waiting: Vec<&str> = all.iter().flat_map(|e| e.fixtures.clone()).collect();
    assert!(exclusion_problems(&all, &waiting).is_empty());
    assert_eq!(exclusion_problems(&all, &[]).len(), 8);
}

#[test]
fn a_guard_panic_is_excluded_by_its_row() {
    let guard = "kernel bug: an operation's output fails the checker\n  L4 f18: hole loop 0 lies outside every outer loop";
    assert_eq!(
        exclusion_of_panic(guard).unwrap().name,
        "hole-loop-outside-every-outer-loop"
    );
    assert!(exclusion_of_panic("index out of bounds").is_none());
}

#[test]
fn the_counts_come_from_the_environment_or_the_default() {
    assert_eq!(cases(None), 32);
    assert_eq!(cases(Some(" 7 ")), 7);
    assert_eq!(cases(Some("many")), 32);
    assert_eq!(shrink_budget(None), 64);
    assert_eq!(shrink_budget(Some("+3")), 3);
}

#[test]
fn an_outcome_prints_its_class_and_why() {
    let inner = Outcome::Disagree {
        stage: Stage::Measure,
        what: "volume".into(),
    };
    assert_eq!(inner.text(), "Disagree(measure): volume");
    assert!(inner.compared());
    let build = Outcome::Disagree {
        stage: Stage::Build,
        what: String::new(),
    };
    assert!(!build.compared());
    assert!(inner.same_failure(&inner.clone()));
    assert!(!inner.same_failure(&build));
    let a = Outcome::CheckerViolation("L4 x".into());
    let b = Outcome::CheckerViolation("no row\nL4 y".into());
    assert!(a.same_failure(&b));
    assert_eq!(Outcome::Internal("Internal(Split)".into()).class(), "Internal");
    assert_eq!(Outcome::Panic("boom".into()).text(), "Panic: boom");
}

#[test]
fn the_histogram_counts_classes_and_refusals() {
    let outcomes = vec![
        Outcome::Agree,
        Outcome::ArrisRefuses("Degenerate(TangentContact)".into()),
        Outcome::ArrisRefuses("Degenerate(TangentContact)".into()),
        Outcome::Disagree { stage: Stage::Probes, what: String::new() },
    ];
    let h = outcome_histogram(&outcomes);
    let get = |k: &str| h.iter().find(|(key, _)| key == k).map(|(_, n)| *n);
    assert_eq!(get("Agree"), Some(1));
    assert_eq!(get("ArrisRefuses"), Some(2));
    assert_eq!(get("ArrisRefuses/Degenerate(TangentContact)"), Some(2));
    assert_eq!(get("Disagree/probes"), Some(1));
    assert_eq!(h.len(), 5);
    let keys: Vec<&str> = h.iter().map(|(k, _)| k.as_str()).collect();
    let mut sorted = keys.clone();
    sorted.sort();
    assert_eq!(keys, sorted);
}

#[test]
fn a_shrink_keeps_only_the_same_failure() {
    let first = Outcome::Internal("Internal(Split)".into());
    assert!(keeps_failure(&first, &Outcome::Internal("Internal(Split)".into())));
    assert!(!keeps_failure(&first, &Outcome::Internal("Internal(Geometry)".into())));
    assert!(!keeps_failure(&Outcome::Agree, &Outcome::Agree));
}

#[test]
fn a_refused_build_sorts_by_who_refused() {
    let checker = OpFailure::InvalidInput;
    assert_eq!(
        sort_built(Built::Refused { error: checker, text: "input fails".into() }, &Answer::Solid),
        Some(Outcome::CheckerViolation("input fails".into()))
    );
    let caught = OpFailure::Internal { fault: "Checker".into() };
    assert_eq!(
        sort_built(Built::Refused { error: caught, text: "guard".into() }, &Answer::NoDefault),
        Some(Outcome::CheckerViolation("guard".into()))
    );
    let split = OpFailure::Internal { fault: "Split".into() };
    assert_eq!(
        sort_built(Built::Refused { error: split, text: "x".into() }, &Answer::Solid),
        Some(Outcome::Internal("Internal(Split)".into()))
    );
    let tangent = OpFailure::Degenerate { reason: Reason::TangentContact };
    assert_eq!(
        sort_built(Built::Refused { error: tangent.clone(), text: "x".into() }, &Answer::Solid),
        Some(Outcome::ArrisRefuses("Degenerate(TangentContact)".into()))
    );
    assert_eq!(
        sort_built(Built::Refused { error: tangent, text: "x".into() }, &Answer::Degenerate),
        Some(Outcome::BothRefuse)
    );
}

#[test]
fn a_built_recipe_sorts_by_the_oracle_s_answer() {
    assert_eq!(
        sort_built(Built::Chain, &Answer::Refused("Standard_Failure".into())),
        Some(Outcome::OracleRefuses("Standard_Failure".into()))
    );
    assert_eq!(
        sort_built(Built::Chain, &Answer::NoDefault),
        Some(Outcome::OracleRefuses("expected.json has no default result".into()))
    );
    assert_eq!(
        sort_built(Built::Chain, &Answer::Degenerate),
        Some(Outcome::Disagree {
            stage: Stage::Build,
            what: "Open CASCADE records no solid and Arris builds a body".into()
        })
    );
    assert_eq!(sort_built(Built::Chain, &Answer::Solid), None);
    assert_eq!(
        sort_built(Built::Malformed { stage: Stage::Build, text: "no step b".into() }, &Answer::Solid),
        Some(Outcome::Disagree { stage: Stage::Build, what: "the recipe does not build as written: no step b".into() })
    );
    assert_eq!(sort_built(Built::Panicked("boom".into()), &Answer::Solid), Some(Outcome::Panic("boom".into())));
}

#[test]
fn the_stages_sort_into_agreement_or_the_stage_that_failed() {
    assert_eq!(sort_staged(Staged::Passed), Outcome::Agree);
    assert_eq!(
        sort_staged(Staged::Failed { stage: Stage::Check, text: "open shell".into() }),
        Outcome::CheckerViolation("open shell".into())
    );
    assert_eq!(
        sort_staged(Staged::Failed { stage: Stage::Measure, text: "volume".into() }),
        Outcome::Disagree { stage: Stage::Measure, what: "volume".into() }
    );
    assert_eq!(sort_staged(Staged::Panicked("boom".into())), Outcome::Panic("boom".into()));
}

#[test]
fn a_shrink_keeps_only_candidates_that_fail_alike() {
    let drawn = Outcome::Disagree { stage: Stage::Measure, what: "volume 1 vs 2".into() };
    let mut s = Shrink::new(drawn.clone(), 3);
    assert!(s.more());
    assert!(!s.judged(Outcome::Agree));
    assert!(!s.judged(Outcome::Disagree { stage: Stage::Counts, what: "faces".into() }));
    let smaller = Outcome::Disagree { stage: Stage::Measure, what: "volume 1 vs 3".into() };
    assert!(s.judged(smaller.clone()));
    assert_eq!(s.best(), &smaller);
    assert_eq!(s.tried(), 3);
    assert!(!s.more());
}

#[test]
fn a_shrink_with_no_budget_keeps_the_drawn_failure() {
    let drawn = Outcome::Panic("a cut".into());
    let s = Shrink::new(drawn.clone(), 0);
    assert!(!s.more());
    assert_eq!(s.best(), &drawn);
    assert_eq!(s.tried(), 0);
}

#[test]
fn the_report_lists_classes_and_the_names_under_them() {
    let h = vec![
        ("Agree".to_string(), 3usize),
        ("ArrisRefuses".to_string(), 12),
        ("ArrisRefuses/Degenerate(TangentContact)".to_string(), 12),
    ];
    let expected = format!(
        "  {:<40} {:>5}\n  {:<40} {:>5}\n    {:<40} {:>5}\n",
        "Agree", 3, "ArrisRefuses", 12, "Degenerate(TangentContact)", 12
    );
    assert_eq!(report_lines(&h), expected);
    assert_eq!(report_lines(&[]), "");
    let long = "x".repeat(45);
    assert_eq!(report_lines(&[(long.clone(), 123456)]), format!("  {long} 123456\n"));
}

#[test]
fn counts_are_compared_net_of_removable_vertices() {
    let c = Counts { vertices: 8, edges: 12, faces: 6, loops: 6, shells: 1, solids: 1 };
    let net = net_of_removable(c, 2, 1);
    assert_eq!(net, Counts { vertices: 9, edges: 13, ..c });
    assert_eq!(net_of_removable(c, 0, 20), Counts { vertices: 0, edges: 0, ..c });
    assert_eq!(net_of_removable(c, 3, 3), c);
}

#[test]
fn each_answer_sorts_into_its_class() {
    // Both build and every stage holds.
    assert_eq!(sort_built(Built::Chain, &Answer::Solid), None);
    assert_eq!(sort_staged(Staged::Passed), Outcome::Agree);

    // A different box against the same answer: counts agree, the volume
    // does not.
    let Outcome::Disagree { stage, .. } =
        sort_staged(Staged::Failed { stage: Stage::Measure, text: "volume".into() })
    else {
        panic!("a larger box is not the oracle's");
    };
    assert_eq!(stage, Stage::Measure);

    // Arris builds, the oracle refuses.
    assert!(matches!(sort_built(Built::Chain, &Answer::Refused("no".into())), Some(Outcome::OracleRefuses(_))));

    // Arris refuses a box with no height: counted by its reason when the
    // oracle builds, both refuse when it does not.
    let flat = || Built::Refused {
        error: OpFailure::Degenerate { reason: Reason::NotPositive },
        text: "a box with no height".into(),
    };
    assert_eq!(sort_built(flat(), &Answer::Solid), Some(Outcome::ArrisRefuses("Degenerate(NotPositive)".into())));
    assert_eq!(sort_built(flat(), &Answer::Refused("no".into())), Some(Outcome::BothRefuse));
    assert_eq!(sort_built(flat(), &Answer::Degenerate), Some(Outcome::BothRefuse));

    // Arris builds a body where the oracle records none.
    assert!(matches!(
        sort_built(Built::Chain, &Answer::Degenerate),
        Some(Outcome::Disagree { stage: Stage::Build, .. })
    ));
}
