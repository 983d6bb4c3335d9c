use arris_debug::oracle::{compare_verdict, refusal, scratch_dir, settle_round, OracleError};

#[test]
fn a_refusal_is_the_rest_of_its_error_line() {
    let stderr = "warming up\n/t/a: ERROR no solid\n/t/b: ERROR bad axis\n";
    assert_eq!(refusal(stderr, "/t/b").as_deref(), Some("bad axis"));
    assert_eq!(refusal(stderr, "/t/a").as_deref(), Some("no solid"));
    assert_eq!(refusal(stderr, "/t/c"), None);
}

#[test]
fn a_compare_answers_by_exit_code() {
    assert_eq!(compare_verdict(Some(0), "MATCH\n", "", "f", "x.step"), Ok("MATCH\n".into()));
    assert_eq!(
        compare_verdict(Some(1), "table", "", "f", "x.step"),
        Err(OracleError::Mismatch { fixture: "f".into(), file: "x.step".into(), table: "table".into() })
    );
    let e = compare_verdict(Some(0), "no", "err", "f", "x.step").unwrap_err();
    assert_eq!(e, OracleError::Environment { message: "noerr".into() });
    assert!(e.message().starts_with("the oracle could not run: noerr\nrun `uv sync"));
    assert!(matches!(compare_verdict(None, "MATCH", "", "f", "x"), Err(OracleError::Environment { .. })));
    assert_eq!(scratch_dir("/w"), "/w/target/inspect");
}

#[test]
fn a_round_records_answers_and_refusals() {
    let dirs: Vec<String> = vec!["/d/0".into(), "/d/1".into(), "/d/2".into()];
    let mut answers = vec![None, None, None];
    let next = settle_round(&mut answers, &vec![0, 1, 2], &vec![true, false, false], &dirs, Some(0), "", "/d/1: ERROR empty\n", "exit status: 0");
    assert_eq!(next, Ok(vec![2]));
    assert_eq!(answers, vec![Some(Ok(())), Some(Err("empty".to_string())), None]);
    let next = settle_round(&mut answers, &vec![2], &vec![false], &dirs, None, "", "", "signal: 9");
    assert_eq!(next, Ok(vec![]));
    assert_eq!(answers[2], Some(Err("the oracle died building it (signal: 9)".to_string())));
    let mut fresh = vec![None, None];
    let next = settle_round(&mut fresh, &vec![0, 1], &vec![false, false], &dirs, Some(2), "out", "no uv", "exit status: 2");
    assert_eq!(next, Err(OracleError::Environment { message: "outno uv".into() }));
}
