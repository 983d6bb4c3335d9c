use arris_debug::corpus::{diff, dump_path, step_tag, ExpectError, Refusal, Stage, StepFailure};
use arris_debug::ops::Reason;

#[test]
fn diff_names_the_lines_that_differ() {
    let d = diff("a\nb\nc\n", "a\nx\nc\nd\n");
    assert_eq!(
        d,
        "-    2 b\n+    2 x\n+    4 d\n(3 lines committed, 4 in this build)\n"
    );
    assert_eq!(diff("same\n", "same\n"), "");
}

#[test]
fn dump_paths_and_blessing() {
    let dir = "x";
    assert_eq!(dump_path(dir, "default"), "x/dump.txt");
    assert_eq!(dump_path(dir, "tighter"), "x/dump.tighter.txt");
}

#[test]
fn a_dump_path_joins_as_a_path_does() {
    assert_eq!(dump_path("", "default"), "dump.txt");
    assert_eq!(dump_path("x/", "a"), "x/dump.a.txt");
}

#[test]
fn a_diff_stops_after_twenty_lines() {
    let committed: String = (0..30).map(|i| format!("{i}\n")).collect();
    let actual: String = (0..30).map(|i| format!("{}\n", i + 100)).collect();
    let d = diff(&committed, &actual);
    assert_eq!(d.lines().count(), 41);
    assert!(d.ends_with("… (more)\n"));
    assert!(d.starts_with("-    1 0\n+    1 100\n"));
}

#[test]
fn a_diff_drops_the_carriage_return_of_a_line_end() {
    assert_eq!(diff("a\r\nb\n", "a\nb"), "");
    assert_eq!(diff("", "z"), "+    1 z\n(0 lines committed, 1 in this build)\n");
}

#[test]
fn a_refusal_names_the_error_expected() {
    assert_eq!(Refusal::Degenerate.expected(), "OpError::Degenerate");
    assert_eq!(
        Refusal::Error(ExpectError::TangentChain).expected(),
        "OpError::Degenerate with Reason::TangentChain"
    );
    assert_eq!(Stage::ReadBack.name(), "read back");
}

#[test]
fn blessing_is_anything_but_empty_or_zero() {
    assert!(arris_debug::corpus::blessing(Some("1")));
    assert!(!arris_debug::corpus::blessing(Some("0")));
    assert!(!arris_debug::corpus::blessing(Some("")));
    assert!(!arris_debug::corpus::blessing(None));
}

#[test]
fn a_refused_step_is_held_to_its_expected_reason() {
    let chain = Refusal::Error(ExpectError::TangentChain);
    let degenerate = |reason| Err(StepFailure::Degenerate { reason, says: "a tangent chain".into() });
    assert!(chain.check("blend/chain", "fillet", degenerate(Reason::TangentChain)).is_ok());
    let e = chain.check("blend/chain", "fillet", degenerate(Reason::Empty)).unwrap_err();
    assert_eq!(e.expected, "OpError::Degenerate with Reason::TangentChain");
    assert_eq!(e.found, "OpError::Degenerate with a tangent chain");
    assert!(Refusal::Degenerate.check("a", "b", degenerate(Reason::Empty)).is_ok());
    let e = Refusal::Degenerate.check("a", "b", Ok(())).unwrap_err();
    assert_eq!((e.fixture.as_str(), e.step.as_str(), e.found.as_str()), ("a", "b", "a body"));
}

#[test]
fn a_copy_of_a_fixture_tags_its_step_files_apart() {
    assert_eq!(step_tag("real/nist-ctc-01", "default", "abc", true), "real-nist-ctc-01-default");
    assert_eq!(step_tag("real/nist-ctc-01", "wide", "abc", false), "real-nist-ctc-01-wide-ba7816");
}

#[test]
fn one_recipe_in_two_directories_names_two_step_files() {
    // The corpus's own copy keeps the name the docs quote.
    assert_eq!(
        step_tag("primitive/cylinder", "default", "tests/fixtures/primitive/cylinder", true),
        "primitive-cylinder-default"
    );
    // A scratch copy of the same recipe does not, so the two never write
    // one file while they run at the same time.
    let a = step_tag("primitive/cylinder", "default", "/tmp/arris-corpus-dump-diff-1", false);
    let b = step_tag("primitive/cylinder", "default", "/tmp/arris-corpus-dump-diff-2", false);
    assert!(a.starts_with("primitive-cylinder-default-"), "{a}");
    assert_ne!(a, "primitive-cylinder-default");
    assert_ne!(a, b, "two scratch copies name two files");
    assert_eq!(a, step_tag("primitive/cylinder", "default", "/tmp/arris-corpus-dump-diff-1", false));
}

#[test]
fn a_diff_is_empty_exactly_for_the_same_lines() {
    assert_eq!(diff("a\nb\n", "a\nb"), "");
    assert_ne!(diff("a\nb\n", "a\nb\nc\n"), "");
    assert_ne!(diff("a\n", "b\n"), "");
}
