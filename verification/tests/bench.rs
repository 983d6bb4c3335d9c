use arris_debug::bench::Config;
use arris_debug::histogram::Uncounted;

#[test]
fn a_case_is_timed_five_times_after_one_warm_up() {
    let c = Config::default();
    assert_eq!((c.warmup, c.iterations), (1, 5));
    assert_eq!(c.timed_runs(), 5);
    assert_eq!(Config { warmup: 0, iterations: 0 }.timed_runs(), 1);
}

#[test]
fn an_uncounted_part_says_what_is_missing() {
    let u = Uncounted { part: "real/a".into(), what: "#3[0] fillet records no cycle".into() };
    assert_eq!(u.message(), "real/a: #3[0] fillet records no cycle");
}
