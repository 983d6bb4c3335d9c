use arris_debug::prop::{
    cases_from, cases_per_shard, failure_message, parse_seed, seed_hex, shard_failure_message, shard_seed, Verdict,
    DEFAULT_CASES, SEED_VAR,
};

const SEED: [u8; 32] = *b"arris-property-tests-seed-v1\0\0\0\0";

#[test]
fn the_case_count_is_positive_or_the_default() {
    assert_eq!(cases_from(None), 256);
    assert_eq!(cases_from(Some(" 12\n")), 12);
    assert_eq!(cases_from(Some("0")), 256);
    assert_eq!(cases_from(Some("4294967296")), 256);
    assert_eq!(cases_from(Some("x")), 256);
}

#[test]
fn a_seed_prints_and_parses_back() {
    let hex = seed_hex(&SEED);
    assert_eq!(hex.len(), 64);
    assert!(hex.starts_with("6172726973"));
    assert_eq!(parse_seed(&hex), Some(SEED));
    assert_eq!(parse_seed(&format!("  {}\n", hex.to_uppercase())), Some(SEED));
    assert_eq!(parse_seed("abc"), None);
    assert_eq!(parse_seed(&"zz".repeat(32)), None);
    let mut plus = "+a".to_string();
    plus.push_str(&"00".repeat(31));
    assert_eq!(parse_seed(&plus).unwrap()[0], 10);
}

#[test]
fn shards_draw_from_their_own_seeds() {
    assert_ne!(shard_seed(&SEED, 0), shard_seed(&SEED, 1));
    assert_eq!(shard_seed(&SEED, 2), shard_seed(&SEED, 2));
}

#[test]
fn sharded_cases_round_up() {
    assert_eq!(cases_per_shard(256, 1), 256);
    assert_eq!(cases_per_shard(256, 7), 37);
    assert!(7 * cases_per_shard(256, 7) >= 256);
    assert_eq!(cases_per_shard(0, 3), 0);
    assert_eq!(cases_per_shard(u32::MAX, 2), 2147483648);
}

#[test]
fn cases_per_shard_rounds_the_remainder_up() {
    let cases = cases_from(None);
    assert_eq!(cases_per_shard(cases, 1), cases);
    for shards in 1..=64u32 {
        assert!(shards * cases_per_shard(cases, shards) >= cases);
    }
}

#[test]
fn cases_and_seed_parse_or_fall_back() {
    assert_eq!(cases_from(None), DEFAULT_CASES);
    assert_eq!(cases_from(Some("1000")), 1000);
    assert_eq!(cases_from(Some("0")), DEFAULT_CASES);
    assert_eq!(cases_from(Some("lots")), DEFAULT_CASES);
    assert_eq!(parse_seed(&seed_hex(&SEED)), Some(SEED));
    assert_eq!(parse_seed("abc"), None);
    assert_eq!(parse_seed(&"zz".repeat(32)), None);
}

#[test]
fn shard_seeds_differ_from_each_other_and_from_the_base() {
    let seeds: std::collections::BTreeSet<_> = (0..32).map(|i| shard_seed(&SEED, i)).collect();
    assert_eq!(seeds.len(), 32);
    assert!(!seeds.contains(&SEED));
    assert_eq!(shard_seed(&SEED, 2), shard_seed(&SEED, 2));
}

fn too_large() -> Verdict {
    Verdict::Failed { reason: "Test failed: too large.".into(), input: "0.5".into() }
}

#[test]
fn a_failure_prints_a_seed_that_reproduces_it() {
    let message = failure_message(&SEED, 256, &too_large());
    assert!(message.contains("too large"), "{message}");
    let printed = message
        .lines()
        .find_map(|l| l.strip_prefix("reproduce with ARRIS_PROPTEST_SEED="))
        .and_then(|rest| rest.split_whitespace().next())
        .expect("the message names the seed");
    let reparsed = parse_seed(printed).expect("the printed seed parses");
    assert_eq!(reparsed, SEED);
    assert_eq!(message, failure_message(&reparsed, 256, &too_large()));
    let other = failure_message(&[7u8; 32], 256, &too_large());
    assert!(other.contains("minimal failing input"));
    assert_eq!(
        failure_message(&SEED, 256, &Verdict::Aborted { reason: "too many rejects".into() }),
        "property aborted: too many rejects"
    );
}

#[test]
fn a_shard_failure_names_the_shard_and_the_base_seed() {
    let message = shard_failure_message(&SEED, 256, 3, 8, &too_large());
    assert!(message.contains("shard 3 of 8"), "{message}");
    let printed = message
        .lines()
        .find_map(|l| l.split_once(&format!("{SEED_VAR}=")))
        .and_then(|(_, rest)| rest.split_whitespace().next())
        .expect("the message names the seed");
    assert_eq!(parse_seed(printed), Some(SEED), "the base seed, not the shard's");
    assert!(message.contains("ARRIS_PROPTEST_CASES=256 — the base seed and the total, not the shard's"));
    assert_eq!(message, shard_failure_message(&SEED, 256, 3, 8, &too_large()));
}

#[test]
fn a_seed_text_outside_ascii_is_no_seed() {
    assert_eq!(parse_seed(&"é".repeat(32)), None);
    assert_eq!(parse_seed(&"é".repeat(64)), None);
    assert_eq!(parse_seed(&format!("{}é", "a".repeat(63))), None);
}
