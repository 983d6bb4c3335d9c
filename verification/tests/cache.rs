use arris_debug::cache::{
    child_path, default_dir, digest_files, enters_dir, is_source, key_bytes, setting, slot,
    sorted_paths, Key, Setting,
};

const SEED: [u8; 32] = *b"arris-property-tests-seed-v1\0\0\0\0";

fn key(oracle: &[u8; 32], step: &[u8], expected: Option<&[u8]>, variant: &str) -> Key {
    let fixture: &[u8] = br#"{"steps": []}"#;
    Key::new(oracle, "compare.py", &[Some(step), Some(fixture), expected], Some(variant))
}

#[test]
fn every_input_misses_on_its_own() {
    let oracle = [7u8; 32];
    let step: &[u8] = b"ISO-10303-21;\nDATA;\n#1=POINT(0.0);\n";
    let expected: &[u8] = br#"{"results": {}}"#;
    let base = key(&oracle, step, Some(expected), "default");
    assert_eq!(key(&oracle, step, Some(expected), "default"), base);
    let mut other = step.to_vec();
    other[20] = b'1';
    let misses = [
        key(&oracle, &other, Some(expected), "default"),
        key(&oracle, step, Some(expected), "big"),
        key(&oracle, step, Some(br#"{"results": {} }"#), "default"),
        key(&oracle, step, None, "default"),
        key(&oracle, step, Some(b""), "default"),
        key(&[8u8; 32], step, Some(expected), "default"),
        Key::new(&oracle, "mesh.py", &[Some(step), Some(br#"{"steps": []}"#), Some(expected)], Some("default")),
    ];
    for k in &misses {
        assert_ne!(*k, base);
    }
}

#[test]
fn a_key_frames_each_part_by_its_length() {
    let m = key_bytes(&[0u8; 32], "ab", &[None, Some(b"x")], None);
    let mut want = vec![0u8; 32];
    want.extend([1, 2, 0, 0, 0, 0, 0, 0, 0, b'a', b'b']);
    want.extend([2, 0, 0, 0, 0, 0, 0, 0]);
    want.extend([0]);
    want.extend([1, 1, 0, 0, 0, 0, 0, 0, 0, b'x']);
    want.extend([0]);
    assert_eq!(m, want);
}

#[test]
fn a_key_is_the_sha256_of_its_message_in_hex() {
    let k = Key::new(&[0u8; 32], "", &[], None);
    let hex = k.hex();
    assert_eq!(hex.len(), 64);
    assert!(hex.chars().all(|c| c.is_ascii_hexdigit() && !c.is_ascii_uppercase()));
    let zero = Key([0u8; 32]).hex();
    assert_eq!(zero, "0".repeat(64));
    let mut b = [0u8; 32];
    b[0] = 0xab;
    b[31] = 0x0f;
    assert!(Key(b).hex().starts_with("ab00"));
    assert!(Key(b).hex().ends_with("0f"));
}

#[test]
fn the_setting_comes_from_the_override_then_the_variable() {
    assert_eq!(setting(None, Some("off"), "/w"), Setting::Off);
    assert_eq!(
        setting(None, Some("on"), "/w"),
        Setting::At("/w/target/oracle-cache".into())
    );
    assert_eq!(setting(None, None, "/w/"), Setting::At("/w/target/oracle-cache".into()));
    assert_eq!(
        setting(Some(Setting::At("/tmp/c".into())), Some("off"), "/w"),
        Setting::At("/tmp/c".into())
    );
    assert_eq!(default_dir(""), "target/oracle-cache");
}

#[test]
fn a_slot_needs_the_cache_on_and_the_oracle_read() {
    let at = Setting::At("/c".into());
    assert!(slot(&Setting::Off, Some(SEED), "s.py", &[], None).is_none());
    assert!(slot(&at, None, "s.py", &[], None).is_none());
    let (dir, k) = slot(&at, Some(SEED), "s.py", &[], None).unwrap();
    assert_eq!(dir, "/c");
    assert_eq!(k, Key::new(&SEED, "s.py", &[], None));
}

#[test]
fn the_venv_and_byte_code_are_not_the_oracle() {
    assert!(enters_dir("oracle"));
    assert!(!enters_dir(".venv"));
    assert!(!enters_dir("__pycache__"));
    assert!(is_source("measure.py"));
    assert!(!is_source("notes.txt"));
    assert_eq!(child_path("", "compare.py"), "compare.py");
    assert_eq!(child_path("oracle", "measure.py"), "oracle/measure.py");
}

#[test]
fn the_digest_reads_its_files_in_path_order() {
    let paths = vec![
        "uv.lock".to_string(),
        "pyproject.toml".to_string(),
        "oracle/measure.py".to_string(),
        "compare.py".to_string(),
    ];
    assert_eq!(
        sorted_paths(&paths),
        vec!["compare.py", "oracle/measure.py", "pyproject.toml", "uv.lock"]
    );
    let files = |tol: &str| {
        vec![
            ("compare.py".to_string(), b"print('compare')\n".to_vec()),
            ("oracle/measure.py".to_string(), tol.as_bytes().to_vec()),
        ]
    };
    let a = digest_files(&files("TOL = 1e-9\n"));
    assert_eq!(a, digest_files(&files("TOL = 1e-9\n")));
    assert_ne!(a, digest_files(&files("TOL = 1e-8\n")));
}

#[test]
fn two_keys_name_two_files() {
    let mut a = [0u8; 32];
    let mut b = [0u8; 32];
    a[31] = 0x10;
    b[31] = 0x01;
    assert_ne!(Key(a).hex(), Key(b).hex());
    assert_eq!(Key(a).hex(), Key(a).hex());
}
