use arris_debug::fixtures::{lint, AnalyticShape, ProbeShape, RecipeShape, ResultShape, VariantCheck};
use arris_debug::fixtures::{corpus_root, kind_of_raw, name_of, one, recipe_keys, Class, Counts, Kind};
use arris_debug::fixtures::{recipe_hash, recipe_text, HashError};
use sha2::{Digest, Sha256};

#[test]
fn a_fixture_is_named_by_its_last_two_components() {
    assert_eq!(name_of("tests/fixtures/primitive/box"), "primitive/box");
    assert_eq!(name_of("x/y/"), "x/y");
    assert_eq!(name_of("a//b"), "a/b");
    assert_eq!(name_of("a"), "a");
    assert_eq!(name_of("/a"), "//a");
    assert_eq!(name_of("./a/./b"), "a/b");
    assert_eq!(name_of("."), ".");
    assert_eq!(name_of(""), "");
    assert_eq!(name_of("../x"), "../x");
}

#[test]
fn the_kind_is_solid_unless_it_says_geometry() {
    assert_eq!(kind_of_raw(None), Ok(Kind::Solid));
    assert_eq!(kind_of_raw(Some("solid")), Ok(Kind::Solid));
    assert_eq!(kind_of_raw(Some("geometry")), Ok(Kind::Geometry));
    assert_eq!(kind_of_raw(Some("mesh")), Err("mesh".to_string()));
}

#[test]
fn the_corpus_is_two_levels_above_the_crate() {
    assert_eq!(corpus_root("/w/crates/arris-debug"), "/w/crates/arris-debug/../../tests/fixtures");
    let c = Counts { vertices: 8, edges: 12, faces: 6, loops: 6, shells: one(), solids: one() };
    assert_eq!(c.shells, 1);
}

fn cube() -> Counts {
    Counts { vertices: 8, edges: 12, faces: 6, loops: 6, shells: 1, solids: 1 }
}

fn analytic() -> AnalyticShape {
    AnalyticShape {
        degenerate: false,
        expect_error: None,
        counts: Some(cube()),
        counts_differ: false,
        measure_differs: false,
        volume: true,
        area: true,
        centroid: true,
        inertia: false,
        genus: Some(0),
    }
}

fn box_recipe() -> RecipeShape {
    RecipeShape {
        steps: vec!["b".into()],
        result: "b".into(),
        analytic: analytic(),
        probes: vec![ProbeShape { label: "centre".into(), expect: Some(Class::In) }],
    }
}

fn box_result() -> ResultShape {
    ResultShape {
        degenerate: false,
        euler_characteristic: Some(2),
        genus: Some(0),
        counts: cube(),
        probes: vec![("centre".into(), Class::In)],
    }
}

fn default_variant() -> VariantCheck {
    VariantCheck {
        name: "default".into(),
        result: Some(box_result()),
        dump_committed: true,
        eval_errors: vec![],
        differs: vec![],
    }
}

#[test]
fn a_clean_solid_fixture_has_no_problem() {
    let v = lint("primitive/box", "ab", "ab", &box_recipe(), &vec![default_variant()]);
    assert!(v.is_empty(), "{v:?}");
}

#[test]
fn a_stale_answer_and_a_result_that_is_no_step_are_problems() {
    let mut r = box_recipe();
    r.steps = vec!["a".into(), "a".into()];
    r.result = "b".into();
    let v = lint("primitive/box", "new", "old", &r, &vec![default_variant()]);
    assert_eq!(
        v,
        vec![
            "primitive/box: expected.json is stale: recipe hash old but the recipe hashes to new — rerun tools/oracle/expected.py".to_string(),
            "primitive/box: duplicate step names".to_string(),
            "primitive/box: result \"b\" is not a step".to_string(),
        ]
    );
}

#[test]
fn dumps_are_committed_where_the_runner_compares_and_nowhere_under_regression() {
    let mut v = default_variant();
    v.dump_committed = false;
    assert_eq!(
        lint("boolean/cut", "h", "h", &box_recipe(), &vec![v.clone()]),
        vec![
            "boolean/cut: [default] dump.txt is not committed: a fixture the runner compares carries its blessed dump (ARRIS_BLESS=1), so an #[ignore]d one fails here".to_string()
        ]
    );
    assert!(lint("regression/cut", "h", "h", &box_recipe(), &vec![v]).is_empty());
    let mut wide = default_variant();
    wide.name = "wide".into();
    assert_eq!(
        lint("regression/cut", "h", "h", &box_recipe(), &vec![wide]),
        vec![
            "regression/cut: [wide] dump.wide.txt is committed under regression/: the fixture passes, so it moves into its area with its test renamed".to_string()
        ]
    );
}

#[test]
fn the_euler_line_and_the_counts_are_held_to_the_oracle() {
    let mut r = box_recipe();
    r.analytic.genus = Some(1);
    r.analytic.counts = Some(Counts { faces: 7, ..cube() });
    let mut v = default_variant();
    let mut m = box_result();
    m.euler_characteristic = Some(4);
    v.result = Some(m);
    assert_eq!(
        lint("primitive/box", "h", "h", &r, &vec![v]),
        vec![
            "primitive/box: [default] euler_characteristic 4 does not match the counts (2)".to_string(),
            "primitive/box: [default] Euler line is 2, not 0: counts Counts { vertices: 8, edges: 12, faces: 6, loops: 6, shells: 1, solids: 1 } with analytic genus 1 (oracle genus 0)".to_string(),
            "primitive/box: [default] analytic counts Counts { vertices: 8, edges: 12, faces: 7, loops: 6, shells: 1, solids: 1 } vs oracle Counts { vertices: 8, edges: 12, faces: 6, loops: 6, shells: 1, solids: 1 }".to_string(),
        ]
    );
}

#[test]
fn an_euler_line_below_zero_prints_its_sign() {
    let two = Counts { shells: 2, solids: 2, ..cube() };
    let mut r = box_recipe();
    r.analytic.counts = Some(two);
    let mut v = default_variant();
    v.result = Some(ResultShape { counts: two, ..box_result() });
    assert_eq!(
        lint("primitive/box", "h", "h", &r, &vec![v]),
        vec![
            "primitive/box: [default] Euler line is -2, not 0: counts Counts { vertices: 8, edges: 12, faces: 6, loops: 6, shells: 2, solids: 2 } with analytic genus 0 (oracle genus 0)".to_string(),
        ]
    );
}

#[test]
fn measure_differs_needs_every_closed_form_and_one_that_differs() {
    let mut r = box_recipe();
    r.analytic.measure_differs = true;
    r.analytic.area = false;
    let v = lint("primitive/box", "h", "h", &r, &vec![default_variant()]);
    assert_eq!(
        v,
        vec![
            "primitive/box: analytic.measure_differs needs the closed forms it is held to: analytic.area, analytic.inertia missing".to_string(),
            "primitive/box: [default] analytic.measure_differs is set but every closed form is the oracle's measurement".to_string(),
        ]
    );
    let mut differs = default_variant();
    differs.differs = vec!["analytic volume 1 vs oracle 2".into()];
    differs.eval_errors = vec!["analytic area: unknown param r".into()];
    assert_eq!(
        lint("primitive/box", "h", "h", &box_recipe(), &vec![differs]),
        vec![
            "primitive/box: [default] analytic area: unknown param r".to_string(),
            "primitive/box: [default] analytic volume 1 vs oracle 2".to_string(),
        ]
    );
}

#[test]
fn a_variant_without_a_result_or_a_genus_stops_there() {
    let missing = VariantCheck { result: None, ..default_variant() };
    assert_eq!(
        lint("primitive/box", "h", "h", &box_recipe(), &vec![missing]),
        vec!["primitive/box: variant \"default\" has no result in expected.json".to_string()]
    );
    let mut v = default_variant();
    v.result = Some(ResultShape { genus: None, ..box_result() });
    v.differs = vec!["never reached".into()];
    assert_eq!(
        lint("primitive/box", "h", "h", &box_recipe(), &vec![v]),
        vec!["primitive/box: [default] expected.json lacks genus".to_string()]
    );
}

#[test]
fn probes_and_degeneracy_are_the_oracle_s() {
    let mut r = box_recipe();
    r.probes.push(ProbeShape { label: "corner".into(), expect: None });
    let mut v = default_variant();
    v.result = Some(ResultShape { probes: vec![("centre".into(), Class::On)], ..box_result() });
    assert_eq!(
        lint("primitive/box", "h", "h", &r, &vec![v]),
        vec![
            "primitive/box: [default] probe \"centre\" expected In, oracle says On".to_string(),
            "primitive/box: [default] probe \"corner\" has no oracle result".to_string(),
        ]
    );
    let mut flat = box_recipe();
    flat.analytic.degenerate = true;
    assert_eq!(
        lint("primitive/box", "h", "h", &flat, &vec![default_variant()]),
        vec!["primitive/box: [default] analytic.degenerate true but the oracle says false".to_string()]
    );
}

#[test]
fn a_recipe_hashes_only_the_keys_of_its_kind() {
    let solid: Vec<&str> = recipe_keys(Kind::Solid);
    assert_eq!(solid, vec!["params", "probes", "result", "steps", "variants"]);
    assert!(!solid.contains(&"analytic") && !solid.contains(&"description"));
    assert_eq!(recipe_keys(Kind::Geometry), vec!["curves", "kind", "pairs", "params", "samples", "surfaces"]);
}

fn hex_sha256(text: &str) -> String {
    Sha256::digest(text.as_bytes()).iter().map(|b| format!("{b:02x}")).collect::<String>()
}

#[test]
fn hash_ignores_analytic_and_description() {
    let a = r#"{"steps": [], "result": "x", "analytic": {"volume": 1}, "description": "a"}"#;
    let b = r#"{"description": "b", "result": "x", "steps": [], "analytic": {"volume": 2}}"#;
    let c = r#"{"steps": [1], "result": "x"}"#;
    assert_eq!(recipe_hash(a).unwrap(), recipe_hash(b).unwrap());
    assert_ne!(recipe_hash(a).unwrap(), recipe_hash(c).unwrap());
    assert_eq!(recipe_hash(a).unwrap().len(), 64);
}

#[test]
fn hash_matches_the_oracle_on_a_known_input() {
    // sha256 of {"params":null,"probes":null,"result":"x","steps":[],"variants":null},
    // the canonical text the oracle's canonical_json produces.
    let v = r#"{"steps": [], "result": "x"}"#;
    let text = r#"{"params":null,"probes":null,"result":"x","steps":[],"variants":null}"#;
    let expected = hex_sha256(text);
    assert_eq!(recipe_hash(v).unwrap(), expected);
}

#[test]
fn an_unknown_kind_is_an_error_as_it_is_in_python() {
    let v = r#"{"kind": "wire", "steps": [], "result": "x"}"#;
    assert_eq!(kind_of_raw(Some("wire")), Err("wire".to_string()));
    assert_eq!(recipe_hash(v), Err(HashError::UnknownKind("wire".to_string())));
}

#[test]
fn a_recipe_text_writes_sorted_keys_and_null_for_missing_ones() {
    let values = vec![None, None, Some("\"x\"".to_string()), Some("[]".to_string()), None];
    assert_eq!(
        recipe_text(Kind::Solid, &values),
        r#"{"params":null,"probes":null,"result":"x","steps":[],"variants":null}"#
    );
    let values = vec![
        Some("[1]".to_string()),
        Some("\"geometry\"".to_string()),
        None,
        Some("{\"r\":2}".to_string()),
        None,
        Some("[]".to_string()),
    ];
    assert_eq!(
        recipe_text(Kind::Geometry, &values),
        r#"{"curves":[1],"kind":"geometry","pairs":null,"params":{"r":2},"samples":null,"surfaces":[]}"#
    );
}

#[test]
fn a_geometry_recipe_hashes_its_geometry_keys_in_sorted_order() {
    let raw = r#"{"kind": "geometry", "surfaces": [], "description": "d", "params": {"r": 2}}"#;
    let text = r#"{"curves":null,"kind":"geometry","pairs":null,"params":{"r":2},"samples":null,"surfaces":[]}"#;
    assert_eq!(recipe_hash(raw).unwrap(), hex_sha256(text));
}

#[test]
fn a_recipe_whose_kind_is_solid_or_absent_hashes_alike() {
    let absent = r#"{"steps": [], "result": "x"}"#;
    let solid = r#"{"kind": "solid", "steps": [], "result": "x"}"#;
    assert_eq!(recipe_hash(absent).unwrap(), recipe_hash(solid).unwrap());
    // A kind that is no string reads as absent, as `as_str` gives none.
    let numbered = r#"{"kind": 3, "steps": [], "result": "x"}"#;
    assert_eq!(recipe_hash(numbered).unwrap(), recipe_hash(absent).unwrap());
}

#[test]
fn a_text_that_is_no_json_has_no_hash() {
    assert_eq!(recipe_hash("{\"steps\": ["), Err(HashError::NotJson));
    assert_eq!(recipe_hash(""), Err(HashError::NotJson));
}

#[test]
fn the_precision_a_recipe_names_is_outside_its_hash() {
    let with = r#"{
        "steps": [], "result": "x",
        "precision": {"default_tolerance": 1e-6}
    }"#;
    let without = r#"{"steps": [], "result": "x"}"#;
    assert_eq!(recipe_hash(with).unwrap(), recipe_hash(without).unwrap());
}
