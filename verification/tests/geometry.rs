use arris_debug::geometry::{lint, GeomAnswer, GeomShape, Named, Pair, SampleShape};

fn named(name: &str, error: Option<&str>) -> Named {
    Named { name: name.into(), error: error.map(String::from) }
}

fn sample(of: &str, evaluations: usize, projections: usize) -> SampleShape {
    SampleShape { of: of.into(), evaluations, projections }
}

fn pair(a: &str, b: &str) -> Pair {
    Pair { a: a.into(), b: b.into() }
}

fn recipe() -> GeomShape {
    GeomShape {
        surfaces: vec![named("cyl", None), named("plane", None)],
        curves: vec![named("line", None)],
        samples: vec![sample("cyl", 2, 1)],
        pairs: vec![pair("cyl", "plane"), pair("line", "cyl")],
    }
}

fn answer() -> GeomAnswer {
    GeomAnswer {
        recipe_sha256: "abc".into(),
        kind: "geometry".into(),
        samples: vec![sample("cyl", 2, 1)],
        pairs: vec![pair("cyl", "plane"), pair("line", "cyl")],
    }
}

#[test]
fn a_sound_fixture_has_no_problem() {
    assert!(lint("geometry/g", "abc", &recipe(), &answer()).is_empty());
}

#[test]
fn each_problem_is_named_in_order() {
    let mut r = recipe();
    r.surfaces.push(named("line", Some("line: zero direction")));
    r.samples.push(sample("nothing", 0, 0));
    r.pairs.push(pair("plane", "nothing"));
    let mut x = answer();
    x.recipe_sha256 = "old".into();
    x.kind = "solid".into();
    x.samples[0].evaluations = 3;
    let p = lint("geometry/g", "abc", &r, &x);
    assert_eq!(
        p,
        vec![
            "geometry/g: expected.json is stale: recipe hash old but the recipe hashes to abc — rerun tools/oracle/expected.py",
            "geometry/g: expected.json kind is \"solid\", not \"geometry\"",
            "geometry/g: surface line: zero direction",
            "geometry/g: \"line\" is both a surface and a curve",
            "geometry/g: 2 samples in the recipe, 1 results",
            "geometry/g: sample 0 (\"cyl\") asks 2 evaluations and 1 projections; the result has 3 and 1 for \"cyl\"",
            "geometry/g: sample 1 names unknown \"nothing\"",
            "geometry/g: 3 pairs in the recipe, 2 results",
            "geometry/g: pair 2 (\"plane\", \"nothing\") is not a surface or curve against a surface, or two curves",
        ]
    );
}
