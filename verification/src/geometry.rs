//! The corpus lint of a geometry fixture, on what it reads of the
//! fixture: the recipe's surfaces and curves by name with whether each
//! builds, its samples and pairs, and the oracle's answer — its hash,
//! its kind, one result per sample and pair with the counts asked for.

use vstd::prelude::*;
use crate::text::{chars_of, decimal, push_chars, push_decimal, push_str, same_text, string_of};

verus! {

/// What `format!("{:?}", s)` gives for the text `s`: it quoted, with
/// its escapes.
pub uninterp spec fn debug_quoted(s: Seq<char>) -> Seq<char>;

/// `format!("{:?}", s)`: the text quoted as `Debug` prints a `str`.
/// Claimed: the result is the one named [`debug_quoted`] for this text.
#[verifier::external_body]
pub(crate) fn quoted(s: &str) -> (q: String)
    ensures
        q@ == debug_quoted(s@),
{
    format!("{:?}", s)
}

/// Two names to intersect: two surfaces, a curve `a` against a surface
/// `b`, or two curves.
#[derive(Debug, Clone, PartialEq, Eq)]
pub struct Pair {
    /// A surface or a curve.
    pub a: String,
    /// A surface, or a curve when `a` is one.
    pub b: String,
}

/// A named surface or curve of a recipe, and why it does not build where
/// it does not: the build error as it prints.
#[derive(Debug, Clone, PartialEq, Eq)]
pub struct Named {
    /// Its name.
    pub name: String,
    /// Why it does not build, if it does not.
    pub error: Option<String>,
}

/// One sample as the recipe asks it or as the oracle answered it: what it
/// is of, and how many evaluations and projections.
#[derive(Debug, Clone, PartialEq, Eq)]
pub struct SampleShape {
    /// The surface or curve.
    pub of: String,
    /// Parameters evaluated at.
    pub evaluations: usize,
    /// Points projected.
    pub projections: usize,
}

/// What the lint reads of a geometry recipe, in the recipe's order (the
/// surfaces and curves by name, as the recipe's maps hold them).
#[derive(Debug, Clone, PartialEq, Eq)]
pub struct GeomShape {
    pub surfaces: Vec<Named>,
    pub curves: Vec<Named>,
    pub samples: Vec<SampleShape>,
    pub pairs: Vec<Pair>,
}

/// What the lint reads of the oracle's answer to a geometry recipe.
#[derive(Debug, Clone, PartialEq, Eq)]
pub struct GeomAnswer {
    /// The hash of the recipe it answered.
    pub recipe_sha256: String,
    /// Its kind.
    pub kind: String,
    /// One result per sample.
    pub samples: Vec<SampleShape>,
    /// One result per pair.
    pub pairs: Vec<Pair>,
}

/// A problem line of the fixture `name`.
pub open spec fn problem(name: Seq<char>, t: Seq<char>) -> Seq<char> {
    name + ": "@ + t
}

/// Whether `v` names `n`.
pub open spec fn has_name(v: Seq<Named>, n: Seq<char>) -> bool {
    exists|i: int| 0 <= i < v.len() && (#[trigger] v[i]).name@ == n
}

/// The lines of surface `i`: where it does not build, and where it is
/// also a curve's name.
pub open spec fn surface_item(name: Seq<char>, r: GeomShape, i: int) -> Seq<Seq<char>> {
    let s = r.surfaces@[i];
    (match s.error {
        Some(e) => seq![problem(name, "surface "@ + e@)],
        None => Seq::empty(),
    }) + if has_name(r.curves@, s.name@) {
        seq![problem(name, debug_quoted(s.name@) + " is both a surface and a curve"@)]
    } else {
        Seq::empty()
    }
}

/// The lines of the surfaces `0..k`.
pub open spec fn surface_lines(name: Seq<char>, r: GeomShape, k: int) -> Seq<Seq<char>>
    decreases k,
{
    if k <= 0 {
        Seq::empty()
    } else {
        surface_lines(name, r, k - 1) + surface_item(name, r, k - 1)
    }
}

/// The line of curve `i`, where it does not build.
pub open spec fn curve_item(name: Seq<char>, r: GeomShape, i: int) -> Seq<Seq<char>> {
    match r.curves@[i].error {
        Some(e) => seq![problem(name, "curve "@ + e@)],
        None => Seq::empty(),
    }
}

/// The lines of the curves `0..k` that do not build.
pub open spec fn curve_lines(name: Seq<char>, r: GeomShape, k: int) -> Seq<Seq<char>>
    decreases k,
{
    if k <= 0 {
        Seq::empty()
    } else {
        curve_lines(name, r, k - 1) + curve_item(name, r, k - 1)
    }
}

/// Whether a sample's result answers what it asks.
pub open spec fn sample_answered(s: SampleShape, res: SampleShape) -> bool {
    res.of@ == s.of@ && res.evaluations == s.evaluations && res.projections == s.projections
}

/// The lines of sample `i`: an unknown name, a result that does not
/// answer it.
pub open spec fn sample_line(name: Seq<char>, r: GeomShape, x: GeomAnswer, i: int) -> Seq<Seq<char>> {
    let s = r.samples@[i];
    (if !has_name(r.surfaces@, s.of@) && !has_name(r.curves@, s.of@) {
        seq![problem(name, "sample "@ + decimal(i as nat) + " names unknown "@ + debug_quoted(s.of@))]
    } else {
        Seq::empty()
    }) + if i < x.samples@.len() && !sample_answered(s, x.samples@[i]) {
        let res = x.samples@[i];
        seq![
            problem(
                name,
                "sample "@ + decimal(i as nat) + " ("@ + debug_quoted(s.of@) + ") asks "@ + decimal(
                    s.evaluations as nat,
                ) + " evaluations and "@ + decimal(s.projections as nat)
                    + " projections; the result has "@ + decimal(res.evaluations as nat) + " and "@
                    + decimal(res.projections as nat) + " for "@ + debug_quoted(res.of@),
            ),
        ]
    } else {
        Seq::empty()
    }
}

/// The lines of the samples `0..k`.
pub open spec fn sample_lines(name: Seq<char>, r: GeomShape, x: GeomAnswer, k: int) -> Seq<Seq<char>>
    decreases k,
{
    if k <= 0 {
        Seq::empty()
    } else {
        sample_lines(name, r, x, k - 1) + sample_line(name, r, x, k - 1)
    }
}

/// The lines of pair `i`: a pair that is no surface or curve against a
/// surface nor two curves, a result of another pair.
pub open spec fn pair_line(name: Seq<char>, r: GeomShape, x: GeomAnswer, i: int) -> Seq<Seq<char>> {
    let p = r.pairs@[i];
    let two_curves = has_name(r.curves@, p.a@) && has_name(r.curves@, p.b@);
    let known_a = has_name(r.surfaces@, p.a@) || has_name(r.curves@, p.a@);
    (if !(two_curves || known_a && has_name(r.surfaces@, p.b@)) {
        seq![
            problem(
                name,
                "pair "@ + decimal(i as nat) + " ("@ + debug_quoted(p.a@) + ", "@ + debug_quoted(p.b@)
                    + ") is not a surface or curve against a surface, or two curves"@,
            ),
        ]
    } else {
        Seq::empty()
    }) + if i < x.pairs@.len() && (x.pairs@[i].a@ != p.a@ || x.pairs@[i].b@ != p.b@) {
        let res = x.pairs@[i];
        seq![
            problem(
                name,
                "pair "@ + decimal(i as nat) + " is ("@ + debug_quoted(p.a@) + ", "@ + debug_quoted(p.b@)
                    + ") but the result is ("@ + debug_quoted(res.a@) + ", "@ + debug_quoted(res.b@)
                    + ")"@,
            ),
        ]
    } else {
        Seq::empty()
    }
}

/// The lines of the pairs `0..k`.
pub open spec fn pair_lines(name: Seq<char>, r: GeomShape, x: GeomAnswer, k: int) -> Seq<Seq<char>>
    decreases k,
{
    if k <= 0 {
        Seq::empty()
    } else {
        pair_lines(name, r, x, k - 1) + pair_line(name, r, x, k - 1)
    }
}

/// A count line where the recipe's count and the results' differ.
pub open spec fn count_line(name: Seq<char>, what: Seq<char>, asked: nat, answered: nat) -> Seq<Seq<char>> {
    if asked != answered {
        seq![problem(name, decimal(asked) + " "@ + what + " in the recipe, "@ + decimal(answered) + " results"@)]
    } else {
        Seq::empty()
    }
}

/// Every problem of a geometry fixture, in the order the lint finds them.
pub open spec fn lint_lines(name: Seq<char>, hash: Seq<char>, r: GeomShape, x: GeomAnswer) -> Seq<Seq<char>> {
    (if x.recipe_sha256@ != hash {
        seq![
            problem(
                name,
                "expected.json is stale: recipe hash "@ + x.recipe_sha256@ + " but the recipe hashes to "@
                    + hash + " — rerun tools/oracle/expected.py"@,
            ),
        ]
    } else {
        Seq::empty()
    }) + (if x.kind@ != "geometry"@ {
        seq![problem(name, "expected.json kind is "@ + debug_quoted(x.kind@) + ", not \"geometry\""@)]
    } else {
        Seq::empty()
    }) + surface_lines(name, r, r.surfaces@.len() as int) + curve_lines(name, r, r.curves@.len() as int)
        + count_line(name, "samples"@, r.samples@.len(), x.samples@.len()) + sample_lines(
        name,
        r,
        x,
        r.samples@.len() as int,
    ) + count_line(name, "pairs"@, r.pairs@.len(), x.pairs@.len()) + pair_lines(
        name,
        r,
        x,
        r.pairs@.len() as int,
    )
}

/// The texts of `v`.
pub open spec fn texts(v: Seq<String>) -> Seq<Seq<char>> {
    v.map_values(|s: String| s@)
}

/// Whether `v` names `n`, computed.
fn names(v: &Vec<Named>, n: &str) -> (r: bool)
    ensures
        r == has_name(v@, n@),
{
    let mut i: usize = 0;
    while i < v.len()
        invariant
            i <= v@.len(),
            forall|j: int| 0 <= j < i ==> (#[trigger] v@[j]).name@ != n@,
        decreases v@.len() - i,
    {
        if same_text(v[i].name.as_str(), n) {
            return true;
        }
        i = i + 1;
    }
    false
}

/// Appends the problem line `name: t` made of the pieces given.
pub(crate) fn push_problem(out: &mut Vec<String>, name: &str, line: Vec<char>)
    ensures
        texts(final(out)@) == texts(old(out)@).push(problem(name@, line@)),
{
    let mut l = chars_of(name);
    push_str(&mut l, ": ");
    push_chars(&mut l, line.as_slice());
    out.push(string_of(l.as_slice()));
    assert(texts(out@) =~= texts(old(out)@).push(problem(name@, line@)));
}

pub(crate) fn push_quoted(l: &mut Vec<char>, s: &str)
    ensures
        final(l)@ == old(l)@ + debug_quoted(s@),
{
    let q = quoted(s);
    push_str(l, q.as_str());
}

fn lint_surface(out: &mut Vec<String>, name: &str, r: &GeomShape, k: usize)
    requires
        k < r.surfaces@.len(),
    ensures
        texts(final(out)@) == texts(old(out)@) + surface_item(name@, *r, k as int),
{
    let ghost base = texts(out@);
    let s = &r.surfaces[k];
    match &s.error {
        Some(e) => {
            let mut l = chars_of("surface ");
            push_str(&mut l, e.as_str());
            push_problem(out, name, l);
        },
        None => {},
    }
    if names(&r.curves, s.name.as_str()) {
        let mut l: Vec<char> = Vec::new();
        push_quoted(&mut l, s.name.as_str());
        push_str(&mut l, " is both a surface and a curve");
        push_problem(out, name, l);
    }
    assert(texts(out@) =~= base + surface_item(name@, *r, k as int));
}

fn lint_curve(out: &mut Vec<String>, name: &str, r: &GeomShape, k: usize)
    requires
        k < r.curves@.len(),
    ensures
        texts(final(out)@) == texts(old(out)@) + curve_item(name@, *r, k as int),
{
    let ghost base = texts(out@);
    match &r.curves[k].error {
        Some(e) => {
            let mut l = chars_of("curve ");
            push_str(&mut l, e.as_str());
            push_problem(out, name, l);
        },
        None => {},
    }
    assert(texts(out@) =~= base + curve_item(name@, *r, k as int));
}

fn lint_count(out: &mut Vec<String>, name: &str, what: &str, asked: usize, answered: usize)
    ensures
        texts(final(out)@) == texts(old(out)@) + count_line(name@, what@, asked as nat, answered as nat),
{
    let ghost base = texts(out@);
    if asked != answered {
        let mut l: Vec<char> = Vec::new();
        push_decimal(&mut l, asked as u64);
        push_str(&mut l, " ");
        push_str(&mut l, what);
        push_str(&mut l, " in the recipe, ");
        push_decimal(&mut l, answered as u64);
        push_str(&mut l, " results");
        push_problem(out, name, l);
    }
    assert(texts(out@) =~= base + count_line(name@, what@, asked as nat, answered as nat));
}

fn lint_sample(out: &mut Vec<String>, name: &str, r: &GeomShape, x: &GeomAnswer, i: usize)
    requires
        i < r.samples@.len(),
    ensures
        texts(final(out)@) == texts(old(out)@) + sample_line(name@, *r, *x, i as int),
{
    let ghost base = texts(out@);
    let s = &r.samples[i];
    let of = s.of.as_str();
    if !names(&r.surfaces, of) && !names(&r.curves, of) {
        let mut l = chars_of("sample ");
        push_decimal(&mut l, i as u64);
        push_str(&mut l, " names unknown ");
        push_quoted(&mut l, of);
        push_problem(out, name, l);
    }
    let ghost mid = texts(out@);
    if i < x.samples.len() {
        let res = &x.samples[i];
        if !same_text(res.of.as_str(), of) || res.evaluations != s.evaluations
            || res.projections != s.projections {
            let mut l = chars_of("sample ");
            push_decimal(&mut l, i as u64);
            push_str(&mut l, " (");
            push_quoted(&mut l, of);
            push_str(&mut l, ") asks ");
            push_decimal(&mut l, s.evaluations as u64);
            push_str(&mut l, " evaluations and ");
            push_decimal(&mut l, s.projections as u64);
            push_str(&mut l, " projections; the result has ");
            push_decimal(&mut l, res.evaluations as u64);
            push_str(&mut l, " and ");
            push_decimal(&mut l, res.projections as u64);
            push_str(&mut l, " for ");
            push_quoted(&mut l, res.of.as_str());
            push_problem(out, name, l);
        }
    }
    assert(texts(out@) =~= base + sample_line(name@, *r, *x, i as int));
}

fn lint_pair(out: &mut Vec<String>, name: &str, r: &GeomShape, x: &GeomAnswer, i: usize)
    requires
        i < r.pairs@.len(),
    ensures
        texts(final(out)@) == texts(old(out)@) + pair_line(name@, *r, *x, i as int),
{
    let ghost base = texts(out@);
    let p = &r.pairs[i];
    let (a, b) = (p.a.as_str(), p.b.as_str());
    let two_curves = names(&r.curves, a) && names(&r.curves, b);
    let known_a = names(&r.surfaces, a) || names(&r.curves, a);
    if !(two_curves || known_a && names(&r.surfaces, b)) {
        let mut l = chars_of("pair ");
        push_decimal(&mut l, i as u64);
        push_str(&mut l, " (");
        push_quoted(&mut l, a);
        push_str(&mut l, ", ");
        push_quoted(&mut l, b);
        push_str(&mut l, ") is not a surface or curve against a surface, or two curves");
        push_problem(out, name, l);
    }
    if i < x.pairs.len() {
        let res = &x.pairs[i];
        if !same_text(res.a.as_str(), a) || !same_text(res.b.as_str(), b) {
            let mut l = chars_of("pair ");
            push_decimal(&mut l, i as u64);
            push_str(&mut l, " is (");
            push_quoted(&mut l, a);
            push_str(&mut l, ", ");
            push_quoted(&mut l, b);
            push_str(&mut l, ") but the result is (");
            push_quoted(&mut l, res.a.as_str());
            push_str(&mut l, ", ");
            push_quoted(&mut l, res.b.as_str());
            push_str(&mut l, ")");
            push_problem(out, name, l);
        }
    }
    assert(texts(out@) =~= base + pair_line(name@, *r, *x, i as int));
}

/// The corpus lint for a geometry fixture named `name` whose recipe
/// hashes to `recipe_sha256`: the oracle's answer is for this recipe and
/// of the geometry kind, every surface and curve builds and no name is
/// both, every sample and pair names a surface or curve of the recipe
/// (a pair: one against a surface, or two curves), and the answer has one
/// result per sample and pair with the counts the recipe asked for. One
/// line per problem, in that order.
pub fn lint(name: &str, recipe_sha256: &str, recipe: &GeomShape, expected: &GeomAnswer) -> (v: Vec<String>)
    ensures
        texts(v@) == lint_lines(name@, recipe_sha256@, *recipe, *expected),
{
    let mut out: Vec<String> = Vec::new();
    let r = recipe;
    let x = expected;
    if !same_text(x.recipe_sha256.as_str(), recipe_sha256) {
        let mut l = chars_of("expected.json is stale: recipe hash ");
        push_str(&mut l, x.recipe_sha256.as_str());
        push_str(&mut l, " but the recipe hashes to ");
        push_str(&mut l, recipe_sha256);
        push_str(&mut l, " — rerun tools/oracle/expected.py");
        push_problem(&mut out, name, l);
    }
    if !same_text(x.kind.as_str(), "geometry") {
        let mut l = chars_of("expected.json kind is ");
        push_quoted(&mut l, x.kind.as_str());
        push_str(&mut l, ", not \"geometry\"");
        push_problem(&mut out, name, l);
    }
    let ghost head = texts(out@);
    let mut k: usize = 0;
    while k < r.surfaces.len()
        invariant
            k <= r.surfaces@.len(),
            texts(out@) == head + surface_lines(name@, *r, k as int),
        decreases r.surfaces@.len() - k,
    {
        lint_surface(&mut out, name, r, k);
        k = k + 1;
    }
    let ghost head = texts(out@);
    let mut k: usize = 0;
    while k < r.curves.len()
        invariant
            k <= r.curves@.len(),
            texts(out@) == head + curve_lines(name@, *r, k as int),
        decreases r.curves@.len() - k,
    {
        lint_curve(&mut out, name, r, k);
        k = k + 1;
    }
    lint_count(&mut out, name, "samples", r.samples.len(), x.samples.len());
    let ghost head = texts(out@);
    let mut k: usize = 0;
    while k < r.samples.len()
        invariant
            k <= r.samples@.len(),
            texts(out@) == head + sample_lines(name@, *r, *x, k as int),
        decreases r.samples@.len() - k,
    {
        lint_sample(&mut out, name, r, x, k);
        k = k + 1;
    }
    lint_count(&mut out, name, "pairs", r.pairs.len(), x.pairs.len());
    let ghost head = texts(out@);
    let mut k: usize = 0;
    while k < r.pairs.len()
        invariant
            k <= r.pairs@.len(),
            texts(out@) == head + pair_lines(name@, *r, *x, k as int),
        decreases r.pairs@.len() - k,
    {
        lint_pair(&mut out, name, r, x, k);
        k = k + 1;
    }
    out
}

} // verus!
