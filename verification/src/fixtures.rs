//! The fixture corpus's small vocabulary: the two fixture kinds, a
//! probe's classification, a result's entity counts, and a fixture's
//! name from its directory.

use vstd::prelude::*;
use crate::corpus::joined;
use vstd::utf8::encode_utf8;
use crate::geometry::{debug_quoted, problem, push_problem, push_quoted, texts};
use crate::text::{bool_text, chars_of, decimal, push_bool, push_chars, push_decimal, push_signed, push_str, same_text, signed, string_of};

verus! {

/// The two fixture kinds: a solid built by a recipe and measured, or
/// analytic geometry evaluated, projected onto and intersected.
/// `fixture.json` names it in `"kind"`; absent means solid.
#[derive(Debug, Clone, Copy, PartialEq, Eq, Structural)]
pub enum Kind {
    /// A recipe of steps ending in a solid, with volume, area, counts and
    /// probes to compare.
    Solid,
    /// Named surfaces and curves with samples and pairs.
    Geometry,
}

/// The kind a `"kind"` value names: absent or `solid` is a solid,
/// `geometry` geometry; anything else is `Err` with the text found.
pub open spec fn kind_named(r: Result<Kind, String>, kind: Option<Seq<char>>) -> bool {
    match kind {
        None => r == Ok::<Kind, String>(Kind::Solid),
        Some(k) => if k == "solid"@ {
            r == Ok::<Kind, String>(Kind::Solid)
        } else if k == "geometry"@ {
            r == Ok::<Kind, String>(Kind::Geometry)
        } else {
            r matches Err(t) && t@ == k
        },
    }
}

/// The kind a fixture's `"kind"` names, given the string it holds there
/// (`None` where it holds none): absent or `"solid"` is
/// [`Kind::Solid`], `"geometry"` is [`Kind::Geometry`]; anything else is
/// `Err` with the string found, as the oracle also refuses it.
pub fn kind_of_raw(kind: Option<&str>) -> (r: Result<Kind, String>)
    ensures
        kind_named(
            r,
            match kind {
                Some(k) => Some(k@),
                None => None,
            },
        ),
{
    match kind {
        None => Ok(Kind::Solid),
        Some(k) => if same_text(k, "solid") {
            Ok(Kind::Solid)
        } else if same_text(k, "geometry") {
            Ok(Kind::Geometry)
        } else {
            Err(string_of(chars_of(k).as_slice()))
        },
    }
}

/// Where a point lies relative to a solid.
#[derive(Debug, Clone, Copy, PartialEq, Eq, Structural)]
pub enum Class {
    /// Strictly inside the material.
    In,
    /// Strictly outside.
    Out,
    /// On the boundary, within tolerance.
    On,
}

/// Entity counts of a result.
#[derive(Debug, Clone, Copy, PartialEq, Eq, Structural)]
pub struct Counts {
    /// Unique vertices.
    pub vertices: usize,
    /// Unique edges; a seam counts once.
    pub edges: usize,
    /// Faces.
    pub faces: usize,
    /// Loops (wires).
    pub loops: usize,
    /// Shells.
    pub shells: usize,
    /// Solids.
    pub solids: usize,
}

/// The count a result has of shells and of solids where a fixture does
/// not say.
pub fn one() -> (n: usize)
    ensures
        n == 1,
{
    1
}

/// The corpus root: `tests/fixtures/` two levels above the crate's
/// manifest directory `manifest_dir`.
pub fn corpus_root(manifest_dir: &str) -> (p: String)
    ensures
        p@ == joined(manifest_dir@, "../../tests/fixtures"@),
{
    let mut out = chars_of(manifest_dir);
    if out.len() > 0 && out[out.len() - 1] != '/' {
        out.push('/');
    }
    push_str(&mut out, "../../tests/fixtures");
    string_of(out.as_slice())
}

/// Where the first `/` of `t` is, or `t.len()`.
pub open spec fn slash_in(t: Seq<char>) -> nat
    decreases t.len(),
{
    if t.len() == 0 || t[0] == '/' {
        0
    } else {
        1 + slash_in(t.drop_first())
    }
}

/// `p` cut at every `/`, empty pieces kept.
pub open spec fn pieces(p: Seq<char>) -> Seq<Seq<char>>
    decreases p.len(),
{
    let e = slash_in(p) as int;
    if e < p.len() {
        seq![p.subrange(0, e)] + pieces(p.skip(e + 1))
    } else {
        seq![p]
    }
}

/// The pieces that are a path's normal components: neither empty nor
/// `.`.
pub open spec fn normal(ps: Seq<Seq<char>>) -> Seq<Seq<char>>
    decreases ps.len(),
{
    if ps.len() == 0 {
        Seq::empty()
    } else {
        normal(ps.drop_last()) + if ps.last().len() == 0 || ps.last() == "."@ {
            Seq::empty()
        } else {
            seq![ps.last()]
        }
    }
}

/// The components of a path, as `Path::components` yields them: the root
/// `/`, a leading `.`, and every other piece between slashes but the
/// empty ones and `.`.
pub open spec fn components(p: Seq<char>) -> Seq<Seq<char>> {
    if p.len() > 0 && p[0] == '/' {
        seq!["/"@] + normal(pieces(p))
    } else if p.len() > 0 && p[0] == '.' && (p.len() == 1 || p[1] == '/') {
        seq!["."@] + normal(pieces(p).drop_first())
    } else {
        normal(pieces(p))
    }
}

/// The last two of `cs` (all of them where there are fewer), joined by
/// `/`.
pub open spec fn last_two_joined(cs: Seq<Seq<char>>) -> Seq<char> {
    if cs.len() == 0 {
        Seq::empty()
    } else if cs.len() == 1 {
        cs[0]
    } else {
        cs[cs.len() - 2] + "/"@ + cs[cs.len() - 1]
    }
}

proof fn lemma_slash_in(t: Seq<char>, k: int)
    requires
        0 <= k <= t.len(),
        forall|j: int| 0 <= j < k ==> t[j] != '/',
        k == t.len() || t[k] == '/',
    ensures
        slash_in(t) == k,
    decreases k,
{
    if k > 0 {
        assert forall|j: int| 0 <= j < k - 1 implies t.drop_first()[j] != '/' by {
            assert(t.drop_first()[j] == t[j + 1]);
        }
        lemma_slash_in(t.drop_first(), k - 1);
    }
}

/// The pieces of `p[from..]`, each kept where it is a normal component,
/// pushed after `out`.
fn push_normal_pieces(p: &[char], from: usize, out: &mut Vec<Vec<char>>)
    requires
        from <= p@.len(),
    ensures
        final(out)@.map_values(|v: Vec<char>| v@) == old(out)@.map_values(|v: Vec<char>| v@) + normal(
            pieces(p@.skip(from as int)),
        ),
{
    let mut start = from;
    let ghost mut done: Seq<Seq<char>> = Seq::empty();
    let ghost base = out@.map_values(|v: Vec<char>| v@);
    assert(normal(pieces(p@.skip(from as int))) == normal(done + pieces(p@.skip(start as int))));
    loop
        invariant
            from <= start <= p@.len(),
            base == old(out)@.map_values(|v: Vec<char>| v@),
            out@.map_values(|v: Vec<char>| v@) == base + normal(done),
            pieces(p@.skip(from as int)) == done + pieces(p@.skip(start as int)),
        decreases p@.len() - start,
    {
        let mut e = start;
        while e < p.len() && p[e] != '/'
            invariant
                start <= e <= p@.len(),
                forall|j: int| start <= j < e ==> p@[j] != '/',
            decreases p@.len() - e,
        {
            e = e + 1;
        }
        let ghost t = p@.skip(start as int);
        proof {
            assert forall|j: int| 0 <= j < e - start implies t[j] != '/' by {
                assert(t[j] == p@[start + j]);
            }
            if e < p@.len() {
                assert(t[e - start] == p@[e as int]);
            }
            lemma_slash_in(t, e - start);
        }
        let mut piece: Vec<char> = Vec::new();
        let mut k = start;
        while k < e
            invariant
                start <= k <= e <= p@.len(),
                piece@ == p@.subrange(start as int, k as int),
            decreases e - k,
        {
            piece.push(p[k]);
            k = k + 1;
        }
        assert(piece@ =~= t.subrange(0, e - start));
        let keep = piece.len() > 0 && !(piece.len() == 1 && piece[0] == '.');
        proof {
            reveal_strlit(".");
            assert(keep == !(piece@.len() == 0 || piece@ == "."@)) by {
                if piece@.len() == 1 && piece@[0] == '.' {
                    assert(piece@ =~= "."@);
                }
            }
        }
        let ghost before = out@.map_values(|v: Vec<char>| v@);
        let ghost d0 = done;
        proof {
            done = done.push(piece@);
            assert(done.drop_last() =~= d0);
            assert(done.last() == piece@);
        }
        if keep {
            out.push(piece);
            assert(out@.map_values(|v: Vec<char>| v@) =~= before.push(done.last()));
            assert(normal(done) =~= normal(d0).push(done.last()));
        } else {
            assert(normal(done) =~= normal(d0));
        }
        if e < p.len() {
            assert(t.skip(e - start + 1) =~= p@.skip(e + 1));
            assert(pieces(t) == seq![t.subrange(0, e - start)] + pieces(p@.skip(e + 1)));
            assert(done + pieces(p@.skip(e + 1)) =~= d0 + pieces(t));
            start = e + 1;
        } else {
            assert(pieces(t) == seq![t]);
            assert(t =~= t.subrange(0, e - start));
            assert(done =~= d0 + pieces(t));
            assert(pieces(p@.skip(from as int)) == done);
            return;
        }
    }
}

/// `<area>/<slug>`: the last two components of a fixture directory.
pub fn name_of(dir: &str) -> (n: String)
    ensures
        n@ == last_two_joined(components(dir@)),
{
    let p = chars_of(dir);
    let mut cs: Vec<Vec<char>> = Vec::new();
    let ghost d = dir@;
    proof {
        reveal_strlit("/");
        reveal_strlit(".");
    }
    assert(p@.skip(0) =~= p@);
    if p.len() > 0 && p[0] == '/' {
        let mut root: Vec<char> = Vec::new();
        root.push('/');
        assert(root@ =~= "/"@);
        cs.push(root);
        assert(cs@.map_values(|v: Vec<char>| v@) =~= seq!["/"@]);
        push_normal_pieces(p.as_slice(), 0, &mut cs);
    } else if p.len() > 0 && p[0] == '.' && (p.len() == 1 || p[1] == '/') {
        let mut cur: Vec<char> = Vec::new();
        cur.push('.');
        assert(cur@ =~= "."@);
        cs.push(cur);
        assert(cs@.map_values(|v: Vec<char>| v@) =~= seq!["."@]);
        proof {
            let e = slash_in(p@) as int;
            if p@.len() == 1 {
                lemma_slash_in(p@, 1);
            } else {
                lemma_slash_in(p@, 1);
                assert(p@.skip(1).skip(1) =~= p@.skip(2));
            }
        }
        if p.len() == 1 {
            proof {
                assert(pieces(p@) == seq![p@]);
                assert(pieces(p@).drop_first() =~= Seq::<Seq<char>>::empty());
                assert(normal(Seq::<Seq<char>>::empty()) =~= Seq::<Seq<char>>::empty());
            }
        } else {
            proof {
                assert(pieces(p@) == seq![p@.subrange(0, 1)] + pieces(p@.skip(2)));
                assert(pieces(p@).drop_first() =~= pieces(p@.skip(2)));
            }
            push_normal_pieces(p.as_slice(), 2, &mut cs);
        }
    } else {
        push_normal_pieces(p.as_slice(), 0, &mut cs);
    }
    let ghost cv = cs@.map_values(|v: Vec<char>| v@);
    assert(cv == components(d));
    let n = cs.len();
    let mut out: Vec<char> = Vec::new();
    if n == 1 {
        push_chars(&mut out, cs[0].as_slice());
        assert(cv[0] == cs@[0]@);
    } else if n >= 2 {
        push_chars(&mut out, cs[n - 2].as_slice());
        push_str(&mut out, "/");
        push_chars(&mut out, cs[n - 1].as_slice());
        assert(cv[n - 2] == cs@[n - 2]@);
        assert(cv[n - 1] == cs@[n - 1]@);
    }
    string_of(out.as_slice())
}

} // verus!

verus! {

/// The area a failure shrunk to a fixture waits in until it passes:
/// outside the areas the runner compares, so it needs no dump, and
/// holding none.
pub const REGRESSION_AREA: &'static str = "regression";

/// What the lint reads of a solid recipe's `analytic` section: its flags
/// and counts, and which closed forms it states.
#[derive(Debug, Clone, PartialEq, Eq)]
pub struct AnalyticShape {
    /// The result has no volume.
    pub degenerate: bool,
    /// Arris refuses the result the oracle builds, with this error.
    pub expect_error: Option<crate::corpus::ExpectError>,
    /// Entity counts: the oracle's, or under `counts_differ` Arris's.
    pub counts: Option<Counts>,
    /// Whether `counts_differ` is set.
    pub counts_differ: bool,
    /// Whether `measure_differs` is set.
    pub measure_differs: bool,
    /// Whether a volume is stated.
    pub volume: bool,
    /// Whether an area is stated.
    pub area: bool,
    /// Whether a centroid is stated.
    pub centroid: bool,
    /// Whether an inertia tensor is stated.
    pub inertia: bool,
    /// Genus.
    pub genus: Option<i64>,
}

/// A probe of a recipe: its label, and the class it is expected at, if
/// the recipe says.
#[derive(Debug, Clone, PartialEq, Eq)]
pub struct ProbeShape {
    pub label: String,
    pub expect: Option<Class>,
}

/// What the lint reads of a solid recipe: its steps' names in order, the
/// step it names its result, its `analytic` section and its probes.
#[derive(Debug, Clone, PartialEq, Eq)]
pub struct RecipeShape {
    pub steps: Vec<String>,
    pub result: String,
    pub analytic: AnalyticShape,
    pub probes: Vec<ProbeShape>,
}

/// What the lint reads of the oracle's result for one variant.
#[derive(Debug, Clone, PartialEq, Eq)]
pub struct ResultShape {
    /// It records no solid.
    pub degenerate: bool,
    /// χ, where recorded.
    pub euler_characteristic: Option<i64>,
    /// Genus, where recorded.
    pub genus: Option<i64>,
    /// Entity counts.
    pub counts: Counts,
    /// Each probe's label and the class the oracle found, in its order.
    pub probes: Vec<(String, Class)>,
}

/// One variant of a solid recipe as the lint holds it: its name, the
/// oracle's result for it where `expected.json` has one, whether its dump
/// is committed, and what holding the closed forms to the oracle's
/// measurements found: the closed forms that do not evaluate, why, and
/// those that differ from the measurement, each as its line says it.
#[derive(Debug, Clone, PartialEq, Eq)]
pub struct VariantCheck {
    pub name: String,
    pub result: Option<ResultShape>,
    pub dump_committed: bool,
    pub eval_errors: Vec<String>,
    pub differs: Vec<String>,
}

/// `{:?}` of a probe class.
pub open spec fn class_debug(c: Class) -> Seq<char> {
    match c {
        Class::In => "In"@,
        Class::Out => "Out"@,
        Class::On => "On"@,
    }
}

/// `{:?}` of counts.
pub open spec fn counts_debug(c: Counts) -> Seq<char> {
    "Counts { vertices: "@ + decimal(c.vertices as nat) + ", edges: "@ + decimal(c.edges as nat) + ", faces: "@
        + decimal(c.faces as nat) + ", loops: "@ + decimal(c.loops as nat) + ", shells: "@ + decimal(
        c.shells as nat,
    ) + ", solids: "@ + decimal(c.solids as nat) + " }"@
}

/// The Euler–Poincaré characteristic of counts with inner loops:
/// χ = V − E + F − (L − F).
pub open spec fn characteristic(c: Counts) -> int {
    c.vertices - c.edges + c.faces - (c.loops - c.faces)
}

/// The Euler line at genus `g`: χ − 2(S − G), zero for a valid solid.
pub open spec fn at_genus(c: Counts, g: int) -> int {
    characteristic(c) - 2 * (c.shells - g)
}

/// The text of `s` before its first `/`; all of it where it has none.
pub open spec fn first_segment(s: Seq<char>) -> Seq<char>
    decreases s.len(),
{
    if s.len() == 0 {
        s
    } else if s[0] == '/' {
        Seq::empty()
    } else {
        seq![s[0]] + first_segment(s.drop_first())
    }
}

/// Whether a fixture's area is one the runner compares, whose fixtures
/// carry a blessed dump once they pass.
pub open spec fn dumped_area(area: Seq<char>) -> bool {
    ||| area == "primitive"@
    ||| area == "transform"@
    ||| area == "boolean"@
    ||| area == "sweep"@
    ||| area == "provenance"@
    ||| area == "blend"@
}

/// Whether two steps share a name.
pub open spec fn duplicate_names(steps: Seq<String>) -> bool {
    exists|i: int, j: int| 0 <= i < j < steps.len() && (#[trigger] steps[i])@ == (#[trigger] steps[j])@
}

/// Whether a step is named `n`.
pub open spec fn names_step(steps: Seq<String>, n: Seq<char>) -> bool {
    exists|i: int| 0 <= i < steps.len() && (#[trigger] steps[i])@ == n
}

/// The class the oracle found for `label`: the last result under it.
pub open spec fn oracle_class(probes: Seq<(String, Class)>, label: Seq<char>) -> Option<Class>
    decreases probes.len(),
{
    if probes.len() == 0 {
        None
    } else if probes.last().0@ == label {
        Some(probes.last().1)
    } else {
        oracle_class(probes.drop_last(), label)
    }
}

/// `s` joined with `sep` between each two.
pub open spec fn joined_with(s: Seq<Seq<char>>, sep: Seq<char>) -> Seq<char>
    decreases s.len(),
{
    if s.len() == 0 {
        Seq::empty()
    } else if s.len() == 1 {
        s[0]
    } else {
        joined_with(s.drop_last(), sep) + sep + s.last()
    }
}

/// The closed forms `measure_differs` needs that `a` does not state.
pub open spec fn missing_forms(a: AnalyticShape) -> Seq<Seq<char>> {
    (if a.volume { Seq::empty() } else { seq!["volume"@] }) + (if a.area { Seq::empty() } else { seq!["area"@] }) + (
    if a.centroid {
        Seq::empty()
    } else {
        seq!["centroid"@]
    }) + (if a.inertia { Seq::empty() } else { seq!["inertia"@] })
}

/// Whether `a` expects a result Arris builds.
pub open spec fn builds(a: AnalyticShape) -> bool {
    !a.degenerate && a.expect_error is None
}

/// The line of `a` both degenerate and refused.
pub open spec fn degenerate_flag_lines(name: Seq<char>, a: AnalyticShape) -> Seq<Seq<char>> {
    if a.degenerate && a.expect_error is Some {
        seq![problem(name, "analytic.degenerate and analytic.expect_error are both set"@)]
    } else {
        Seq::empty()
    }
}

/// The lines of `counts_differ` without what it needs.
pub open spec fn counts_flag_lines(name: Seq<char>, a: AnalyticShape) -> Seq<Seq<char>> {
    if a.counts_differ {
        (if a.counts is None {
            seq![problem(name, "analytic.counts_differ needs analytic.counts, Arris's"@)]
        } else {
            Seq::empty()
        }) + (if !builds(a) {
            seq![problem(name, "analytic.counts_differ needs a result Arris builds"@)]
        } else {
            Seq::empty()
        })
    } else {
        Seq::empty()
    }
}

/// The lines of `measure_differs` without what it needs.
pub open spec fn measure_flag_lines(name: Seq<char>, a: AnalyticShape) -> Seq<Seq<char>> {
    if a.measure_differs {
        (if missing_forms(a).len() > 0 {
            seq![
                problem(
                    name,
                    "analytic.measure_differs needs the closed forms it is held to: analytic."@ + joined_with(
                        missing_forms(a),
                        ", analytic."@,
                    ) + " missing"@,
                ),
            ]
        } else {
            Seq::empty()
        }) + (if !builds(a) {
            seq![problem(name, "analytic.measure_differs needs a result Arris builds"@)]
        } else {
            Seq::empty()
        })
    } else {
        Seq::empty()
    }
}

/// The lines of `a`'s flags that contradict each other.
pub open spec fn flag_lines(name: Seq<char>, a: AnalyticShape) -> Seq<Seq<char>> {
    degenerate_flag_lines(name, a) + counts_flag_lines(name, a) + measure_flag_lines(name, a)
}

/// `[variant] `, as a variant's lines begin.
pub open spec fn tag(variant: Seq<char>) -> Seq<char> {
    "["@ + variant + "] "@
}

/// The lines of each text of `v`, tagged with the variant.
pub open spec fn tagged(name: Seq<char>, variant: Seq<char>, v: Seq<String>) -> Seq<Seq<char>>
    decreases v.len(),
{
    if v.len() == 0 {
        Seq::empty()
    } else {
        tagged(name, variant, v.drop_last()) + seq![problem(name, tag(variant) + v.last()@)]
    }
}

/// The lines of the closed forms held to the oracle's measurements.
pub open spec fn measure_lines(name: Seq<char>, a: AnalyticShape, v: VariantCheck) -> Seq<Seq<char>> {
    tagged(name, v.name@, v.eval_errors@) + if !a.measure_differs {
        tagged(name, v.name@, v.differs@)
    } else if v.differs@.len() == 0 {
        seq![
            problem(
                name,
                tag(v.name@) + "analytic.measure_differs is set but every closed form is the oracle's measurement"@,
            ),
        ]
    } else {
        Seq::empty()
    }
}

/// The lines of the analytic counts held to the oracle's `c`.
pub open spec fn count_lines(name: Seq<char>, a: AnalyticShape, variant: Seq<char>, c: Counts) -> Seq<Seq<char>> {
    match a.counts {
        Some(ac) => (if !a.counts_differ && ac != c {
            seq![problem(name, tag(variant) + "analytic counts "@ + counts_debug(ac) + " vs oracle "@ + counts_debug(c))]
        } else {
            Seq::empty()
        }) + (if a.counts_differ && ac == c {
            seq![
                problem(
                    name,
                    tag(variant) + "analytic.counts_differ is set but the counts "@ + counts_debug(ac)
                        + " are the oracle's"@,
                ),
            ]
        } else {
            Seq::empty()
        }),
        None => Seq::empty(),
    }
}

/// The line of probe `p` against the oracle's results.
pub open spec fn probe_line(name: Seq<char>, variant: Seq<char>, p: ProbeShape, m: ResultShape) -> Seq<Seq<char>> {
    match (p.expect, oracle_class(m.probes@, p.label@)) {
        (_, None) => seq![problem(name, tag(variant) + "probe "@ + debug_quoted(p.label@) + " has no oracle result"@)],
        (Some(e), Some(o)) => if e != o {
            seq![
                problem(
                    name,
                    tag(variant) + "probe "@ + debug_quoted(p.label@) + " expected "@ + class_debug(e)
                        + ", oracle says "@ + class_debug(o),
                ),
            ]
        } else {
            Seq::empty()
        },
        _ => Seq::empty(),
    }
}

/// The lines of the probes `0..k`.
pub open spec fn probe_lines(name: Seq<char>, variant: Seq<char>, ps: Seq<ProbeShape>, m: ResultShape, k: int) -> Seq<
    Seq<char>,
>
    decreases k,
{
    if k <= 0 {
        Seq::empty()
    } else {
        probe_lines(name, variant, ps, m, k - 1) + probe_line(name, variant, ps[k - 1], m)
    }
}

/// The lines of the Euler line at the analytic genus `g`, the oracle's
/// being `genus`: under `counts_differ` the oracle's counts close at the
/// oracle's genus and Arris's at `g`.
pub open spec fn euler_lines(name: Seq<char>, a: AnalyticShape, variant: Seq<char>, c: Counts, g: i64, genus: i64) -> Seq<
    Seq<char>,
> {
    let at: int = if a.counts_differ { genus as int } else { g as int };
    (if at_genus(c, at) != 0 {
        seq![
            problem(
                name,
                tag(variant) + "Euler line is "@ + signed(at_genus(c, at)) + ", not 0: counts "@ + counts_debug(c)
                    + " with analytic genus "@ + signed(g as int) + " (oracle genus "@ + signed(genus as int) + ")"@,
            ),
        ]
    } else {
        Seq::empty()
    }) + match (a.counts_differ, a.counts) {
        (true, Some(ac)) => if at_genus(ac, g as int) != 0 {
            seq![
                problem(
                    name,
                    tag(variant) + "Euler line of Arris's counts is "@ + signed(at_genus(ac, g as int)) + ", not 0: "@
                        + counts_debug(ac) + " with analytic genus "@ + signed(g as int),
                ),
            ]
        } else {
            Seq::empty()
        },
        _ => Seq::empty(),
    }
}

/// The lines that follow the genus: the closed forms, the counts, the
/// probes.
pub open spec fn tail_lines(name: Seq<char>, r: RecipeShape, v: VariantCheck, m: ResultShape) -> Seq<Seq<char>> {
    measure_lines(name, r.analytic, v) + count_lines(name, r.analytic, v.name@, m.counts) + probe_lines(
        name,
        v.name@,
        r.probes@,
        m,
        r.probes@.len() as int,
    )
}

/// Whether `a` expects a non-manifold result, which closes no Euler line.
pub open spec fn non_manifold(a: AnalyticShape) -> bool {
    a.expect_error == Some(crate::corpus::ExpectError::NonManifold) || a.expect_error == Some(
        crate::corpus::ExpectError::TangentContact,
    )
}

/// The lines of a variant whose result is a solid with χ recorded.
pub open spec fn genus_lines(name: Seq<char>, r: RecipeShape, v: VariantCheck, m: ResultShape) -> Seq<Seq<char>> {
    let a = r.analytic;
    match m.genus {
        Some(genus) => (match a.genus {
            Some(g) => euler_lines(name, a, v.name@, m.counts, g, genus),
            None => Seq::empty(),
        }) + tail_lines(name, r, v, m),
        None => if non_manifold(a) {
            (if a.genus is Some {
                seq![
                    problem(
                        name,
                        tag(v.name@) + "analytic.genus is set for a non-manifold result, which has none"@,
                    ),
                ]
            } else {
                Seq::empty()
            }) + tail_lines(name, r, v, m)
        } else {
            seq![problem(name, tag(v.name@) + "expected.json lacks genus"@)]
        },
    }
}

/// The lines of a variant whose result the oracle recorded.
pub open spec fn result_lines(name: Seq<char>, dumped: bool, r: RecipeShape, v: VariantCheck, m: ResultShape) -> Seq<
    Seq<char>,
> {
    let a = r.analytic;
    if a.degenerate != m.degenerate {
        seq![
            problem(
                name,
                tag(v.name@) + "analytic.degenerate "@ + bool_text(a.degenerate) + " but the oracle says "@ + bool_text(
                    m.degenerate,
                ),
            ),
        ]
    } else if m.degenerate {
        Seq::empty()
    } else {
        (if dumped && a.expect_error is None && !v.dump_committed {
            seq![
                problem(
                    name,
                    tag(v.name@) + crate::corpus::dump_name(v.name@)
                        + " is not committed: a fixture the runner compares carries its blessed dump (ARRIS_BLESS=1), so an #[ignore]d one fails here"@,
                ),
            ]
        } else {
            Seq::empty()
        }) + match m.euler_characteristic {
            None => seq![problem(name, tag(v.name@) + "expected.json lacks euler_characteristic"@)],
            Some(chi) => (if chi != characteristic(m.counts) {
                seq![
                    problem(
                        name,
                        tag(v.name@) + "euler_characteristic "@ + signed(chi as int) + " does not match the counts ("@
                            + signed(characteristic(m.counts)) + ")"@,
                    ),
                ]
            } else {
                Seq::empty()
            }) + genus_lines(name, r, v, m),
        }
    }
}

/// The lines of one variant.
pub open spec fn variant_lines(name: Seq<char>, area: Seq<char>, r: RecipeShape, v: VariantCheck) -> Seq<Seq<char>> {
    match v.result {
        None => seq![problem(name, "variant "@ + debug_quoted(v.name@) + " has no result in expected.json"@)],
        Some(m) => (if area == REGRESSION_AREA@ && v.dump_committed {
            seq![
                problem(
                    name,
                    tag(v.name@) + crate::corpus::dump_name(v.name@) + " is committed under "@ + REGRESSION_AREA@
                        + "/: the fixture passes, so it moves into its area with its test renamed"@,
                ),
            ]
        } else {
            Seq::empty()
        }) + flag_lines(name, r.analytic) + result_lines(name, dumped_area(area), r, v, m),
    }
}

/// The lines of the variants `0..k`.
pub open spec fn variants_lines(name: Seq<char>, area: Seq<char>, r: RecipeShape, vs: Seq<VariantCheck>, k: int) -> Seq<
    Seq<char>,
>
    decreases k,
{
    if k <= 0 {
        Seq::empty()
    } else {
        variants_lines(name, area, r, vs, k - 1) + variant_lines(name, area, r, vs[k - 1])
    }
}

/// Every problem of a solid fixture, in the order the lint finds them.
pub open spec fn solid_lint_lines(
    name: Seq<char>,
    hash: Seq<char>,
    answered_hash: Seq<char>,
    r: RecipeShape,
    vs: Seq<VariantCheck>,
) -> Seq<Seq<char>> {
    (if answered_hash != hash {
        seq![
            problem(
                name,
                "expected.json is stale: recipe hash "@ + answered_hash + " but the recipe hashes to "@ + hash
                    + " — rerun tools/oracle/expected.py"@,
            ),
        ]
    } else {
        Seq::empty()
    }) + (if duplicate_names(r.steps@) {
        seq![problem(name, "duplicate step names"@)]
    } else {
        Seq::empty()
    }) + (if !names_step(r.steps@, r.result@) {
        seq![problem(name, "result "@ + debug_quoted(r.result@) + " is not a step"@)]
    } else {
        Seq::empty()
    }) + variants_lines(name, first_segment(name), r, vs, vs.len() as int)
}

} // verus!

verus! {

/// Whether `area` is one the runner compares.
fn dumped(area: &str) -> (r: bool)
    ensures
        r == dumped_area(area@),
{
    same_text(area, "primitive") || same_text(area, "transform") || same_text(area, "boolean") || same_text(area, "sweep")
        || same_text(area, "provenance") || same_text(area, "blend")
}

/// `first_segment` is the text before the first `/`.
proof fn lemma_first_segment(s: Seq<char>, k: int)
    requires
        0 <= k <= s.len(),
        forall|i: int| 0 <= i < k ==> s[i] != '/',
        k == s.len() || s[k] == '/',
    ensures
        first_segment(s) == s.take(k),
    decreases k,
{
    if k == 0 {
        assert(s.take(0) =~= Seq::<char>::empty());
    } else {
        lemma_first_segment(s.drop_first(), k - 1);
        assert(s.take(k) =~= seq![s[0]] + s.drop_first().take(k - 1));
    }
}

/// The text of `s` before its first `/`.
pub(crate) fn first_segment_of(s: &str) -> (r: Vec<char>)
    ensures
        r@ == first_segment(s@),
{
    let cs = chars_of(s);
    let mut k: usize = 0;
    while k < cs.len() && cs[k] != '/'
        invariant
            k <= cs@.len(),
            forall|i: int| 0 <= i < k ==> cs@[i] != '/',
        decreases cs@.len() - k,
    {
        k = k + 1;
    }
    proof {
        lemma_first_segment(cs@, k as int);
    }
    let mut out: Vec<char> = Vec::new();
    let mut j: usize = 0;
    while j < k
        invariant
            j <= k <= cs@.len(),
            out@ == cs@.take(j as int),
        decreases k - j,
    {
        out.push(cs[j]);
        assert(cs@.take(j + 1) =~= cs@.take(j as int).push(cs@[j as int]));
        j = j + 1;
    }
    out
}

/// Whether two of `steps` share a name.
fn has_duplicates(steps: &Vec<String>) -> (r: bool)
    ensures
        r == duplicate_names(steps@),
{
    let mut j: usize = 0;
    while j < steps.len()
        invariant
            j <= steps@.len(),
            forall|a: int, b: int| 0 <= a < b < j ==> (#[trigger] steps@[a])@ != (#[trigger] steps@[b])@,
        decreases steps@.len() - j,
    {
        let mut i: usize = 0;
        while i < j
            invariant
                i <= j < steps@.len(),
                forall|a: int| 0 <= a < i ==> (#[trigger] steps@[a])@ != steps@[j as int]@,
            decreases j - i,
        {
            if same_text(steps[i].as_str(), steps[j].as_str()) {
                return true;
            }
            i = i + 1;
        }
        j = j + 1;
    }
    false
}

/// Whether one of `steps` is named `n`.
fn step_named(steps: &Vec<String>, n: &str) -> (r: bool)
    ensures
        r == names_step(steps@, n@),
{
    let mut i: usize = 0;
    while i < steps.len()
        invariant
            i <= steps@.len(),
            forall|a: int| 0 <= a < i ==> (#[trigger] steps@[a])@ != n@,
        decreases steps@.len() - i,
    {
        if same_text(steps[i].as_str(), n) {
            return true;
        }
        i = i + 1;
    }
    false
}

/// The class the oracle found for `label`, computed.
fn oracle_class_of(probes: &Vec<(String, Class)>, label: &str) -> (r: Option<Class>)
    ensures
        r == oracle_class(probes@, label@),
{
    let mut k: usize = probes.len();
    assert(probes@.take(k as int) =~= probes@);
    while k > 0
        invariant
            k <= probes@.len(),
            oracle_class(probes@, label@) == oracle_class(probes@.take(k as int), label@),
        decreases k,
    {
        let t = Ghost(probes@.take(k as int));
        assert(t@.last() == probes@[k - 1]);
        assert(t@.drop_last() =~= probes@.take(k - 1));
        if same_text(probes[k - 1].0.as_str(), label) {
            return Some(probes[k - 1].1);
        }
        k = k - 1;
    }
    None
}

fn push_class_debug(l: &mut Vec<char>, c: Class)
    ensures
        final(l)@ == old(l)@ + class_debug(c),
{
    match c {
        Class::In => push_str(l, "In"),
        Class::Out => push_str(l, "Out"),
        Class::On => push_str(l, "On"),
    }
}

fn push_counts_debug(l: &mut Vec<char>, c: Counts)
    ensures
        final(l)@ == old(l)@ + counts_debug(c),
{
    let ghost start = l@;
    push_str(l, "Counts { vertices: ");
    push_decimal(l, c.vertices as u64);
    push_str(l, ", edges: ");
    push_decimal(l, c.edges as u64);
    push_str(l, ", faces: ");
    push_decimal(l, c.faces as u64);
    push_str(l, ", loops: ");
    push_decimal(l, c.loops as u64);
    push_str(l, ", shells: ");
    push_decimal(l, c.shells as u64);
    push_str(l, ", solids: ");
    push_decimal(l, c.solids as u64);
    push_str(l, " }");
    assert(l@ =~= start + counts_debug(c));
}

/// χ of counts, computed.
fn characteristic_of(c: Counts) -> (x: i128)
    ensures
        x == characteristic(c),
{
    c.vertices as i128 - c.edges as i128 + c.faces as i128 - (c.loops as i128 - c.faces as i128)
}

/// The Euler line at genus `g`, computed.
fn at_genus_of(c: Counts, g: i64) -> (x: i128)
    ensures
        x == at_genus(c, g as int),
{
    characteristic_of(c) - 2 * (c.shells as i128 - g as i128)
}

/// Starts a line of `variant`: `[variant] `.
fn tagged_line(variant: &str) -> (l: Vec<char>)
    ensures
        l@ == tag(variant@),
{
    let mut l = chars_of("[");
    push_str(&mut l, variant);
    push_str(&mut l, "] ");
    l
}

} // verus!

verus! {

/// The closed forms `measure_differs` needs that `a` does not state,
/// computed.
fn missing_of(a: &AnalyticShape) -> (v: Vec<&'static str>)
    ensures
        v@.map_values(|t: &str| t@) == missing_forms(*a),
{
    let mut missing: Vec<&'static str> = Vec::new();
    if !a.volume {
        missing.push("volume");
    }
    if !a.area {
        missing.push("area");
    }
    if !a.centroid {
        missing.push("centroid");
    }
    if !a.inertia {
        missing.push("inertia");
    }
    assert(missing@.map_values(|t: &str| t@) =~= missing_forms(*a));
    missing
}

/// `v` joined with `, analytic.`, appended to `l`.
fn push_joined(l: &mut Vec<char>, v: &Vec<&'static str>)
    ensures
        final(l)@ == old(l)@ + joined_with(v@.map_values(|t: &str| t@), ", analytic."@),
{
    let ghost at = l@;
    let ghost ms = v@.map_values(|t: &str| t@);
    let mut i: usize = 0;
    assert(ms.take(0) =~= Seq::<Seq<char>>::empty());
    while i < v.len()
        invariant
            i <= v@.len(),
            ms == v@.map_values(|t: &str| t@),
            l@ == at + joined_with(ms.take(i as int), ", analytic."@),
        decreases v@.len() - i,
    {
        if i > 0 {
            push_str(l, ", analytic.");
        }
        push_str(l, v[i]);
        proof {
            assert(ms.take(i + 1).drop_last() =~= ms.take(i as int));
            assert(ms.take(i + 1).last() == v@[i as int]@);
        }
        i = i + 1;
    }
    assert(ms.take(v@.len() as int) =~= ms);
}

fn lint_measure_flags(out: &mut Vec<String>, name: &str, a: &AnalyticShape)
    ensures
        texts(final(out)@) == texts(old(out)@) + measure_flag_lines(name@, *a),
{
    let ghost base = texts(out@);
    if a.measure_differs {
        let missing = missing_of(a);
        if missing.len() > 0 {
            let mut l = chars_of("analytic.measure_differs needs the closed forms it is held to: analytic.");
            push_joined(&mut l, &missing);
            push_str(&mut l, " missing");
            push_problem(out, name, l);
        }
        if a.degenerate || a.expect_error.is_some() {
            push_problem(out, name, chars_of("analytic.measure_differs needs a result Arris builds"));
        }
    }
    assert(texts(out@) =~= base + measure_flag_lines(name@, *a));
}

fn lint_counts_flags(out: &mut Vec<String>, name: &str, a: &AnalyticShape)
    ensures
        texts(final(out)@) == texts(old(out)@) + counts_flag_lines(name@, *a),
{
    let ghost base = texts(out@);
    if a.counts_differ {
        if a.counts.is_none() {
            push_problem(out, name, chars_of("analytic.counts_differ needs analytic.counts, Arris's"));
        }
        if a.degenerate || a.expect_error.is_some() {
            push_problem(out, name, chars_of("analytic.counts_differ needs a result Arris builds"));
        }
    }
    assert(texts(out@) =~= base + counts_flag_lines(name@, *a));
}

fn lint_flags(out: &mut Vec<String>, name: &str, a: &AnalyticShape)
    ensures
        texts(final(out)@) == texts(old(out)@) + flag_lines(name@, *a),
{
    let ghost base = texts(out@);
    if a.degenerate && a.expect_error.is_some() {
        push_problem(out, name, chars_of("analytic.degenerate and analytic.expect_error are both set"));
    }
    assert(texts(out@) =~= base + degenerate_flag_lines(name@, *a));
    lint_counts_flags(out, name, a);
    lint_measure_flags(out, name, a);
    assert(texts(out@) =~= base + flag_lines(name@, *a));
}

fn lint_tagged(out: &mut Vec<String>, name: &str, variant: &str, v: &Vec<String>)
    ensures
        texts(final(out)@) == texts(old(out)@) + tagged(name@, variant@, v@),
{
    let ghost base = texts(out@);
    let mut i: usize = 0;
    assert(v@.take(0) =~= Seq::<String>::empty());
    while i < v.len()
        invariant
            i <= v@.len(),
            texts(out@) == base + tagged(name@, variant@, v@.take(i as int)),
        decreases v@.len() - i,
    {
        let mut l = tagged_line(variant);
        push_str(&mut l, v[i].as_str());
        push_problem(out, name, l);
        assert(v@.take(i + 1).drop_last() =~= v@.take(i as int));
        i = i + 1;
    }
    assert(v@.take(v@.len() as int) =~= v@);
}

fn lint_measure(out: &mut Vec<String>, name: &str, a: &AnalyticShape, v: &VariantCheck)
    ensures
        texts(final(out)@) == texts(old(out)@) + measure_lines(name@, *a, *v),
{
    let ghost base = texts(out@);
    let variant = v.name.as_str();
    lint_tagged(out, name, variant, &v.eval_errors);
    if !a.measure_differs {
        lint_tagged(out, name, variant, &v.differs);
    } else if v.differs.len() == 0 {
        let mut l = tagged_line(variant);
        push_str(&mut l, "analytic.measure_differs is set but every closed form is the oracle's measurement");
        push_problem(out, name, l);
    }
    assert(texts(out@) =~= base + measure_lines(name@, *a, *v));
}

fn lint_counts(out: &mut Vec<String>, name: &str, a: &AnalyticShape, variant: &str, c: Counts)
    ensures
        texts(final(out)@) == texts(old(out)@) + count_lines(name@, *a, variant@, c),
{
    let ghost base = texts(out@);
    if let Some(ac) = a.counts {
        if !a.counts_differ && ac != c {
            let mut l = tagged_line(variant);
            push_str(&mut l, "analytic counts ");
            push_counts_debug(&mut l, ac);
            push_str(&mut l, " vs oracle ");
            push_counts_debug(&mut l, c);
            push_problem(out, name, l);
        }
        if a.counts_differ && ac == c {
            let mut l = tagged_line(variant);
            push_str(&mut l, "analytic.counts_differ is set but the counts ");
            push_counts_debug(&mut l, ac);
            push_str(&mut l, " are the oracle's");
            push_problem(out, name, l);
        }
    }
    assert(texts(out@) =~= base + count_lines(name@, *a, variant@, c));
}

fn lint_probe(out: &mut Vec<String>, name: &str, variant: &str, p: &ProbeShape, m: &ResultShape)
    ensures
        texts(final(out)@) == texts(old(out)@) + probe_line(name@, variant@, *p, *m),
{
    let ghost base = texts(out@);
    match (p.expect, oracle_class_of(&m.probes, p.label.as_str())) {
        (_, None) => {
            let mut l = tagged_line(variant);
            push_str(&mut l, "probe ");
            push_quoted(&mut l, p.label.as_str());
            push_str(&mut l, " has no oracle result");
            push_problem(out, name, l);
        },
        (Some(e), Some(o)) => {
            if e != o {
                let mut l = tagged_line(variant);
                push_str(&mut l, "probe ");
                push_quoted(&mut l, p.label.as_str());
                push_str(&mut l, " expected ");
                push_class_debug(&mut l, e);
                push_str(&mut l, ", oracle says ");
                push_class_debug(&mut l, o);
                push_problem(out, name, l);
            }
        },
        _ => {},
    }
    assert(texts(out@) =~= base + probe_line(name@, variant@, *p, *m));
}

fn lint_probes(out: &mut Vec<String>, name: &str, variant: &str, ps: &Vec<ProbeShape>, m: &ResultShape)
    ensures
        texts(final(out)@) == texts(old(out)@) + probe_lines(name@, variant@, ps@, *m, ps@.len() as int),
{
    let ghost base = texts(out@);
    let mut k: usize = 0;
    while k < ps.len()
        invariant
            k <= ps@.len(),
            texts(out@) == base + probe_lines(name@, variant@, ps@, *m, k as int),
        decreases ps@.len() - k,
    {
        lint_probe(out, name, variant, &ps[k], m);
        k = k + 1;
    }
}

fn lint_euler(out: &mut Vec<String>, name: &str, a: &AnalyticShape, variant: &str, c: Counts, g: i64, genus: i64)
    ensures
        texts(final(out)@) == texts(old(out)@) + euler_lines(name@, *a, variant@, c, g, genus),
{
    let ghost base = texts(out@);
    let at = if a.counts_differ { genus } else { g };
    let line = at_genus_of(c, at);
    if line != 0 {
        let mut l = tagged_line(variant);
        push_str(&mut l, "Euler line is ");
        push_signed(&mut l, line);
        push_str(&mut l, ", not 0: counts ");
        push_counts_debug(&mut l, c);
        push_str(&mut l, " with analytic genus ");
        push_signed(&mut l, g as i128);
        push_str(&mut l, " (oracle genus ");
        push_signed(&mut l, genus as i128);
        push_str(&mut l, ")");
        push_problem(out, name, l);
    }
    if a.counts_differ {
        if let Some(ac) = a.counts {
            let line = at_genus_of(ac, g);
            if line != 0 {
                let mut l = tagged_line(variant);
                push_str(&mut l, "Euler line of Arris's counts is ");
                push_signed(&mut l, line);
                push_str(&mut l, ", not 0: ");
                push_counts_debug(&mut l, ac);
                push_str(&mut l, " with analytic genus ");
                push_signed(&mut l, g as i128);
                push_problem(out, name, l);
            }
        }
    }
    assert(texts(out@) =~= base + euler_lines(name@, *a, variant@, c, g, genus));
}

fn lint_tail(out: &mut Vec<String>, name: &str, r: &RecipeShape, v: &VariantCheck, m: &ResultShape)
    ensures
        texts(final(out)@) == texts(old(out)@) + tail_lines(name@, *r, *v, *m),
{
    let ghost base = texts(out@);
    lint_measure(out, name, &r.analytic, v);
    lint_counts(out, name, &r.analytic, v.name.as_str(), m.counts);
    lint_probes(out, name, v.name.as_str(), &r.probes, m);
    assert(texts(out@) =~= base + tail_lines(name@, *r, *v, *m));
}

fn lint_genus(out: &mut Vec<String>, name: &str, r: &RecipeShape, v: &VariantCheck, m: &ResultShape)
    ensures
        texts(final(out)@) == texts(old(out)@) + genus_lines(name@, *r, *v, *m),
{
    let ghost base = texts(out@);
    let a = &r.analytic;
    let variant = v.name.as_str();
    match m.genus {
        Some(genus) => {
            if let Some(g) = a.genus {
                lint_euler(out, name, a, variant, m.counts, g, genus);
            }
            lint_tail(out, name, r, v, m);
        },
        None => {
            let non_manifold_result = match a.expect_error {
                Some(crate::corpus::ExpectError::NonManifold) | Some(crate::corpus::ExpectError::TangentContact) => true,
                _ => false,
            };
            if non_manifold_result {
                if a.genus.is_some() {
                    let mut l = tagged_line(variant);
                    push_str(&mut l, "analytic.genus is set for a non-manifold result, which has none");
                    push_problem(out, name, l);
                }
                lint_tail(out, name, r, v, m);
            } else {
                let mut l = tagged_line(variant);
                push_str(&mut l, "expected.json lacks genus");
                push_problem(out, name, l);
            }
        },
    }
    assert(texts(out@) =~= base + genus_lines(name@, *r, *v, *m));
}

fn lint_result(out: &mut Vec<String>, name: &str, dumped_here: bool, r: &RecipeShape, v: &VariantCheck, m: &ResultShape)
    ensures
        texts(final(out)@) == texts(old(out)@) + result_lines(name@, dumped_here, *r, *v, *m),
{
    let ghost base = texts(out@);
    let a = &r.analytic;
    let variant = v.name.as_str();
    if a.degenerate != m.degenerate {
        let mut l = tagged_line(variant);
        push_str(&mut l, "analytic.degenerate ");
        push_bool(&mut l, a.degenerate);
        push_str(&mut l, " but the oracle says ");
        push_bool(&mut l, m.degenerate);
        push_problem(out, name, l);
    } else if !m.degenerate {
        if dumped_here && a.expect_error.is_none() && !v.dump_committed {
            let mut l = tagged_line(variant);
            let file = crate::corpus::dump_file_name(variant);
            push_str(&mut l, file.as_str());
            push_str(
                &mut l,
                " is not committed: a fixture the runner compares carries its blessed dump (ARRIS_BLESS=1), so an #[ignore]d one fails here",
            );
            push_problem(out, name, l);
        }
        match m.euler_characteristic {
            None => {
                let mut l = tagged_line(variant);
                push_str(&mut l, "expected.json lacks euler_characteristic");
                push_problem(out, name, l);
            },
            Some(chi) => {
                let counted = characteristic_of(m.counts);
                if chi as i128 != counted {
                    let mut l = tagged_line(variant);
                    push_str(&mut l, "euler_characteristic ");
                    push_signed(&mut l, chi as i128);
                    push_str(&mut l, " does not match the counts (");
                    push_signed(&mut l, counted);
                    push_str(&mut l, ")");
                    push_problem(out, name, l);
                }
                lint_genus(out, name, r, v, m);
            },
        }
    }
    assert(texts(out@) =~= base + result_lines(name@, dumped_here, *r, *v, *m));
}

fn lint_variant(out: &mut Vec<String>, name: &str, area: &str, r: &RecipeShape, v: &VariantCheck)
    ensures
        texts(final(out)@) == texts(old(out)@) + variant_lines(name@, area@, *r, *v),
{
    let ghost base = texts(out@);
    let variant = v.name.as_str();
    match &v.result {
        None => {
            let mut l = chars_of("variant ");
            push_quoted(&mut l, variant);
            push_str(&mut l, " has no result in expected.json");
            push_problem(out, name, l);
        },
        Some(m) => {
            if same_text(area, REGRESSION_AREA) && v.dump_committed {
                let mut l = tagged_line(variant);
                let file = crate::corpus::dump_file_name(variant);
                push_str(&mut l, file.as_str());
                push_str(&mut l, " is committed under ");
                push_str(&mut l, REGRESSION_AREA);
                push_str(&mut l, "/: the fixture passes, so it moves into its area with its test renamed");
                push_problem(out, name, l);
            }
            lint_flags(out, name, &r.analytic);
            lint_result(out, name, dumped(area), r, v, m);
        },
    }
    assert(texts(out@) =~= base + variant_lines(name@, area@, *r, *v));
}

/// The corpus lint for a solid fixture named `name`, whose recipe
/// hashes to `recipe_sha256` and whose `expected.json` answered the
/// recipe hashing to `answered_sha256`: the answer is for this recipe,
/// no two steps share a name, the result is a step, and for each variant
/// of `variants`, in the recipe's order: the oracle has a result; a
/// fixture under the regression area has no committed dump; the
/// `analytic` flags agree with each other; the degeneracy is the
/// oracle's; a fixture the runner compares has its dump committed;
/// χ is recorded and the counts' own; the genus is recorded but for a
/// non-manifold result; the Euler line is zero; the closed forms that do
/// not evaluate, and those that differ but under `measure_differs`,
/// where at least one must; the counts are the oracle's, or under
/// `counts_differ` differ from them; and every probe has the oracle's
/// class it expects. One line per problem, in that order.
pub fn lint(
    name: &str,
    recipe_sha256: &str,
    answered_sha256: &str,
    recipe: &RecipeShape,
    variants: &Vec<VariantCheck>,
) -> (v: Vec<String>)
    ensures
        texts(v@) == solid_lint_lines(name@, recipe_sha256@, answered_sha256@, *recipe, variants@),
{
    let mut out: Vec<String> = Vec::new();
    if !same_text(answered_sha256, recipe_sha256) {
        let mut l = chars_of("expected.json is stale: recipe hash ");
        push_str(&mut l, answered_sha256);
        push_str(&mut l, " but the recipe hashes to ");
        push_str(&mut l, recipe_sha256);
        push_str(&mut l, " — rerun tools/oracle/expected.py");
        push_problem(&mut out, name, l);
    }
    if has_duplicates(&recipe.steps) {
        push_problem(&mut out, name, chars_of("duplicate step names"));
    }
    if !step_named(&recipe.steps, recipe.result.as_str()) {
        let mut l = chars_of("result ");
        push_quoted(&mut l, recipe.result.as_str());
        push_str(&mut l, " is not a step");
        push_problem(&mut out, name, l);
    }
    let area_chars = first_segment_of(name);
    let area = string_of(area_chars.as_slice());
    let ghost head = texts(out@);
    let mut k: usize = 0;
    while k < variants.len()
        invariant
            k <= variants@.len(),
            area@ == first_segment(name@),
            texts(out@) == head + variants_lines(name@, first_segment(name@), *recipe, variants@, k as int),
        decreases variants@.len() - k,
    {
        lint_variant(&mut out, name, area.as_str(), recipe, &variants[k]);
        k = k + 1;
    }
    out
}

} // verus!

verus! {

/// The keys of a recipe the oracle evaluates and hashes, by its kind,
/// in the sorted order the hashed text writes them.
pub open spec fn recipe_keys_of(kind: Kind) -> Seq<Seq<char>> {
    match kind {
        Kind::Solid => seq!["params"@, "probes"@, "result"@, "steps"@, "variants"@],
        Kind::Geometry => seq!["curves"@, "kind"@, "pairs"@, "params"@, "samples"@, "surfaces"@],
    }
}

/// The keys of a recipe the oracle evaluates and hashes, sorted: for a
/// solid its params, probes, result, steps and variants; for geometry
/// its curves, kind, pairs, params, samples and surfaces. Editing a
/// fixture's description or its `analytic` section leaves its hash.
pub fn recipe_keys(kind: Kind) -> (keys: Vec<&'static str>)
    ensures
        keys@.map_values(|k: &str| k@) == recipe_keys_of(kind),
{
    let keys = match kind {
        Kind::Solid => vec!["params", "probes", "result", "steps", "variants"],
        Kind::Geometry => vec!["curves", "kind", "pairs", "params", "samples", "surfaces"],
    };
    assert(keys@.map_values(|k: &str| k@) =~= recipe_keys_of(kind));
    keys
}

/// A fixture's description and its `analytic` section are never among
/// the keys hashed: editing them leaves the recipe hash as it was.
pub proof fn lemma_hash_ignores_analytic_and_description(kind: Kind)
    ensures
        !recipe_keys_of(kind).contains("analytic"@),
        !recipe_keys_of(kind).contains("description"@),
{
    reveal_strlit("analytic");
    reveal_strlit("description");
    reveal_strlit("params");
    reveal_strlit("variants");
    reveal_strlit("steps");
    reveal_strlit("result");
    reveal_strlit("probes");
    reveal_strlit("kind");
    reveal_strlit("surfaces");
    reveal_strlit("curves");
    reveal_strlit("samples");
    reveal_strlit("pairs");
    let ks = recipe_keys_of(kind);
    assert forall|i: int| 0 <= i < ks.len() implies ks[i] != "analytic"@ && ks[i] != "description"@ by {
        assert(ks[i].len() != 8 || ks[i][0] != 'a');
        assert(ks[i].len() != 11 || ks[i][0] != 'd');
    }
}

/// What `serde_json` makes of the text `raw` under `key`: `None` where
/// `raw` is no JSON; `Some(None)` where it holds no value under `key`;
/// otherwise the value as `Value::to_string` writes it, compact.
pub uninterp spec fn json_field_text(raw: Seq<char>, key: Seq<char>) -> Option<Option<Seq<char>>>;

/// `serde_json::from_str::<Value>`, then `Value::get` and
/// `Value::to_string`: the compact JSON of the value `raw` holds under
/// `key`. Claimed: the result is the one named [`json_field_text`] for
/// this text and key.
#[verifier::external_body]
pub(crate) fn json_field(raw: &str, key: &str) -> (r: Option<Option<String>>)
    ensures
        match json_field_text(raw@, key@) {
            None => r is None,
            Some(None) => r == Some(None::<String>),
            Some(Some(t)) => r matches Some(Some(s)) && s@ == t,
        },
{
    match serde_json::from_str::<serde_json::Value>(raw) {
        Ok(v) => match v.get(key) {
            Some(x) => Some(Some(x.to_string())),
            None => Some(None),
        },
        Err(_) => None,
    }
}

/// What `serde_json` makes of the text `raw` under `key` as a string:
/// `None` where `raw` is no JSON; `Some(None)` where it holds no string
/// under `key`; otherwise the string.
pub uninterp spec fn json_string_text(raw: Seq<char>, key: Seq<char>) -> Option<Option<Seq<char>>>;

/// `serde_json::from_str::<Value>`, then `Value::get` and
/// `Value::as_str`: the string `raw` holds under `key`. Claimed: the
/// result is the one named [`json_string_text`] for this text and key.
#[verifier::external_body]
pub(crate) fn json_string(raw: &str, key: &str) -> (r: Option<Option<String>>)
    ensures
        match json_string_text(raw@, key@) {
            None => r is None,
            Some(None) => r == Some(None::<String>),
            Some(Some(t)) => r matches Some(Some(s)) && s@ == t,
        },
{
    match serde_json::from_str::<serde_json::Value>(raw) {
        Ok(v) => match v.get(key) {
            Some(x) => match x.as_str() {
                Some(s) => Some(Some(s.to_string())),
                None => Some(None),
            },
            None => Some(None),
        },
        Err(_) => None,
    }
}

/// Why a recipe has no hash: its text is no JSON, or its `"kind"` is
/// neither solid nor geometry.
#[derive(Debug, Clone, PartialEq, Eq)]
pub enum HashError {
    /// The text is no JSON.
    NotJson,
    /// `"kind"` names neither a solid nor geometry: the string found.
    UnknownKind(String),
}

/// The value `raw` holds under `key` as the hashed text writes it:
/// `null` where there is none; `None` where `raw` is no JSON.
pub open spec fn hashed_value(raw: Seq<char>, key: Seq<char>) -> Option<Seq<char>> {
    match json_field_text(raw, key) {
        None => None,
        Some(None) => Some("null"@),
        Some(Some(t)) => Some(t),
    }
}

/// The values `raw` holds under `keys`, in order, as the hashed text
/// writes them; `None` where `raw` is no JSON.
pub open spec fn hashed_values(raw: Seq<char>, keys: Seq<Seq<char>>) -> Option<Seq<Seq<char>>>
    decreases keys.len(),
{
    if keys.len() == 0 {
        Some(Seq::empty())
    } else {
        match (hashed_values(raw, keys.drop_last()), hashed_value(raw, keys.last())) {
            (Some(vs), Some(v)) => Some(vs.push(v)),
            _ => None,
        }
    }
}

/// A value as the hashed text writes it: its JSON, or `null` where the
/// recipe has none.
pub open spec fn value_or_null(v: Option<String>) -> Seq<char> {
    match v {
        Some(s) => s@,
        None => "null"@,
    }
}

/// The entries `"key":value` of `keys` and their `values`, `,` between
/// each two.
pub open spec fn entries_text(keys: Seq<Seq<char>>, values: Seq<Seq<char>>) -> Seq<char>
    decreases keys.len(),
{
    if keys.len() == 0 {
        Seq::empty()
    } else {
        entries_text(keys.drop_last(), values.drop_last()) + (if keys.len() > 1 {
            ","@
        } else {
            Seq::empty()
        }) + "\""@ + keys.last() + "\":"@ + values.last()
    }
}

/// The compact JSON object of `keys` and their `values`.
pub open spec fn object_text(keys: Seq<Seq<char>>, values: Seq<Seq<char>>) -> Seq<char> {
    "{"@ + entries_text(keys, values) + "}"@
}

/// The text a recipe of `kind` hashes: its evaluated keys as a compact
/// JSON object, keys sorted, a missing one `null`.
pub open spec fn hashed_text(raw: Seq<char>, kind: Kind) -> Option<Seq<char>> {
    match hashed_values(raw, recipe_keys_of(kind)) {
        Some(vs) => Some(object_text(recipe_keys_of(kind), vs)),
        None => None,
    }
}

/// The recipe hash of the text `raw`: the lower-case hex SHA-256 of its
/// hashed text; `Err(None)` where it is no JSON, `Err(Some(kind))` for
/// an unknown `"kind"`.
pub open spec fn recipe_hash_of(raw: Seq<char>) -> Result<Seq<char>, Option<Seq<char>>> {
    match json_string_text(raw, "kind"@) {
        None => Err(None),
        Some(k) => {
            let kind = if k == Some("geometry"@) {
                Some(Kind::Geometry)
            } else if k is None || k == Some("solid"@) {
                Some(Kind::Solid)
            } else {
                None
            };
            match kind {
                None => Err(Some(k.unwrap())),
                Some(kind) => hash_of_kind(raw, kind),
            }
        },
    }
}

/// The recipe hash of the text `raw` read as a recipe of `kind`.
pub open spec fn hash_of_kind(raw: Seq<char>, kind: Kind) -> Result<Seq<char>, Option<Seq<char>>> {
    match hashed_text(raw, kind) {
        None => Err(None),
        Some(t) => Ok(crate::cache::hex_of(crate::cache::sha256_of(encode_utf8(t)))),
    }
}

/// The text a recipe of `kind` is hashed by, given the JSON of the value
/// it holds under each of its [`recipe_keys`] in turn (`None` where it
/// holds none, written `null`): a compact JSON object with sorted keys.
pub fn recipe_text(kind: Kind, values: &Vec<Option<String>>) -> (t: String)
    requires
        values@.len() == recipe_keys_of(kind).len(),
    ensures
        t@ == object_text(recipe_keys_of(kind), values@.map_values(|v: Option<String>| value_or_null(v))),
{
    let keys = recipe_keys(kind);
    let ghost ks = recipe_keys_of(kind);
    let ghost vals = values@.map_values(|v: Option<String>| value_or_null(v));
    let mut text = chars_of("{");
    let mut i: usize = 0;
    proof {
        reveal_strlit("{");
        assert(ks.take(0) =~= Seq::<Seq<char>>::empty());
    }
    while i < keys.len()
        invariant
            i <= keys@.len(),
            ks == keys@.map_values(|k: &str| k@),
            values@.len() == ks.len(),
            vals == values@.map_values(|v: Option<String>| value_or_null(v)),
            text@ == "{"@ + entries_text(ks.take(i as int), vals.take(i as int)),
        decreases keys@.len() - i,
    {
        let key = keys[i];
        if i > 0 {
            push_str(&mut text, ",");
        }
        push_str(&mut text, "\"");
        push_str(&mut text, key);
        push_str(&mut text, "\":");
        match &values[i] {
            Some(v) => push_str(&mut text, v.as_str()),
            None => push_str(&mut text, "null"),
        }
        proof {
            assert(ks.take(i + 1).drop_last() =~= ks.take(i as int));
            assert(vals.take(i + 1).drop_last() =~= vals.take(i as int));
            assert(ks.take(i + 1).last() == key@);
            assert(vals.take(i + 1).last() == value_or_null(values@[i as int]));
            assert(text@ =~= "{"@ + entries_text(ks.take(i + 1), vals.take(i + 1)));
        }
        i = i + 1;
    }
    assert(ks.take(keys@.len() as int) =~= ks);
    assert(vals.take(keys@.len() as int) =~= vals);
    push_str(&mut text, "}");
    string_of(text.as_slice())
}

/// The SHA-256 the oracle records of a recipe whose `fixture.json` is
/// `raw`: over its evaluated keys, by its kind, written as a compact JSON
/// object with sorted keys and a missing key `null`. `Err` for a text
/// that is no JSON, or the unknown `"kind"` string, when there is one.
pub fn recipe_hash(raw: &str) -> (r: Result<String, HashError>)
    ensures
        match recipe_hash_of(raw@) {
            Ok(h) => r matches Ok(s) && s@ == h,
            Err(None) => r == Err::<String, HashError>(HashError::NotJson),
            Err(Some(k)) => r matches Err(HashError::UnknownKind(s)) && s@ == k,
        },
{
    let kind_text = match json_string(raw, "kind") {
        None => return Err(HashError::NotJson),
        Some(k) => k,
    };
    let kind = match kind_text {
        None => Kind::Solid,
        Some(k) => match kind_of_raw(Some(k.as_str())) {
            Ok(kind) => {
                assert(kind == Kind::Geometry <==> k@ == "geometry"@) by {
                    reveal_strlit("solid");
                    reveal_strlit("geometry");
                    assert("solid"@.len() != "geometry"@.len());
                }
                kind
            },
            Err(e) => return Err(HashError::UnknownKind(e)),
        },
    };
    assert(recipe_hash_of(raw@) == hash_of_kind(raw@, kind));
    let keys = recipe_keys(kind);
    let ghost ks = recipe_keys_of(kind);
    let mut values: Vec<Option<String>> = Vec::new();
    let mut i: usize = 0;
    assert(ks.take(0) =~= Seq::<Seq<char>>::empty());
    assert(values@.map_values(|v: Option<String>| value_or_null(v)) =~= Seq::<Seq<char>>::empty());
    while i < keys.len()
        invariant
            i <= keys@.len(),
            ks == keys@.map_values(|k: &str| k@),
            ks == recipe_keys_of(kind),
            recipe_hash_of(raw@) == hash_of_kind(raw@, kind),
            values@.len() == i,
            hashed_values(raw@, ks.take(i as int)) == Some(
                values@.map_values(|v: Option<String>| value_or_null(v)),
            ),
        decreases keys@.len() - i,
    {
        let key = keys[i];
        proof {
            assert(ks.take(i + 1).drop_last() =~= ks.take(i as int));
            assert(ks.take(i + 1).last() == key@);
        }
        let ghost before = values@.map_values(|v: Option<String>| value_or_null(v));
        match json_field(raw, key) {
            None => {
                proof {
                    lemma_values_stop(raw@, ks, i as int + 1);
                }
                return Err(HashError::NotJson);
            },
            Some(v) => {
                let ghost written = value_or_null(v);
                assert(hashed_value(raw@, key@) == Some(written));
                values.push(v);
                assert(values@.map_values(|v: Option<String>| value_or_null(v)) =~= before.push(written));
            },
        }
        i = i + 1;
    }
    assert(ks.take(keys@.len() as int) =~= ks);
    let written = recipe_text(kind, &values);
    Ok(crate::part::sha256_hex(written.as_str().as_bytes()))
}

/// Values that stop at a key stop for every longer prefix.
proof fn lemma_values_stop(raw: Seq<char>, ks: Seq<Seq<char>>, n: int)
    requires
        0 < n <= ks.len(),
        hashed_values(raw, ks.take(n)) is None,
    ensures
        hashed_values(raw, ks) is None,
    decreases ks.len() - n,
{
    if n < ks.len() {
        assert(ks.take(n + 1).drop_last() =~= ks.take(n));
        lemma_values_stop(raw, ks, n + 1);
    } else {
        assert(ks.take(n) =~= ks);
    }
}

/// Editing what a recipe does not hash — its description, its
/// `analytic` section, or any other key outside the hashed ones — leaves
/// its hash: two texts with the same kind string and the same values
/// under every other key hash alike.
pub proof fn lemma_hash_ignores_edits(a: Seq<char>, b: Seq<char>)
    requires
        json_string_text(a, "kind"@) == json_string_text(b, "kind"@),
        forall|k: Seq<char>| k != "analytic"@ && k != "description"@ ==> #[trigger] json_field_text(a, k)
            == json_field_text(b, k),
    ensures
        recipe_hash_of(a) == recipe_hash_of(b),
{
    lemma_hash_ignores_analytic_and_description(Kind::Solid);
    lemma_hash_ignores_analytic_and_description(Kind::Geometry);
    lemma_same_values(a, b, recipe_keys_of(Kind::Solid));
    lemma_same_values(a, b, recipe_keys_of(Kind::Geometry));
}

proof fn lemma_same_values(a: Seq<char>, b: Seq<char>, ks: Seq<Seq<char>>)
    requires
        !ks.contains("analytic"@),
        !ks.contains("description"@),
        forall|k: Seq<char>| k != "analytic"@ && k != "description"@ ==> #[trigger] json_field_text(a, k)
            == json_field_text(b, k),
    ensures
        hashed_values(a, ks) == hashed_values(b, ks),
    decreases ks.len(),
{
    if ks.len() > 0 {
        let t = ks.drop_last();
        assert forall|x: Seq<char>| t.contains(x) implies ks.contains(x) by {
            let i = choose|i: int| 0 <= i < t.len() && t[i] == x;
            assert(ks[i] == x);
        }
        lemma_same_values(a, b, t);
        assert(ks.contains(ks.last()));
        assert(json_field_text(a, ks.last()) == json_field_text(b, ks.last()));
    }
}

} // verus!
