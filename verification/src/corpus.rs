//! The corpus runner's pure parts: the stages a fixture is held to, where
//! a variant's dump lives, what a refused result step was expected to
//! fail with, and the diff of a dump against the committed one.

use vstd::prelude::*;
use vstd::utf8::encode_utf8;
use crate::lines::{lines, lines_of, views};
use crate::text::{chars_of, compare_chars, decimal, push_chars, push_decimal, push_str, string_of, Order};

verus! {

/// A stage of the corpus runner, in the order they run.
#[derive(Debug, Clone, Copy, PartialEq, Eq, Structural)]
pub enum Stage {
    /// Loading the fixture and building its recipe, or the typed refusal
    /// the result step was expected to fail with.
    Build,
    /// The checker at `Full` and the result's lumps.
    Check,
    /// Counts and genus against the oracle's.
    Counts,
    /// Mass properties against the oracle's or the closed forms'.
    Measure,
    /// The mesh, its corner block and its volume.
    Mesh,
    /// The probes against the oracle's classifications.
    Probes,
    /// The provenance accounting of every step.
    Provenance,
    /// STEP written and read back by the oracle.
    Step,
    /// Open CASCADE's STEP read back by Arris.
    ReadBack,
    /// The text dump against the committed one.
    Dump,
}

/// The name a stage prints as.
pub open spec fn stage_name(s: Stage) -> Seq<char> {
    match s {
        Stage::Build => "build"@,
        Stage::Check => "check"@,
        Stage::Counts => "counts"@,
        Stage::Measure => "measure"@,
        Stage::Mesh => "mesh"@,
        Stage::Probes => "probes"@,
        Stage::Provenance => "provenance"@,
        Stage::Step => "step"@,
        Stage::ReadBack => "read back"@,
        Stage::Dump => "dump"@,
    }
}

impl Stage {
    /// The name it prints as: `build`, `check`, … `read back`, `dump`.
    pub fn name(self) -> (s: &'static str)
        ensures
            s@ == stage_name(self),
    {
        match self {
            Stage::Build => "build",
            Stage::Check => "check",
            Stage::Counts => "counts",
            Stage::Measure => "measure",
            Stage::Mesh => "mesh",
            Stage::Probes => "probes",
            Stage::Provenance => "provenance",
            Stage::Step => "step",
            Stage::ReadBack => "read back",
            Stage::Dump => "dump",
        }
    }
}

/// `name` under the directory `dir`, as `Path::join` puts a relative
/// name: a `/` between them unless `dir` is empty or ends with one.
pub open spec fn joined(dir: Seq<char>, name: Seq<char>) -> Seq<char> {
    if dir.len() == 0 || dir.last() == '/' {
        dir + name
    } else {
        dir + seq!['/'] + name
    }
}

/// The file name of a variant's dump: `dump.txt` for `default`,
/// `dump.<variant>.txt` otherwise.
pub open spec fn dump_name(variant: Seq<char>) -> Seq<char> {
    if variant == "default"@ {
        "dump.txt"@
    } else {
        "dump."@ + variant + ".txt"@
    }
}

/// The dump file of a variant under `dir`: `dump.txt` for `default`,
/// `dump.<variant>.txt` otherwise.
pub fn dump_path(dir: &str, variant: &str) -> (p: String)
    ensures
        p@ == joined(dir@, dump_name(variant@)),
{
    let mut out = chars_of(dir);
    if out.len() > 0 && out[out.len() - 1] != '/' {
        out.push('/');
    }
    let file = dump_file_name(variant);
    push_str(&mut out, file.as_str());
    string_of(out.as_slice())
}

/// The file name of a variant's dump: `dump.txt` for `default`,
/// `dump.<variant>.txt` otherwise.
pub fn dump_file_name(variant: &str) -> (f: String)
    ensures
        f@ == dump_name(variant@),
{
    let mut out: Vec<char> = Vec::new();
    if crate::text::same_text(variant, "default") {
        push_str(&mut out, "dump.txt");
    } else {
        push_str(&mut out, "dump.");
        push_str(&mut out, variant);
        push_str(&mut out, ".txt");
    }
    string_of(out.as_slice())
}

/// How a result step's refusal is expected: the `Reason` of the
/// `OpError::Degenerate` a recipe's `analytic.expect_error` names.
#[derive(Debug, Clone, Copy, PartialEq, Eq, Structural)]
pub enum ExpectError {
    /// Two faces touch along a curve interior to both.
    TangentContact,
    /// Two shells of the result would share an edge or a vertex.
    NonManifold,
    /// A blend's contact or end arc leaves its face.
    BlendTooLarge,
    /// A blended edge's faces meet at a tangent dihedral, or the edge
    /// runs into a blend face.
    TangentChain,
    /// A corner the blend's closed forms do not cover.
    VertexBlend,
    /// A revolve of a profile with an elliptic segment.
    EllipticRevolve,
}

/// How a result step is expected to fail.
#[derive(Debug, Clone, Copy, PartialEq, Eq, Structural)]
pub enum Refusal {
    /// `OpError::Degenerate`, any reason: the oracle recorded no solid.
    Degenerate,
    /// The recipe's `analytic.expect_error`.
    Error(ExpectError),
}

/// What a refusal is expected to be, in words.
pub open spec fn expected_text(r: Refusal) -> Seq<char> {
    match r {
        Refusal::Degenerate => "OpError::Degenerate"@,
        Refusal::Error(ExpectError::TangentContact) => "OpError::Degenerate with Reason::TangentContact"@,
        Refusal::Error(ExpectError::NonManifold) => "OpError::Degenerate with Reason::NonManifold"@,
        Refusal::Error(ExpectError::BlendTooLarge) => "OpError::Degenerate with Reason::BlendTooLarge"@,
        Refusal::Error(ExpectError::TangentChain) => "OpError::Degenerate with Reason::TangentChain"@,
        Refusal::Error(ExpectError::VertexBlend) => "OpError::Degenerate with Reason::VertexBlend"@,
        Refusal::Error(ExpectError::EllipticRevolve) => "OpError::Degenerate with Reason::EllipticRevolve"@,
    }
}

impl Refusal {
    /// The error expected, as a failure message names it.
    pub fn expected(self) -> (s: String)
        ensures
            s@ == expected_text(self),
    {
        let text = match self {
            Refusal::Degenerate => "OpError::Degenerate",
            Refusal::Error(ExpectError::TangentContact) => "OpError::Degenerate with Reason::TangentContact",
            Refusal::Error(ExpectError::NonManifold) => "OpError::Degenerate with Reason::NonManifold",
            Refusal::Error(ExpectError::BlendTooLarge) => "OpError::Degenerate with Reason::BlendTooLarge",
            Refusal::Error(ExpectError::TangentChain) => "OpError::Degenerate with Reason::TangentChain",
            Refusal::Error(ExpectError::VertexBlend) => "OpError::Degenerate with Reason::VertexBlend",
            Refusal::Error(ExpectError::EllipticRevolve) => "OpError::Degenerate with Reason::EllipticRevolve",
        };
        string_of(chars_of(text).as_slice())
    }
}

/// How many differing lines a diff shows before it stops.
pub const DIFF_SHOWN: usize = 20;

/// `n` right-aligned in `width` columns, as `{:>width$}` prints it.
pub open spec fn padded(n: nat, width: nat) -> Seq<char> {
    let d = decimal(n);
    if d.len() < width {
        Seq::new((width - d.len()) as nat, |i: int| ' ') + d
    } else {
        d
    }
}

/// Whether line `i` differs between `a` and `b`: one has it and the
/// other does not, or they hold different text there.
pub open spec fn line_differs(a: Seq<Seq<char>>, b: Seq<Seq<char>>, i: int) -> bool {
    !(i < a.len() && i < b.len() && a[i] == b[i])
}

/// The diff's entry for line `i`: `-` and the committed line, `+` and
/// this build's, each where there is one, numbered from 1.
pub open spec fn diff_entry(a: Seq<Seq<char>>, b: Seq<Seq<char>>, i: int) -> Seq<char> {
    side_line("-"@, a, i) + side_line("+"@, b, i)
}

/// One side's line `i` of a diff entry, marked `mark`, where it has one.
pub open spec fn side_line(mark: Seq<char>, a: Seq<Seq<char>>, i: int) -> Seq<char> {
    if i < a.len() {
        mark + padded((i + 1) as nat, 5) + " "@ + a[i] + "\n"@
    } else {
        Seq::empty()
    }
}

/// The entries from line `i` of `n` on, `shown` shown already: stopped,
/// with a mark, at the [`DIFF_SHOWN`]th.
pub open spec fn diff_entries(a: Seq<Seq<char>>, b: Seq<Seq<char>>, i: int, n: int, shown: int) -> Seq<char>
    decreases n - i,
{
    if i >= n {
        Seq::empty()
    } else if line_differs(a, b, i) {
        if shown + 1 >= DIFF_SHOWN {
            diff_entry(a, b, i) + "… (more)\n"@
        } else {
            diff_entry(a, b, i) + diff_entries(a, b, i + 1, n, shown + 1)
        }
    } else {
        diff_entries(a, b, i + 1, n, shown)
    }
}

/// The diff of `actual` against `committed`, line by line; and, where
/// their line counts differ, both counts.
pub open spec fn diff_text(committed: Seq<char>, actual: Seq<char>) -> Seq<char> {
    let (a, b) = (lines(committed), lines(actual));
    let n = if a.len() < b.len() { b.len() } else { a.len() };
    diff_entries(a, b, 0, n as int, 0) + if a.len() != b.len() {
        "("@ + decimal(a.len()) + " lines committed, "@ + decimal(b.len()) + " in this build)\n"@
    } else {
        Seq::empty()
    }
}

/// Appends `n` right-aligned in `width` columns.
pub fn push_padded(out: &mut Vec<char>, n: u64, width: usize)
    ensures
        final(out)@ == old(out)@ + padded(n as nat, width as nat),
{
    let mut digits: Vec<char> = Vec::new();
    push_decimal(&mut digits, n);
    assert(digits@ =~= decimal(n as nat));
    let ghost start = out@;
    if digits.len() < width {
        let pad = width - digits.len();
        let mut k: usize = 0;
        while k < pad
            invariant
                k <= pad,
                out@ == start + Seq::new(k as nat, |i: int| ' '),
            decreases pad - k,
        {
            out.push(' ');
            k = k + 1;
            assert(out@ =~= start + Seq::new(k as nat, |i: int| ' '));
        }
    }
    push_chars(out, digits.as_slice());
    assert(out@ =~= start + padded(n as nat, width as nat));
}

/// Appends one line of a diff: `mark`, the number right-aligned in five
/// columns, a space, the line, a newline.
fn push_entry_line(out: &mut Vec<char>, mark: &str, number: usize, line: &[char])
    ensures
        final(out)@ == old(out)@ + mark@ + padded(number as nat, 5) + " "@ + line@ + "\n"@,
{
    push_str(out, mark);
    push_padded(out, number as u64, 5);
    push_str(out, " ");
    push_chars(out, line);
    push_str(out, "\n");
}

/// Whether line `i` differs between the lines `a` and `b`.
fn differs_at(a: &Vec<Vec<char>>, b: &Vec<Vec<char>>, i: usize) -> (r: bool)
    ensures
        r == line_differs(views(a@), views(b@), i as int),
{
    if i < a.len() && i < b.len() {
        let o = compare_chars(a[i].as_slice(), b[i].as_slice());
        assert(views(a@)[i as int] == a@[i as int]@);
        assert(views(b@)[i as int] == b@[i as int]@);
        o != Order::Equal
    } else {
        true
    }
}

/// Appends the diff's entry for line `i` of `a` and `b`.
fn push_diff_entry(out: &mut Vec<char>, a: &Vec<Vec<char>>, b: &Vec<Vec<char>>, i: usize)
    requires
        i < usize::MAX,
    ensures
        final(out)@ == old(out)@ + diff_entry(views(a@), views(b@), i as int),
{
    let ghost start = out@;
    let ghost (la, lb) = (views(a@), views(b@));
    if i < a.len() {
        push_entry_line(out, "-", i + 1, a[i].as_slice());
        assert(la[i as int] == a@[i as int]@);
    }
    assert(out@ == start + side_line("-"@, la, i as int));
    let ghost mid = out@;
    if i < b.len() {
        push_entry_line(out, "+", i + 1, b[i].as_slice());
        assert(lb[i as int] == b@[i as int]@);
    }
    assert(out@ == mid + side_line("+"@, lb, i as int));
    assert(out@ =~= start + diff_entry(la, lb, i as int));
}

/// The lines that differ, with their numbers: `-` for the committed
/// side, `+` for this build's; at most [`DIFF_SHOWN`] of them, then a
/// mark; and the two line counts where they differ.
pub fn diff(committed: &str, actual: &str) -> (d: String)
    ensures
        d@ == diff_text(committed@, actual@),
        d@.len() == 0 <==> lines(committed@) == lines(actual@),
{
    proof {
        lemma_diff_empty(committed@, actual@);
    }
    let a = lines_of(committed);
    let b = lines_of(actual);
    let ghost (la, lb) = (views(a@), views(b@));
    assert(la =~= lines(committed@));
    assert(lb =~= lines(actual@));
    let n = if a.len() < b.len() { b.len() } else { a.len() };
    let mut out: Vec<char> = Vec::new();
    let mut shown: usize = 0;
    let mut i: usize = 0;
    while i < n
        invariant_except_break
            shown < DIFF_SHOWN,
            diff_entries(la, lb, 0, n as int, 0) == out@ + diff_entries(la, lb, i as int, n as int, shown as int),
        invariant
            i <= n,
            n == (if la.len() < lb.len() { lb.len() } else { la.len() }),
            la == views(a@),
            lb == views(b@),
        ensures
            diff_entries(la, lb, 0, n as int, 0) == out@,
        decreases n - i,
    {
        if differs_at(&a, &b, i) {
            let ghost before = out@;
            push_diff_entry(&mut out, &a, &b, i);
            shown = shown + 1;
            if shown >= DIFF_SHOWN {
                push_str(&mut out, "… (more)\n");
                assert(out@ =~= before + diff_entries(la, lb, i as int, n as int, shown - 1));
                break;
            }
            assert(out@ + diff_entries(la, lb, i + 1, n as int, shown as int) =~= before
                + diff_entries(la, lb, i as int, n as int, shown - 1));
        }
        i = i + 1;
    }
    proof {
        if i == n {
            assert(out@ =~= out@ + diff_entries(la, lb, i as int, n as int, shown as int));
        }
    }
    if a.len() != b.len() {
        push_str(&mut out, "(");
        push_decimal(&mut out, a.len() as u64);
        push_str(&mut out, " lines committed, ");
        push_decimal(&mut out, b.len() as u64);
        push_str(&mut out, " in this build)\n");
    }
    string_of(out.as_slice())
}

} // verus!

verus! {

proof fn lemma_no_entries(a: Seq<Seq<char>>, i: int, n: int, shown: int)
    requires
        n == a.len(),
    ensures
        diff_entries(a, a, i, n, shown) == Seq::<char>::empty(),
    decreases n - i,
{
    if i < n {
        assert(!line_differs(a, a, i));
        lemma_no_entries(a, i + 1, n, shown);
    }
}

/// Entries that show nothing leave no line of their range differing.
proof fn lemma_empty_entries(a: Seq<Seq<char>>, b: Seq<Seq<char>>, i: int, n: int, shown: int)
    requires
        n <= a.len() || n <= b.len(),
        diff_entries(a, b, i, n, shown).len() == 0,
    ensures
        forall|j: int| i <= j < n ==> !line_differs(a, b, j),
    decreases n - i,
{
    if i < n {
        if line_differs(a, b, i) {
            let e = diff_entry(a, b, i);
            if i < a.len() {
                assert(side_line("-"@, a, i).len() > 0);
            } else {
                assert(side_line("+"@, b, i).len() > 0);
            }
            assert(e.len() > 0);
            if shown + 1 >= DIFF_SHOWN {
                assert(diff_entries(a, b, i, n, shown) == e + "… (more)\n"@);
            } else {
                assert(diff_entries(a, b, i, n, shown) == e + diff_entries(a, b, i + 1, n, shown + 1));
            }
        } else {
            lemma_empty_entries(a, b, i + 1, n, shown);
        }
    }
}

/// A dump diff shows nothing exactly when the two texts have the same
/// lines.
pub proof fn lemma_diff_empty(committed: Seq<char>, actual: Seq<char>)
    ensures
        diff_text(committed, actual).len() == 0 <==> lines(committed) == lines(actual),
{
    let (a, b) = (lines(committed), lines(actual));
    let n = if a.len() < b.len() { b.len() } else { a.len() };
    if a == b {
        lemma_no_entries(a, 0, n as int, 0);
        assert(diff_text(committed, actual) =~= Seq::<char>::empty());
    }
    if diff_text(committed, actual).len() == 0 {
        if a.len() != b.len() {
            reveal_strlit("(");
            assert(diff_text(committed, actual).len() > 0);
        }
        assert(diff_entries(a, b, 0, n as int, 0).len() == 0);
        lemma_empty_entries(a, b, 0, n as int, 0);
        assert forall|j: int| 0 <= j < a.len() implies a[j] == b[j] by {
            assert(!line_differs(a, b, j));
        }
        assert(a =~= b);
    }
}

/// A dump diffed against itself shows nothing.
pub proof fn lemma_diff_of_same(text: Seq<char>)
    ensures
        diff_text(text, text) == Seq::<char>::empty(),
{
    let a = lines(text);
    lemma_no_entries(a, 0, a.len() as int, 0);
    assert(diff_text(text, text) =~= Seq::<char>::empty());
}

} // verus!

verus! {

/// The environment variable that blesses a build's dumps as the
/// committed ones.
pub const BLESS_VAR: &'static str = "ARRIS_BLESS";

/// Whether [`BLESS_VAR`]'s value `value` blesses: set, and neither empty
/// nor `0`.
pub fn blessing(value: Option<&str>) -> (b: bool)
    ensures
        b == match value {
            Some(v) => !(v@.len() == 0 || v@ == "0"@),
            None => false,
        },
{
    match value {
        Some(v) => {
            let c = chars_of(v);
            !(c.len() == 0 || crate::text::same_text(v, "0"))
        },
        None => false,
    }
}

/// How a result step failed, as much as the expectation reads of it.
#[derive(Debug, Clone, PartialEq, Eq)]
pub enum StepFailure {
    /// `OpError::Degenerate`, with its reason and how the reason prints.
    Degenerate { reason: crate::ops::Reason, says: String },
    /// `OpError::Unsupported`: each entity's kind and the entity, as they
    /// print.
    Unsupported { a_kind: String, a: String, b_kind: String, b: String },
    /// Any other failure, as it prints.
    Other(String),
}

/// A result step that did not fail as its fixture expects.
#[derive(Debug, Clone, PartialEq, Eq)]
pub struct Expectation {
    /// The fixture.
    pub fixture: String,
    /// The step's name.
    pub step: String,
    /// The error expected.
    pub expected: String,
    /// What happened instead.
    pub found: String,
}

/// Whether the degenerate reason `reason` is the failure `r` expects.
pub open spec fn reason_expected(r: Refusal, reason: crate::ops::Reason) -> bool {
    match r {
        Refusal::Degenerate => true,
        Refusal::Error(ExpectError::TangentContact) => reason == crate::ops::Reason::TangentContact,
        Refusal::Error(ExpectError::NonManifold) => reason == crate::ops::Reason::NonManifold,
        Refusal::Error(ExpectError::BlendTooLarge) => reason == crate::ops::Reason::BlendTooLarge,
        Refusal::Error(ExpectError::TangentChain) => reason == crate::ops::Reason::TangentChain,
        Refusal::Error(ExpectError::VertexBlend) => reason == crate::ops::Reason::VertexBlend,
        Refusal::Error(ExpectError::EllipticRevolve) => reason == crate::ops::Reason::EllipticRevolve,
    }
}

/// What the step did instead, in words.
pub open spec fn found_text(built: Result<(), StepFailure>) -> Seq<char> {
    match built {
        Ok(()) => "a body"@,
        Err(StepFailure::Degenerate { says, .. }) => "OpError::Degenerate with "@ + says@,
        Err(StepFailure::Unsupported { a_kind, a, b_kind, b }) => "OpError::Unsupported: no closed form for "@
            + a@ + " ("@ + a_kind@ + ") against "@ + b@ + " ("@ + b_kind@ + ")"@,
        Err(StepFailure::Other(text)) => text@,
    }
}

impl Refusal {
    /// `Ok` when the result step `step` of `fixture` failed as expected;
    /// else what was expected and what happened instead.
    pub fn check(self, fixture: &str, step: &str, built: Result<(), StepFailure>) -> (r: Result<(), Expectation>)
        ensures
            (built matches Err(StepFailure::Degenerate { reason, .. }) && reason_expected(self, reason))
                ==> r is Ok,
            !(built matches Err(StepFailure::Degenerate { reason, .. }) && reason_expected(self, reason))
                ==> (r matches Err(e) && e.fixture@ == fixture@ && e.step@ == step@ && e.expected@
                == expected_text(self) && e.found@ == found_text(built)),
    {
        let mut found: Vec<char> = Vec::new();
        match &built {
            Ok(()) => push_str(&mut found, "a body"),
            Err(StepFailure::Degenerate { reason, says }) => {
                let matches = match self {
                    Refusal::Degenerate => true,
                    Refusal::Error(ExpectError::TangentContact) => matches!(reason, crate::ops::Reason::TangentContact),
                    Refusal::Error(ExpectError::NonManifold) => matches!(reason, crate::ops::Reason::NonManifold),
                    Refusal::Error(ExpectError::BlendTooLarge) => matches!(reason, crate::ops::Reason::BlendTooLarge),
                    Refusal::Error(ExpectError::TangentChain) => matches!(reason, crate::ops::Reason::TangentChain),
                    Refusal::Error(ExpectError::VertexBlend) => matches!(reason, crate::ops::Reason::VertexBlend),
                    Refusal::Error(ExpectError::EllipticRevolve) => matches!(reason, crate::ops::Reason::EllipticRevolve),
                };
                if matches {
                    return Ok(());
                }
                push_str(&mut found, "OpError::Degenerate with ");
                push_str(&mut found, says.as_str());
            },
            Err(StepFailure::Unsupported { a_kind, a, b_kind, b }) => {
                push_str(&mut found, "OpError::Unsupported: no closed form for ");
                push_str(&mut found, a.as_str());
                push_str(&mut found, " (");
                push_str(&mut found, a_kind.as_str());
                push_str(&mut found, ") against ");
                push_str(&mut found, b.as_str());
                push_str(&mut found, " (");
                push_str(&mut found, b_kind.as_str());
                push_str(&mut found, ")");
            },
            Err(StepFailure::Other(text)) => push_str(&mut found, text.as_str()),
        }
        Err(Expectation {
            fixture: string_of(chars_of(fixture).as_slice()),
            step: string_of(chars_of(step).as_slice()),
            expected: self.expected(),
            found: string_of(found.as_slice()),
        })
    }
}

} // verus!

verus! {

/// `s` with each `/` a `-`.
pub open spec fn dashed(s: Seq<char>) -> Seq<char> {
    s.map_values(|c: char| if c == '/' { '-' } else { c })
}

/// The tag of the STEP files a fixture's variant writes: its name with
/// `-` for `/`, `-` and the variant; for a copy of the fixture outside
/// its canonical directory, `-` and the first three bytes of the SHA-256
/// of the copy's path in hex.
pub open spec fn step_tag_text(name: Seq<char>, variant: Seq<char>, dir: Seq<char>, canonical: bool) -> Seq<char> {
    let tag = dashed(name) + "-"@ + variant;
    if canonical {
        tag
    } else {
        tag + "-"@ + crate::cache::hex_of(crate::cache::sha256_of(encode_utf8(dir)).take(3))
    }
}

/// The tag of the STEP files `name`'s `variant` writes from the fixture
/// directory `dir`; `canonical` where `dir` is the fixture's own
/// directory under the corpus root. A copy elsewhere — a scratch copy in
/// a test — gets a tag of its own, so two runs at once never name the
/// same file.
pub fn step_tag(name: &str, variant: &str, dir: &str, canonical: bool) -> (t: String)
    ensures
        t@ == step_tag_text(name@, variant@, dir@, canonical),
{
    let mut out: Vec<char> = Vec::new();
    for c in it: name.chars()
        invariant
            out@ == dashed(it.seq().subrange(0, it.index() as int)),
            it.seq() == name@,
    {
        let ghost before = it.seq().subrange(0, it.index() as int);
        out.push(if c == '/' { '-' } else { c });
        assert(it.seq().subrange(0, it.index() + 1) =~= before.push(c));
        assert(dashed(before.push(c)) =~= dashed(before).push(if c == '/' { '-' } else { c }));
    }
    push_str(&mut out, "-");
    push_str(&mut out, variant);
    if !canonical {
        let d = crate::cache::sha256(dir.as_bytes());
        push_str(&mut out, "-");
        let ghost at = out@;
        let mut i: usize = 0;
        while i < 3
            invariant
                i <= 3,
                d@.len() == 32,
                d@ == crate::cache::sha256_of(encode_utf8(dir@)),
                out@ == at + crate::cache::hex_of(d@.take(i as int)),
            decreases 3 - i,
        {
            let b = d[i];
            out.push(crate::cache::hex_digit(b / 16));
            out.push(crate::cache::hex_digit(b % 16));
            assert(d@.take(i + 1).drop_last() =~= d@.take(i as int));
            i = i + 1;
        }
    }
    string_of(out.as_slice())
}

} // verus!
