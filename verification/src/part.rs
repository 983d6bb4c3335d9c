//! The part fixture kind's records: what a fixture expects of each solid
//! instance of its STEP file, and where each read solid's dump lives.

use vstd::prelude::*;
use crate::cache::{digest_hex, hex_of, sha256, sha256_of};
use crate::corpus::joined;
use crate::fixtures::Counts;
use crate::text::{chars_of, decimal, push_decimal, push_str, string_of};

verus! {

/// The reader's refusal of a solid as a fixture records it: the kind, as
/// the reader's refusal kind prints, and why the refusal is right.
#[derive(Debug, Clone, PartialEq, Eq)]
pub struct ReadRefused {
    /// The refusal kind.
    pub kind: String,
    /// Why it is right.
    pub why: String,
}

/// What a part fixture expects of one solid instance of its file.
#[derive(Debug, Clone, PartialEq, Eq)]
pub enum Outcome {
    /// The reader returns a body, held to the oracle's reading.
    Read,
    /// The reader refuses it, with this kind, for the reason given.
    Refused(ReadRefused),
}

/// One solid instance of a part's file, as the reader numbers it.
#[derive(Debug, Clone, PartialEq, Eq)]
pub struct PartSolid {
    /// The `#id` of its solid entity, or of the entity that stands where
    /// one would.
    pub id: u64,
    /// Which placement of it.
    pub instance: u32,
    /// What the reader is expected to make of it.
    pub outcome: Outcome,
}

/// One solid of the oracle's reading of a part's file, as far as what a
/// reading is held to: the `#id` of its solid entity; whether Open
/// CASCADE had to heal it to make it a solid; the counts of the unhealed
/// reading, where it has one; and what `measure` records of the healed
/// solid: its counts, and χ and the genus where it records them.
#[derive(Debug, Clone, Copy, PartialEq, Eq)]
pub struct OracleSolid {
    pub id: u64,
    pub occt_heals: bool,
    pub unhealed_counts: Option<Counts>,
    pub counts: Counts,
    pub euler_characteristic: Option<i64>,
    pub genus: Option<i64>,
}

impl OracleSolid {
    /// The counts a reading is held to: its counts, where healing changed
    /// no topology.
    pub open spec fn spec_held_counts(self) -> Option<Counts> {
        if !self.occt_heals || self.unhealed_counts == Some(self.counts) {
            Some(self.counts)
        } else {
            None
        }
    }

    /// The counts Arris's reading is held to, where healing changed no
    /// topology: where Open CASCADE did not heal the solid, or its
    /// unhealed reading has the healed one's counts.
    pub fn held_counts(&self) -> (r: Option<Counts>)
        ensures
            r == self.spec_held_counts(),
    {
        let same = match self.unhealed_counts {
            Some(u) => u == self.counts,
            None => false,
        };
        if !self.occt_heals || same {
            Some(self.counts)
        } else {
            None
        }
    }
}

/// The file name of the dump of solid `#id`, placement `instance`.
pub open spec fn solid_dump_name(id: u64, instance: u32) -> Seq<char> {
    "dump."@ + decimal(id as nat) + "."@ + decimal(instance as nat) + ".txt"@
}

/// The dump of solid `#id`, placement `instance`, under `dir`:
/// `dump.<id>.<instance>.txt`.
pub fn dump_path(dir: &str, id: u64, instance: u32) -> (p: String)
    ensures
        p@ == joined(dir@, solid_dump_name(id, instance)),
{
    let mut out = chars_of(dir);
    if out.len() > 0 && out[out.len() - 1] != '/' {
        out.push('/');
    }
    let ghost start = out@;
    push_str(&mut out, "dump.");
    push_decimal(&mut out, id);
    push_str(&mut out, ".");
    push_decimal(&mut out, instance as u64);
    push_str(&mut out, ".txt");
    assert(out@ =~= start + solid_dump_name(id, instance));
    string_of(out.as_slice())
}

/// The SHA-256 of `bytes` as 64 lower-case hex digits, as a part fixture
/// records its STEP file's.
pub fn sha256_hex(bytes: &[u8]) -> (s: String)
    ensures
        s@ == hex_of(sha256_of(bytes@)),
{
    digest_hex(&sha256(bytes))
}

/// What a STEP file that is not the one a part fixture hashed is refused
/// with.
pub open spec fn hash_mismatch(bytes: Seq<u8>, recorded: Seq<char>) -> Seq<char> {
    "hashes to "@ + hex_of(sha256_of(bytes)) + ", not the fixture's "@ + recorded
}

/// Holds the bytes of a part's STEP file to the hash its fixture
/// records: `Err` naming both where they differ.
pub fn check_hash(bytes: &[u8], recorded: &str) -> (r: Result<(), String>)
    ensures
        r is Ok <==> hex_of(sha256_of(bytes@)) == recorded@,
        r matches Err(e) ==> e@ == hash_mismatch(bytes@, recorded@),
{
    let digest = sha256_hex(bytes);
    if crate::text::same_text(digest.as_str(), recorded) {
        Ok(())
    } else {
        let mut w = chars_of("hashes to ");
        push_str(&mut w, digest.as_str());
        push_str(&mut w, ", not the fixture's ");
        push_str(&mut w, recorded);
        Err(string_of(w.as_slice()))
    }
}

} // verus!

verus! {

/// One solid instance of a part fixture as the histogram reads it: the
/// solid, what the reader is expected to make of it, its battery's class
/// at each stage (by the stage's name, in the fixture's order), and the
/// cycle each refusal blocks (by the stage's name, `read` for the
/// reader's).
#[derive(Debug, Clone, PartialEq, Eq)]
pub struct SolidRecord {
    pub id: u64,
    pub instance: u32,
    pub outcome: Outcome,
    pub battery: Vec<(String, crate::battery::Class)>,
    pub blocks: Vec<(String, String)>,
}

/// A part fixture as the histogram reads it: its name, the regression
/// fixtures it waits on, and its solids in the reader's order.
#[derive(Debug, Clone, PartialEq, Eq)]
pub struct PartRecord {
    pub name: String,
    pub waits_on: Vec<String>,
    pub solids: Vec<SolidRecord>,
}

} // verus!

verus! {

/// What the reader made of one solid instance: a body, or a refusal of
/// the kind that prints as `kind`, the refusal itself printing as `text`.
#[derive(Debug, Clone, PartialEq, Eq)]
pub enum Reading {
    Body,
    Refusal { kind: String, text: String },
}

/// How one solid instance's reading holds to the outcome its part
/// fixture records.
#[derive(Debug, Clone, PartialEq, Eq)]
pub enum Held {
    /// Read, as recorded: its stages are to run.
    Read,
    /// Refused as recorded, with the kind recorded.
    Refused,
    /// Refused where the fixture records a read: the refusal is the
    /// error.
    Unrecorded,
    /// Not as recorded, in words.
    Mismatch(String),
}

/// The words for a refusal of another kind than the one recorded.
pub open spec fn other_kind(at: Seq<char>, kind: Seq<char>, text: Seq<char>, recorded: Seq<char>) -> Seq<char> {
    at + " is refused as "@ + kind + " ("@ + text + "), not as "@ + recorded
}

/// The words for a read where a refusal is recorded.
pub open spec fn lifted(at: Seq<char>, recorded: Seq<char>) -> Seq<char> {
    at + " reads, where the fixture records a refusal as "@ + recorded + ": lift it"@
}

/// Holds the reading of the solid instance `at` to the outcome its
/// fixture records: a refusal must be of the kind recorded, and a read
/// where a refusal is recorded is to be lifted.
pub fn held(at: &str, expected: &Outcome, reading: &Reading) -> (h: Held)
    ensures
        match (*expected, *reading) {
            (Outcome::Read, Reading::Body) => h == Held::Read,
            (Outcome::Read, Reading::Refusal { .. }) => h == Held::Unrecorded,
            (Outcome::Refused(r), Reading::Body) => h matches Held::Mismatch(w) && w@ == lifted(at@, r.kind@),
            (Outcome::Refused(r), Reading::Refusal { kind, text }) => if kind@ == r.kind@ {
                h == Held::Refused
            } else {
                h matches Held::Mismatch(w) && w@ == other_kind(at@, kind@, text@, r.kind@)
            },
        },
{
    match (expected, reading) {
        (Outcome::Read, Reading::Body) => Held::Read,
        (Outcome::Read, Reading::Refusal { .. }) => Held::Unrecorded,
        (Outcome::Refused(r), Reading::Body) => {
            let mut w = chars_of(at);
            push_str(&mut w, " reads, where the fixture records a refusal as ");
            push_str(&mut w, r.kind.as_str());
            push_str(&mut w, ": lift it");
            Held::Mismatch(string_of(w.as_slice()))
        },
        (Outcome::Refused(r), Reading::Refusal { kind, text }) => {
            if crate::text::same_text(kind.as_str(), r.kind.as_str()) {
                Held::Refused
            } else {
                let mut w = chars_of(at);
                push_str(&mut w, " is refused as ");
                push_str(&mut w, kind.as_str());
                push_str(&mut w, " (");
                push_str(&mut w, text.as_str());
                push_str(&mut w, "), not as ");
                push_str(&mut w, r.kind.as_str());
                Held::Mismatch(string_of(w.as_slice()))
            }
        },
    }
}

/// Solid instances as `{:?}` prints a list of `(id, instance)` pairs:
/// `[(12, 0), (13, 1)]`.
pub open spec fn instances_text(s: Seq<(u64, u32)>) -> Seq<char> {
    "["@ + instances_items(s) + "]"@
}

/// The items of [`instances_text`], `, ` between each two.
pub open spec fn instances_items(s: Seq<(u64, u32)>) -> Seq<char>
    decreases s.len(),
{
    if s.len() == 0 {
        Seq::empty()
    } else if s.len() == 1 {
        instance_item(s[0])
    } else {
        instances_items(s.drop_last()) + ", "@ + instance_item(s.last())
    }
}

/// One `(id, instance)` pair as `{:?}` prints it.
pub open spec fn instance_item(p: (u64, u32)) -> Seq<char> {
    "("@ + decimal(p.0 as nat) + ", "@ + decimal(p.1 as nat) + ")"@
}

fn push_instances(out: &mut Vec<char>, s: &[(u64, u32)])
    ensures
        final(out)@ == old(out)@ + instances_text(s@),
{
    let ghost start = out@;
    push_str(out, "[");
    let mut i: usize = 0;
    while i < s.len()
        invariant
            i <= s@.len(),
            out@ == start + "["@ + instances_items(s@.take(i as int)),
        decreases s@.len() - i,
    {
        let ghost before = out@;
        if i > 0 {
            push_str(out, ", ");
        }
        push_str(out, "(");
        push_decimal(out, s[i].0);
        push_str(out, ", ");
        push_decimal(out, s[i].1 as u64);
        push_str(out, ")");
        proof {
            let t = s@.take(i + 1);
            assert(t.drop_last() =~= s@.take(i as int));
            assert(t.last() == s@[i as int]);
            if i == 0 {
                assert(t.len() == 1);
                assert(s@.take(0) =~= Seq::<(u64, u32)>::empty());
                assert(out@ =~= before + instance_item(s@[i as int]));
            } else {
                assert(out@ =~= before + ", "@ + instance_item(s@[i as int]));
            }
        }
        i = i + 1;
    }
    assert(s@.take(s@.len() as int) =~= s@);
    push_str(out, "]");
}

/// The words for a file that reads to other solid instances than its
/// fixture lists.
pub open spec fn instances_differ(found: Seq<(u64, u32)>, listed: Seq<(u64, u32)>) -> Seq<char> {
    "the file reads to the solid instances "@ + instances_text(found) + ", but the fixture lists "@
        + instances_text(listed)
}

/// Holds the solid instances a file reads to, `(id, instance)` in the
/// reader's order, to those its fixture lists: `Err` in words where they
/// differ.
pub fn check_listed(found: &[(u64, u32)], listed: &[(u64, u32)]) -> (r: Result<(), String>)
    ensures
        r is Ok <==> found@ == listed@,
        r matches Err(w) ==> w@ == instances_differ(found@, listed@),
{
    let mut same = found.len() == listed.len();
    let mut i: usize = 0;
    while same && i < found.len()
        invariant
            i <= found@.len(),
            same ==> found@.len() == listed@.len(),
            same ==> forall|j: int| 0 <= j < i ==> found@[j] == listed@[j],
            !same ==> found@ != listed@,
        decreases found@.len() - i,
    {
        if found[i].0 != listed[i].0 || found[i].1 != listed[i].1 {
            assert(found@[i as int] != listed@[i as int]);
            same = false;
        }
        i = i + 1;
    }
    if same {
        assert(found@ =~= listed@);
        Ok(())
    } else {
        let mut w = chars_of("the file reads to the solid instances ");
        push_instances(&mut w, found);
        push_str(&mut w, ", but the fixture lists ");
        push_instances(&mut w, listed);
        Err(string_of(w.as_slice()))
    }
}

} // verus!

verus! {

/// What the part lint reads of a part fixture's `fixture.json`: its
/// STEP file and the file's recorded SHA-256, where the file comes from
/// and under what licence, and its solids in the reader's order.
#[derive(Debug, Clone, PartialEq, Eq)]
pub struct PartShape {
    pub file: String,
    pub sha256: String,
    pub source: String,
    pub licence: String,
    pub solids: Vec<PartSolid>,
}

/// `2(S − G)`: the χ a solid of `shells` shells and genus `genus` has.
pub open spec fn euler_line(shells: usize, genus: i64) -> int {
    2 * (shells - genus)
}

/// The line of an oracle solid off the Euler line, where it is.
pub open spec fn oracle_line(name: Seq<char>, s: OracleSolid) -> Seq<Seq<char>> {
    match (s.euler_characteristic, s.genus) {
        (Some(chi), Some(genus)) => if chi != euler_line(s.counts.shells, genus) {
            seq![
                crate::geometry::problem(
                    name,
                    "the oracle's #"@ + decimal(s.id as nat) + " is off the Euler line: χ "@ + crate::text::signed(
                        chi as int,
                    ) + ", 2(S − G) "@ + crate::text::signed(euler_line(s.counts.shells, genus)),
                ),
            ]
        } else {
            Seq::empty()
        },
        _ => Seq::empty(),
    }
}

/// The lines of the oracle solids `0..k`.
pub open spec fn oracle_lines(name: Seq<char>, os: Seq<OracleSolid>, k: int) -> Seq<Seq<char>>
    decreases k,
{
    if k <= 0 {
        Seq::empty()
    } else {
        oracle_lines(name, os, k - 1) + oracle_line(name, os[k - 1])
    }
}

/// The line of solid `s` of a part in `area`, whose dump under `dir` is
/// committed or not.
pub open spec fn solid_line(name: Seq<char>, dir: Seq<char>, area: Seq<char>, s: PartSolid, committed: bool) -> Seq<
    Seq<char>,
> {
    let at = crate::battery::key_text(s.id, s.instance);
    match s.outcome {
        Outcome::Refused(r) => if crate::text::trim(r.why@).len() == 0 {
            seq![
                crate::geometry::problem(
                    name,
                    at + " is refused as "@ + r.kind@ + " with no reason why the refusal is right"@,
                ),
            ]
        } else {
            Seq::empty()
        },
        Outcome::Read => if area == crate::fixtures::REGRESSION_AREA@ && committed {
            seq![
                crate::geometry::problem(
                    name,
                    joined(dir, solid_dump_name(s.id, s.instance)) + " is committed under "@
                        + crate::fixtures::REGRESSION_AREA@ + "/: the part passes, so it moves into its area"@,
                ),
            ]
        } else if area != crate::fixtures::REGRESSION_AREA@ && !committed {
            seq![
                crate::geometry::problem(
                    name,
                    at + " reads but "@ + solid_dump_name(s.id, s.instance) + " is not committed (ARRIS_BLESS=1)"@,
                ),
            ]
        } else {
            Seq::empty()
        },
    }
}

/// The lines of the solids `0..k`.
pub open spec fn solid_lines(
    name: Seq<char>,
    dir: Seq<char>,
    area: Seq<char>,
    ss: Seq<PartSolid>,
    committed: Seq<bool>,
    k: int,
) -> Seq<Seq<char>>
    decreases k,
{
    if k <= 0 {
        Seq::empty()
    } else {
        solid_lines(name, dir, area, ss, committed, k - 1) + solid_line(name, dir, area, ss[k - 1], committed[k - 1])
    }
}

/// Every problem of a part fixture, in the order the lint finds them.
pub open spec fn part_lint_lines(
    dir: Seq<char>,
    name: Seq<char>,
    hash: Seq<char>,
    answered_hash: Seq<char>,
    part: PartShape,
    bytes: Result<Seq<u8>, Seq<char>>,
    oracle: Seq<OracleSolid>,
    committed: Seq<bool>,
) -> Seq<Seq<char>> {
    (if answered_hash != hash {
        seq![
            crate::geometry::problem(
                name,
                "expected.json is stale: recipe hash "@ + answered_hash + " but the fixture hashes to "@ + hash
                    + " — rerun tools/oracle/expected.py"@,
            ),
        ]
    } else {
        Seq::empty()
    }) + match bytes {
        Ok(b) => if hex_of(sha256_of(b)) != part.sha256@ {
            seq![
                crate::geometry::problem(
                    name,
                    part.file@ + " hashes to "@ + hex_of(sha256_of(b)) + ", not the fixture's "@ + part.sha256@,
                ),
            ]
        } else {
            Seq::empty()
        },
        Err(e) => seq![crate::geometry::problem(name, part.file@ + ": "@ + e)],
    } + (if crate::text::trim(part.source@).len() == 0 {
        seq![crate::geometry::problem(name, "a part names its source and quotes its licence"@)]
    } else {
        Seq::empty()
    }) + (if crate::text::trim(part.licence@).len() == 0 {
        seq![crate::geometry::problem(name, "a part names its source and quotes its licence"@)]
    } else {
        Seq::empty()
    }) + oracle_lines(name, oracle, oracle.len() as int) + solid_lines(
        name,
        dir,
        crate::fixtures::first_segment(name),
        part.solids@,
        committed,
        part.solids@.len() as int,
    )
}

fn lint_oracle_solid(out: &mut Vec<String>, name: &str, s: &OracleSolid)
    ensures
        crate::geometry::texts(final(out)@) == crate::geometry::texts(old(out)@) + oracle_line(name@, *s),
{
    let ghost base = crate::geometry::texts(out@);
    if let (Some(chi), Some(genus)) = (s.euler_characteristic, s.genus) {
        let line: i128 = 2 * (s.counts.shells as i128 - genus as i128);
        if chi as i128 != line {
            let mut l = chars_of("the oracle's #");
            push_decimal(&mut l, s.id);
            push_str(&mut l, " is off the Euler line: χ ");
            crate::text::push_signed(&mut l, chi as i128);
            push_str(&mut l, ", 2(S − G) ");
            crate::text::push_signed(&mut l, line);
            crate::geometry::push_problem(out, name, l);
        }
    }
    assert(crate::geometry::texts(out@) =~= base + oracle_line(name@, *s));
}

fn lint_part_solid(out: &mut Vec<String>, name: &str, dir: &str, area: &str, s: &PartSolid, committed: bool)
    ensures
        crate::geometry::texts(final(out)@) == crate::geometry::texts(old(out)@) + solid_line(
            name@,
            dir@,
            area@,
            *s,
            committed,
        ),
{
    let ghost base = crate::geometry::texts(out@);
    let regression = crate::text::same_text(area, crate::fixtures::REGRESSION_AREA);
    match &s.outcome {
        Outcome::Refused(r) => {
            if crate::text::is_blank(r.why.as_str()) {
                let mut l = chars_of(crate::battery::key(s.id, s.instance).as_str());
                push_str(&mut l, " is refused as ");
                push_str(&mut l, r.kind.as_str());
                push_str(&mut l, " with no reason why the refusal is right");
                crate::geometry::push_problem(out, name, l);
            }
        },
        Outcome::Read => {
            if regression && committed {
                let mut l = chars_of(dump_path(dir, s.id, s.instance).as_str());
                push_str(&mut l, " is committed under ");
                push_str(&mut l, crate::fixtures::REGRESSION_AREA);
                push_str(&mut l, "/: the part passes, so it moves into its area");
                crate::geometry::push_problem(out, name, l);
            } else if !regression && !committed {
                let mut l = chars_of(crate::battery::key(s.id, s.instance).as_str());
                push_str(&mut l, " reads but ");
                let mut file = chars_of("dump.");
                push_decimal(&mut file, s.id);
                push_str(&mut file, ".");
                push_decimal(&mut file, s.instance as u64);
                push_str(&mut file, ".txt");
                assert(file@ =~= solid_dump_name(s.id, s.instance));
                crate::text::push_chars(&mut l, file.as_slice());
                push_str(&mut l, " is not committed (ARRIS_BLESS=1)");
                crate::geometry::push_problem(out, name, l);
            }
        },
    }
    assert(crate::geometry::texts(out@) =~= base + solid_line(name@, dir@, area@, *s, committed));
}

/// The lint of a part fixture named `name` in the directory `dir`, whose
/// `fixture.json` hashes to `recipe_sha256` and whose `expected.json`
/// answered the one hashing to `answered_sha256`; `bytes` is its STEP
/// file's content, or why it could not be read, `oracle` the oracle's
/// solids, and `committed` whether each solid's dump is committed. The
/// answer is for this fixture; the file is the one hashed; the fixture
/// names its source and quotes its licence; every oracle solid with χ
/// and a genus is on the Euler line; every refusal says why it is right;
/// and every read solid's dump is committed, but none under the
/// regression area, where a part waits for its fix. One line per
/// problem, in that order.
pub fn lint(
    dir: &str,
    name: &str,
    recipe_sha256: &str,
    answered_sha256: &str,
    part: &PartShape,
    bytes: Result<&[u8], &str>,
    oracle: &[OracleSolid],
    committed: &[bool],
) -> (v: Vec<String>)
    requires
        committed@.len() == part.solids@.len(),
    ensures
        crate::geometry::texts(v@) == part_lint_lines(
            dir@,
            name@,
            recipe_sha256@,
            answered_sha256@,
            *part,
            match bytes {
                Ok(b) => Ok(b@),
                Err(e) => Err(e@),
            },
            oracle@,
            committed@,
        ),
{
    let mut out: Vec<String> = Vec::new();
    if !crate::text::same_text(answered_sha256, recipe_sha256) {
        let mut l = chars_of("expected.json is stale: recipe hash ");
        push_str(&mut l, answered_sha256);
        push_str(&mut l, " but the fixture hashes to ");
        push_str(&mut l, recipe_sha256);
        push_str(&mut l, " — rerun tools/oracle/expected.py");
        crate::geometry::push_problem(&mut out, name, l);
    }
    match bytes {
        Ok(b) => {
            let digest = sha256_hex(b);
            if !crate::text::same_text(digest.as_str(), part.sha256.as_str()) {
                let mut l = chars_of(part.file.as_str());
                push_str(&mut l, " hashes to ");
                push_str(&mut l, digest.as_str());
                push_str(&mut l, ", not the fixture's ");
                push_str(&mut l, part.sha256.as_str());
                crate::geometry::push_problem(&mut out, name, l);
            }
        },
        Err(e) => {
            let mut l = chars_of(part.file.as_str());
            push_str(&mut l, ": ");
            push_str(&mut l, e);
            crate::geometry::push_problem(&mut out, name, l);
        },
    }
    if crate::text::is_blank(part.source.as_str()) {
        crate::geometry::push_problem(&mut out, name, chars_of("a part names its source and quotes its licence"));
    }
    if crate::text::is_blank(part.licence.as_str()) {
        crate::geometry::push_problem(&mut out, name, chars_of("a part names its source and quotes its licence"));
    }
    let ghost head = crate::geometry::texts(out@);
    let mut k: usize = 0;
    while k < oracle.len()
        invariant
            k <= oracle@.len(),
            crate::geometry::texts(out@) == head + oracle_lines(name@, oracle@, k as int),
        decreases oracle@.len() - k,
    {
        lint_oracle_solid(&mut out, name, &oracle[k]);
        k = k + 1;
    }
    let area_name = crate::fixtures::first_segment_of(name);
    let area = string_of(area_name.as_slice());
    let ghost head = crate::geometry::texts(out@);
    let mut k: usize = 0;
    while k < part.solids.len()
        invariant
            k <= part.solids@.len(),
            committed@.len() == part.solids@.len(),
            area@ == crate::fixtures::first_segment(name@),
            crate::geometry::texts(out@) == head + solid_lines(
                name@,
                dir@,
                crate::fixtures::first_segment(name@),
                part.solids@,
                committed@,
                k as int,
            ),
        decreases part.solids@.len() - k,
    {
        lint_part_solid(&mut out, name, dir, area.as_str(), &part.solids[k], committed[k]);
        k = k + 1;
    }
    out
}

} // verus!
