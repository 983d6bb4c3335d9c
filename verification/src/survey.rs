//! What a survey of a part the corpus does not hold found: its solids
//! read, its battery's classes, every refusal under the cycle it blocks
//! and every kernel bug met.

use vstd::prelude::*;
use crate::battery::Class;
use crate::sorted::{canon, count_of, count_up, entries_view, lemma_canon, map_of, strictly_sorted, sum_counts};
use crate::text::{chars_of, decimal, push_decimal, push_str, string_of};

verus! {

/// One refusal a survey counted.
#[derive(Debug, Clone, PartialEq, Eq)]
pub struct Counted {
    /// The solid, `#id[instance]`, or the file for a parse error.
    pub at: String,
    /// The stage, as the histogram's stage names print it.
    pub stage: String,
    /// The refusal's name: the reader's kind, or the differential's name
    /// of the operation's error.
    pub name: String,
    /// The cycle it blocks, as the histogram prints it.
    pub cycle: String,
}

/// What a survey of one file found.
#[derive(Debug, Clone, PartialEq, Default)]
pub struct Report {
    /// The part's name: the file's stem.
    pub part: String,
    /// Solid instances read.
    pub read: usize,
    /// Every refusal, the reader's and the battery's Arris refusals.
    pub refusals: Vec<Counted>,
    /// Each battery stage's class, `(solid, stage, class)`: `agree`,
    /// `both-refuse`, `oracle-refuses` or `arris-refuses`.
    pub classes: Vec<(String, String, String)>,
    /// Every kernel bug met, in words.
    pub failures: Vec<String>,
}

/// The class's name, as a fixture records it.
pub open spec fn class_name_of(class: Class) -> Seq<char> {
    match class {
        Class::Agree => "agree"@,
        Class::BothRefuse => "both-refuse"@,
        Class::OracleRefuses => "oracle-refuses"@,
        Class::ArrisRefuses(_) => "arris-refuses"@,
        Class::WaitsOn(_) => "waits-on"@,
    }
}

/// The class's name, as a fixture records it.
pub fn class_name(class: &Class) -> (s: &'static str)
    ensures
        s@ == class_name_of(*class),
{
    match class {
        Class::Agree => "agree",
        Class::BothRefuse => "both-refuse",
        Class::OracleRefuses => "oracle-refuses",
        Class::ArrisRefuses(_) => "arris-refuses",
        Class::WaitsOn(_) => "waits-on",
    }
}

} // verus!

verus! {

/// One solid instance as the reader numbered it: its `#id`, whether the
/// reader returned a body, and whether that body held to the oracle.
#[derive(Debug, Clone, Copy, PartialEq, Eq, Structural)]
pub struct SolidRead {
    /// The `#id` of its solid entity.
    pub id: u64,
    /// The reader returned a body.
    pub read: bool,
    /// The body held to the oracle's reading.
    pub held: bool,
}

/// Which solids the battery runs on: the first placement of each solid
/// held, in order.
pub open spec fn battery_runs(solids: Seq<SolidRead>, k: int) -> Seq<bool>
    decreases k,
{
    if k <= 0 {
        Seq::empty()
    } else {
        let r = battery_runs(solids, k - 1);
        let s = solids[k - 1];
        r.push(s.held && !(exists|j: int| 0 <= j < k - 1 && r[j] && #[trigger] solids[j].id == s.id))
    }
}

proof fn lemma_battery_runs_len(solids: Seq<SolidRead>, k: int)
    requires
        0 <= k,
    ensures
        battery_runs(solids, k).len() == k,
    decreases k,
{
    if k > 0 {
        lemma_battery_runs_len(solids, k - 1);
    }
}

/// Which of `solids` the battery runs on: the first placement of each
/// solid held; a later placement, or a read that failed its stages, is
/// kept out.
pub fn battery_solids(solids: &[SolidRead]) -> (run: Vec<bool>)
    ensures
        run@ == battery_runs(solids@, solids@.len() as int),
{
    let mut run: Vec<bool> = Vec::new();
    let mut first: Vec<u64> = Vec::new();
    let mut k: usize = 0;
    while k < solids.len()
        invariant
            k <= solids@.len(),
            run@ == battery_runs(solids@, k as int),
            run@.len() == k,
            forall|x: u64| first@.contains(x) <==> exists|j: int| 0 <= j < k && run@[j] && #[trigger] solids@[j].id == x,
        decreases solids@.len() - k,
    {
        let s = solids[k];
        let mut seen = false;
        let mut f: usize = 0;
        while f < first.len()
            invariant
                f <= first@.len(),
                seen == (exists|q: int| 0 <= q < f && first@[q] == s.id),
            decreases first@.len() - f,
        {
            if first[f] == s.id {
                seen = true;
            }
            f = f + 1;
        }
        assert(seen == first@.contains(s.id));
        let r = s.held && !seen;
        let ghost prev_run = run@;
        let ghost prev_first = first@;
        run.push(r);
        if r {
            first.push(s.id);
        }
        proof {
            assert(solids@[k as int] == s);
            assert(run@ == battery_runs(solids@, k + 1));
            assert forall|x: u64| first@.contains(x) <==> exists|j: int| 0 <= j < k + 1 && run@[j] && #[trigger] solids@[j].id == x by {
                if first@.contains(x) {
                    if r && x == s.id {
                        assert(run@[k as int] && solids@[k as int].id == x);
                    } else {
                        assert(prev_first.contains(x)) by {
                            let q = choose|q: int| 0 <= q < first@.len() && first@[q] == x;
                            assert(prev_first[q] == x);
                        }
                        let j = choose|j: int| 0 <= j < k && prev_run[j] && #[trigger] solids@[j].id == x;
                        assert(run@[j] == prev_run[j]);
                    }
                }
                if exists|j: int| 0 <= j < k + 1 && run@[j] && #[trigger] solids@[j].id == x {
                    let j = choose|j: int| 0 <= j < k + 1 && run@[j] && #[trigger] solids@[j].id == x;
                    if j < k {
                        assert(run@[j] == prev_run[j]);
                        assert(prev_first.contains(x));
                        let q = choose|q: int| 0 <= q < prev_first.len() && prev_first[q] == x;
                        assert(first@[q] == x);
                    } else {
                        assert(r);
                        assert(first@[first@.len() - 1] == x);
                    }
                }
            }
        }
        k = k + 1;
    }
    run
}

/// How many times each `#id` stands in `ids`.
pub open spec fn id_counts(ids: Seq<u64>) -> Map<u64, usize>
    decreases ids.len(),
{
    if ids.len() == 0 {
        Map::empty()
    } else {
        let m = id_counts(ids.drop_last());
        m.insert(ids.last(), (count_of(m, ids.last()) + 1) as usize)
    }
}

/// How many of the first `k` solids are of `#id` and refused.
pub open spec fn refused_of(solids: Seq<SolidRead>, id: u64, k: int) -> nat
    decreases k,
{
    if k <= 0 {
        0
    } else {
        refused_of(solids, id, k - 1) + if solids[k - 1].id == id && !solids[k - 1].read { 1nat } else { 0nat }
    }
}

/// How many of the first `k` solids are of `#id`, read, and failed their
/// stages.
pub open spec fn failed_of(solids: Seq<SolidRead>, id: u64, k: int) -> nat
    decreases k,
{
    if k <= 0 {
        0
    } else {
        failed_of(solids, id, k - 1) + if solids[k - 1].id == id && solids[k - 1].read && !solids[k - 1].held {
            1nat
        } else {
            0nat
        }
    }
}

/// The failure of `n` oracle solids of `#id` that nothing accounts for.
pub open spec fn unaccounted_text(id: u64, n: nat) -> Seq<char> {
    "Open CASCADE reads "@ + decimal(n) + " solid(s) of #"@ + decimal(id as nat)
        + " that Arris neither reads nor refuses"@
}

/// The failures of the `#id`s `e`, `(id, oracle solids left)`, in order:
/// each with more solids left than Arris refused or failed to hold.
pub open spec fn unaccounted_lines(e: Seq<(u64, usize)>, solids: Seq<SolidRead>) -> Seq<Seq<char>>
    decreases e.len(),
{
    if e.len() == 0 {
        Seq::empty()
    } else {
        let (id, n) = e.last();
        let k = solids.len() as int;
        unaccounted_lines(e.drop_last(), solids) + if n > refused_of(solids, id, k) + failed_of(solids, id, k) {
            seq![unaccounted_text(id, n as nat)]
        } else {
            Seq::empty()
        }
    }
}

/// The texts of `v`.
pub open spec fn texts(v: Seq<String>) -> Seq<Seq<char>> {
    v.map_values(|s: String| s@)
}

/// The oracle's solids that no read matched, `left` (their `#id`s),
/// held to what Arris made of `solids`: for each `#id` in order, a
/// failure where the oracle has more of it left than Arris refused or
/// failed to hold — a solid of the file Arris neither reads nor refuses.
pub fn unaccounted(left: &[u64], solids: &[SolidRead]) -> (v: Vec<String>)
    requires
        left@.len() < usize::MAX,
    ensures
        texts(v@) == unaccounted_lines(canon::<u64, usize>(id_counts(left@)), solids@),
{
    let mut entries: Vec<(u64, usize)> = Vec::new();
    let mut i: usize = 0;
    assert(entries_view(entries@) =~= Seq::<(u64, usize)>::empty());
    assert(left@.take(0) =~= Seq::<u64>::empty());
    while i < left.len()
        invariant
            i <= left@.len(),
            left@.len() < usize::MAX,
            strictly_sorted::<u64, usize>(entries_view(entries@)),
            map_of(entries_view(entries@)) == id_counts(left@.take(i as int)),
            sum_counts(entries_view(entries@)) == i,
        decreases left@.len() - i,
    {
        proof {
            let s = entries_view(entries@);
            crate::sorted::lemma_map_of::<u64, usize>(s);
            if map_of(s).contains_key(left@[i as int]) {
                let a = choose|a: int| 0 <= a < s.len() && s[a].0 == left@[i as int];
                crate::sorted::lemma_sum_bounds(s, a);
                assert(map_of(s)[s[a].0] == s[a].1);
            }
        }
        count_up(&mut entries, left[i]);
        assert(left@.take(i + 1).drop_last() =~= left@.take(i as int));
        assert(left@.take(i + 1).last() == left@[i as int]);
        i = i + 1;
    }
    assert(left@.take(i as int) =~= left@);
    let ghost e = entries_view(entries@);
    proof {
        lemma_canon::<u64, usize>(e);
    }
    let mut out: Vec<String> = Vec::new();
    let mut a: usize = 0;
    assert(texts(out@) =~= unaccounted_lines(e.take(0), solids@));
    while a < entries.len()
        invariant
            a <= entries@.len(),
            e == entries_view(entries@),
            texts(out@) == unaccounted_lines(e.take(a as int), solids@),
        decreases entries@.len() - a,
    {
        let (id, n) = entries[a];
        let mut refused: usize = 0;
        let mut failed: usize = 0;
        let mut k: usize = 0;
        while k < solids.len()
            invariant
                k <= solids@.len(),
                refused == refused_of(solids@, id, k as int),
                failed == failed_of(solids@, id, k as int),
                refused + failed <= k,
            decreases solids@.len() - k,
        {
            let s = solids[k];
            if s.id == id && !s.read {
                refused = refused + 1;
            }
            if s.id == id && s.read && !s.held {
                failed = failed + 1;
            }
            k = k + 1;
        }
        let ghost before = texts(out@);
        if n > refused + failed {
            let mut l = chars_of("Open CASCADE reads ");
            push_decimal(&mut l, n as u64);
            push_str(&mut l, " solid(s) of #");
            push_decimal(&mut l, id);
            push_str(&mut l, " that Arris neither reads nor refuses");
            out.push(string_of(l.as_slice()));
            assert(texts(out@) =~= before.push(unaccounted_text(id, n as nat)));
        }
        assert(e.take(a + 1).drop_last() =~= e.take(a as int));
        assert(e.take(a + 1).last() == (id, n));
        a = a + 1;
    }
    assert(e.take(a as int) =~= e);
    out
}

} // verus!

verus! {

/// The class name a survey records a battery stage judged `o` at;
/// `None` for an outcome that is a kernel bug.
pub open spec fn recorded_class(o: crate::differential::Outcome) -> Option<Seq<char>> {
    match o {
        crate::differential::Outcome::Agree => Some("agree"@),
        crate::differential::Outcome::BothRefuse => Some("both-refuse"@),
        crate::differential::Outcome::OracleRefuses(_) => Some("oracle-refuses"@),
        crate::differential::Outcome::ArrisRefuses(_) => Some("arris-refuses"@),
        _ => None,
    }
}

/// The texts of a report's classes.
pub open spec fn class_views(v: Seq<(String, String, String)>) -> Seq<(Seq<char>, Seq<char>, Seq<char>)> {
    v.map_values(|c: (String, String, String)| (c.0@, c.1@, c.2@))
}

/// The texts of a report's refusals.
pub open spec fn counted_views(v: Seq<Counted>) -> Seq<(Seq<char>, Seq<char>, Seq<char>, Seq<char>)> {
    v.map_values(|c: Counted| (c.at@, c.stage@, c.name@, c.cycle@))
}

/// The cycle a refusal typed `r` blocks at `stage`.
pub open spec fn refused_cycle(r: crate::battery::Refused, stage: crate::histogram::Stage) -> Option<crate::histogram::Cycle> {
    match r {
        crate::battery::Refused::Read(x) => Some(crate::histogram::refusal_cycle(x)),
        crate::battery::Refused::Op(e) => crate::histogram::op_cycle(stage, e),
    }
}

/// `key stage: what`, as a survey's failures name a stage.
pub open spec fn stage_failure(key: Seq<char>, stage: Seq<char>, what: Seq<char>) -> Seq<char> {
    key + " "@ + stage + ": "@ + what
}

/// Records the battery stage `stage` of the solid `key`, judged
/// `outcome`, with Arris's refusal typed as `refused` where it has one:
/// a kernel bug a failure; any other outcome its class; and an Arris
/// refusal at a stage the histogram names counted under the cycle it
/// blocks, or, an internal fault blocking none, a failure.
pub fn record_stage(
    report: &mut Report,
    key: &str,
    stage: &str,
    outcome: &crate::differential::Outcome,
    refused: Option<&crate::battery::Refused>,
)
    ensures
        final(report).part == old(report).part,
        final(report).read == old(report).read,
        match recorded_class(*outcome) {
            None => {
                &&& final(report).classes@ == old(report).classes@
                &&& final(report).refusals@ == old(report).refusals@
                &&& texts(final(report).failures@) == texts(old(report).failures@).push(
                    stage_failure(key@, stage@, crate::differential::outcome_text(*outcome)),
                )
            },
            Some(c) => {
                &&& class_views(final(report).classes@) == class_views(old(report).classes@).push((key@, stage@, c))
                &&& match (*outcome, refused, crate::histogram::Stage::spec_of_name(stage@)) {
                    (crate::differential::Outcome::ArrisRefuses(why), Some(r), Some(at)) => match refused_cycle(*r, at) {
                        Some(cycle) => {
                            &&& counted_views(final(report).refusals@) == counted_views(old(report).refusals@).push(
                                (key@, stage@, why@, cycle.spec_name()),
                            )
                            &&& final(report).failures@ == old(report).failures@
                        },
                        None => {
                            &&& final(report).refusals@ == old(report).refusals@
                            &&& texts(final(report).failures@) == texts(old(report).failures@).push(
                                stage_failure(key@, stage@, why@),
                            )
                        },
                    },
                    _ => {
                        &&& final(report).refusals@ == old(report).refusals@
                        &&& final(report).failures@ == old(report).failures@
                    },
                }
            },
        },
{
    let class = match Class::of(outcome) {
        Some(c) => c,
        None => {
            let mut w = chars_of(key);
            push_str(&mut w, " ");
            push_str(&mut w, stage);
            push_str(&mut w, ": ");
            let t = outcome.text();
            push_str(&mut w, t.as_str());
            let ghost before = report.failures@;
            report.failures.push(string_of(w.as_slice()));
            assert(texts(report.failures@) =~= texts(before).push(w@));
            return;
        },
    };
    let name = class_name(&class);
    let ghost classes = report.classes@;
    report.classes.push((string_of(chars_of(key).as_slice()), string_of(chars_of(stage).as_slice()), string_of(chars_of(name).as_slice())));
    assert(class_views(report.classes@) =~= class_views(classes).push((key@, stage@, name@)));
    if let crate::differential::Outcome::ArrisRefuses(why) = outcome {
        if let Some(r) = refused {
            if let Some(at) = crate::histogram::Stage::of_name(stage) {
                match r.blocks(at) {
                    Some(cycle) => {
                        let ghost before = report.refusals@;
                        report.refusals.push(
                            Counted {
                                at: string_of(chars_of(key).as_slice()),
                                stage: string_of(chars_of(stage).as_slice()),
                                name: string_of(chars_of(why.as_str()).as_slice()),
                                cycle: cycle.name(),
                            },
                        );
                        assert(counted_views(report.refusals@) =~= counted_views(before).push(
                            (key@, stage@, why@, cycle.spec_name()),
                        ));
                    },
                    None => {
                        let mut w = chars_of(key);
                        push_str(&mut w, " ");
                        push_str(&mut w, stage);
                        push_str(&mut w, ": ");
                        push_str(&mut w, why.as_str());
                        let ghost before = report.failures@;
                        report.failures.push(string_of(w.as_slice()));
                        assert(texts(report.failures@) =~= texts(before).push(w@));
                    },
                }
            }
        }
    }
}

/// Records one solid instance the reader numbered `at`: read, or
/// refused with the kind that prints as `kind`, counted at the read
/// under the cycle the refusal blocks.
pub fn record_solid(report: &mut Report, at: &str, refusal: Option<(&str, &crate::ops::ReadRefusal)>)
    requires
        refusal is None ==> old(report).read < usize::MAX,
    ensures
        final(report).part == old(report).part,
        final(report).classes@ == old(report).classes@,
        final(report).failures@ == old(report).failures@,
        match refusal {
            None => {
                &&& final(report).read == old(report).read + 1
                &&& final(report).refusals@ == old(report).refusals@
            },
            Some((kind, r)) => {
                &&& final(report).read == old(report).read
                &&& counted_views(final(report).refusals@) == counted_views(old(report).refusals@).push(
                    (at@, "read"@, kind@, crate::histogram::refusal_cycle(*r).spec_name()),
                )
            },
        },
{
    match refusal {
        None => {
            report.read = report.read + 1;
        },
        Some((kind, r)) => {
            let ghost before = report.refusals@;
            let cycle = crate::histogram::blocks_refusal(r);
            report.refusals.push(
                Counted {
                    at: string_of(chars_of(at).as_slice()),
                    stage: string_of(chars_of(crate::histogram::Stage::Read.name()).as_slice()),
                    name: string_of(chars_of(kind).as_slice()),
                    cycle: cycle.name(),
                },
            );
            assert(counted_views(report.refusals@) =~= counted_views(before).push(
                (at@, "read"@, kind@, crate::histogram::refusal_cycle(*r).spec_name()),
            ));
        },
    }
}

/// One solid instance as the reader numbered it, and its refusal where
/// the reader refused it: the kind as it prints, and the refusal.
#[derive(Debug, Clone, PartialEq, Eq)]
pub struct ReadSolid {
    pub id: u64,
    pub instance: u32,
    pub refusal: Option<(String, crate::ops::ReadRefusal)>,
}

/// What counting each of `ss` at the read records of its refusals, in
/// order.
pub open spec fn refusal_records(ss: Seq<ReadSolid>) -> Seq<(Seq<char>, Seq<char>, Seq<char>, Seq<char>)>
    decreases ss.len(),
{
    if ss.len() == 0 {
        Seq::empty()
    } else {
        refusal_records(ss.drop_last()) + match ss.last().refusal {
            Some((kind, r)) => seq![
                (
                    crate::battery::key_text(ss.last().id, ss.last().instance),
                    "read"@,
                    kind@,
                    crate::histogram::refusal_cycle(r).spec_name(),
                ),
            ],
            None => Seq::empty(),
        }
    }
}

/// How many of `ss` the reader read.
pub open spec fn reads_of(ss: Seq<ReadSolid>) -> nat
    decreases ss.len(),
{
    if ss.len() == 0 {
        0
    } else {
        reads_of(ss.drop_last()) + if ss.last().refusal is None { 1nat } else { 0nat }
    }
}

/// Whether the reader refused every one of `ss`.
pub open spec fn all_refused(ss: Seq<ReadSolid>) -> bool {
    forall|i: int| 0 <= i < ss.len() ==> (#[trigger] ss[i]).refusal is Some
}

/// The failure of a file the reader finds nothing in.
pub open spec fn unseen_text() -> Seq<char> {
    "the reader returns no solid and no refusal: a solid it does not see"@
}

proof fn lemma_reads_bound(ss: Seq<ReadSolid>)
    ensures
        reads_of(ss) <= ss.len(),
        all_refused(ss) ==> reads_of(ss) == 0,
    decreases ss.len(),
{
    if ss.len() > 0 {
        lemma_reads_bound(ss.drop_last());
        if all_refused(ss) {
            assert(ss[ss.len() - 1].refusal is Some);
            assert forall|i: int| 0 <= i < ss.len() - 1 implies (#[trigger] ss.drop_last()[i]).refusal is Some by {
                assert(ss.drop_last()[i] == ss[i]);
            }
        }
    }
}

/// Counts each of `solids` at the read: a read, or a refusal under the
/// cycle it blocks.
fn record_solids(report: &mut Report, solids: &[ReadSolid])
    requires
        old(report).read + solids@.len() <= usize::MAX,
    ensures
        final(report).part == old(report).part,
        final(report).classes@ == old(report).classes@,
        final(report).failures@ == old(report).failures@,
        final(report).read == old(report).read + reads_of(solids@),
        counted_views(final(report).refusals@) == counted_views(old(report).refusals@) + refusal_records(solids@),
{
    let ghost r0 = *report;
    let mut i: usize = 0;
    assert(solids@.take(0) =~= Seq::<ReadSolid>::empty());
    while i < solids.len()
        invariant
            i <= solids@.len(),
            r0.read + solids@.len() <= usize::MAX,
            report.part == r0.part,
            report.classes@ == r0.classes@,
            report.failures@ == r0.failures@,
            report.read == r0.read + reads_of(solids@.take(i as int)),
            counted_views(report.refusals@) == counted_views(r0.refusals@) + refusal_records(solids@.take(i as int)),
        decreases solids@.len() - i,
    {
        let s = &solids[i];
        proof {
            lemma_reads_bound(solids@.take(i as int));
            assert(solids@.take(i + 1).drop_last() =~= solids@.take(i as int));
            assert(solids@.take(i + 1).last() == solids@[i as int]);
        }
        let at = crate::battery::key(s.id, s.instance);
        match &s.refusal {
            Some((kind, r)) => record_solid(report, at.as_str(), Some((kind.as_str(), r))),
            None => record_solid(report, at.as_str(), None),
        }
        assert(counted_views(report.refusals@) =~= counted_views(r0.refusals@) + refusal_records(solids@.take(i + 1)));
        i = i + 1;
    }
    assert(solids@.take(solids@.len() as int) =~= solids@);
}

/// What a survey does once the reader has read the file: a file that
/// reads to no solid and no refusal is a failure, and one whose every
/// solid the reader refuses counts each refusal; either way the survey
/// stops there (`false`). Otherwise it goes on to the oracle (`true`),
/// the report as it was.
pub fn after_read(report: &mut Report, solids: &[ReadSolid]) -> (go_on: bool)
    requires
        old(report).read + solids@.len() <= usize::MAX,
    ensures
        final(report).part == old(report).part,
        final(report).read == old(report).read,
        final(report).classes@ == old(report).classes@,
        go_on == (solids@.len() > 0 && !all_refused(solids@)),
        solids@.len() == 0 ==> texts(final(report).failures@) == texts(old(report).failures@).push(unseen_text())
            && final(report).refusals@ == old(report).refusals@,
        solids@.len() > 0 && all_refused(solids@) ==> final(report).failures@ == old(report).failures@
            && counted_views(final(report).refusals@) == counted_views(old(report).refusals@) + refusal_records(solids@),
        go_on ==> final(report).failures@ == old(report).failures@ && final(report).refusals@ == old(report).refusals@,
{
    if solids.len() == 0 {
        let ghost before = report.failures@;
        report.failures.push(string_of(chars_of("the reader returns no solid and no refusal: a solid it does not see").as_slice()));
        assert(texts(report.failures@) =~= texts(before).push(unseen_text()));
        return false;
    }
    let mut every = true;
    let mut i: usize = 0;
    while i < solids.len()
        invariant
            i <= solids@.len(),
            every == forall|j: int| 0 <= j < i ==> (#[trigger] solids@[j]).refusal is Some,
        decreases solids@.len() - i,
    {
        if solids[i].refusal.is_none() {
            every = false;
        }
        i = i + 1;
    }
    if every {
        proof {
            lemma_reads_bound(solids@);
        }
        record_solids(report, solids);
        false
    } else {
        true
    }
}

/// What a survey does once the oracle has answered the file: where it
/// could not read it, every read is unverified — each solid is counted,
/// read or refused, and, where any was read, the oracle's refusal is a
/// failure — and the survey stops (`false`). Otherwise it goes on
/// (`true`), the report as it was.
pub fn after_oracle(report: &mut Report, solids: &[ReadSolid], oracle: Result<(), String>) -> (go_on: bool)
    requires
        old(report).read + solids@.len() <= usize::MAX,
    ensures
        go_on == (oracle is Ok),
        go_on ==> *final(report) == *old(report),
        final(report).part == old(report).part,
        final(report).classes@ == old(report).classes@,
        oracle matches Err(why) ==> {
            &&& final(report).read == old(report).read + reads_of(solids@)
            &&& counted_views(final(report).refusals@) == counted_views(old(report).refusals@) + refusal_records(solids@)
            &&& texts(final(report).failures@) == if final(report).read > 0 {
                texts(old(report).failures@).push(why@)
            } else {
                texts(old(report).failures@)
            }
        },
{
    match oracle {
        Ok(()) => true,
        Err(why) => {
            proof {
                lemma_reads_bound(solids@);
            }
            record_solids(report, solids);
            if report.read > 0 {
                let ghost before = report.failures@;
                report.failures.push(why);
                assert(texts(report.failures@) =~= texts(before).push(why@));
            }
            false
        },
    }
}

} // verus!
