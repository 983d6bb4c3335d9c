//! The decisions around the Open CASCADE oracle: what a run of
//! `compare.py` answered, why `expected.py` refused a recipe, and how one
//! round of a batch of recipes settles — which answered, which refused,
//! which run again, and when the oracle had no environment at all.

use vstd::prelude::*;
use crate::corpus::joined;
use crate::lines::{lines, lines_of, views};
use crate::text::{chars_of, contains, contains_text, matches_at, occurs_at, push_str, string_of};

verus! {

/// Why the oracle did not answer, or answered no.
#[derive(Debug, Clone, PartialEq, Eq)]
pub enum OracleError {
    /// A file could not be written to the scratch directory.
    Write {
        /// The file.
        path: String,
        /// The cause.
        message: String,
    },
    /// `uv` could not be run, or a script refused: no environment, a
    /// stale `expected.json`, an unknown variant, a recipe the oracle
    /// cannot build.
    Environment {
        /// What `uv` or the script said.
        message: String,
    },
    /// `compare.py` ran and found a difference; the table says which.
    Mismatch {
        /// The fixture compared against.
        fixture: String,
        /// The STEP file, kept for inspection.
        file: String,
        /// The comparison table.
        table: String,
    },
}

/// What an oracle error says.
pub open spec fn error_text(e: OracleError) -> Seq<char> {
    match e {
        OracleError::Write { path, message } => "could not write "@ + path@ + ": "@ + message@,
        OracleError::Environment { message } => "the oracle could not run: "@ + message@
            + "\nrun `uv sync --project tools/oracle` (tools/oracle/README.md)"@,
        OracleError::Mismatch { fixture, file, table } => fixture@ + " does not match Arris's STEP ("@
            + file@ + "):\n"@ + table@,
    }
}

impl OracleError {
    /// What the error says, as its message prints.
    pub fn message(&self) -> (s: String)
        ensures
            s@ == error_text(*self),
    {
        let mut out: Vec<char> = Vec::new();
        match self {
            OracleError::Write { path, message } => {
                push_str(&mut out, "could not write ");
                push_str(&mut out, path.as_str());
                push_str(&mut out, ": ");
                push_str(&mut out, message.as_str());
            },
            OracleError::Environment { message } => {
                push_str(&mut out, "the oracle could not run: ");
                push_str(&mut out, message.as_str());
                push_str(&mut out, "\nrun `uv sync --project tools/oracle` (tools/oracle/README.md)");
            },
            OracleError::Mismatch { fixture, file, table } => {
                push_str(&mut out, fixture.as_str());
                push_str(&mut out, " does not match Arris's STEP (");
                push_str(&mut out, file.as_str());
                push_str(&mut out, "):\n");
                push_str(&mut out, table.as_str());
            },
        }
        string_of(out.as_slice())
    }
}

/// The scratch directory files go to for the oracle to read:
/// `target/inspect/` under the workspace root `root`.
pub fn scratch_dir(root: &str) -> (d: String)
    ensures
        d@ == joined(root@, "target/inspect"@),
{
    let mut out = chars_of(root);
    if out.len() > 0 && out[out.len() - 1] != '/' {
        out.push('/');
    }
    push_str(&mut out, "target/inspect");
    string_of(out.as_slice())
}

/// What a run of `compare.py` answered, by its exit code and output: a
/// `MATCH` on exit 0 is the table; exit 1 is a mismatch; anything else
/// is no environment.
pub open spec fn compare_answer(
    r: Result<String, OracleError>,
    code: Option<i32>,
    stdout: Seq<char>,
    stderr: Seq<char>,
    fixture: Seq<char>,
    file: Seq<char>,
) -> bool {
    if code == Some(0i32) && contains_text(stdout, "MATCH"@) {
        r matches Ok(t) && t@ == stdout
    } else if code == Some(1i32) {
        r matches Err(OracleError::Mismatch { fixture: f, file: p, table }) && f@ == fixture && p@
            == file && table@ == stdout
    } else {
        r matches Err(OracleError::Environment { message }) && message@ == stdout + stderr
    }
}

/// What a run of `compare.py` on `file` against `fixture` answered, from
/// its exit code (`None` where a signal ended it) and output.
pub fn compare_verdict(code: Option<i32>, stdout: &str, stderr: &str, fixture: &str, file: &str) -> (r: Result<String, OracleError>)
    ensures
        compare_answer(r, code, stdout@, stderr@, fixture@, file@),
{
    let table = string_of(chars_of(stdout).as_slice());
    let matched = match code {
        Some(c) => c == 0 && contains(stdout, "MATCH"),
        None => false,
    };
    if matched {
        return Ok(table);
    }
    match code {
        Some(c) => {
            if c == 1 {
                return Err(OracleError::Mismatch {
                    fixture: string_of(chars_of(fixture).as_slice()),
                    file: string_of(chars_of(file).as_slice()),
                    table,
                });
            }
        },
        None => {},
    }
    let mut message = chars_of(stdout);
    push_str(&mut message, stderr);
    Err(OracleError::Environment { message: string_of(message.as_slice()) })
}

/// The rest of the first line of `stderr` that starts with `prefix`.
pub open spec fn rest_after(ls: Seq<Seq<char>>, prefix: Seq<char>, i: int) -> Option<Seq<char>>
    decreases ls.len() - i,
{
    if i < 0 || i >= ls.len() {
        None
    } else if occurs_at(ls[i], prefix, 0) {
        Some(ls[i].skip(prefix.len() as int))
    } else {
        rest_after(ls, prefix, i + 1)
    }
}

/// The reason `expected.py` printed for refusing the recipe in `dir`: the
/// rest of its `<dir>: ERROR ` line.
pub open spec fn refusal_of(stderr: Seq<char>, dir: Seq<char>) -> Option<Seq<char>> {
    rest_after(lines(stderr), dir + ": ERROR "@, 0)
}

/// The reason `expected.py` printed for refusing the recipe in `dir`:
/// the rest of its `<dir>: ERROR ` line, if it printed one.
pub fn refusal(stderr: &str, dir: &str) -> (r: Option<String>)
    ensures
        match refusal_of(stderr@, dir@) {
            Some(w) => r matches Some(s) && s@ == w,
            None => r is None,
        },
{
    let mut prefix = chars_of(dir);
    push_str(&mut prefix, ": ERROR ");
    let ls = lines_of(stderr);
    let ghost l = views(ls@);
    let mut i: usize = 0;
    while i < ls.len()
        invariant
            i <= ls@.len(),
            l == views(ls@),
            l == lines(stderr@),
            prefix@ == dir@ + ": ERROR "@,
            rest_after(l, prefix@, 0) == rest_after(l, prefix@, i as int),
        decreases ls@.len() - i,
    {
        assert(l[i as int] == ls@[i as int]@);
        if matches_at(ls[i].as_slice(), prefix.as_slice(), 0) {
            let line = &ls[i];
            let mut rest: Vec<char> = Vec::new();
            let mut k = prefix.len();
            while k < line.len()
                invariant
                    prefix@.len() <= k <= line@.len(),
                    rest@ == line@.subrange(prefix@.len() as int, k as int),
                decreases line@.len() - k,
            {
                rest.push(line[k]);
                k = k + 1;
            }
            assert(rest@ =~= line@.skip(prefix@.len() as int));
            return Some(string_of(rest.as_slice()));
        }
        i = i + 1;
    }
    None
}

} // verus!

verus! {

/// What a batch holds of one recipe: nothing yet, `Ok` where the oracle
/// wrote its `expected.json`, `Err` with why it refused the recipe.
pub open spec fn answer_view(a: Option<Result<(), String>>) -> Option<Result<(), Seq<char>>> {
    match a {
        None => None,
        Some(Ok(())) => Some(Ok(())),
        Some(Err(s)) => Some(Err(s@)),
    }
}

/// The views of a batch's answers.
pub open spec fn answers_view(s: Seq<Option<Result<(), String>>>) -> Seq<Option<Result<(), Seq<char>>>> {
    s.map_values(|a: Option<Result<(), String>>| answer_view(a))
}

/// What one round of `expected.py` answered for the recipe in `dir`: `Ok`
/// where it wrote `expected.json`, `Err` where it printed why it refused
/// it, nothing where it did neither.
pub open spec fn round_answer(written: bool, stderr: Seq<char>, dir: Seq<char>) -> Option<Result<(), Seq<char>>> {
    if written {
        Some(Ok(()))
    } else {
        match refusal_of(stderr, dir) {
            Some(w) => Some(Err(w)),
            None => None,
        }
    }
}

/// The answers once the first `j` recipes pending have been read back.
pub open spec fn answered(
    a: Seq<Option<Result<(), Seq<char>>>>,
    pending: Seq<usize>,
    written: Seq<bool>,
    stderr: Seq<char>,
    dirs: Seq<Seq<char>>,
    j: int,
) -> Seq<Option<Result<(), Seq<char>>>>
    decreases j,
{
    if j <= 0 {
        a
    } else {
        let prev = answered(a, pending, written, stderr, dirs, j - 1);
        let i = pending[j - 1] as int;
        match round_answer(written[j - 1], stderr, dirs[i]) {
            Some(x) => prev.update(i, Some(x)),
            None => prev,
        }
    }
}

/// Those of the first `j` recipes pending that the round left
/// unanswered, in order.
pub open spec fn still_open(
    pending: Seq<usize>,
    written: Seq<bool>,
    stderr: Seq<char>,
    dirs: Seq<Seq<char>>,
    j: int,
) -> Seq<usize>
    decreases j,
{
    if j <= 0 {
        Seq::empty()
    } else {
        still_open(pending, written, stderr, dirs, j - 1) + if round_answer(
            written[j - 1],
            stderr,
            dirs[pending[j - 1] as int],
        ) is None {
            seq![pending[j - 1]]
        } else {
            Seq::empty()
        }
    }
}

/// The answer of a recipe the oracle died on.
pub open spec fn died_text(status: Seq<char>) -> Seq<char> {
    "the oracle died building it ("@ + status + ")"@
}

/// How one round settles: every recipe it answered or refused is
/// recorded; if none is left, the batch is done; a process a signal
/// ended died on the first recipe it had not answered, which is refused
/// with that and the rest run again; a process that exited and said
/// nothing of any recipe had no environment to run in; otherwise the
/// rest run again.
pub open spec fn settled(
    r: Result<Vec<usize>, OracleError>,
    after_answers: Seq<Option<Result<(), Seq<char>>>>,
    answers: Seq<Option<Result<(), Seq<char>>>>,
    pending: Seq<usize>,
    written: Seq<bool>,
    stderr: Seq<char>,
    dirs: Seq<Seq<char>>,
    code: Option<i32>,
    stdout: Seq<char>,
    status: Seq<char>,
) -> bool {
    let n = pending.len() as int;
    let after = answered(answers, pending, written, stderr, dirs, n);
    let open = still_open(pending, written, stderr, dirs, n);
    if open.len() == 0 {
        r matches Ok(next) && next@.len() == 0 && after_answers == after
    } else {
        match code {
            None => r matches Ok(next) && next@ == open.drop_first() && after_answers == after.update(
                open[0] as int,
                Some(Err(died_text(status))),
            ),
            Some(_) => if open.len() == n {
                r matches Err(OracleError::Environment { message }) && message@ == stdout + stderr
                    && after_answers == after
            } else {
                r matches Ok(next) && next@ == open && after_answers == after
            },
        }
    }
}

/// Settles one round of a batch: `pending` are the recipes it ran
/// (indices into `answers` and `dirs`), `written` whether each has its
/// `expected.json` now, `code` the process's exit code (`None` where a
/// signal ended it), `status` how its exit prints. Records each answer
/// and refusal in `answers` and gives back the recipes to run again, or
/// the error of an oracle with no environment.
pub fn settle_round(
    answers: &mut Vec<Option<Result<(), String>>>,
    pending: &Vec<usize>,
    written: &Vec<bool>,
    dirs: &Vec<String>,
    code: Option<i32>,
    stdout: &str,
    stderr: &str,
    status: &str,
) -> (r: Result<Vec<usize>, OracleError>)
    requires
        written@.len() == pending@.len(),
        forall|j: int| 0 <= j < pending@.len() ==> #[trigger] pending@[j] < old(answers)@.len() && pending@[j]
            < dirs@.len(),
    ensures
        final(answers)@.len() == old(answers)@.len(),
        settled(
            r,
            answers_view(final(answers)@),
            answers_view(old(answers)@),
            pending@,
            written@,
            stderr@,
            dirs@.map_values(|d: String| d@),
            code,
            stdout@,
            status@,
        ),
{
    let ghost ds = dirs@.map_values(|d: String| d@);
    let ghost a0 = answers_view(answers@);
    let mut open: Vec<usize> = Vec::new();
    let mut j: usize = 0;
    while j < pending.len()
        invariant
            j <= pending@.len(),
            written@.len() == pending@.len(),
            ds == dirs@.map_values(|d: String| d@),
            answers@.len() == old(answers)@.len(),
            forall|k: int| 0 <= k < pending@.len() ==> #[trigger] pending@[k] < answers@.len() && pending@[k]
                < dirs@.len(),
            answers_view(answers@) == answered(a0, pending@, written@, stderr@, ds, j as int),
            open@ == still_open(pending@, written@, stderr@, ds, j as int),
        decreases pending@.len() - j,
    {
        let i = pending[j];
        let ghost before = answers_view(answers@);
        assert(ds[i as int] == dirs@[i as int]@);
        if written[j] {
            answers.set(i, Some(Ok(())));
            assert(answers_view(answers@) =~= before.update(i as int, Some(Ok(()))));
        } else {
            match refusal(stderr, dirs[i].as_str()) {
                Some(why) => {
                    let ghost w = why@;
                    answers.set(i, Some(Err(why)));
                    assert(answers_view(answers@) =~= before.update(i as int, Some(Err(w))));
                },
                None => {
                    open.push(i);
                },
            }
        }
        j = j + 1;
    }
    if open.len() == 0 {
        return Ok(open);
    }
    match code {
        None => {
            let first = open.remove(0);
            let mut why = chars_of("the oracle died building it (");
            push_str(&mut why, status);
            push_str(&mut why, ")");
            let text = string_of(why.as_slice());
            let ghost before = answers_view(answers@);
            let ghost w = text@;
            assert(first < answers@.len()) by {
                assert(open@.len() + 1 == still_open(pending@, written@, stderr@, ds, pending@.len() as int).len());
                lemma_still_open_pending(pending@, written@, stderr@, ds, pending@.len() as int, 0);
            }
            answers.set(first, Some(Err(text)));
            assert(answers_view(answers@) =~= before.update(first as int, Some(Err(w))));
            Ok(open)
        },
        Some(_) => {
            if open.len() == pending.len() {
                let mut message = chars_of(stdout);
                push_str(&mut message, stderr);
                Err(OracleError::Environment { message: string_of(message.as_slice()) })
            } else {
                Ok(open)
            }
        },
    }
}

/// Every recipe the round left open is one it ran.
proof fn lemma_still_open_pending(
    pending: Seq<usize>,
    written: Seq<bool>,
    stderr: Seq<char>,
    dirs: Seq<Seq<char>>,
    j: int,
    k: int,
)
    requires
        0 <= j <= pending.len(),
        0 <= k < still_open(pending, written, stderr, dirs, j).len(),
    ensures
        exists|m: int| 0 <= m < j && pending[m] == still_open(pending, written, stderr, dirs, j)[k],
    decreases j,
{
    let prev = still_open(pending, written, stderr, dirs, j - 1);
    if k < prev.len() {
        lemma_still_open_pending(pending, written, stderr, dirs, j - 1, k);
        let m = choose|m: int| 0 <= m < j - 1 && pending[m] == prev[k];
        assert(pending[m] == still_open(pending, written, stderr, dirs, j)[k]);
    } else {
        assert(pending[j - 1] == still_open(pending, written, stderr, dirs, j)[k]);
    }
}

} // verus!
