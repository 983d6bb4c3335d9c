//! The differential's verdicts: what one recipe did in the two kernels
//! ([`Outcome`]), which of those fail a run, and the named exclusions
//! that count a known failure by its symptom while the regression
//! fixtures they cite wait for their fix.

use vstd::prelude::*;
use crate::corpus::{stage_name, Stage};
use crate::lines::{lines, lines_of, views};
use crate::sorted::count_up;
use crate::text::{
    chars_of, contains, contains_chars, contains_text, is_digit, is_space, matches_at, occurs_at, parse_trimmed,
    parse_usize, parse_usize_of, push_chars, push_str, same_text, starts_with, string_of, trim,
    trim_start, trim_start_from,
};

verus! {

/// Recipes per run when the count is not set: a draw small enough to stay
/// a few seconds warm.
pub const DEFAULT_CASES: usize = 32;

/// Candidates per shrink when the cap is not set.
pub const DEFAULT_SHRINK: usize = 64;

/// The environment variable that sets how many recipes a run draws.
pub const CASES_VAR: &'static str = "ARRIS_DIFF_CASES";

/// The environment variable that caps the candidates one failing case's
/// shrink tries.
pub const SHRINK_VAR: &'static str = "ARRIS_DIFF_SHRINK";

/// The start of a panic message that says the debug build's guard caught
/// an operation's output failing the checker: a checker violation, not a
/// plain panic.
pub const CHECKER_GUARD: &'static str = "kernel bug: an operation's output fails the checker";

/// A count read from an environment variable's value: the value trimmed
/// and parsed, or `default` where it is unset or no count.
pub open spec fn count_of_value(value: Option<Seq<char>>, default: usize) -> usize {
    match value {
        Some(v) => match parse_usize(trim(v)) {
            Some(n) => n,
            None => default,
        },
        None => default,
    }
}

fn count(value: Option<&str>, default: usize) -> (n: usize)
    ensures
        n == count_of_value(
            match value {
                Some(v) => Some(v@),
                None => None,
            },
            default,
        ),
{
    match value {
        Some(v) => match parse_trimmed(v) {
            Some(n) => n,
            None => default,
        },
        None => default,
    }
}

/// The number of recipes, given the value of [`CASES_VAR`]: that value,
/// or [`DEFAULT_CASES`].
pub fn cases(value: Option<&str>) -> (n: usize)
    ensures
        n == count_of_value(
            match value {
                Some(v) => Some(v@),
                None => None,
            },
            DEFAULT_CASES,
        ),
{
    count(value, DEFAULT_CASES)
}

/// The shrink budget, given the value of [`SHRINK_VAR`]: that value, or
/// [`DEFAULT_SHRINK`].
pub fn shrink_budget(value: Option<&str>) -> (n: usize)
    ensures
        n == count_of_value(
            match value {
                Some(v) => Some(v@),
                None => None,
            },
            DEFAULT_SHRINK,
        ),
{
    count(value, DEFAULT_SHRINK)
}

/// What one recipe did in the two kernels.
#[derive(Debug, PartialEq)]
pub enum Outcome {
    /// Both build, and every stage passes.
    Agree,
    /// Open CASCADE builds no solid or refuses the recipe, and Arris
    /// returns a typed refusal.
    BothRefuse,
    /// Open CASCADE builds a solid and Arris returns a typed refusal,
    /// named.
    ArrisRefuses(String),
    /// Arris builds and Open CASCADE refuses the recipe, with why.
    OracleRefuses(String),
    /// Both answer and a stage differs, or Arris builds a body where
    /// Open CASCADE records no solid.
    Disagree {
        /// The stage.
        stage: Stage,
        /// What differed.
        what: String,
    },
    /// Arris returns `Ok` with a shape the checker rejects, or an
    /// operation's input fails it.
    CheckerViolation(String),
    /// Arris panics.
    Panic(String),
    /// Arris returns an internal fault: a kernel bug it caught and typed.
    Internal(String),
    /// A failing outcome a named [`Exclusion`] covers: counted under its
    /// name while the regression fixtures it cites wait for their fix.
    Excluded {
        /// The exclusion's name.
        name: &'static str,
        /// The outcome it covered.
        outcome: Box<Outcome>,
    },
}

/// The classes that fail a run: a disagreement, a checker violation, a
/// panic, an internal fault.
pub open spec fn fails(o: Outcome) -> bool {
    ||| o is Disagree
    ||| o is CheckerViolation
    ||| o is Panic
    ||| o is Internal
}

/// The class's name, as the histogram prints it.
pub open spec fn class_of(o: Outcome) -> Seq<char> {
    match o {
        Outcome::Agree => "Agree"@,
        Outcome::BothRefuse => "BothRefuse"@,
        Outcome::ArrisRefuses(_) => "ArrisRefuses"@,
        Outcome::OracleRefuses(_) => "OracleRefuses"@,
        Outcome::Disagree { .. } => "Disagree"@,
        Outcome::CheckerViolation(_) => "CheckerViolation"@,
        Outcome::Panic(_) => "Panic"@,
        Outcome::Internal(_) => "Internal"@,
        Outcome::Excluded { .. } => "Excluded"@,
    }
}

/// Whether both kernels built the recipe and it was compared: an
/// agreement, or a disagreement past the build.
pub open spec fn compared(o: Outcome) -> bool {
    match o {
        Outcome::Agree => true,
        Outcome::Disagree { stage, .. } => stage != Stage::Build,
        _ => false,
    }
}

/// The text of an outcome, as a report prints it.
pub open spec fn outcome_text(o: Outcome) -> Seq<char>
    decreases o,
{
    match o {
        Outcome::Agree | Outcome::BothRefuse => class_of(o),
        Outcome::ArrisRefuses(why) | Outcome::OracleRefuses(why) | Outcome::Internal(why)
        | Outcome::CheckerViolation(why) | Outcome::Panic(why) => class_of(o) + ": "@ + why@,
        Outcome::Disagree { stage, what } => "Disagree("@ + stage_name(stage) + "): "@ + what@,
        Outcome::Excluded { name, outcome } => "Excluded("@ + name@ + "): "@ + outcome_text(*outcome),
    }
}

/// The first whitespace-delimited word of `t`, where `t` starts with no
/// white space: how many characters it has.
pub open spec fn word_len(t: Seq<char>) -> nat
    decreases t.len(),
{
    if t.len() == 0 || is_space(t[0]) {
        0
    } else {
        1 + word_len(t.drop_first())
    }
}

/// The first whitespace-delimited word of `line`; empty where it has
/// none.
pub open spec fn first_word(line: Seq<char>) -> Seq<char> {
    let t = trim_start(line);
    t.subrange(0, word_len(t) as int)
}

/// Whether `w` names a checker row: a capital letter, then one digit or
/// more (`L4`, `E12`).
pub open spec fn is_row(w: Seq<char>) -> bool {
    &&& w.len() > 1
    &&& 'A' <= w[0] <= 'Z'
    &&& forall|j: int| 1 <= j < w.len() ==> is_digit(#[trigger] w[j])
}

/// The row the first line from `i` on that starts with one names.
pub open spec fn row_from(ls: Seq<Seq<char>>, i: int) -> Option<Seq<char>>
    decreases ls.len() - i,
{
    if i < 0 || i >= ls.len() {
        None
    } else if is_row(first_word(ls[i])) {
        Some(first_word(ls[i]))
    } else {
        row_from(ls, i + 1)
    }
}

/// The first checker row a report names: `L4` of `L4 f21: hole loop 0
/// lies outside every outer loop`.
pub open spec fn checker_row_of(text: Seq<char>) -> Option<Seq<char>> {
    row_from(lines(text), 0)
}

/// Whether a shrink candidate's outcome `b` shows the failure `a` is:
/// the same class; for a disagreement the same stage, for a checker
/// violation the same first row, for an internal fault the same fault.
pub open spec fn same_failure(a: Outcome, b: Outcome) -> bool {
    match (a, b) {
        (Outcome::Disagree { stage: x, .. }, Outcome::Disagree { stage: y, .. }) => x == y,
        (Outcome::Internal(x), Outcome::Internal(y)) => x@ == y@,
        (Outcome::CheckerViolation(x), Outcome::CheckerViolation(y)) => checker_row_of(x@)
            == checker_row_of(y@),
        _ => class_of(a) == class_of(b),
    }
}

/// The length of the word `s[from..]` starts with.
fn word_end(s: &[char], from: usize) -> (e: usize)
    requires
        from <= s@.len(),
    ensures
        from <= e <= s@.len(),
        e - from == word_len(s@.skip(from as int)),
    decreases s@.len() - from,
{
    if from < s.len() && !crate::text::space(s[from]) {
        assert(s@.skip(from as int).drop_first() =~= s@.skip(from + 1));
        word_end(s, from + 1)
    } else {
        from
    }
}

/// The first word of `line`, where it names a checker row.
fn row_of_line(line: &[char]) -> (r: Option<Vec<char>>)
    ensures
        match r {
            Some(w) => is_row(first_word(line@)) && w@ == first_word(line@),
            None => !is_row(first_word(line@)),
        },
{
    let from = trim_start_from(line, 0);
    assert(line@.skip(0) =~= line@);
    let e = word_end(line, from);
    let ghost t = line@.skip(from as int);
    assert(first_word(line@) =~= line@.subrange(from as int, e as int));
    if e - from < 2 {
        return None;
    }
    let c = line[from];
    if !('A' <= c && c <= 'Z') {
        return None;
    }
    let mut w: Vec<char> = Vec::new();
    w.push(c);
    let mut k = from + 1;
    while k < e
        invariant
            from < k <= e <= line@.len(),
            e - from >= 2,
            first_word(line@) == line@.subrange(from as int, e as int),
            'A' <= w@[0] <= 'Z',
            w@ == line@.subrange(from as int, k as int),
            forall|j: int| 1 <= j < w@.len() ==> is_digit(#[trigger] w@[j]),
        decreases e - k,
    {
        let d = line[k];
        if !('0' <= d && d <= '9') {
            assert(first_word(line@)[k - from] == d);
            return None;
        }
        w.push(d);
        k = k + 1;
    }
    assert(w@ == first_word(line@));
    Some(w)
}

/// The first checker row a report names (`L4` of `L4 f21: hole loop 0
/// lies outside every outer loop`), or `None`.
pub fn checker_row(text: &str) -> (r: Option<String>)
    ensures
        match r {
            Some(w) => checker_row_of(text@) == Some(w@),
            None => checker_row_of(text@) == None::<Seq<char>>,
        },
{
    let ls = lines_of(text);
    let ghost l = views(ls@);
    let mut i: usize = 0;
    while i < ls.len()
        invariant
            i <= ls@.len(),
            l == views(ls@),
            l == lines(text@),
            row_from(l, 0) == row_from(l, i as int),
        decreases ls@.len() - i,
    {
        assert(l[i as int] == ls@[i as int]@);
        match row_of_line(ls[i].as_slice()) {
            Some(w) => {
                return Some(string_of(w.as_slice()));
            },
            None => {},
        }
        i = i + 1;
    }
    None
}

impl Clone for Outcome {
    fn clone(&self) -> (r: Outcome)
        ensures
            r == *self,
    {
        self.duplicate()
    }
}

impl Outcome {
    /// A copy of the outcome.
    pub fn duplicate(&self) -> (r: Outcome)
        ensures
            r == *self,
        decreases self,
    {
        match self {
            Outcome::Agree => Outcome::Agree,
            Outcome::BothRefuse => Outcome::BothRefuse,
            Outcome::ArrisRefuses(s) => Outcome::ArrisRefuses(s.clone()),
            Outcome::OracleRefuses(s) => Outcome::OracleRefuses(s.clone()),
            Outcome::Disagree { stage, what } => Outcome::Disagree { stage: *stage, what: what.clone() },
            Outcome::CheckerViolation(s) => Outcome::CheckerViolation(s.clone()),
            Outcome::Panic(s) => Outcome::Panic(s.clone()),
            Outcome::Internal(s) => Outcome::Internal(s.clone()),
            Outcome::Excluded { name, outcome } => {
                let inner = outcome.duplicate();
                Outcome::Excluded { name: *name, outcome: Box::new(inner) }
            },
        }
    }

    /// `true` for the classes that fail the run: a disagreement, a
    /// checker violation, a panic, an internal fault.
    pub fn fails(&self) -> (r: bool)
        ensures
            r == fails(*self),
    {
        match self {
            Outcome::Disagree { .. } | Outcome::CheckerViolation(_) | Outcome::Panic(_)
            | Outcome::Internal(_) => true,
            _ => false,
        }
    }

    /// The class's name, as the histogram prints it.
    pub fn class(&self) -> (s: &'static str)
        ensures
            s@ == class_of(*self),
    {
        match self {
            Outcome::Agree => "Agree",
            Outcome::BothRefuse => "BothRefuse",
            Outcome::ArrisRefuses(_) => "ArrisRefuses",
            Outcome::OracleRefuses(_) => "OracleRefuses",
            Outcome::Disagree { .. } => "Disagree",
            Outcome::CheckerViolation(_) => "CheckerViolation",
            Outcome::Panic(_) => "Panic",
            Outcome::Internal(_) => "Internal",
            Outcome::Excluded { .. } => "Excluded",
        }
    }

    /// `true` when both kernels built the recipe and it was compared: an
    /// agreement, or a disagreement past the build.
    pub fn compared(&self) -> (r: bool)
        ensures
            r == compared(*self),
    {
        match self {
            Outcome::Agree => true,
            Outcome::Disagree { stage, .. } => !matches!(stage, Stage::Build),
            _ => false,
        }
    }

    /// Whether a shrink candidate's outcome still shows the failure
    /// `self` is: the same class; for a disagreement the same stage, for
    /// a checker violation the same first row (`L4`), for an internal
    /// fault the same fault.
    pub fn same_failure(&self, other: &Outcome) -> (r: bool)
        ensures
            r == same_failure(*self, *other),
    {
        match (self, other) {
            (Outcome::Disagree { stage: a, .. }, Outcome::Disagree { stage: b, .. }) => *a == *b,
            (Outcome::Internal(a), Outcome::Internal(b)) => same_text(a.as_str(), b.as_str()),
            (Outcome::CheckerViolation(a), Outcome::CheckerViolation(b)) => {
                let (x, y) = (checker_row(a.as_str()), checker_row(b.as_str()));
                match (x, y) {
                    (Some(x), Some(y)) => same_text(x.as_str(), y.as_str()),
                    (None, None) => true,
                    _ => false,
                }
            },
            _ => same_text(self.class(), other.class()),
        }
    }

    /// The outcome as a report prints it: `Disagree(measure): …`.
    pub fn text(&self) -> (s: String)
        ensures
            s@ == outcome_text(*self),
        decreases self,
    {
        let mut out: Vec<char> = Vec::new();
        match self {
            Outcome::Agree | Outcome::BothRefuse => {
                push_str(&mut out, self.class());
            },
            Outcome::ArrisRefuses(why) | Outcome::OracleRefuses(why) | Outcome::Internal(why)
            | Outcome::CheckerViolation(why) | Outcome::Panic(why) => {
                push_str(&mut out, self.class());
                push_str(&mut out, ": ");
                push_str(&mut out, why.as_str());
            },
            Outcome::Disagree { stage, what } => {
                push_str(&mut out, "Disagree(");
                push_str(&mut out, stage.name());
                push_str(&mut out, "): ");
                push_str(&mut out, what.as_str());
            },
            Outcome::Excluded { name, outcome } => {
                let inner = outcome.text();
                push_str(&mut out, "Excluded(");
                push_str(&mut out, name);
                push_str(&mut out, "): ");
                push_str(&mut out, inner.as_str());
            },
        }
        string_of(out.as_slice())
    }
}

} // verus!

verus! {

/// How many characters of `t`, from its start, are decimal digits.
pub open spec fn digit_count(t: Seq<char>) -> nat
    decreases t.len(),
{
    if t.len() == 0 || !is_digit(t[0]) {
        0
    } else {
        1 + digit_count(t.drop_first())
    }
}

/// The number written at `at` in `h`: its run of digits, parsed.
pub open spec fn value_at(h: Seq<char>, at: int) -> Option<usize> {
    parse_usize(h.subrange(at, at + digit_count(h.skip(at))))
}

/// The numbers after each match of `key` in `h` from `i` on, the matches
/// taken left to right without overlap as `str::match_indices` finds
/// them; a match with no number after it gives none.
pub open spec fn values_from(h: Seq<char>, key: Seq<char>, i: int) -> Seq<usize>
    decreases h.len() - i,
{
    if key.len() == 0 || i < 0 || i + key.len() > h.len() {
        Seq::empty()
    } else if occurs_at(h, key, i) {
        (match value_at(h, i + key.len()) {
            Some(v) => seq![v],
            None => Seq::empty(),
        }) + values_from(h, key, i + key.len())
    } else {
        values_from(h, key, i + 1)
    }
}

/// Arris's count of `field` and the oracle's, from a counts
/// disagreement's text (`Counts { … faces: 9, … } but the oracle says
/// Counts { … faces: 7, … }`): the first two numbers after `field: `.
pub open spec fn counts_in(o: Outcome, field: Seq<char>) -> Option<(usize, usize)> {
    match o {
        Outcome::Disagree { stage: Stage::Counts, what } => {
            let v = values_from(what@, field + ": "@, 0);
            if v.len() >= 2 {
                Some((v[0], v[1]))
            } else {
                None
            }
        },
        _ => None,
    }
}

/// The end of the run of digits `s[from..]` starts with.
fn digits_end(s: &[char], from: usize) -> (e: usize)
    requires
        from <= s@.len(),
    ensures
        from <= e <= s@.len(),
        e - from == digit_count(s@.skip(from as int)),
    decreases s@.len() - from,
{
    if from < s.len() && '0' <= s[from] && s[from] <= '9' {
        assert(s@.skip(from as int).drop_first() =~= s@.skip(from + 1));
        digits_end(s, from + 1)
    } else {
        from
    }
}

/// Arris's count of `field` and the oracle's, from a counts
/// disagreement's text (`Counts { … faces: 9, … } but the oracle says
/// Counts { … faces: 7, … }`); `None` for any other outcome, or where
/// the text has no two such numbers.
pub fn counts_of(outcome: &Outcome, field: &str) -> (r: Option<(usize, usize)>)
    ensures
        r == counts_in(*outcome, field@),
{
    let what = match outcome {
        Outcome::Disagree { stage: Stage::Counts, what } => what,
        _ => {
            return None;
        },
    };
    let h = chars_of(what.as_str());
    let mut key = chars_of(field);
    push_str(&mut key, ": ");
    proof {
        reveal_strlit(": ");
    }
    let ghost k = key@;
    let mut found: Vec<usize> = Vec::new();
    let mut i: usize = 0;
    while i <= h.len() && key.len() <= h.len() - i && found.len() < 2
        invariant
            h@ == what@,
            key@ == k,
            k == field@ + ": "@,
            k.len() > 0,
            i <= h@.len(),
            found@.len() <= 2,
            values_from(h@, k, 0) == found@ + values_from(h@, k, i as int),
        decreases h@.len() - i,
    {
        if matches_at(h.as_slice(), key.as_slice(), i) {
            let at = i + key.len();
            let e = digits_end(h.as_slice(), at);
            let v = parse_usize_of(h.as_slice(), at, e);
            let ghost before = found@;
            assert(h@.subrange(at as int, e as int) == h@.subrange(at as int, at + digit_count(h@.skip(at as int))));
            match v {
                Some(n) => {
                    found.push(n);
                },
                None => {},
            }
            assert(found@ + values_from(h@, k, at as int) =~= before + values_from(h@, k, i as int));
            i = at;
        } else {
            i = i + 1;
        }
    }
    if found.len() == 2 {
        Some((found[0], found[1]))
    } else {
        assert(values_from(h@, k, i as int) =~= Seq::<usize>::empty());
        None
    }
}

/// The symptom an exclusion covers a failure by: a checker row, a fault,
/// a count gone one way, a stage's complaint.
#[derive(Debug, Clone, Copy, PartialEq, Eq)]
pub enum Symptom {
    /// A checker violation whose report says this.
    CheckerSays(&'static str),
    /// An internal fault with this name.
    InternalIs(&'static str),
    /// A counts disagreement with fewer of this field than the oracle.
    FewerThanOracle(&'static str),
    /// A counts disagreement with more of this field than the oracle.
    MoreThanOracle(&'static str),
    /// A disagreement at this stage whose text says this.
    DisagreeSays(Stage, &'static str),
}

/// Whether `o` shows the symptom `s`.
pub open spec fn shows(s: Symptom, o: Outcome) -> bool {
    match s {
        Symptom::CheckerSays(w) => o matches Outcome::CheckerViolation(t) && contains_text(t@, w@),
        Symptom::InternalIs(f) => o matches Outcome::Internal(n) && n@ == f@,
        Symptom::FewerThanOracle(field) => counts_in(o, field@) matches Some((a, b)) && a < b,
        Symptom::MoreThanOracle(field) => counts_in(o, field@) matches Some((a, b)) && a > b,
        Symptom::DisagreeSays(st, w) => o matches Outcome::Disagree { stage, what } && stage == st
            && contains_text(what@, w@),
    }
}

/// A checker violation whose report says `what`.
pub fn checker_says(outcome: &Outcome, what: &str) -> (r: bool)
    ensures
        r == (*outcome matches Outcome::CheckerViolation(t) && contains_text(t@, what@)),
{
    match outcome {
        Outcome::CheckerViolation(t) => contains(t.as_str(), what),
        _ => false,
    }
}

/// An internal fault named `fault`.
pub fn internal_is(outcome: &Outcome, fault: &str) -> (r: bool)
    ensures
        r == (*outcome matches Outcome::Internal(n) && n@ == fault@),
{
    match outcome {
        Outcome::Internal(n) => same_text(n.as_str(), fault),
        _ => false,
    }
}

/// Whether `o` shows the symptom `s`, computed.
pub fn symptom_shows(s: Symptom, o: &Outcome) -> (r: bool)
    ensures
        r == shows(s, *o),
{
    match s {
        Symptom::CheckerSays(w) => checker_says(o, w),
        Symptom::InternalIs(f) => internal_is(o, f),
        Symptom::FewerThanOracle(field) => match counts_of(o, field) {
            Some((a, b)) => a < b,
            None => false,
        },
        Symptom::MoreThanOracle(field) => match counts_of(o, field) {
            Some((a, b)) => a > b,
            None => false,
        },
        Symptom::DisagreeSays(st, w) => match o {
            Outcome::Disagree { stage, what } => *stage == st && contains(what.as_str(), w),
            _ => false,
        },
    }
}

/// A kernel failure the draw keeps reaching, excluded by name while the
/// regression fixtures it cites wait for their fix. It covers failing
/// outcomes by their symptom, never by recipe; a failure with another
/// symptom still fails the run.
#[derive(Debug, Clone)]
pub struct Exclusion {
    /// The name the histogram counts it under.
    pub name: &'static str,
    /// The slugs under `tests/fixtures/regression/` it waits on.
    pub fixtures: Vec<&'static str>,
    /// The symptom, in words.
    pub symptom: &'static str,
    /// The symptom it covers a failing outcome by.
    pub covers: Symptom,
}

/// What an exclusion is: its name, the slugs it cites, its symptom in
/// words and the symptom it covers by.
pub struct ExclusionView {
    pub name: Seq<char>,
    pub fixtures: Seq<Seq<char>>,
    pub symptom: Seq<char>,
    pub covers: Symptom,
}

impl View for Exclusion {
    type V = ExclusionView;

    open spec fn view(&self) -> ExclusionView {
        ExclusionView {
            name: self.name@,
            fixtures: self.fixtures@.map_values(|f: &'static str| f@),
            symptom: self.symptom@,
            covers: self.covers,
        }
    }
}

/// The views of a sequence of exclusions.
pub open spec fn exclusion_views(s: Seq<Exclusion>) -> Seq<ExclusionView> {
    s.map_values(|e: Exclusion| e@)
}

/// Whether the exclusion `e` covers `o`: a failing outcome with its
/// symptom.
pub open spec fn covers(e: ExclusionView, o: Outcome) -> bool {
    fails(o) && shows(e.covers, o)
}

impl Exclusion {
    /// Whether this exclusion covers `outcome`: a failing one with its
    /// symptom.
    pub fn covers(&self, outcome: &Outcome) -> (r: bool)
        ensures
            r == covers(self@, *outcome),
    {
        outcome.fails() && symptom_shows(self.covers, outcome)
    }
}

/// The first of `exs` from `i` on that covers `o`.
pub open spec fn first_cover(o: Outcome, exs: Seq<ExclusionView>, i: int) -> Option<int>
    decreases exs.len() - i,
{
    if i < 0 || i >= exs.len() {
        None
    } else if covers(exs[i], o) {
        Some(i)
    } else {
        first_cover(o, exs, i + 1)
    }
}

/// Every named exclusion, each citing the regression fixtures that pin
/// its failure.
pub open spec fn exclusion_table() -> Seq<ExclusionView> {
    seq![
        ExclusionView {
            name: "hole-loop-outside-every-outer-loop"@,
            fixtures: seq!["tilted-cylinder-slot-cut"@, "pin-at-disc-rim-common-fuse"@],
            symptom: "the checker's L4: a hole loop lies outside every outer loop"@,
            covers: Symptom::CheckerSays("lies outside every outer loop"),
        },
        ExclusionView {
            name: "loop-crosses-itself"@,
            fixtures: seq!["revolve-fuse-extrude-cut-loop-crosses-itself"@],
            symptom: "the checker's L5: a loop intersects itself"@,
            covers: Symptom::CheckerSays("intersects itself"),
        },
        ExclusionView {
            name: "split-fault"@,
            fixtures: seq!["three-cylinders-fuse-split-fault"@],
            symptom: "OpError::Internal(Split)"@,
            covers: Symptom::InternalIs("Internal(Split)"),
        },
        ExclusionView {
            name: "geometry-fault"@,
            fixtures: seq!["box-revolve-cylinder-chamfer-fuse-geometry-fault"@],
            symptom: "OpError::Internal(Geometry)"@,
            covers: Symptom::InternalIs("Internal(Geometry)"),
        },
        ExclusionView {
            name: "missing-shell"@,
            fixtures: seq!["revolve-cylinder-extrude-fuse-misses-a-shell"@],
            symptom: "fewer shells than Open CASCADE: a cavity missing"@,
            covers: Symptom::FewerThanOracle("shells"),
        },
        ExclusionView {
            name: "extra-faces"@,
            fixtures: seq!["revolve-cut-by-extrusion-extra-faces"@],
            symptom: "more faces than Open CASCADE"@,
            covers: Symptom::MoreThanOracle("faces"),
        },
        ExclusionView {
            name: "mesh-not-closed"@,
            fixtures: seq!["revolve-box-fuse-mesh-not-closed"@],
            symptom: "the tessellation is not closed"@,
            covers: Symptom::DisagreeSays(Stage::Mesh, "the mesh is not closed"),
        },
    ]
}

/// Every named exclusion, each citing the regression fixtures that pin
/// its failure.
pub fn exclusions() -> (v: Vec<Exclusion>)
    ensures
        exclusion_views(v@) == exclusion_table(),
{
    let v = vec![
        Exclusion {
            name: "hole-loop-outside-every-outer-loop",
            fixtures: vec!["tilted-cylinder-slot-cut", "pin-at-disc-rim-common-fuse"],
            symptom: "the checker's L4: a hole loop lies outside every outer loop",
            covers: Symptom::CheckerSays("lies outside every outer loop"),
        },
        Exclusion {
            name: "loop-crosses-itself",
            fixtures: vec!["revolve-fuse-extrude-cut-loop-crosses-itself"],
            symptom: "the checker's L5: a loop intersects itself",
            covers: Symptom::CheckerSays("intersects itself"),
        },
        Exclusion {
            name: "split-fault",
            fixtures: vec!["three-cylinders-fuse-split-fault"],
            symptom: "OpError::Internal(Split)",
            covers: Symptom::InternalIs("Internal(Split)"),
        },
        Exclusion {
            name: "geometry-fault",
            fixtures: vec!["box-revolve-cylinder-chamfer-fuse-geometry-fault"],
            symptom: "OpError::Internal(Geometry)",
            covers: Symptom::InternalIs("Internal(Geometry)"),
        },
        Exclusion {
            name: "missing-shell",
            fixtures: vec!["revolve-cylinder-extrude-fuse-misses-a-shell"],
            symptom: "fewer shells than Open CASCADE: a cavity missing",
            covers: Symptom::FewerThanOracle("shells"),
        },
        Exclusion {
            name: "extra-faces",
            fixtures: vec!["revolve-cut-by-extrusion-extra-faces"],
            symptom: "more faces than Open CASCADE",
            covers: Symptom::MoreThanOracle("faces"),
        },
        Exclusion {
            name: "mesh-not-closed",
            fixtures: vec!["revolve-box-fuse-mesh-not-closed"],
            symptom: "the tessellation is not closed",
            covers: Symptom::DisagreeSays(Stage::Mesh, "the mesh is not closed"),
        },
    ];
    assert(exclusion_views(v@) =~= exclusion_table()) by {
        assert(v@[0].fixtures@.map_values(|f: &'static str| f@) =~= seq!["tilted-cylinder-slot-cut"@, "pin-at-disc-rim-common-fuse"@]);
        assert(v@[1].fixtures@.map_values(|f: &'static str| f@) =~= seq!["revolve-fuse-extrude-cut-loop-crosses-itself"@]);
        assert(v@[2].fixtures@.map_values(|f: &'static str| f@) =~= seq!["three-cylinders-fuse-split-fault"@]);
        assert(v@[3].fixtures@.map_values(|f: &'static str| f@) =~= seq!["box-revolve-cylinder-chamfer-fuse-geometry-fault"@]);
        assert(v@[4].fixtures@.map_values(|f: &'static str| f@) =~= seq!["revolve-cylinder-extrude-fuse-misses-a-shell"@]);
        assert(v@[5].fixtures@.map_values(|f: &'static str| f@) =~= seq!["revolve-cut-by-extrusion-extra-faces"@]);
        assert(v@[6].fixtures@.map_values(|f: &'static str| f@) =~= seq!["revolve-box-fuse-mesh-not-closed"@]);
    }
    v
}

} // verus!

verus! {

/// `o` as `excluded` gives it back: under the first of `exs` that covers
/// it, or unchanged.
pub open spec fn excluded_as(r: Outcome, o: Outcome, exs: Seq<ExclusionView>) -> bool {
    match first_cover(o, exs, 0) {
        Some(i) => r matches Outcome::Excluded { name, outcome } && name@ == exs[i].name
            && *outcome == o,
        None => r == o,
    }
}

/// `outcome`, or [`Outcome::Excluded`] under the first of `exclusions`
/// that covers it.
pub fn excluded(outcome: Outcome, exclusions: &[Exclusion]) -> (r: Outcome)
    ensures
        excluded_as(r, outcome, exclusion_views(exclusions@)),
{
    let ghost exs = exclusion_views(exclusions@);
    let mut i: usize = 0;
    while i < exclusions.len()
        invariant
            i <= exclusions@.len(),
            exs == exclusion_views(exclusions@),
            first_cover(outcome, exs, 0) == first_cover(outcome, exs, i as int),
        decreases exclusions@.len() - i,
    {
        assert(exs[i as int] == exclusions@[i as int]@);
        if exclusions[i].covers(&outcome) {
            return Outcome::Excluded { name: exclusions[i].name, outcome: Box::new(outcome) };
        }
        i = i + 1;
    }
    outcome
}

/// The problem line of an exclusion that cites no fixture.
pub open spec fn cites_none_line(name: Seq<char>) -> Seq<char> {
    "exclusion "@ + name + " cites no regression fixture"@
}

/// The problem line of an exclusion whose cited fixture is not waiting
/// under `regression/`.
pub open spec fn gone_line(name: Seq<char>, slug: Seq<char>) -> Seq<char> {
    "exclusion "@ + name + " cites regression/"@ + slug
        + ", which is not there: lift the exclusion with the fix that moved it"@
}

/// The lines for each of `slugs` that is not in `waiting`.
pub open spec fn gone_lines(name: Seq<char>, slugs: Seq<Seq<char>>, waiting: Seq<Seq<char>>) -> Seq<Seq<char>>
    decreases slugs.len(),
{
    if slugs.len() == 0 {
        Seq::empty()
    } else {
        gone_lines(name, slugs.drop_last(), waiting) + if waiting.contains(slugs.last()) {
            Seq::empty()
        } else {
            seq![gone_line(name, slugs.last())]
        }
    }
}

/// What is wrong with one exclusion, given the slugs waiting.
pub open spec fn exclusion_lines(e: ExclusionView, waiting: Seq<Seq<char>>) -> Seq<Seq<char>> {
    (if e.fixtures.len() == 0 {
        seq![cites_none_line(e.name)]
    } else {
        Seq::empty()
    }) + gone_lines(e.name, e.fixtures, waiting)
}

/// What is wrong with `exs`, given the slugs waiting, in order.
pub open spec fn problems(exs: Seq<ExclusionView>, waiting: Seq<Seq<char>>) -> Seq<Seq<char>>
    decreases exs.len(),
{
    if exs.len() == 0 {
        Seq::empty()
    } else {
        problems(exs.drop_last(), waiting) + exclusion_lines(exs.last(), waiting)
    }
}

/// The texts of `v`.
pub open spec fn strings(v: Seq<String>) -> Seq<Seq<char>> {
    v.map_values(|s: String| s@)
}

/// The texts of `v`.
pub open spec fn strs(v: Seq<&str>) -> Seq<Seq<char>> {
    v.map_values(|s: &str| s@)
}

/// Whether `slug` is one of `waiting`.
fn is_waiting(waiting: &[&str], slug: &str) -> (r: bool)
    ensures
        r == strs(waiting@).contains(slug@),
{
    let mut i: usize = 0;
    while i < waiting.len()
        invariant
            i <= waiting@.len(),
            forall|j: int| 0 <= j < i ==> #[trigger] waiting@[j]@ != slug@,
        decreases waiting@.len() - i,
    {
        if same_text(waiting[i], slug) {
            assert(strs(waiting@)[i as int] == slug@);
            return true;
        }
        i = i + 1;
    }
    assert forall|j: int| 0 <= j < strs(waiting@).len() implies strs(waiting@)[j] != slug@ by {
        assert(strs(waiting@)[j] == waiting@[j]@);
    }
    false
}

/// What is wrong with `exclusions`, given the slugs `waiting` under
/// `regression/` (each with its `fixture.json`): one line per exclusion
/// that cites no fixture, and per cited fixture that is not waiting —
/// gone, or moved into its area by the commit that fixed it, which is
/// the commit that lifts the exclusion.
pub fn exclusion_problems(exclusions: &[Exclusion], waiting: &[&str]) -> (v: Vec<String>)
    ensures
        strings(v@) == problems(exclusion_views(exclusions@), strs(waiting@)),
        v@.len() == problem_count(exclusion_views(exclusions@), strs(waiting@)),
        v@.len() == 0 <==> all_cited_waiting(exclusion_views(exclusions@), strs(waiting@)),
{
    proof {
        lemma_problem_count(exclusion_views(exclusions@), strs(waiting@));
    }
    let ghost exs = exclusion_views(exclusions@);
    let ghost w = strs(waiting@);
    let mut out: Vec<String> = Vec::new();
    let mut i: usize = 0;
    while i < exclusions.len()
        invariant
            i <= exclusions@.len(),
            exs == exclusion_views(exclusions@),
            w == strs(waiting@),
            strings(out@) == problems(exs.subrange(0, i as int), w),
        decreases exclusions@.len() - i,
    {
        let e = &exclusions[i];
        let ghost ev = e@;
        assert(exs[i as int] == ev);
        let ghost before = strings(out@);
        if e.fixtures.len() == 0 {
            let mut line: Vec<char> = Vec::new();
            push_str(&mut line, "exclusion ");
            push_str(&mut line, e.name);
            push_str(&mut line, " cites no regression fixture");
            out.push(string_of(line.as_slice()));
        }
        assert(strings(out@) =~= before + (if ev.fixtures.len() == 0 {
            seq![cites_none_line(ev.name)]
        } else {
            Seq::empty()
        }));
        let ghost mid = strings(out@);
        let mut j: usize = 0;
        while j < e.fixtures.len()
            invariant
                j <= e.fixtures@.len(),
                ev == e@,
                w == strs(waiting@),
                strings(out@) == mid + gone_lines(ev.name, ev.fixtures.subrange(0, j as int), w),
            decreases e.fixtures@.len() - j,
        {
            let slug = e.fixtures[j];
            let ghost at = strings(out@);
            assert(ev.fixtures[j as int] == slug@);
            if !is_waiting(waiting, slug) {
                let mut line: Vec<char> = Vec::new();
                push_str(&mut line, "exclusion ");
                push_str(&mut line, e.name);
                push_str(&mut line, " cites regression/");
                push_str(&mut line, slug);
                push_str(&mut line, ", which is not there: lift the exclusion with the fix that moved it");
                let text = string_of(line.as_slice());
                assert(text@ == gone_line(ev.name, slug@));
                out.push(text);
                assert(strings(out@) =~= at.push(gone_line(ev.name, slug@)));
            } else {
                assert(strings(out@) =~= at);
            }
            assert(ev.fixtures.subrange(0, j + 1).last() == slug@);
            assert(ev.fixtures.subrange(0, j + 1).drop_last() =~= ev.fixtures.subrange(0, j as int));
            assert(strings(out@) =~= mid + gone_lines(ev.name, ev.fixtures.subrange(0, j + 1), w));
            j = j + 1;
        }
        assert(ev.fixtures.subrange(0, j as int) =~= ev.fixtures);
        assert(exs.subrange(0, i + 1).drop_last() =~= exs.subrange(0, i as int));
        assert(strings(out@) =~= problems(exs.subrange(0, i + 1), w));
        i = i + 1;
    }
    assert(exs.subrange(0, i as int) =~= exs);
    out
}

/// The outcome of a caught panic with `message`: the debug build's
/// checker guard is a checker violation, any other a panic.
pub open spec fn panic_outcome(o: Outcome, message: Seq<char>) -> bool {
    if occurs_at(message, CHECKER_GUARD@, 0) {
        o matches Outcome::CheckerViolation(t) && t@ == message
    } else {
        o matches Outcome::Panic(t) && t@ == message
    }
}

/// The outcome of a caught panic whose message is `message`: the debug
/// build's checker guard is a [`Outcome::CheckerViolation`], any other a
/// [`Outcome::Panic`].
pub fn panicked(message: &str) -> (o: Outcome)
    ensures
        panic_outcome(o, message@),
{
    let text = string_of(chars_of(message).as_slice());
    if starts_with(message, CHECKER_GUARD) {
        Outcome::CheckerViolation(text)
    } else {
        Outcome::Panic(text)
    }
}

/// The named exclusion that covers a panic caught with `message`, if
/// any: how a property test over the same operations holds the same
/// exclusions as the differential, so one fix lifts both.
pub fn exclusion_of_panic(message: &str) -> (r: Option<Exclusion>)
    ensures
        exists|o: Outcome| #[trigger] panic_outcome(o, message@) && match first_cover(o, exclusion_table(), 0) {
            Some(i) => r matches Some(e) && e@ == exclusion_table()[i],
            None => r is None,
        },
{
    let outcome = panicked(message);
    let mut all = exclusions();
    let ghost exs = exclusion_views(all@);
    let mut i: usize = 0;
    while i < all.len()
        invariant
            i <= all@.len(),
            exs == exclusion_views(all@),
            exs == exclusion_table(),
            panic_outcome(outcome, message@),
            first_cover(outcome, exs, 0) == first_cover(outcome, exs, i as int),
        decreases all@.len() - i,
    {
        assert(exs[i as int] == all@[i as int]@);
        if all[i].covers(&outcome) {
            let e = all.remove(i);
            assert(panic_outcome(outcome, message@));
            return Some(e);
        }
        i = i + 1;
    }
    assert(panic_outcome(outcome, message@));
    None
}

} // verus!

verus! {

/// An outcome that does not fail comes back from the exclusions as it
/// went in.
pub proof fn lemma_excluded_keeps_passing(r: Outcome, o: Outcome, exs: Seq<ExclusionView>)
    requires
        !fails(o),
        excluded_as(r, o, exs),
    ensures
        r == o,
{
    lemma_first_cover_fails(o, exs, 0);
}

proof fn lemma_first_cover_fails(o: Outcome, exs: Seq<ExclusionView>, i: int)
    ensures
        first_cover(o, exs, i) is Some ==> fails(o),
    decreases exs.len() - i,
{
    if 0 <= i < exs.len() && !covers(exs[i], o) {
        lemma_first_cover_fails(o, exs, i + 1);
    }
}

/// A failure an exclusion covers no longer fails the run, and keeps the
/// outcome it covered.
pub proof fn lemma_excluded_passes(r: Outcome, o: Outcome, exs: Seq<ExclusionView>)
    requires
        first_cover(o, exs, 0) is Some,
        excluded_as(r, o, exs),
    ensures
        !fails(r),
        r matches Outcome::Excluded { outcome, .. } && *outcome == o,
{
}

/// Every failure shows itself: a shrink never drifts away from a failure
/// by judging it against itself.
pub proof fn lemma_same_failure_reflexive(o: Outcome)
    ensures
        same_failure(o, o),
{
}

} // verus!

verus! {

/// The row a checker report names is its first line's that starts with
/// one: where line `i` starts with a row and none before it does, that
/// row; where no line does, none.
pub proof fn lemma_first_row(t: Seq<char>, i: int)
    ensures
        (0 <= i < lines(t).len() && is_row(first_word(lines(t)[i])) && forall|j: int|
            0 <= j < i ==> !is_row(#[trigger] first_word(lines(t)[j]))) ==> checker_row_of(t) == Some(
            first_word(lines(t)[i]),
        ),
        (forall|j: int| 0 <= j < lines(t).len() ==> !is_row(#[trigger] first_word(lines(t)[j])))
            ==> checker_row_of(t) is None,
{
    let ls = lines(t);
    if 0 <= i < ls.len() && is_row(first_word(ls[i])) && forall|j: int| 0 <= j < i ==> !is_row(
        #[trigger] first_word(ls[j]),
    ) {
        lemma_row_from_first(ls, 0, i);
    }
    if forall|j: int| 0 <= j < ls.len() ==> !is_row(#[trigger] first_word(ls[j])) {
        lemma_row_from_none(ls, 0);
    }
}

proof fn lemma_row_from_first(ls: Seq<Seq<char>>, from: int, i: int)
    requires
        0 <= from <= i < ls.len(),
        is_row(first_word(ls[i])),
        forall|j: int| from <= j < i ==> !is_row(#[trigger] first_word(ls[j])),
    ensures
        row_from(ls, from) == Some(first_word(ls[i])),
    decreases i - from,
{
    if from < i {
        lemma_row_from_first(ls, from + 1, i);
    }
}

proof fn lemma_row_from_none(ls: Seq<Seq<char>>, from: int)
    requires
        0 <= from,
        forall|j: int| from <= j < ls.len() ==> !is_row(#[trigger] first_word(ls[j])),
    ensures
        row_from(ls, from) is None,
    decreases ls.len() - from,
{
    if from < ls.len() {
        lemma_row_from_none(ls, from + 1);
    }
}

/// What a shrink counts as the failure drawn: outcomes of two classes
/// are never one failure; two disagreements are one exactly at the same
/// stage, two internal faults exactly with the same name, and two
/// checker violations exactly when they name the same first checker row
/// (`L4 …` and `L5 …` are two failures, and so are a violation naming a
/// row and one naming none).
pub proof fn lemma_what_fails_alike(a: Outcome, b: Outcome, x: String, y: String, sx: Stage, sy: Stage, wx: String, wy: String)
    ensures
        class_of(a) != class_of(b) ==> !same_failure(a, b),
        same_failure(Outcome::CheckerViolation(x), Outcome::CheckerViolation(y)) <==> checker_row_of(x@)
            == checker_row_of(y@),
        same_failure(Outcome::Internal(x), Outcome::Internal(y)) <==> x@ == y@,
        same_failure(Outcome::Disagree { stage: sx, what: wx }, Outcome::Disagree { stage: sy, what: wy })
            <==> sx == sy,
{
}

/// The keys an outcome is counted under in a run's histogram: its class,
/// and below it the exclusion's name, the refusal's or fault's name, or
/// the stage of a disagreement.
pub open spec fn outcome_keys(o: Outcome) -> Seq<Seq<char>> {
    seq![class_of(o)] + match o {
        Outcome::Excluded { name, .. } => seq!["Excluded/"@ + name@],
        Outcome::ArrisRefuses(n) => seq![class_of(o) + "/"@ + n@],
        Outcome::Internal(n) => seq![class_of(o) + "/"@ + n@],
        Outcome::Disagree { stage, .. } => seq!["Disagree/"@ + stage_name(stage)],
        _ => Seq::empty(),
    }
}

/// `m` with each of `ks` counted once more.
pub open spec fn count_keys(m: Map<Seq<char>, usize>, ks: Seq<Seq<char>>) -> Map<Seq<char>, usize>
    decreases ks.len(),
{
    if ks.len() == 0 {
        m
    } else {
        let m1 = count_keys(m, ks.drop_last());
        m1.insert(ks.last(), (crate::sorted::count_of(m1, ks.last()) + 1) as usize)
    }
}

/// The histogram of the outcomes `os`: how many are counted under each
/// key.
pub open spec fn tally(os: Seq<Outcome>) -> Map<Seq<char>, usize>
    decreases os.len(),
{
    if os.len() == 0 {
        Map::empty()
    } else {
        count_keys(tally(os.drop_last()), outcome_keys(os.last()))
    }
}

/// The keys `o` is counted under, computed.
fn keys_of(o: &Outcome) -> (v: Vec<Vec<char>>)
    ensures
        v@.map_values(|k: Vec<char>| k@) == outcome_keys(*o),
        v@.len() <= 2,
{
    let mut v: Vec<Vec<char>> = Vec::new();
    v.push(chars_of(o.class()));
    match o {
        Outcome::Excluded { name, .. } => {
            let mut k = chars_of("Excluded/");
            push_str(&mut k, name);
            v.push(k);
        },
        Outcome::ArrisRefuses(n) | Outcome::Internal(n) => {
            let mut k = chars_of(o.class());
            push_str(&mut k, "/");
            push_str(&mut k, n.as_str());
            v.push(k);
        },
        Outcome::Disagree { stage, .. } => {
            let mut k = chars_of("Disagree/");
            push_str(&mut k, stage.name());
            v.push(k);
        },
        _ => {},
    }
    assert(v@.map_values(|k: Vec<char>| k@) =~= outcome_keys(*o));
    v
}

/// Counts each of `ks` once more in the map kept as `entries`.
fn count_keys_into(entries: &mut Vec<(Vec<char>, usize)>, ks: &Vec<Vec<char>>)
    requires
        crate::sorted::strictly_sorted::<Vec<char>, usize>(crate::sorted::entries_view(old(entries)@)),
        crate::sorted::sum_counts(crate::sorted::entries_view(old(entries)@)) + ks@.len() < usize::MAX,
    ensures
        crate::sorted::strictly_sorted::<Vec<char>, usize>(crate::sorted::entries_view(final(entries)@)),
        crate::sorted::map_of(crate::sorted::entries_view(final(entries)@)) == count_keys(
            crate::sorted::map_of(crate::sorted::entries_view(old(entries)@)),
            ks@.map_values(|k: Vec<char>| k@),
        ),
        crate::sorted::sum_counts(crate::sorted::entries_view(final(entries)@)) == crate::sorted::sum_counts(
            crate::sorted::entries_view(old(entries)@),
        ) + ks@.len(),
{
    let ghost m0 = crate::sorted::map_of(crate::sorted::entries_view(entries@));
    let ghost s0 = crate::sorted::sum_counts(crate::sorted::entries_view(entries@));
    let ghost kv = ks@.map_values(|k: Vec<char>| k@);
    let mut j: usize = 0;
    assert(kv.take(0) =~= Seq::<Seq<char>>::empty());
    while j < ks.len()
        invariant
            j <= ks@.len(),
            kv == ks@.map_values(|k: Vec<char>| k@),
            s0 + ks@.len() < usize::MAX,
            crate::sorted::strictly_sorted::<Vec<char>, usize>(crate::sorted::entries_view(entries@)),
            crate::sorted::map_of(crate::sorted::entries_view(entries@)) == count_keys(m0, kv.take(j as int)),
            crate::sorted::sum_counts(crate::sorted::entries_view(entries@)) == s0 + j,
        decreases ks@.len() - j,
    {
        let k = ks[j].clone();
        proof {
            let s = crate::sorted::entries_view(entries@);
            crate::sorted::lemma_map_of::<Vec<char>, usize>(s);
            if crate::sorted::map_of(s).contains_key(k@) {
                let a = choose|a: int| 0 <= a < s.len() && s[a].0 == k@;
                crate::sorted::lemma_sum_bounds(s, a);
                assert(crate::sorted::map_of(s)[s[a].0] == s[a].1);
            }
        }
        count_up(entries, k);
        assert(kv.take(j + 1).drop_last() =~= kv.take(j as int));
        assert(kv.take(j + 1).last() == kv[j as int]);
        j = j + 1;
    }
    assert(kv.take(j as int) =~= kv);
}

/// The histogram of `outcomes`, as entries in key order.
fn count_outcomes(outcomes: &[Outcome]) -> (entries: Vec<(Vec<char>, usize)>)
    requires
        outcomes@.len() < usize::MAX / 2,
    ensures
        crate::sorted::strictly_sorted::<Vec<char>, usize>(crate::sorted::entries_view(entries@)),
        crate::sorted::map_of(crate::sorted::entries_view(entries@)) == tally(outcomes@),
{
    let mut entries: Vec<(Vec<char>, usize)> = Vec::new();
    let mut i: usize = 0;
    assert(crate::sorted::entries_view(entries@) =~= Seq::<(Seq<char>, usize)>::empty());
    assert(outcomes@.take(0) =~= Seq::<Outcome>::empty());
    while i < outcomes.len()
        invariant
            i <= outcomes@.len(),
            outcomes@.len() < usize::MAX / 2,
            crate::sorted::strictly_sorted::<Vec<char>, usize>(crate::sorted::entries_view(entries@)),
            crate::sorted::map_of(crate::sorted::entries_view(entries@)) == tally(outcomes@.take(i as int)),
            crate::sorted::sum_counts(crate::sorted::entries_view(entries@)) <= 2 * i,
        decreases outcomes@.len() - i,
    {
        let ks = keys_of(&outcomes[i]);
        count_keys_into(&mut entries, &ks);
        assert(outcomes@.take(i + 1).drop_last() =~= outcomes@.take(i as int));
        assert(outcomes@.take(i + 1).last() == outcomes@[i as int]);
        i = i + 1;
    }
    assert(outcomes@.take(i as int) =~= outcomes@);
    entries
}

/// The texts and counts of a histogram's entries.
pub open spec fn entry_views(h: Seq<(String, usize)>) -> Seq<(Seq<char>, usize)> {
    h.map_values(|x: (String, usize)| (x.0@, x.1))
}

/// Cases per class, and under each refusal's, fault's and exclusion's
/// name and each disagreement's stage: `(key, count)` in key order, the
/// keys the class names and `<class>/<name>`.
pub fn outcome_histogram(outcomes: &[Outcome]) -> (h: Vec<(String, usize)>)
    requires
        outcomes@.len() < usize::MAX / 2,
    ensures
        forall|i: int, j: int| 0 <= i < j < h@.len() ==> crate::text::seq_before(#[trigger] h@[i].0@, #[trigger] h@[j].0@),
        crate::sorted::map_of(entry_views(h@)) == tally(outcomes@),
{
    let entries = count_outcomes(outcomes);
    let ghost e = crate::sorted::entries_view(entries@);
    let mut h: Vec<(String, usize)> = Vec::new();
    let mut a: usize = 0;
    assert(entry_views(h@) =~= e.take(0));
    while a < entries.len()
        invariant
            a <= entries@.len(),
            e == crate::sorted::entries_view(entries@),
            h@.len() == a,
            entry_views(h@) == e.take(a as int),
        decreases entries@.len() - a,
    {
        let s = string_of(entries[a].0.as_slice());
        let n = entries[a].1;
        let ghost sv = s@;
        let ghost old_h = h@;
        assert(e[a as int] == (sv, n));
        h.push((s, n));
        assert(h@ == old_h.push((h@[a as int].0, n)));
        assert(h@[a as int].0@ == sv);
        assert(entry_views(h@) =~= e.take(a + 1)) by {
            assert forall|q: int| 0 <= q < a + 1 implies #[trigger] entry_views(h@)[q] == e.take(a + 1)[q] by {
                if q < a {
                    assert(h@[q] == old_h[q]);
                    assert(entry_views(old_h)[q] == e.take(a as int)[q]);
                }
            }
        }
        a = a + 1;
    }
    assert(e.take(a as int) =~= e);
    proof {
        assert forall|x: int, y: int| 0 <= x < y < h@.len() implies crate::text::seq_before(#[trigger] h@[x].0@, #[trigger] h@[y].0@) by {
            assert(entry_views(h@)[x] == e[x]);
            assert(entry_views(h@)[y] == e[y]);
            assert(<Vec<char> as crate::sorted::Ordered>::before(e[x].0, e[y].0));
        }
    }
    h
}

/// The name an outcome carries under its class, where the histogram
/// counts one: a typed refusal's or an internal fault's.
pub open spec fn fault_name(o: Outcome) -> Option<Seq<char>> {
    match o {
        Outcome::ArrisRefuses(n) | Outcome::Internal(n) => Some(n@),
        _ => None,
    }
}

/// How many of `os` are of class `class` and named `n`.
pub open spec fn named_count(os: Seq<Outcome>, class: Seq<char>, n: Seq<char>) -> nat
    decreases os.len(),
{
    if os.len() == 0 {
        0
    } else {
        named_count(os.drop_last(), class, n) + if class_of(os.last()) == class && fault_name(os.last())
            == Some(n) {
            1nat
        } else {
            0nat
        }
    }
}

/// How many of `ks` are `k`.
pub open spec fn occurrences(ks: Seq<Seq<char>>, k: Seq<char>) -> nat
    decreases ks.len(),
{
    if ks.len() == 0 {
        0
    } else {
        occurrences(ks.drop_last(), k) + if ks.last() == k {
            1nat
        } else {
            0nat
        }
    }
}

proof fn lemma_count_keys(m: Map<Seq<char>, usize>, ks: Seq<Seq<char>>, k: Seq<char>)
    requires
        crate::sorted::count_of(m, k) + ks.len() < usize::MAX,
    ensures
        crate::sorted::count_of(count_keys(m, ks), k) == crate::sorted::count_of(m, k) + occurrences(ks, k),
        occurrences(ks, k) <= ks.len(),
    decreases ks.len(),
{
    if ks.len() > 0 {
        lemma_count_keys(m, ks.drop_last(), k);
    }
}

/// Of the keys an outcome is counted under, `class/n` for a typed
/// refusal or an internal fault is the outcome's own once, and no other
/// outcome's.
proof fn lemma_named_key(o: Outcome, class: Seq<char>, n: Seq<char>)
    requires
        class == "Internal"@ || class == "ArrisRefuses"@,
    ensures
        occurrences(outcome_keys(o), class + "/"@ + n) == if class_of(o) == class && fault_name(o) == Some(n) {
            1nat
        } else {
            0nat
        },
        outcome_keys(o).len() <= 2,
{
    reveal_strlit("Agree");
    reveal_strlit("BothRefuse");
    reveal_strlit("ArrisRefuses");
    reveal_strlit("OracleRefuses");
    reveal_strlit("Disagree");
    reveal_strlit("CheckerViolation");
    reveal_strlit("Panic");
    reveal_strlit("Internal");
    reveal_strlit("Excluded");
    reveal_strlit("Excluded/");
    reveal_strlit("Disagree/");
    reveal_strlit("/");
    let k = class + "/"@ + n;
    let c = class_of(o);
    let ks = outcome_keys(o);
    assert(k[class.len() as int] == '/');
    assert(k[0] == class[0]);
    assert(c != k) by {
        if c == k {
            assert(c.len() > class.len());
            assert(c[class.len() as int] == '/');
        }
    }
    assert(seq![c].drop_last() =~= Seq::<Seq<char>>::empty());
    assert(seq![c].last() == c);
    assert(occurrences(Seq::<Seq<char>>::empty(), k) == 0);
    assert(occurrences(seq![c], k) == 0);
    match o {
        Outcome::ArrisRefuses(x) | Outcome::Internal(x) => {
            let t = c + "/"@ + x@;
            assert(ks =~= seq![c, t]);
            assert(ks.drop_last() =~= seq![c]);
            assert(seq![c].drop_last() =~= Seq::<Seq<char>>::empty());
            if c == class {
                if x@ == n {
                    assert(t =~= k);
                } else {
                    assert(t != k) by {
                        if t == k {
                            assert(x@ =~= t.skip(class.len() + 1int));
                            assert(n =~= k.skip(class.len() + 1int));
                        }
                    }
                }
            } else {
                assert(c.len() > 0 && class.len() > 0);
                assert(t[0] == c[0]);
                assert(c[0] != class[0]);
                assert(t[0] != k[0]);
            }
        },
        Outcome::Excluded { name, .. } => {
            let t = "Excluded/"@ + name@;
            assert(ks =~= seq![c, t]);
            assert(ks.drop_last() =~= seq![c]);
            assert(seq![c].drop_last() =~= Seq::<Seq<char>>::empty());
            assert(t[0] != k[0]);
        },
        Outcome::Disagree { stage, .. } => {
            let t = "Disagree/"@ + stage_name(stage);
            assert(ks =~= seq![c, t]);
            assert(ks.drop_last() =~= seq![c]);
            assert(seq![c].drop_last() =~= Seq::<Seq<char>>::empty());
            assert(t[0] != k[0]);
        },
        _ => {
            assert(ks =~= seq![c]);
            assert(seq![c].drop_last() =~= Seq::<Seq<char>>::empty());
        },
    }
}

/// A run's histogram counts every typed refusal and every internal
/// fault under its name too: the key `ArrisRefuses/n`, or `Internal/n`,
/// holds the number of outcomes of that class named `n` — for any
/// outcomes, and whatever else they hold.
pub proof fn lemma_histogram_counts_names(os: Seq<Outcome>, class: Seq<char>, n: Seq<char>)
    requires
        class == "Internal"@ || class == "ArrisRefuses"@,
        os.len() < usize::MAX / 2,
    ensures
        crate::sorted::count_of(tally(os), class + "/"@ + n) == named_count(os, class, n),
        named_count(os, class, n) <= os.len(),
    decreases os.len(),
{
    if os.len() > 0 {
        let k = class + "/"@ + n;
        lemma_histogram_counts_names(os.drop_last(), class, n);
        lemma_named_key(os.last(), class, n);
        lemma_count_keys(tally(os.drop_last()), outcome_keys(os.last()), k);
    }
}

/// No class name holds a `/`.
proof fn lemma_class_unslashed(o: Outcome)
    ensures
        class_of(o).len() > 0,
        forall|i: int| 0 <= i < class_of(o).len() ==> class_of(o)[i] != '/',
{
    reveal_strlit("Agree");
    reveal_strlit("BothRefuse");
    reveal_strlit("ArrisRefuses");
    reveal_strlit("OracleRefuses");
    reveal_strlit("Disagree");
    reveal_strlit("CheckerViolation");
    reveal_strlit("Panic");
    reveal_strlit("Internal");
    reveal_strlit("Excluded");
}

proof fn lemma_occurrences_small(ks: Seq<Seq<char>>, k: Seq<char>)
    requires
        ks.len() <= 2,
    ensures
        occurrences(ks, k) == (if ks.len() > 0 && ks[0] == k { 1nat } else { 0nat }) + (if ks.len() > 1
            && ks[1] == k {
            1nat
        } else {
            0nat
        }),
{
    if ks.len() > 0 {
        let d = ks.drop_last();
        assert(occurrences(Seq::<Seq<char>>::empty(), k) == 0);
        if ks.len() == 2 {
            assert(d.drop_last() =~= Seq::<Seq<char>>::empty());
            assert(d.last() == ks[0]);
            assert(occurrences(d, k) == if ks[0] == k { 1nat } else { 0nat });
            assert(ks.last() == ks[1]);
        } else {
            assert(d =~= Seq::<Seq<char>>::empty());
            assert(ks.last() == ks[0]);
        }
    }
}

/// A key of the form `word/rest`, with the `/` at `at`, is counted only
/// under an outcome's second key, never as a class.
proof fn lemma_slashed_key(o: Outcome, k: Seq<char>, at: int)
    requires
        0 <= at < k.len(),
        k[at] == '/',
    ensures
        outcome_keys(o).len() <= 2,
        outcome_keys(o)[0] == class_of(o),
        occurrences(outcome_keys(o), k) == if outcome_keys(o).len() > 1 && outcome_keys(o)[1] == k {
            1nat
        } else {
            0nat
        },
{
    lemma_class_unslashed(o);
    if class_of(o) == k {
        assert(class_of(o)[at] == '/');
    }
    lemma_occurrences_small(outcome_keys(o), k);
}

/// How many of `os` are of class `class`.
pub open spec fn class_total(os: Seq<Outcome>, class: Seq<char>) -> nat
    decreases os.len(),
{
    if os.len() == 0 {
        0
    } else {
        class_total(os.drop_last(), class) + if class_of(os.last()) == class {
            1nat
        } else {
            0nat
        }
    }
}

/// How many of `os` are failures an exclusion named `n` covers.
pub open spec fn excluded_total(os: Seq<Outcome>, n: Seq<char>) -> nat
    decreases os.len(),
{
    if os.len() == 0 {
        0
    } else {
        excluded_total(os.drop_last(), n) + if os.last() matches Outcome::Excluded { name, .. } && name@ == n {
            1nat
        } else {
            0nat
        }
    }
}

/// How many of `os` are disagreements at a stage named `st`.
pub open spec fn disagreements_at(os: Seq<Outcome>, st: Seq<char>) -> nat
    decreases os.len(),
{
    if os.len() == 0 {
        0
    } else {
        disagreements_at(os.drop_last(), st) + if os.last() matches Outcome::Disagree { stage, .. }
            && stage_name(stage) == st {
            1nat
        } else {
            0nat
        }
    }
}

proof fn lemma_class_key(o: Outcome, c: Outcome)
    ensures
        occurrences(outcome_keys(o), class_of(c)) == if class_of(o) == class_of(c) {
            1nat
        } else {
            0nat
        },
        outcome_keys(o).len() <= 2,
{
    let k = class_of(c);
    lemma_class_unslashed(c);
    lemma_occurrences_small(outcome_keys(o), k);
    reveal_strlit("/");
    reveal_strlit("Excluded/");
    reveal_strlit("Disagree/");
    match o {
        Outcome::ArrisRefuses(x) | Outcome::Internal(x) => {
            lemma_class_unslashed(o);
            let t = class_of(o) + "/"@ + x@;
            assert(t[class_of(o).len() as int] == '/');
            if t == k {
                assert(k[class_of(o).len() as int] == '/');
            }
        },
        Outcome::Excluded { name, .. } => {
            let t = "Excluded/"@ + name@;
            assert(t[8] == '/');
            if t == k {
                assert(k[8] == '/');
            }
        },
        Outcome::Disagree { stage, .. } => {
            let t = "Disagree/"@ + stage_name(stage);
            assert(t[8] == '/');
            if t == k {
                assert(k[8] == '/');
            }
        },
        _ => {},
    }
}

proof fn lemma_excluded_key(o: Outcome, n: Seq<char>)
    ensures
        occurrences(outcome_keys(o), "Excluded/"@ + n) == if o matches Outcome::Excluded { name, .. }
            && name@ == n {
            1nat
        } else {
            0nat
        },
        outcome_keys(o).len() <= 2,
{
    reveal_strlit("/");
    reveal_strlit("Excluded/");
    reveal_strlit("Disagree/");
    reveal_strlit("ArrisRefuses");
    reveal_strlit("Internal");
    let k = "Excluded/"@ + n;
    assert(k[8] == '/');
    lemma_slashed_key(o, k, 8);
    match o {
        Outcome::ArrisRefuses(x) | Outcome::Internal(x) => {
            let t = class_of(o) + "/"@ + x@;
            assert(t[0] == class_of(o)[0]);
            assert(t[0] != k[0]);
        },
        Outcome::Excluded { name, .. } => {
            let t = "Excluded/"@ + name@;
            if t == k {
                assert(name@ =~= t.skip(9));
                assert(n =~= k.skip(9));
            } else if name@ == n {
                assert(t =~= k);
            }
        },
        Outcome::Disagree { stage, .. } => {
            let t = "Disagree/"@ + stage_name(stage);
            assert(t[0] != k[0]);
        },
        _ => {},
    }
}

proof fn lemma_disagree_key(o: Outcome, st: Seq<char>)
    ensures
        occurrences(outcome_keys(o), "Disagree/"@ + st) == if o matches Outcome::Disagree { stage, .. }
            && stage_name(stage) == st {
            1nat
        } else {
            0nat
        },
        outcome_keys(o).len() <= 2,
{
    reveal_strlit("/");
    reveal_strlit("Excluded/");
    reveal_strlit("Disagree/");
    reveal_strlit("ArrisRefuses");
    reveal_strlit("Internal");
    let k = "Disagree/"@ + st;
    assert(k[8] == '/');
    lemma_slashed_key(o, k, 8);
    match o {
        Outcome::ArrisRefuses(x) | Outcome::Internal(x) => {
            let t = class_of(o) + "/"@ + x@;
            assert(t[0] == class_of(o)[0]);
            assert(t[0] != k[0]);
        },
        Outcome::Excluded { name, .. } => {
            let t = "Excluded/"@ + name@;
            assert(t[0] != k[0]);
        },
        Outcome::Disagree { stage, .. } => {
            let t = "Disagree/"@ + stage_name(stage);
            if t == k {
                assert(stage_name(stage) =~= t.skip(9));
                assert(st =~= k.skip(9));
            } else if stage_name(stage) == st {
                assert(t =~= k);
            }
        },
        _ => {},
    }
}

/// A run's histogram counts every outcome under its class, every
/// excluded failure under its exclusion's name, and every disagreement
/// under its stage: the key of a class holds the number of outcomes of
/// that class, `Excluded/n` the number an exclusion named `n` covers,
/// and `Disagree/s` the number of disagreements at the stage named `s`.
pub proof fn lemma_histogram_counts(os: Seq<Outcome>, c: Outcome, n: Seq<char>, st: Seq<char>)
    requires
        os.len() < usize::MAX / 2,
    ensures
        crate::sorted::count_of(tally(os), class_of(c)) == class_total(os, class_of(c)),
        crate::sorted::count_of(tally(os), "Excluded/"@ + n) == excluded_total(os, n),
        crate::sorted::count_of(tally(os), "Disagree/"@ + st) == disagreements_at(os, st),
        class_total(os, class_of(c)) <= os.len(),
        excluded_total(os, n) <= os.len(),
        disagreements_at(os, st) <= os.len(),
    decreases os.len(),
{
    if os.len() > 0 {
        let d = os.drop_last();
        let o = os.last();
        lemma_histogram_counts(d, c, n, st);
        lemma_class_key(o, c);
        lemma_excluded_key(o, n);
        lemma_disagree_key(o, st);
        lemma_count_keys(tally(d), outcome_keys(o), class_of(c));
        lemma_count_keys(tally(d), outcome_keys(o), "Excluded/"@ + n);
        lemma_count_keys(tally(d), outcome_keys(o), "Disagree/"@ + st);
    }
}

/// Whether a shrink keeps a candidate whose outcome is `outcome`: it
/// fails, and fails as `first`, the drawn failure, does.
pub fn keeps_failure(first: &Outcome, outcome: &Outcome) -> (keep: bool)
    ensures
        keep == (fails(*outcome) && same_failure(*first, *outcome)),
{
    outcome.fails() && first.same_failure(outcome)
}

/// A shrink of a failing case in progress: the failure drawn, the
/// outcome of the smallest failing candidate kept so far, and how many
/// candidates of the budget were tried. What the shrink walks — the
/// candidates and how to simplify or complicate one — is its caller's.
pub struct Shrink {
    first: Outcome,
    best: Outcome,
    tried: usize,
    budget: usize,
}

impl Shrink {
    /// The failure drawn.
    pub closed spec fn first_spec(&self) -> Outcome {
        self.first
    }

    /// The outcome kept: the drawn one until a candidate fails as it did.
    pub closed spec fn best_spec(&self) -> Outcome {
        self.best
    }

    /// The candidates tried.
    pub closed spec fn tried_spec(&self) -> nat {
        self.tried as nat
    }

    /// The candidates it may try.
    pub closed spec fn budget_spec(&self) -> nat {
        self.budget as nat
    }

    /// What every shrink keeps: no more candidates tried than the budget,
    /// and the outcome kept the drawn one or one that fails as it does.
    pub closed spec fn wf(&self) -> bool {
        &&& self.tried <= self.budget
        &&& (self.best == self.first || (fails(self.best) && same_failure(self.first, self.best)))
    }

    /// A shrink of the failure `first` that tries at most `budget`
    /// candidates.
    pub fn new(first: Outcome, budget: usize) -> (s: Shrink)
        ensures
            s.wf(),
            s.first_spec() == first,
            s.best_spec() == first,
            s.tried_spec() == 0,
            s.budget_spec() == budget,
    {
        let best = first.duplicate();
        Shrink { first, best, tried: 0, budget }
    }

    /// Whether a candidate may still be tried.
    pub fn more(&self) -> (r: bool)
        ensures
            r == (self.tried_spec() < self.budget_spec()),
    {
        self.tried < self.budget
    }

    /// The outcome kept.
    pub fn best(&self) -> (o: &Outcome)
        ensures
            *o == self.best_spec(),
    {
        &self.best
    }

    /// The candidates tried.
    pub fn tried(&self) -> (n: usize)
        ensures
            n == self.tried_spec(),
    {
        self.tried
    }

    /// Takes the outcome of one more candidate: kept where it fails as
    /// the drawn case did, and then the caller simplifies that candidate
    /// further; where it does not, the caller complicates back.
    pub fn judged(&mut self, outcome: Outcome) -> (keep: bool)
        requires
            old(self).wf(),
            old(self).tried_spec() < old(self).budget_spec(),
        ensures
            final(self).wf(),
            keep == (fails(outcome) && same_failure(old(self).first_spec(), outcome)),
            final(self).best_spec() == (if keep { outcome } else { old(self).best_spec() }),
            final(self).first_spec() == old(self).first_spec(),
            final(self).tried_spec() == old(self).tried_spec() + 1,
            final(self).budget_spec() == old(self).budget_spec(),
    {
        self.tried = self.tried + 1;
        let keep = keeps_failure(&self.first, &outcome);
        if keep {
            self.best = outcome;
        }
        keep
    }
}

/// A shrink of a failing case ends at a failing outcome, and one that
/// fails as the drawn case did: the same class, and for a disagreement
/// the same stage.
pub proof fn lemma_shrink_keeps_failure(s: Shrink)
    requires
        s.wf(),
        fails(s.first_spec()),
    ensures
        fails(s.best_spec()),
        same_failure(s.first_spec(), s.best_spec()),
{
    lemma_same_failure_reflexive(s.first_spec());
}

} // verus!

verus! {

/// How building a drawn recipe ended, as the differential sorts it.
#[derive(Debug, Clone, PartialEq)]
pub enum Built {
    /// Arris panicked, with this message.
    Panicked(String),
    /// An operation refused, with this error, which prints as `text`.
    Refused { error: crate::ops::OpFailure, text: String },
    /// The recipe does not build as written: the stage its error names,
    /// and how the error prints.
    Malformed { stage: Stage, text: String },
    /// It built.
    Chain,
}

/// The oracle's answer to a drawn recipe.
#[derive(Debug, Clone, PartialEq)]
pub enum Answer {
    /// It refused the recipe, with why.
    Refused(String),
    /// `expected.json` has no default result.
    NoDefault,
    /// Its default result records no solid.
    Degenerate,
    /// It built a solid.
    Solid,
}

/// How the stages of a built recipe, held to the oracle's solid, ended.
#[derive(Debug, Clone, PartialEq)]
pub enum Staged {
    /// Every stage passed.
    Passed,
    /// A stage failed: the stage, and how its error prints.
    Failed { stage: Stage, text: String },
    /// Arris panicked, with this message.
    Panicked(String),
}

/// What `the recipe does not build as written` says of an error.
pub open spec fn malformed_text(text: Seq<char>) -> Seq<char> {
    "the recipe does not build as written: "@ + text
}

/// Whether an operation's refusal is the checker's: its input fails the
/// checker, or the fault Arris caught is the checker's.
pub open spec fn checker_refusal(e: crate::ops::OpFailure) -> bool {
    ||| e is InvalidInput
    ||| (e matches crate::ops::OpFailure::Internal { fault } && fault@ == "Checker"@)
}

/// Whether `r` is how a built recipe sorts, before the exclusions: `None`
/// where the stages are still to run.
pub open spec fn sorts_built(r: Option<Outcome>, b: Built, a: Answer) -> bool {
    match b {
        Built::Panicked(m) => r matches Some(o) && panic_outcome(o, m@),
        Built::Refused { error, text } => if checker_refusal(error) {
            r matches Some(Outcome::CheckerViolation(t)) && t@ == text@
        } else if error is Internal {
            r matches Some(Outcome::Internal(t)) && t@ == crate::ops::refusal_name(error)
        } else if a is Solid {
            r matches Some(Outcome::ArrisRefuses(t)) && t@ == crate::ops::refusal_name(error)
        } else {
            r == Some(Outcome::BothRefuse)
        },
        Built::Malformed { stage, text } => r matches Some(Outcome::Disagree { stage: s, what })
            && s == stage && what@ == malformed_text(text@),
        Built::Chain => match a {
            Answer::Refused(why) => r matches Some(Outcome::OracleRefuses(t)) && t@ == why@,
            Answer::NoDefault => r matches Some(Outcome::OracleRefuses(t)) && t@ == "expected.json has no default result"@,
            Answer::Degenerate => r matches Some(Outcome::Disagree { stage: s, what }) && s == Stage::Build
                && what@ == "Open CASCADE records no solid and Arris builds a body"@,
            Answer::Solid => r is None,
        },
    }
}

/// How a drawn recipe's build sorts, before the exclusions: a panic as
/// [`panicked`] sorts it; an operation's refusal a checker violation
/// where the checker refused its input, an internal fault where Arris
/// caught a bug of its own, and otherwise a refusal of Arris's alone
/// where the oracle built a solid or of both where it did not; a recipe
/// that does not build as written a disagreement. Once it builds, the
/// oracle's refusal, a missing default result and a degenerate one decide
/// it; `None` where the oracle built a solid and the stages are to run.
pub fn sort_built(built: Built, answer: &Answer) -> (r: Option<Outcome>)
    ensures
        sorts_built(r, built, *answer),
{
    match built {
        Built::Panicked(m) => Some(panicked(m.as_str())),
        Built::Refused { error, text } => {
            let checker = match &error {
                crate::ops::OpFailure::InvalidInput => true,
                crate::ops::OpFailure::Internal { fault } => same_text(fault.as_str(), "Checker"),
                _ => false,
            };
            if checker {
                Some(Outcome::CheckerViolation(text))
            } else if let crate::ops::OpFailure::Internal { .. } = &error {
                Some(Outcome::Internal(crate::ops::refusal(&error)))
            } else if matches!(answer, Answer::Solid) {
                Some(Outcome::ArrisRefuses(crate::ops::refusal(&error)))
            } else {
                Some(Outcome::BothRefuse)
            }
        },
        Built::Malformed { stage, text } => {
            let mut w = chars_of("the recipe does not build as written: ");
            push_str(&mut w, text.as_str());
            Some(Outcome::Disagree { stage, what: string_of(w.as_slice()) })
        },
        Built::Chain => match answer {
            Answer::Refused(why) => Some(Outcome::OracleRefuses(string_of(chars_of(why.as_str()).as_slice()))),
            Answer::NoDefault => Some(Outcome::OracleRefuses(string_of(chars_of("expected.json has no default result").as_slice()))),
            Answer::Degenerate => Some(
                Outcome::Disagree {
                    stage: Stage::Build,
                    what: string_of(chars_of("Open CASCADE records no solid and Arris builds a body").as_slice()),
                },
            ),
            Answer::Solid => None,
        },
    }
}

/// How a built recipe whose stages ran sorts, before the exclusions:
/// agreement where every stage passed; a checker violation where the
/// check stage failed, a disagreement at the stage that failed
/// otherwise; a panic as [`panicked`] sorts it.
pub fn sort_staged(staged: Staged) -> (o: Outcome)
    ensures
        match staged {
            Staged::Passed => o == Outcome::Agree,
            Staged::Failed { stage, text } => if stage == Stage::Check {
                o matches Outcome::CheckerViolation(t) && t@ == text@
            } else {
                o matches Outcome::Disagree { stage: s, what } && s == stage && what@ == text@
            },
            Staged::Panicked(m) => panic_outcome(o, m@),
        },
{
    match staged {
        Staged::Passed => Outcome::Agree,
        Staged::Failed { stage, text } => if stage == Stage::Check {
            Outcome::CheckerViolation(text)
        } else {
            Outcome::Disagree { stage, what: text }
        },
        Staged::Panicked(m) => panicked(m.as_str()),
    }
}

/// The text after the last `/` of `s`; all of it where it has none.
pub open spec fn last_segment(s: Seq<char>) -> Seq<char>
    decreases s.len(),
{
    if s.len() == 0 {
        s
    } else if s.last() == '/' {
        Seq::empty()
    } else {
        last_segment(s.drop_last()).push(s.last())
    }
}

/// `s` left-aligned in `width` columns, as `{:<width$}` prints it.
pub open spec fn left_aligned(s: Seq<char>, width: nat) -> Seq<char> {
    if s.len() < width {
        s + Seq::new((width - s.len()) as nat, |i: int| ' ')
    } else {
        s
    }
}

/// One line of a run's report for a histogram key and its count: a
/// class indented by two, a name under it by four and without the class.
pub open spec fn report_line(key: Seq<char>, count: usize) -> Seq<char> {
    (if contains_text(key, "/"@) { "    "@ } else { "  "@ }) + left_aligned(last_segment(key), 40) + " "@
        + crate::corpus::padded(count as nat, 5) + "\n"@
}

/// The lines of a run's report for the histogram `h`, in its order.
pub open spec fn report_lines_text(h: Seq<(Seq<char>, usize)>) -> Seq<char>
    decreases h.len(),
{
    if h.len() == 0 {
        Seq::empty()
    } else {
        report_lines_text(h.drop_last()) + report_line(h.last().0, h.last().1)
    }
}

/// The text after the last `/` of `s`.
fn last_segment_of(s: &[char]) -> (r: Vec<char>)
    ensures
        r@ == last_segment(s@),
{
    let mut i: usize = s.len();
    assert(s@.take(i as int) =~= s@);
    assert(s@.subrange(i as int, s@.len() as int) =~= Seq::<char>::empty());
    while i > 0 && s[i - 1] != '/'
        invariant
            i <= s@.len(),
            last_segment(s@) == last_segment(s@.take(i as int)) + s@.subrange(i as int, s@.len() as int),
        decreases i,
    {
        proof {
            let t = s@.take(i as int);
            assert(t.drop_last() =~= s@.take(i - 1));
            assert(t.last() == s@[i - 1]);
            assert(s@.subrange(i - 1, s@.len() as int) =~= seq![s@[i - 1]] + s@.subrange(i as int, s@.len() as int));
            assert(last_segment(s@.take(i - 1)).push(s@[i - 1]) + s@.subrange(i as int, s@.len() as int)
                =~= last_segment(s@.take(i - 1)) + s@.subrange(i - 1, s@.len() as int));
        }
        i = i - 1;
    }
    proof {
        if i > 0 {
            assert(s@.take(i as int).last() == s@[i - 1]);
        } else {
            assert(s@.take(0) =~= Seq::<char>::empty());
        }
    }
    let mut out: Vec<char> = Vec::new();
    let mut j: usize = i;
    while j < s.len()
        invariant
            i <= j <= s@.len(),
            out@ == s@.subrange(i as int, j as int),
        decreases s@.len() - j,
    {
        out.push(s[j]);
        assert(s@.subrange(i as int, j + 1) =~= s@.subrange(i as int, j as int).push(s@[j as int]));
        j = j + 1;
    }
    assert(last_segment(s@) =~= out@);
    out
}

/// The histogram lines of a run's report, one key a line in `h`'s order:
/// each class indented by two, each name under a class by four and
/// without the class, left-aligned in forty columns, then its count
/// right-aligned in five.
pub fn report_lines(h: &[(String, usize)]) -> (t: String)
    ensures
        t@ == report_lines_text(entry_views(h@)),
{
    let mut out: Vec<char> = Vec::new();
    let mut i: usize = 0;
    while i < h.len()
        invariant
            i <= h@.len(),
            out@ == report_lines_text(entry_views(h@.take(i as int))),
        decreases h@.len() - i,
    {
        let ghost before = out@;
        let key = chars_of(h[i].0.as_str());
        if contains_chars(key.as_slice(), chars_of("/").as_slice()) {
            push_str(&mut out, "    ");
        } else {
            push_str(&mut out, "  ");
        }
        let name = last_segment_of(key.as_slice());
        let ghost at_name = out@;
        push_chars(&mut out, name.as_slice());
        if name.len() < 40 {
            let pad = 40 - name.len();
            let mut k: usize = 0;
            while k < pad
                invariant
                    k <= pad,
                    out@ == at_name + name@ + Seq::new(k as nat, |x: int| ' '),
                decreases pad - k,
            {
                out.push(' ');
                assert(Seq::new((k + 1) as nat, |x: int| ' ') =~= Seq::new(k as nat, |x: int| ' ').push(' '));
                k = k + 1;
            }
        }
        assert(out@ =~= at_name + left_aligned(name@, 40));
        push_str(&mut out, " ");
        crate::corpus::push_padded(&mut out, h[i].1 as u64, 5);
        push_str(&mut out, "\n");
        proof {
            assert(h@.take(i + 1).drop_last() =~= h@.take(i as int));
            assert(entry_views(h@.take(i + 1)).drop_last() =~= entry_views(h@.take(i as int)));
            assert(out@ =~= before + report_line(h@[i as int].0@, h@[i as int].1));
        }
        i = i + 1;
    }
    assert(h@.take(h@.len() as int) =~= h@);
    string_of(out.as_slice())
}

/// `n + arris - oracle`, and no less than zero.
pub open spec fn netted(n: usize, arris: usize, oracle: usize) -> int {
    if n + arris >= oracle { n + arris - oracle } else { 0 }
}

/// The oracle's counts with its vertex and edge counts moved by the
/// difference between Arris's removable vertices and the oracle's, so
/// the counts stage compares the two net of them: a vertex that merges
/// two edges into one is not a different solid.
pub fn net_of_removable(counts: crate::fixtures::Counts, arris: usize, oracle: usize) -> (c: crate::fixtures::Counts)
    requires
        counts.vertices + arris <= usize::MAX,
        counts.edges + arris <= usize::MAX,
    ensures
        c.vertices == netted(counts.vertices, arris, oracle),
        c.edges == netted(counts.edges, arris, oracle),
        c.faces == counts.faces,
        c.loops == counts.loops,
        c.shells == counts.shells,
        c.solids == counts.solids,
{
    let mut out = counts;
    out.vertices = (counts.vertices + arris).saturating_sub(oracle);
    out.edges = (counts.edges + arris).saturating_sub(oracle);
    out
}

/// How many of `slugs` are not in `waiting`.
pub open spec fn gone_count(slugs: Seq<Seq<char>>, waiting: Seq<Seq<char>>) -> nat
    decreases slugs.len(),
{
    if slugs.len() == 0 {
        0
    } else {
        gone_count(slugs.drop_last(), waiting) + if waiting.contains(slugs.last()) { 0nat } else { 1nat }
    }
}

/// One for each exclusion of `exs` that cites nothing, and one for each
/// fixture an exclusion cites that is not waiting.
pub open spec fn problem_count(exs: Seq<ExclusionView>, waiting: Seq<Seq<char>>) -> nat
    decreases exs.len(),
{
    if exs.len() == 0 {
        0
    } else {
        problem_count(exs.drop_last(), waiting) + (if exs.last().fixtures.len() == 0 { 1nat } else { 0nat })
            + gone_count(exs.last().fixtures, waiting)
    }
}

/// Whether every exclusion cites a fixture and every fixture cited is
/// waiting.
pub open spec fn all_cited_waiting(exs: Seq<ExclusionView>, waiting: Seq<Seq<char>>) -> bool {
    forall|i: int| 0 <= i < exs.len() ==> (#[trigger] exs[i]).fixtures.len() > 0 && forall|j: int|
        0 <= j < exs[i].fixtures.len() ==> waiting.contains(#[trigger] exs[i].fixtures[j])
}

proof fn lemma_gone_lines(name: Seq<char>, slugs: Seq<Seq<char>>, waiting: Seq<Seq<char>>)
    ensures
        gone_lines(name, slugs, waiting).len() == gone_count(slugs, waiting),
        gone_count(slugs, waiting) == 0 <==> forall|j: int| 0 <= j < slugs.len() ==> waiting.contains(#[trigger] slugs[j]),
    decreases slugs.len(),
{
    if slugs.len() > 0 {
        let t = slugs.drop_last();
        lemma_gone_lines(name, t, waiting);
        if gone_count(slugs, waiting) == 0 {
            assert forall|j: int| 0 <= j < slugs.len() implies waiting.contains(#[trigger] slugs[j]) by {
                if j < t.len() {
                    assert(t[j] == slugs[j]);
                }
            }
        }
        if forall|j: int| 0 <= j < slugs.len() ==> waiting.contains(#[trigger] slugs[j]) {
            assert forall|j: int| 0 <= j < t.len() implies waiting.contains(#[trigger] t[j]) by {
                assert(t[j] == slugs[j]);
            }
            assert(waiting.contains(slugs[slugs.len() - 1]));
        }
    }
}

/// The exclusions' problems are one line for each exclusion that cites
/// nothing and one for each cited fixture that is gone; none exactly
/// when every exclusion cites a fixture and every fixture it cites is
/// waiting.
pub proof fn lemma_problem_count(exs: Seq<ExclusionView>, waiting: Seq<Seq<char>>)
    ensures
        problems(exs, waiting).len() == problem_count(exs, waiting),
        problems(exs, waiting).len() == 0 <==> all_cited_waiting(exs, waiting),
    decreases exs.len(),
{
    if exs.len() > 0 {
        let t = exs.drop_last();
        let e = exs.last();
        lemma_problem_count(t, waiting);
        lemma_gone_lines(e.name, e.fixtures, waiting);
        if all_cited_waiting(exs, waiting) {
            assert(exs[exs.len() - 1] == e);
            assert forall|i: int| 0 <= i < t.len() implies (#[trigger] t[i]).fixtures.len() > 0 && forall|j: int|
                0 <= j < t[i].fixtures.len() ==> waiting.contains(#[trigger] t[i].fixtures[j]) by {
                assert(t[i] == exs[i]);
            }
        }
        if problems(exs, waiting).len() == 0 {
            assert forall|i: int| 0 <= i < exs.len() implies (#[trigger] exs[i]).fixtures.len() > 0 && forall|j: int|
                0 <= j < exs[i].fixtures.len() ==> waiting.contains(#[trigger] exs[i].fixtures[j]) by {
                if i < t.len() {
                    assert(t[i] == exs[i]);
                }
            }
        }
    }
}

} // verus!
