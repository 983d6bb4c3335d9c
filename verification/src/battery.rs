//! The battery's records: the class a stage is recorded at, and the key a
//! solid's battery is stored under.

use vstd::prelude::*;
use crate::differential::Outcome;
use crate::histogram::{Cycle, Stage, blocks_reason, blocks_refusal, op_cycle, refusal_cycle};
use crate::ops::{OpFailure, ReadRefusal};
use crate::text::{decimal, push_decimal, push_str, string_of};

verus! {

/// The class a battery stage is recorded at: the differential's classes
/// that count. A disagreement, a checker violation, a panic or an
/// internal fault is a kernel bug and never recorded.
#[derive(Debug, Clone, PartialEq, Eq)]
pub enum Class {
    /// Both kernels build it, and every stage holds.
    Agree,
    /// Neither builds it.
    BothRefuse,
    /// Arris builds it and Open CASCADE does not.
    OracleRefuses,
    /// Open CASCADE builds it and Arris refuses it, under this name.
    ArrisRefuses(String),
    /// Not run: the stage meets a kernel bug, shrunk to the fixture under
    /// `regression/` named here.
    WaitsOn(String),
}

/// Whether `r` is the class of `o`: the counting outcomes' own, `None`
/// for the rest.
pub open spec fn class_of_outcome(r: Option<Class>, o: Outcome) -> bool {
    match o {
        Outcome::Agree => r == Some(Class::Agree),
        Outcome::BothRefuse => r == Some(Class::BothRefuse),
        Outcome::OracleRefuses(_) => r == Some(Class::OracleRefuses),
        Outcome::ArrisRefuses(name) => r matches Some(Class::ArrisRefuses(n)) && n@ == name@,
        _ => r is None,
    }
}

impl Class {
    /// The class of an outcome that counts, or `None` for one that is a
    /// kernel bug. Never [`Class::WaitsOn`], which a person records.
    pub fn of(outcome: &Outcome) -> (r: Option<Class>)
        ensures
            class_of_outcome(r, *outcome),
    {
        match outcome {
            Outcome::Agree => Some(Class::Agree),
            Outcome::BothRefuse => Some(Class::BothRefuse),
            Outcome::OracleRefuses(_) => Some(Class::OracleRefuses),
            Outcome::ArrisRefuses(name) => Some(Class::ArrisRefuses(name.clone())),
            _ => None,
        }
    }
}

/// What Arris refused a stage with: what the histogram's table maps to a
/// cycle.
#[derive(Debug, Clone, PartialEq, Eq)]
pub enum Refused {
    /// The reader's refusal: of the solid, or of the file written and
    /// read back.
    Read(ReadRefusal),
    /// An operation's error.
    Op(OpFailure),
}

impl Refused {
    /// The cycle it blocks at `stage`; `None` for an internal fault,
    /// which is never a count.
    pub fn blocks(&self, stage: Stage) -> (c: Option<Cycle>)
        ensures
            c == match *self {
                Refused::Read(r) => Some(refusal_cycle(r)),
                Refused::Op(e) => op_cycle(stage, e),
            },
    {
        match self {
            Refused::Read(r) => Some(blocks_refusal(r)),
            Refused::Op(e) => blocks_reason(stage, e),
        }
    }
}

/// The key a solid's battery is stored under: `#<id>[<instance>]`.
pub open spec fn key_text(id: u64, instance: u32) -> Seq<char> {
    "#"@ + decimal(id as nat) + "["@ + decimal(instance as nat) + "]"@
}

/// The key a solid's battery is stored under: `#<id>[<instance>]`.
pub fn key(id: u64, instance: u32) -> (s: String)
    ensures
        s@ == key_text(id, instance),
{
    let mut out: Vec<char> = Vec::new();
    push_str(&mut out, "#");
    push_decimal(&mut out, id);
    push_str(&mut out, "[");
    push_decimal(&mut out, instance as u64);
    push_str(&mut out, "]");
    string_of(out.as_slice())
}

} // verus!

verus! {

/// Whether the battery's results on the solid `#id` are held to the
/// oracle's counts: where every oracle solid of that entity has counts a
/// reading is held to.
pub fn holds_counts(solids: &[crate::part::OracleSolid], id: u64) -> (r: bool)
    ensures
        r == forall|i: int| 0 <= i < solids@.len() && #[trigger] solids@[i].id == id ==> solids@[i].spec_held_counts() is Some,
{
    let mut i: usize = 0;
    while i < solids.len()
        invariant
            i <= solids@.len(),
            forall|j: int| 0 <= j < i && #[trigger] solids@[j].id == id ==> solids@[j].spec_held_counts() is Some,
        decreases solids@.len() - i,
    {
        if solids[i].id == id && solids[i].held_counts().is_none() {
            return false;
        }
        i = i + 1;
    }
    true
}

} // verus!

verus! {

/// The first entry of `entries` named `name`, where there is one.
pub open spec fn entry_of<T>(entries: Seq<(String, T)>, name: Seq<char>) -> Option<T>
    decreases entries.len(),
{
    if entries.len() == 0 {
        None
    } else if entries[0].0@ == name {
        Some(entries[0].1)
    } else {
        entry_of(entries.drop_first(), name)
    }
}

/// What a battery stage the oracle has not answered is refused with.
pub open spec fn no_answer(key: Seq<char>, stage: Seq<char>) -> Seq<char> {
    key + " "@ + stage + " has no answer in expected.json: rerun tools/oracle/expected.py"@
}

/// Where `entries` names `name`: the index of its first entry.
fn position_of<T>(entries: &Vec<(String, T)>, name: &str) -> (r: Option<usize>)
    ensures
        match entry_of(entries@, name@) {
            Some(x) => r matches Some(i) && i < entries@.len() && entries@[i as int].1 == x,
            None => r is None,
        },
{
    let mut i: usize = 0;
    assert(entries@.skip(0) =~= entries@);
    while i < entries.len()
        invariant
            i <= entries@.len(),
            entry_of(entries@, name@) == entry_of(entries@.skip(i as int), name@),
        decreases entries@.len() - i,
    {
        assert(entries@.skip(i as int)[0] == entries@[i as int]);
        assert(entries@.skip(i as int).drop_first() =~= entries@.skip(i + 1));
        if crate::text::same_text(entries[i].0.as_str(), name) {
            return Some(i);
        }
        i = i + 1;
    }
    assert(entries@.skip(i as int) =~= Seq::<(String, T)>::empty());
    None
}

/// The oracle's answer to the battery stage `stage` of the solid `key`,
/// from the answers `expected.json` holds by solid and then by stage;
/// `Err` where it holds none.
pub fn oracle_case<'a, T>(battery: &'a Vec<(String, Vec<(String, T)>)>, key: &str, stage: &str) -> (r: Result<&'a T, String>)
    ensures
        match entry_of(battery@, key@) {
            Some(cases) => match entry_of(cases@, stage@) {
                Some(c) => r matches Ok(x) && *x == c,
                None => r matches Err(e) && e@ == no_answer(key@, stage@),
            },
            None => r matches Err(e) && e@ == no_answer(key@, stage@),
        },
{
    let found = match position_of(battery, key) {
        Some(i) => {
            let cases = &battery[i].1;
            match position_of(cases, stage) {
                Some(j) => Some(&cases[j].1),
                None => None,
            }
        },
        None => None,
    };
    match found {
        Some(c) => Ok(c),
        None => {
            let mut w: Vec<char> = Vec::new();
            push_str(&mut w, key);
            push_str(&mut w, " ");
            push_str(&mut w, stage);
            push_str(&mut w, " has no answer in expected.json: rerun tools/oracle/expected.py");
            Err(string_of(w.as_slice()))
        },
    }
}

} // verus!

verus! {

/// Two battery keys are one key only for one solid placement: the
/// `#id[instance]` text tells its id and instance.
pub proof fn lemma_key_injective(id1: u64, instance1: u32, id2: u64, instance2: u32)
    requires
        key_text(id1, instance1) == key_text(id2, instance2),
    ensures
        id1 == id2,
        instance1 == instance2,
{
    reveal_strlit("#");
    reveal_strlit("[");
    reveal_strlit("]");
    let (d1, e1) = (decimal(id1 as nat), decimal(instance1 as nat));
    let (d2, e2) = (decimal(id2 as nat), decimal(instance2 as nat));
    crate::text::lemma_decimal_digits(id1 as nat);
    crate::text::lemma_decimal_digits(id2 as nat);
    crate::text::lemma_decimal_digits(instance1 as nat);
    crate::text::lemma_decimal_digits(instance2 as nat);
    let k = key_text(id1, instance1);
    assert(k =~= seq!['#'] + d1 + seq!['['] + e1 + seq![']']);
    assert(key_text(id2, instance2) =~= seq!['#'] + d2 + seq!['['] + e2 + seq![']']);
    if d1.len() < d2.len() {
        assert(k[1 + d1.len() as int] == '[');
        assert(k[1 + d1.len() as int] == d2[d1.len() as int]);
    } else if d2.len() < d1.len() {
        assert(k[1 + d2.len() as int] == '[');
        assert(k[1 + d2.len() as int] == d1[d2.len() as int]);
    }
    assert(d1 =~= k.subrange(1, 1 + d1.len() as int));
    assert(d2 =~= k.subrange(1, 1 + d2.len() as int));
    crate::text::lemma_decimal_injective(id1 as nat, id2 as nat);
    assert(e1 =~= k.subrange(2 + d1.len() as int, k.len() - 1));
    assert(e2 =~= k.subrange(2 + d2.len() as int, k.len() - 1));
    crate::text::lemma_decimal_injective(instance1 as nat, instance2 as nat);
}

} // verus!
