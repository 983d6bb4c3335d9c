//! Text as lines, as `str::lines` cuts it: at each `\n`, a `\r` just
//! before it dropped with it, no empty line after a final `\n`.

use vstd::prelude::*;
use crate::text::chars_of;

verus! {

/// Where the first `\n` of `t` is, or `t.len()` where it has none.
pub open spec fn newline_in(t: Seq<char>) -> nat
    decreases t.len(),
{
    if t.len() == 0 {
        0
    } else if t[0] == '\n' {
        0
    } else {
        1 + newline_in(t.drop_first())
    }
}

/// The first line of `s`, given that its end is at `e`: without the `\r`
/// of a `\r\n`.
pub open spec fn line_at(s: Seq<char>, e: int) -> Seq<char> {
    let raw = s.subrange(0, e);
    if e < s.len() && raw.len() > 0 && raw.last() == '\r' {
        raw.drop_last()
    } else {
        raw
    }
}

/// The lines of `s`, as `str::lines` yields them.
pub open spec fn lines(s: Seq<char>) -> Seq<Seq<char>>
    decreases s.len(),
{
    if s.len() == 0 {
        Seq::empty()
    } else {
        let e = newline_in(s) as int;
        if e < s.len() {
            seq![line_at(s, e)] + lines(s.skip(e + 1))
        } else {
            seq![line_at(s, e)]
        }
    }
}

/// `newline_in` is where the first `\n` is.
pub proof fn lemma_newline_in(t: Seq<char>, k: int)
    requires
        0 <= k <= t.len(),
        forall|j: int| 0 <= j < k ==> t[j] != '\n',
        k == t.len() || t[k] == '\n',
    ensures
        newline_in(t) == k,
    decreases k,
{
    if k > 0 {
        assert forall|j: int| 0 <= j < k - 1 implies t.drop_first()[j] != '\n' by {
            assert(t.drop_first()[j] == t[j + 1]);
        }
        lemma_newline_in(t.drop_first(), k - 1);
    }
}

/// The end of the line of `s` that starts at `from`: the next `\n`, or
/// the end of `s`.
fn line_end(s: &[char], from: usize) -> (e: usize)
    requires
        from <= s@.len(),
    ensures
        from <= e <= s@.len(),
        e == from + newline_in(s@.skip(from as int)),
{
    let mut i = from;
    while i < s.len() && s[i] != '\n'
        invariant
            from <= i <= s@.len(),
            forall|j: int| from <= j < i ==> s@[j] != '\n',
        decreases s@.len() - i,
    {
        i = i + 1;
    }
    proof {
        let t = s@.skip(from as int);
        assert forall|j: int| 0 <= j < i - from implies t[j] != '\n' by {
            assert(t[j] == s@[from + j]);
        }
        if i < s@.len() {
            assert(t[i - from] == s@[i as int]);
        }
        lemma_newline_in(t, i - from);
    }
    i
}

/// The line of `s` from `from` to `e`, without the `\r` of a `\r\n`.
fn line_of(s: &[char], from: usize, e: usize) -> (l: Vec<char>)
    requires
        from <= e <= s@.len(),
    ensures
        l@ == line_at(s@.skip(from as int), e - from),
{
    let ghost t = s@.skip(from as int);
    let mut end = e;
    if e < s.len() && e > from && s[e - 1] == '\r' {
        end = e - 1;
    }
    let mut l: Vec<char> = Vec::new();
    let mut i = from;
    while i < end
        invariant
            from <= i <= end <= e <= s@.len(),
            l@ == s@.subrange(from as int, i as int),
        decreases end - i,
    {
        l.push(s[i]);
        i = i + 1;
    }
    proof {
        let raw = t.subrange(0, e - from);
        assert(raw =~= s@.subrange(from as int, e as int));
        if e < s@.len() && e > from && s@[e - 1] == '\r' {
            assert(raw.last() == s@[e - 1]);
            assert(raw.drop_last() =~= l@);
        } else {
            assert(raw =~= l@);
        }
    }
    l
}

/// The texts of `v`.
pub open spec fn views(v: Seq<Vec<char>>) -> Seq<Seq<char>> {
    v.map_values(|l: Vec<char>| l@)
}

/// The lines of `s`, as `str::lines` yields them.
pub fn lines_of(s: &str) -> (v: Vec<Vec<char>>)
    ensures
        views(v@) == lines(s@),
{
    let c = chars_of(s);
    let mut v: Vec<Vec<char>> = Vec::new();
    let mut from: usize = 0;
    let ghost mut done: Seq<Seq<char>> = Seq::empty();
    assert(c@.skip(0) =~= c@);
    while from < c.len()
        invariant
            from <= c@.len(),
            c@ == s@,
            v@.len() == done.len(),
            forall|i: int| 0 <= i < v@.len() ==> #[trigger] v@[i]@ == done[i],
            lines(s@) == done + lines(c@.skip(from as int)),
        decreases c@.len() - from,
    {
        let e = line_end(c.as_slice(), from);
        let l = line_of(c.as_slice(), from, e);
        let ghost t = c@.skip(from as int);
        proof {
            done = done.push(l@);
        }
        v.push(l);
        if e < c.len() {
            assert(t.skip(e - from + 1) =~= c@.skip(e + 1));
            assert(lines(t) == seq![line_at(t, e - from)] + lines(c@.skip(e + 1)));
            assert(done + lines(c@.skip(e + 1)) =~= done.drop_last() + lines(t));
            from = e + 1;
        } else {
            assert(lines(t) == seq![line_at(t, e - from)]);
            assert(c@.skip(c@.len() as int) =~= Seq::<char>::empty());
            assert(done + lines(c@.skip(c@.len() as int)) =~= done.drop_last() + lines(t));
            from = c.len();
        }
    }
    assert(c@.skip(from as int) =~= Seq::<char>::empty());
    assert(lines(s@) =~= done);
    assert(views(v@) =~= done);
    v
}

/// The first line of `text`, or nothing where it has none.
pub open spec fn first_line_of(text: Seq<char>) -> Seq<char> {
    if lines(text).len() > 0 {
        lines(text)[0]
    } else {
        Seq::empty()
    }
}

/// The first line of `text`, or `""` where it has none.
pub fn first_line(text: &str) -> (l: String)
    ensures
        l@ == first_line_of(text@),
{
    let c = chars_of(text);
    if c.len() == 0 {
        return String::new();
    }
    let e = line_end(c.as_slice(), 0);
    assert(c@.skip(0) =~= c@);
    let l = line_of(c.as_slice(), 0, e);
    crate::text::string_of(l.as_slice())
}

} // verus!
