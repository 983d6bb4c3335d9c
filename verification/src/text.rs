//! Text as the library handles it: strings as sequences of `char`, decimal
//! numerals, lines, and the lexicographic order `String`'s `Ord` uses.

use vstd::prelude::*;

verus! {

/// The characters of `s`, in order.
pub fn chars_of(s: &str) -> (v: Vec<char>)
    ensures
        v@ == s@,
{
    let mut v: Vec<char> = Vec::new();
    for c in it: s.chars()
        invariant
            v@ == it.seq().subrange(0, it.index() as int),
            it.seq() == s@,
    {
        v.push(c);
    }
    assert(v@ == s@);
    v
}

/// `String::push`: appends `c`.
#[verifier::external_body]
fn push_char(s: &mut String, c: char)
    ensures
        final(s)@ == old(s)@.push(c),
{
    s.push(c);
}

/// The string of the characters `v`.
pub fn string_of(v: &[char]) -> (s: String)
    ensures
        s@ == v@,
{
    let mut s = String::new();
    let mut i: usize = 0;
    while i < v.len()
        invariant
            i <= v@.len(),
            s@ == v@.subrange(0, i as int),
        decreases v@.len() - i,
    {
        push_char(&mut s, v[i]);
        i = i + 1;
        assert(s@ == v@.subrange(0, i as int));
    }
    assert(v@.subrange(0, v@.len() as int) == v@);
    s
}

} // verus!

verus! {

/// The numeral of a digit `d < 10`.
pub open spec fn digit(d: nat) -> char {
    if d == 0 {
        '0'
    } else if d == 1 {
        '1'
    } else if d == 2 {
        '2'
    } else if d == 3 {
        '3'
    } else if d == 4 {
        '4'
    } else if d == 5 {
        '5'
    } else if d == 6 {
        '6'
    } else if d == 7 {
        '7'
    } else if d == 8 {
        '8'
    } else {
        '9'
    }
}

/// `n` in decimal, no sign, no leading zero: what `{}` prints of an
/// unsigned integer.
pub open spec fn decimal(n: nat) -> Seq<char>
    decreases n,
{
    if n < 10 {
        seq![digit(n)]
    } else {
        decimal(n / 10).push(digit(n % 10))
    }
}

/// A digit's character is one of `0`..`9`, and tells the digit.
pub proof fn lemma_digit(d: nat, e: nat)
    requires
        d < 10,
        e < 10,
    ensures
        '0' <= digit(d) <= '9',
        digit(d) == digit(e) ==> d == e,
{
}

/// `decimal(n)` is digits only, at least one, and two or more from 10.
pub proof fn lemma_decimal_digits(n: nat)
    ensures
        decimal(n).len() >= 1,
        n >= 10 ==> decimal(n).len() >= 2,
        forall|i: int| 0 <= i < decimal(n).len() ==> '0' <= #[trigger] decimal(n)[i] <= '9',
    decreases n,
{
    lemma_digit(n % 10, 0);
    if n >= 10 {
        lemma_decimal_digits(n / 10);
        let t = decimal(n / 10);
        assert forall|i: int| 0 <= i < decimal(n).len() implies '0' <= #[trigger] decimal(n)[i] <= '9' by {
            if i < t.len() {
                assert(decimal(n)[i] == t[i]);
            }
        }
    }
}

/// Two numbers print alike only if they are one number.
pub proof fn lemma_decimal_injective(a: nat, b: nat)
    requires
        decimal(a) == decimal(b),
    ensures
        a == b,
    decreases a,
{
    lemma_decimal_digits(a);
    lemma_decimal_digits(b);
    if a < 10 && b < 10 {
        assert(decimal(a)[0] == digit(a) && decimal(b)[0] == digit(b));
        lemma_digit(a, b);
    } else if a >= 10 && b >= 10 {
        let (x, y) = (decimal(a), decimal(b));
        assert(x.last() == digit(a % 10) && y.last() == digit(b % 10));
        lemma_digit(a % 10, b % 10);
        assert(x.drop_last() =~= decimal(a / 10));
        assert(y.drop_last() =~= decimal(b / 10));
        lemma_decimal_injective(a / 10, b / 10);
        assert(a == 10 * (a / 10) + a % 10);
        assert(b == 10 * (b / 10) + b % 10);
    } else if a < 10 {
        assert(decimal(a).len() == 1);
    } else {
        assert(decimal(b).len() == 1);
    }
}

fn digit_char(d: usize) -> (c: char)
    requires
        d < 10,
    ensures
        c == digit(d as nat),
{
    match d {
        0 => '0',
        1 => '1',
        2 => '2',
        3 => '3',
        4 => '4',
        5 => '5',
        6 => '6',
        7 => '7',
        8 => '8',
        _ => '9',
    }
}

/// Appends `n` in decimal to `out`.
pub fn push_decimal(out: &mut Vec<char>, n: u64)
    ensures
        final(out)@ == old(out)@ + decimal(n as nat),
    decreases n,
{
    if n < 10 {
        out.push(digit_char(n as usize));
    } else {
        push_decimal(out, n / 10);
        out.push(digit_char((n % 10) as usize));
    }
}

/// Appends `n`, up to 128 bits wide, in decimal to `out`.
pub fn push_wide_decimal(out: &mut Vec<char>, n: u128)
    ensures
        final(out)@ == old(out)@ + decimal(n as nat),
    decreases n,
{
    if n < 10 {
        out.push(digit_char(n as usize));
    } else {
        push_wide_decimal(out, n / 10);
        out.push(digit_char((n % 10) as usize));
    }
}

/// `i` in decimal, `-` before a negative one: what `{}` prints of a
/// signed integer.
pub open spec fn signed(i: int) -> Seq<char> {
    if i < 0 {
        "-"@ + decimal((-i) as nat)
    } else {
        decimal(i as nat)
    }
}

/// Appends `i` as [`signed`] prints it.
pub fn push_signed(out: &mut Vec<char>, i: i128)
    requires
        i > i128::MIN,
    ensures
        final(out)@ == old(out)@ + signed(i as int),
{
    if i < 0 {
        push_str(out, "-");
        let ghost mid = out@;
        push_wide_decimal(out, (-i) as u128);
        assert(out@ =~= old(out)@ + signed(i as int));
    } else {
        push_wide_decimal(out, i as u128);
    }
}

/// What `{}` prints of a `bool`.
pub open spec fn bool_text(b: bool) -> Seq<char> {
    if b {
        "true"@
    } else {
        "false"@
    }
}

/// Appends `b` as [`bool_text`] prints it.
pub fn push_bool(out: &mut Vec<char>, b: bool)
    ensures
        final(out)@ == old(out)@ + bool_text(b),
{
    if b {
        push_str(out, "true");
    } else {
        push_str(out, "false");
    }
}

/// Appends the characters of `s` to `out`.
pub fn push_str(out: &mut Vec<char>, s: &str)
    ensures
        final(out)@ == old(out)@ + s@,
{
    let ghost start = out@;
    for c in it: s.chars()
        invariant
            out@ == start + it.seq().subrange(0, it.index() as int),
            it.seq() == s@,
    {
        out.push(c);
    }
}

/// Appends the characters `s` to `out`.
pub fn push_chars(out: &mut Vec<char>, s: &[char])
    ensures
        final(out)@ == old(out)@ + s@,
{
    let ghost start = out@;
    let mut i: usize = 0;
    while i < s.len()
        invariant
            i <= s@.len(),
            out@ == start + s@.subrange(0, i as int),
        decreases s@.len() - i,
    {
        out.push(s[i]);
        i = i + 1;
    }
    assert(s@.subrange(0, s@.len() as int) == s@);
}

/// `a` before `b` in the order of `String`'s `Ord`: code point by code
/// point, a proper prefix first.
pub open spec fn seq_before(a: Seq<char>, b: Seq<char>) -> bool
    decreases a.len(),
{
    if b.len() == 0 {
        false
    } else if a.len() == 0 {
        true
    } else if a[0] != b[0] {
        (a[0] as int) < (b[0] as int)
    } else {
        seq_before(a.drop_first(), b.drop_first())
    }
}

pub proof fn lemma_seq_before_irreflexive(a: Seq<char>)
    ensures
        !seq_before(a, a),
    decreases a.len(),
{
    if a.len() > 0 {
        lemma_seq_before_irreflexive(a.drop_first());
    }
}

pub proof fn lemma_seq_before_transitive(a: Seq<char>, b: Seq<char>, c: Seq<char>)
    requires
        seq_before(a, b),
        seq_before(b, c),
    ensures
        seq_before(a, c),
    decreases a.len(),
{
    if a.len() > 0 && b.len() > 0 && c.len() > 0 {
        if a[0] == b[0] && b[0] == c[0] {
            lemma_seq_before_transitive(a.drop_first(), b.drop_first(), c.drop_first());
        }
    }
}

pub proof fn lemma_seq_before_total(a: Seq<char>, b: Seq<char>)
    ensures
        a == b || seq_before(a, b) || seq_before(b, a),
    decreases a.len(),
{
    if a.len() > 0 && b.len() > 0 && a[0] == b[0] {
        lemma_seq_before_total(a.drop_first(), b.drop_first());
        if a.drop_first() == b.drop_first() {
            assert(a =~= seq![a[0]] + a.drop_first());
            assert(b =~= seq![b[0]] + b.drop_first());
        }
    } else if a.len() == 0 && b.len() == 0 {
        assert(a =~= b);
    }
}

/// How two values compare.
#[derive(Clone, Copy, PartialEq, Eq, Debug, Structural)]
pub enum Order {
    /// The first comes first.
    Less,
    /// The two are equal.
    Equal,
    /// The second comes first.
    Greater,
}

/// `a` against `b` by [`seq_before`].
pub fn compare_chars(a: &[char], b: &[char]) -> (o: Order)
    ensures
        o == Order::Less <==> seq_before(a@, b@),
        o == Order::Equal <==> a@ == b@,
        o == Order::Greater <==> seq_before(b@, a@),
{
    proof {
        lemma_seq_before_irreflexive(a@);
        lemma_seq_before_total(a@, b@);
    }
    let mut i: usize = 0;
    assert(a@.skip(0) =~= a@);
    assert(b@.skip(0) =~= b@);
    while i < a.len() && i < b.len()
        invariant
            i <= a@.len(),
            i <= b@.len(),
            a@.subrange(0, i as int) == b@.subrange(0, i as int),
            seq_before(a@, b@) == seq_before(a@.skip(i as int), b@.skip(i as int)),
            seq_before(b@, a@) == seq_before(b@.skip(i as int), a@.skip(i as int)),
        decreases a@.len() - i,
    {
        let (x, y) = (a[i], b[i]);
        assert(a@.skip(i as int)[0] == x && b@.skip(i as int)[0] == y);
        if x < y {
            return Order::Less;
        }
        if y < x {
            return Order::Greater;
        }
        assert(a@.skip(i as int).drop_first() =~= a@.skip(i + 1));
        assert(b@.skip(i as int).drop_first() =~= b@.skip(i + 1));
        assert(a@.subrange(0, i + 1) =~= a@.subrange(0, i as int).push(x));
        assert(b@.subrange(0, i + 1) =~= b@.subrange(0, i as int).push(y));
        i = i + 1;
    }
    if a.len() == b.len() {
        assert(a@ =~= a@.subrange(0, i as int));
        assert(b@ =~= b@.subrange(0, i as int));
        Order::Equal
    } else if a.len() < b.len() {
        assert(a@.skip(i as int).len() == 0);
        Order::Less
    } else {
        assert(b@.skip(i as int).len() == 0);
        Order::Greater
    }
}

} // verus!

verus! {

/// Whether `a` and `b` are the same text.
pub fn same_text(a: &str, b: &str) -> (r: bool)
    ensures
        r == (a@ == b@),
{
    let (x, y) = (chars_of(a), chars_of(b));
    compare_chars(x.as_slice(), y.as_slice()) == Order::Equal
}

} // verus!

verus! {

/// Whether `c` is white space by Unicode's `White_Space` property, as
/// `char::is_whitespace` has it.
pub open spec fn is_space(c: char) -> bool {
    let n = c as u32;
    ||| 0x09 <= n <= 0x0d
    ||| n == 0x20
    ||| n == 0x85
    ||| n == 0xa0
    ||| n == 0x1680
    ||| 0x2000 <= n <= 0x200a
    ||| n == 0x2028
    ||| n == 0x2029
    ||| n == 0x202f
    ||| n == 0x205f
    ||| n == 0x3000
}

/// [`is_space`], computed.
pub fn space(c: char) -> (r: bool)
    ensures
        r == is_space(c),
{
    let n = c as u32;
    (0x09 <= n && n <= 0x0d) || n == 0x20 || n == 0x85 || n == 0xa0 || n == 0x1680 || (0x2000
        <= n && n <= 0x200a) || n == 0x2028 || n == 0x2029 || n == 0x202f || n == 0x205f || n
        == 0x3000
}

/// Whether `c` is one of `0`–`9`.
pub open spec fn is_digit(c: char) -> bool {
    '0' <= c <= '9'
}

/// The value of the decimal digits `s`.
pub open spec fn digits_value(s: Seq<char>) -> nat
    decreases s.len(),
{
    if s.len() == 0 {
        0
    } else {
        digits_value(s.drop_last()) * 10 + ((s.last() as u32) - ('0' as u32)) as nat
    }
}

/// Whether every character of `d` is a decimal digit.
pub open spec fn all_digits(d: Seq<char>) -> bool {
    forall|i: int| 0 <= i < d.len() ==> is_digit(#[trigger] d[i])
}

/// `s` without the one `+` that may lead it.
pub open spec fn unsigned_part(s: Seq<char>) -> Seq<char> {
    if s.len() > 0 && s[0] == '+' {
        s.drop_first()
    } else {
        s
    }
}

/// What `str::parse::<usize>` makes of `s`: an optional `+`, then one
/// decimal digit or more, whose value fits.
pub open spec fn parse_usize(s: Seq<char>) -> Option<usize> {
    let d = unsigned_part(s);
    if d.len() > 0 && all_digits(d) && digits_value(d) <= usize::MAX {
        Some(digits_value(d) as usize)
    } else {
        None
    }
}

/// `s` without white space at either end, as `str::trim` leaves it.
pub open spec fn trim(s: Seq<char>) -> Seq<char> {
    trim_end(trim_start(s))
}

pub open spec fn trim_start(s: Seq<char>) -> Seq<char>
    decreases s.len(),
{
    if s.len() > 0 && is_space(s[0]) {
        trim_start(s.drop_first())
    } else {
        s
    }
}

pub open spec fn trim_end(s: Seq<char>) -> Seq<char>
    decreases s.len(),
{
    if s.len() > 0 && is_space(s.last()) {
        trim_end(s.drop_last())
    } else {
        s
    }
}

/// A text whose first character is not white space keeps it when
/// trimmed at its end.
proof fn lemma_trim_end_keeps(t: Seq<char>)
    requires
        t.len() > 0,
        !is_space(t[0]),
    ensures
        trim_end(t).len() > 0,
    decreases t.len(),
{
    if is_space(t.last()) {
        lemma_trim_end_keeps(t.drop_last());
    }
}

/// Whether `s` is empty once trimmed: `s.trim().is_empty()`.
pub fn is_blank(s: &str) -> (r: bool)
    ensures
        r == (trim(s@).len() == 0),
{
    let cs = chars_of(s);
    let from = trim_start_from(cs.as_slice(), 0);
    assert(cs@.skip(0) =~= cs@);
    proof {
        if from < cs@.len() {
            let t = cs@.skip(from as int);
            assert(t[0] == cs@[from as int]);
            lemma_trim_start_stops(cs@, from as int);
            lemma_trim_end_keeps(t);
        } else {
            assert(cs@.skip(from as int) =~= Seq::<char>::empty());
        }
    }
    from == cs.len()
}

/// Where `trim_start` stops, the text left starts with no white space.
proof fn lemma_trim_start_stops(s: Seq<char>, from: int)
    requires
        0 <= from < s.len(),
        trim_start(s) == s.skip(from),
    ensures
        !is_space(s[from]),
{
    lemma_trim_start_first(s);
    assert(s.skip(from)[0] == s[from]);
}

/// What `trim_start` leaves starts with no white space.
proof fn lemma_trim_start_first(s: Seq<char>)
    ensures
        trim_start(s).len() > 0 ==> !is_space(trim_start(s)[0]),
    decreases s.len(),
{
    if s.len() > 0 && is_space(s[0]) {
        lemma_trim_start_first(s.drop_first());
    }
}

/// `s[from..]` without its leading white space.
pub fn trim_start_from(s: &[char], from: usize) -> (r: usize)
    requires
        from <= s@.len(),
    ensures
        from <= r <= s@.len(),
        trim_start(s@.skip(from as int)) == s@.skip(r as int),
    decreases s@.len() - from,
{
    if from < s.len() && space(s[from]) {
        assert(s@.skip(from as int).drop_first() =~= s@.skip(from + 1));
        trim_start_from(s, from + 1)
    } else {
        from
    }
}

/// `s[..to]` without its trailing white space.
pub fn trim_end_to(s: &[char], from: usize, to: usize) -> (r: usize)
    requires
        from <= to <= s@.len(),
    ensures
        from <= r <= to,
        trim_end(s@.subrange(from as int, to as int)) == s@.subrange(from as int, r as int),
    decreases to - from,
{
    if from < to && space(s[to - 1]) {
        assert(s@.subrange(from as int, to as int).drop_last() =~= s@.subrange(from as int, to - 1));
        trim_end_to(s, from, to - 1)
    } else {
        from + (to - from)
    }
}

/// [`parse_usize`] of the characters `s[from..to]`.
pub fn parse_usize_of(s: &[char], from: usize, to: usize) -> (r: Option<usize>)
    requires
        from <= to <= s@.len(),
    ensures
        r == parse_usize(s@.subrange(from as int, to as int)),
{
    let ghost t = s@.subrange(from as int, to as int);
    let start = if from < to && s[from] == '+' { from + 1 } else { from };
    let ghost d = s@.subrange(start as int, to as int);
    assert(d == unsigned_part(t));
    if start == to {
        return None;
    }
    let mut value: usize = 0;
    let mut i = start;
    assert(d.subrange(0, 0) =~= Seq::<char>::empty());
    while i < to
        invariant
            from <= start <= i <= to,
            to <= s@.len(),
            d == s@.subrange(start as int, to as int),
            t == s@.subrange(from as int, to as int),
            d == unsigned_part(t),
            d.len() > 0,
            value == digits_value(d.subrange(0, i - start)),
            forall|j: int| 0 <= j < i - start ==> is_digit(#[trigger] d[j]),
        decreases to - i,
    {
        let c = s[i];
        assert(d[i - start] == c);
        if !('0' <= c && c <= '9') {
            assert(!is_digit(d[i - start]));
            assert(!all_digits(d));
            return None;
        }
        let digit = (c as u32 - '0' as u32) as usize;
        assert(d.subrange(0, i + 1 - start).drop_last() =~= d.subrange(0, i - start));
        assert(d.subrange(0, i + 1 - start).last() == c);
        if value > (usize::MAX - digit) / 10 {
            assert(value * 10 + digit > usize::MAX) by (nonlinear_arith)
                requires
                    value > (usize::MAX - digit) / 10,
                    digit <= 9,
            ;
            proof {
                lemma_digits_monotone(d, i + 1 - start, d.len() as int);
                assert(d.subrange(0, d.len() as int) =~= d);
            }
            return None;
        }
        value = value * 10 + digit;
        i = i + 1;
    }
    assert(d.subrange(0, to - start) =~= d);
    Some(value)
}

/// A prefix's value is no more than the whole's.
proof fn lemma_digits_monotone(d: Seq<char>, n: int, m: int)
    requires
        0 <= n <= m <= d.len(),
    ensures
        digits_value(d.subrange(0, n)) <= digits_value(d.subrange(0, m)),
    decreases m - n,
{
    if n < m {
        lemma_digits_monotone(d, n, m - 1);
        assert(d.subrange(0, m).drop_last() =~= d.subrange(0, m - 1));
    }
}

/// [`parse_usize`] of `s` trimmed: what `s.trim().parse::<usize>().ok()`
/// gives.
pub fn parse_trimmed(s: &str) -> (r: Option<usize>)
    ensures
        r == parse_usize(trim(s@)),
{
    let c = chars_of(s);
    let from = trim_start_from(c.as_slice(), 0);
    assert(c@.skip(0) =~= c@);
    let to = trim_end_to(c.as_slice(), from, c.len());
    assert(c@.skip(from as int) =~= c@.subrange(from as int, c@.len() as int));
    parse_usize_of(c.as_slice(), from, to)
}

} // verus!

verus! {

/// Whether `needle` stands in `hay` at `i`.
pub open spec fn occurs_at(hay: Seq<char>, needle: Seq<char>, i: int) -> bool {
    0 <= i && i + needle.len() <= hay.len() && hay.subrange(i, i + needle.len()) == needle
}

/// Whether `needle` stands anywhere in `hay`: what `str::contains` asks.
pub open spec fn contains_text(hay: Seq<char>, needle: Seq<char>) -> bool {
    exists|i: int| occurs_at(hay, needle, i)
}

/// Whether `needle` stands in `hay` at `i`, computed.
pub fn matches_at(hay: &[char], needle: &[char], i: usize) -> (r: bool)
    ensures
        r == occurs_at(hay@, needle@, i as int),
{
    if i > hay.len() || needle.len() > hay.len() - i {
        return false;
    }
    let n = hay.len();
    let mut j: usize = 0;
    while j < needle.len()
        invariant
            j <= needle@.len(),
            n == hay@.len(),
            i <= hay@.len(),
            i + needle@.len() <= hay@.len(),
            forall|k: int| 0 <= k < j ==> hay@[i + k] == needle@[k],
        decreases needle@.len() - j,
    {
        if hay[i + j] != needle[j] {
            assert(hay@.subrange(i as int, i + needle@.len())[j as int] != needle@[j as int]);
            return false;
        }
        j = j + 1;
    }
    assert(hay@.subrange(i as int, i + needle@.len()) =~= needle@);
    true
}

/// Whether `needle` stands anywhere in `hay`, computed.
pub fn contains_chars(hay: &[char], needle: &[char]) -> (r: bool)
    ensures
        r == contains_text(hay@, needle@),
{
    if needle.len() > hay.len() {
        assert(forall|i: int| !occurs_at(hay@, needle@, i));
        return false;
    }
    let last = hay.len() - needle.len();
    let mut i: usize = 0;
    loop
        invariant
            last == hay@.len() - needle@.len(),
            i <= last,
            forall|k: int| 0 <= k < i ==> !occurs_at(hay@, needle@, k),
        ensures
            forall|k: int| 0 <= k <= last ==> !occurs_at(hay@, needle@, k),
        decreases last - i,
    {
        if matches_at(hay, needle, i) {
            return true;
        }
        if i == last {
            break;
        }
        i = i + 1;
    }
    assert(forall|k: int| !occurs_at(hay@, needle@, k));
    false
}

/// Whether `needle` stands anywhere in `hay`: `str::contains`.
pub fn contains(hay: &str, needle: &str) -> (r: bool)
    ensures
        r == contains_text(hay@, needle@),
{
    let (h, n) = (chars_of(hay), chars_of(needle));
    contains_chars(h.as_slice(), n.as_slice())
}

/// Whether `hay` starts with `prefix`: `str::starts_with`.
pub fn starts_with(hay: &str, prefix: &str) -> (r: bool)
    ensures
        r == occurs_at(hay@, prefix@, 0),
{
    let (h, p) = (chars_of(hay), chars_of(prefix));
    matches_at(h.as_slice(), p.as_slice(), 0)
}

} // verus!

verus! {

/// Whether `hay` ends with `suffix`: what `str::ends_with` asks.
pub open spec fn ends_with_text(hay: Seq<char>, suffix: Seq<char>) -> bool {
    suffix.len() <= hay.len() && occurs_at(hay, suffix, hay.len() - suffix.len())
}

/// Whether `hay` ends with `suffix`: `str::ends_with`.
pub fn ends_with(hay: &str, suffix: &str) -> (r: bool)
    ensures
        r == ends_with_text(hay@, suffix@),
{
    let (h, s) = (chars_of(hay), chars_of(suffix));
    if s.len() > h.len() {
        return false;
    }
    matches_at(h.as_slice(), s.as_slice(), h.len() - s.len())
}

} // verus!
