//! The property tests' seeds and case counts: the count from its
//! environment variable, the seed as 64 hex digits and back, each shard's
//! own seed, and how many cases a shard runs.

use vstd::prelude::*;
use vstd::bytes::{spec_u32_to_le_bytes, u32_to_le_bytes};
use vstd::utf8::is_ascii_chars;
use crate::cache::{hex_of, sha256_of};
use crate::text::{chars_of, decimal, parse_usize, push_decimal, push_str, string_of, trim, trim_end_to, trim_start_from};

verus! {

/// The environment variable that sets the number of cases per property.
pub const CASES_VAR: &'static str = "ARRIS_PROPTEST_CASES";

/// The environment variable that sets the seed: 64 hex digits, as a
/// failure prints it.
pub const SEED_VAR: &'static str = "ARRIS_PROPTEST_SEED";

/// Cases per property when [`CASES_VAR`] is unset.
pub const DEFAULT_CASES: u32 = 256;

/// What `str::parse::<u32>` makes of `s`.
pub open spec fn parse_u32(s: Seq<char>) -> Option<u32> {
    match parse_usize(s) {
        Some(n) => if n <= u32::MAX {
            Some(n as u32)
        } else {
            None
        },
        None => None,
    }
}

/// The number of cases given [`CASES_VAR`]'s value: that value trimmed,
/// where it is a positive count, or [`DEFAULT_CASES`].
pub open spec fn cases_of(value: Option<Seq<char>>) -> u32 {
    match value {
        Some(v) => match parse_u32(trim(v)) {
            Some(n) => if n > 0 {
                n
            } else {
                DEFAULT_CASES
            },
            None => DEFAULT_CASES,
        },
        None => DEFAULT_CASES,
    }
}

/// The number of cases given [`CASES_VAR`]'s value: that value, where it
/// is a positive count, or [`DEFAULT_CASES`].
pub fn cases_from(value: Option<&str>) -> (n: u32)
    ensures
        n == cases_of(
            match value {
                Some(v) => Some(v@),
                None => None,
            },
        ),
{
    match value {
        Some(v) => match crate::text::parse_trimmed(v) {
            Some(n) => if n > 0 && n <= 0xffff_ffffusize {
                n as u32
            } else {
                DEFAULT_CASES
            },
            None => DEFAULT_CASES,
        },
        None => DEFAULT_CASES,
    }
}

/// The value of a hex digit, either case.
pub open spec fn hex_value(c: char) -> Option<u8> {
    if '0' <= c <= '9' {
        Some(((c as u32) - ('0' as u32)) as u8)
    } else if 'a' <= c <= 'f' {
        Some(((c as u32) - ('a' as u32) + 10) as u8)
    } else if 'A' <= c <= 'F' {
        Some(((c as u32) - ('A' as u32) + 10) as u8)
    } else {
        None
    }
}

/// What `u8::from_str_radix(_, 16)` makes of the two characters `a`,
/// `b`: a `+` and one digit, or two digits.
pub open spec fn pair_value(a: char, b: char) -> Option<u8> {
    if a == '+' {
        hex_value(b)
    } else {
        match (hex_value(a), hex_value(b)) {
            (Some(x), Some(y)) => Some((x * 16 + y) as u8),
            _ => None,
        }
    }
}

/// The seed `t` spells: 64 ASCII characters, every pair a byte.
pub open spec fn seed_of(t: Seq<char>) -> Option<Seq<u8>> {
    if t.len() == 64 && is_ascii_chars(t) && forall|i: int| 0 <= i < 32 ==> (#[trigger] pair_value(t[2 * i], t[2 * i + 1])) is Some {
        Some(Seq::new(32, |i: int| pair_value(t[2 * i], t[2 * i + 1]).unwrap()))
    } else {
        None
    }
}

proof fn lemma_char_from_nul(c: char)
    ensures
        '\0' <= c,
{
}

fn hex_digit_value(c: char) -> (r: Option<u8>)
    ensures
        r == hex_value(c),
{
    if '0' <= c && c <= '9' {
        Some((c as u32 - '0' as u32) as u8)
    } else if 'a' <= c && c <= 'f' {
        Some((c as u32 - 'a' as u32 + 10) as u8)
    } else if 'A' <= c && c <= 'F' {
        Some((c as u32 - 'A' as u32 + 10) as u8)
    } else {
        None
    }
}

fn pair(a: char, b: char) -> (r: Option<u8>)
    ensures
        r == pair_value(a, b),
{
    if a == '+' {
        hex_digit_value(b)
    } else {
        match (hex_digit_value(a), hex_digit_value(b)) {
            (Some(x), Some(y)) => Some(x * 16 + y),
            _ => None,
        }
    }
}

/// The seed `text` spells, trimmed: 64 hex digits, two to a byte (a
/// pair may also be `+` and one digit, as `u8::from_str_radix` reads it).
/// Any other text, one with a character outside ASCII among them, is no
/// seed: `None`.
pub fn parse_seed(text: &str) -> (r: Option<[u8; 32]>)
    ensures
        match seed_of(trim(text@)) {
            Some(s) => r matches Some(b) && b@ == s,
            None => r is None,
        },
{
    let c = chars_of(text);
    let from = trim_start_from(c.as_slice(), 0);
    assert(c@.skip(0) =~= c@);
    let to = trim_end_to(c.as_slice(), from, c.len());
    assert(c@.skip(from as int) =~= c@.subrange(from as int, c@.len() as int));
    let ghost t = trim(text@);
    assert(t =~= c@.subrange(from as int, to as int));
    if to - from != 64 {
        return None;
    }
    let mut k = from;
    while k < to
        invariant
            from <= k <= to <= c@.len(),
            to - from == 64,
            t == trim(text@),
            t == c@.subrange(from as int, to as int),
            forall|j: int| from <= j < k ==> '\0' <= #[trigger] c@[j] <= '\u{7f}',
        decreases to - k,
    {
        if c[k] > '\u{7f}' {
            assert(t[k - from] == c@[k as int]);
            assert(!is_ascii_chars(t));
            return None;
        }
        proof {
            lemma_char_from_nul(c@[k as int]);
        }
        k = k + 1;
    }
    assert forall|j: int| 0 <= j < t.len() implies '\0' <= #[trigger] t[j] <= '\u{7f}' by {
        assert(t[j] == c@[from + j]);
    }
    assert(is_ascii_chars(t));
    let mut out = [0u8; 32];
    let mut i: usize = 0;
    while i < 32
        invariant
            i <= 32,
            to - from == 64,
            to <= c@.len(),
            t == trim(text@),
            t == c@.subrange(from as int, to as int),
            t.len() == 64,
            is_ascii_chars(t),
            forall|j: int| 0 <= j < i ==> (#[trigger] pair_value(t[2 * j], t[2 * j + 1])) == Some(out@[j]),
        decreases 32 - i,
    {
        let (a, b) = (c[from + 2 * i], c[from + 2 * i + 1]);
        assert(t[2 * i] == a && t[2 * i + 1] == b);
        match pair(a, b) {
            Some(v) => {
                out[i] = v;
            },
            None => {
                assert(pair_value(t[2 * (i as int)], t[2 * (i as int) + 1]) is None);
                return None;
            },
        }
        i = i + 1;
    }
    assert(out@ =~= Seq::new(32, |j: int| pair_value(t[2 * j], t[2 * j + 1]).unwrap()));
    Some(out)
}

/// The seed as the hex text [`SEED_VAR`] accepts: 64 lower-case digits.
pub fn seed_hex(seed: &[u8; 32]) -> (s: String)
    ensures
        s@ == hex_of(seed@),
{
    crate::cache::digest_hex(seed)
}

/// The seed of one shard: sha256 over the base seed and the shard's
/// index as 4 little-endian bytes. It ignores the number of shards, so
/// raising it shortens each shard's stream rather than re-rolling it.
pub fn shard_seed(base: &[u8; 32], shard: u32) -> (s: [u8; 32])
    ensures
        s@ == sha256_of(base@ + spec_u32_to_le_bytes(shard)),
{
    let mut m: Vec<u8> = Vec::new();
    let mut i: usize = 0;
    while i < 32
        invariant
            i <= 32,
            m@ == base@.subrange(0, i as int),
        decreases 32 - i,
    {
        m.push(base[i]);
        i = i + 1;
    }
    let b = u32_to_le_bytes(shard);
    let mut j: usize = 0;
    while j < b.len()
        invariant
            j <= b@.len(),
            m@ == base@ + b@.subrange(0, j as int),
        decreases b@.len() - j,
    {
        m.push(b[j]);
        j = j + 1;
    }
    assert(b@.subrange(0, j as int) =~= b@);
    crate::cache::sha256(m.as_slice())
}

/// The cases one of `shards` shards runs: `cases` over `shards`, rounded
/// up — so the shards together never run fewer than `cases`, and one
/// shard fewer would.
pub fn cases_per_shard(cases: u32, shards: u32) -> (n: u32)
    requires
        shards > 0,
    ensures
        n == (cases + shards - 1) / (shards as int),
        shards * n >= cases,
        n > 0 ==> shards * (n - 1) < cases,
{
    let q = cases / shards;
    assert(cases % shards != 0 ==> q < u32::MAX) by (nonlinear_arith)
        requires
            shards > 0,
            q == cases / shards,
    ;
    let n = if cases % shards != 0 { q + 1 } else { q };
    assert(n == (cases + shards - 1) / (shards as int) && shards * n >= cases && (n > 0 ==> shards * (n - 1) < cases)) by (nonlinear_arith)
        requires
            shards > 0,
            q == cases / shards,
            n == (if cases % shards != 0 { q + 1 } else { q as int }),
    ;
    n
}

} // verus!

verus! {

proof fn lemma_hex_value(d: nat)
    requires
        d < 16,
    ensures
        hex_value(crate::cache::hex_char(d)) == Some(d as u8),
        !crate::text::is_space(crate::cache::hex_char(d)),
        '\0' <= crate::cache::hex_char(d) <= '\u{7f}',
        crate::cache::hex_char(d) != '+',
{
}

proof fn lemma_no_space_trim(h: Seq<char>)
    requires
        forall|i: int| 0 <= i < h.len() ==> !crate::text::is_space(#[trigger] h[i]),
    ensures
        trim(h) == h,
{
    assert(crate::text::trim_start(h) == h);
    assert(crate::text::trim_end(h) == h);
}

/// A seed printed by [`seed_hex`] parses back to itself.
pub proof fn lemma_seed_round_trip(b: Seq<u8>)
    requires
        b.len() == 32,
    ensures
        seed_of(trim(hex_of(b))) == Some(b),
{
    let h = hex_of(b);
    crate::cache::lemma_hex_of(b);
    assert forall|i: int| 0 <= i < h.len() implies !crate::text::is_space(#[trigger] h[i]) && '\0' <= h[i] <= '\u{7f}' by {
        let j = i / 2;
        if i % 2 == 0 {
            assert(i == 2 * j);
            lemma_hex_value((b[j] / 16) as nat);
        } else {
            assert(i == 2 * j + 1);
            lemma_hex_value((b[j] % 16) as nat);
        }
    }
    lemma_no_space_trim(h);
    assert(is_ascii_chars(h));
    assert forall|i: int| 0 <= i < 32 implies (#[trigger] pair_value(h[2 * i], h[2 * i + 1])) == Some(b[i]) by {
        lemma_hex_value((b[i] / 16) as nat);
        lemma_hex_value((b[i] % 16) as nat);
        let hi = (b[i] / 16) as u8;
        let lo = (b[i] % 16) as u8;
        assert((hi * 16 + lo) as u8 == b[i]) by (nonlinear_arith)
            requires
                hi == b[i] / 16,
                lo == b[i] % 16,
        ;
    }
    assert(Seq::new(32, |i: int| pair_value(h[2 * i], h[2 * i + 1]).unwrap()) =~= b);
}

/// How a property's run ended where it did not pass: a failure with its
/// reason and the minimal failing input as `{:#?}` prints it, or an
/// abort with its reason.
#[derive(Debug, Clone, PartialEq, Eq)]
pub enum Verdict {
    Failed { reason: String, input: String },
    Aborted { reason: String },
}

/// How to reproduce a run: its seed and case count as the environment
/// sets them.
pub open spec fn reproduce_text(seed: Seq<u8>, cases: u32) -> Seq<char> {
    SEED_VAR@ + "="@ + hex_of(seed) + " "@ + CASES_VAR@ + "="@ + decimal(cases as nat)
}

/// What a property that did not pass over `seed` and `cases` cases
/// reports.
pub open spec fn failure_text(seed: Seq<u8>, cases: u32, v: Verdict) -> Seq<char> {
    match v {
        Verdict::Failed { reason, input } => "property failed: "@ + reason@ + "\nminimal failing input: "@ + input@
            + "\nreproduce with "@ + reproduce_text(seed, cases),
        Verdict::Aborted { reason } => "property aborted: "@ + reason@,
    }
}

/// What shard `shard` of `shards` of a property over the base seed `base`
/// and `cases` cases in all reports where it did not pass: the base seed
/// and the total, which reproduce the whole run, not the shard's.
pub open spec fn shard_failure_text(base: Seq<u8>, cases: u32, shard: u32, shards: u32, v: Verdict) -> Seq<char> {
    let at = " in shard "@ + decimal(shard as nat) + " of "@ + decimal(shards as nat) + ": "@;
    match v {
        Verdict::Failed { reason, input } => "property failed"@ + at + reason@ + "\nminimal failing input: "@ + input@
            + "\nreproduce the whole run with "@ + reproduce_text(base, cases)
            + " — the base seed and the total, not the shard's"@,
        Verdict::Aborted { reason } => "property aborted"@ + at + reason@,
    }
}

fn push_reproduce(out: &mut Vec<char>, seed: &[u8; 32], cases: u32)
    ensures
        final(out)@ == old(out)@ + reproduce_text(seed@, cases),
{
    let ghost start = out@;
    push_str(out, SEED_VAR);
    push_str(out, "=");
    let hex = seed_hex(seed);
    push_str(out, hex.as_str());
    push_str(out, " ");
    push_str(out, CASES_VAR);
    push_str(out, "=");
    push_decimal(out, cases as u64);
    assert(out@ =~= start + reproduce_text(seed@, cases));
}

/// The report of a property over `seed` and `cases` cases that did not
/// pass: why, the minimal failing input, and how to reproduce the run.
pub fn failure_message(seed: &[u8; 32], cases: u32, verdict: &Verdict) -> (m: String)
    ensures
        m@ == failure_text(seed@, cases, *verdict),
{
    let mut out: Vec<char> = Vec::new();
    match verdict {
        Verdict::Failed { reason, input } => {
            push_str(&mut out, "property failed: ");
            push_str(&mut out, reason.as_str());
            push_str(&mut out, "\nminimal failing input: ");
            push_str(&mut out, input.as_str());
            push_str(&mut out, "\nreproduce with ");
            push_reproduce(&mut out, seed, cases);
        },
        Verdict::Aborted { reason } => {
            push_str(&mut out, "property aborted: ");
            push_str(&mut out, reason.as_str());
        },
    }
    assert(out@ =~= failure_text(seed@, cases, *verdict));
    string_of(out.as_slice())
}

/// The report of shard `shard` of `shards` of a property over the base
/// seed `base` and `cases` cases in all, where it did not pass: the
/// shard, why, the minimal failing input, and the base seed and total
/// that reproduce the whole run.
pub fn shard_failure_message(base: &[u8; 32], cases: u32, shard: u32, shards: u32, verdict: &Verdict) -> (m: String)
    ensures
        m@ == shard_failure_text(base@, cases, shard, shards, *verdict),
{
    let mut out: Vec<char> = Vec::new();
    let mut at: Vec<char> = Vec::new();
    push_str(&mut at, " in shard ");
    push_decimal(&mut at, shard as u64);
    push_str(&mut at, " of ");
    push_decimal(&mut at, shards as u64);
    push_str(&mut at, ": ");
    match verdict {
        Verdict::Failed { reason, input } => {
            push_str(&mut out, "property failed");
            crate::text::push_chars(&mut out, at.as_slice());
            push_str(&mut out, reason.as_str());
            push_str(&mut out, "\nminimal failing input: ");
            push_str(&mut out, input.as_str());
            push_str(&mut out, "\nreproduce the whole run with ");
            push_reproduce(&mut out, base, cases);
            push_str(&mut out, " — the base seed and the total, not the shard's");
        },
        Verdict::Aborted { reason } => {
            push_str(&mut out, "property aborted");
            crate::text::push_chars(&mut out, at.as_slice());
            push_str(&mut out, reason.as_str());
        },
    }
    assert(out@ =~= shard_failure_text(base@, cases, shard, shards, *verdict));
    string_of(out.as_slice())
}

} // verus!
