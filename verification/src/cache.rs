//! The oracle's answers kept by what produced them: the key is sha256
//! over the oracle's digest, the script's name, the bytes of every file it
//! reads and the variant, each part length-prefixed so that no two
//! different lists of parts frame alike; and the digest of the oracle
//! itself is sha256 over its sources, each by its path and its bytes, in
//! path order.

use vstd::prelude::*;
use vstd::bytes::{spec_u64_to_le_bytes, u64_to_le_bytes, lemma_auto_spec_u64_to_from_le_bytes};
use vstd::string::StringSliceAdditionalSpecFns;
use crate::corpus::joined;
use crate::text::{chars_of, compare_chars, occurs_at, push_str, string_of, Order, seq_before};

verus! {

/// What `sha2::Sha256::digest` gives for `bytes`: the 32 bytes of their
/// SHA-256.
pub uninterp spec fn sha256_of(bytes: Seq<u8>) -> Seq<u8>;

/// `sha2::Sha256::digest` (through `sha2::Digest`): the SHA-256 of
/// `bytes`. Claimed: the result is the one named [`sha256_of`] for these
/// bytes, the same for the same bytes.
#[verifier::external_body]
pub(crate) fn sha256(bytes: &[u8]) -> (d: [u8; 32])
    ensures
        d@ == sha256_of(bytes@),
{
    <sha2::Sha256 as sha2::Digest>::digest(bytes).into()
}

/// A number as the 8 bytes of a little-endian `u64`.
pub open spec fn le64(n: nat) -> Seq<u8> {
    spec_u64_to_le_bytes(n as u64)
}

/// One part of a key's message: `0` where it is absent; `1`, its length
/// as 8 little-endian bytes and its bytes where it is there.
pub open spec fn part(b: Option<Seq<u8>>) -> Seq<u8> {
    match b {
        None => seq![0u8],
        Some(b) => seq![1u8] + le64(b.len()) + b,
    }
}

/// The parts of `xs`, one after another.
pub open spec fn parts(xs: Seq<Option<Seq<u8>>>) -> Seq<u8>
    decreases xs.len(),
{
    if xs.len() == 0 {
        Seq::empty()
    } else {
        part(xs[0]) + parts(xs.drop_first())
    }
}

/// The bytes a key hashes: the oracle's digest, the script, the number of
/// inputs, each input, the variant.
pub open spec fn key_message(
    oracle: Seq<u8>,
    script: Seq<u8>,
    inputs: Seq<Option<Seq<u8>>>,
    variant: Option<Seq<u8>>,
) -> Seq<u8> {
    oracle + part(Some(script)) + le64(inputs.len()) + parts(inputs) + part(variant)
}

/// The view of an optional byte string.
pub open spec fn opt_bytes(o: Option<&[u8]>) -> Option<Seq<u8>> {
    match o {
        Some(b) => Some(b@),
        None => None,
    }
}

/// The views of optional byte strings.
pub open spec fn opt_bytes_all(s: Seq<Option<&[u8]>>) -> Seq<Option<Seq<u8>>> {
    s.map_values(|o: Option<&[u8]>| opt_bytes(o))
}

/// Appends `n` as 8 little-endian bytes.
fn push_le64(out: &mut Vec<u8>, n: u64)
    ensures
        final(out)@ == old(out)@ + le64(n as nat),
{
    let b = u64_to_le_bytes(n);
    let ghost start = out@;
    let mut i: usize = 0;
    while i < b.len()
        invariant
            i <= b@.len(),
            out@ == start + b@.subrange(0, i as int),
        decreases b@.len() - i,
    {
        out.push(b[i]);
        i = i + 1;
    }
    assert(b@.subrange(0, i as int) =~= b@);
}

/// Appends the bytes `b`.
fn push_bytes(out: &mut Vec<u8>, b: &[u8])
    ensures
        final(out)@ == old(out)@ + b@,
{
    let ghost start = out@;
    let mut i: usize = 0;
    while i < b.len()
        invariant
            i <= b@.len(),
            out@ == start + b@.subrange(0, i as int),
        decreases b@.len() - i,
    {
        out.push(b[i]);
        i = i + 1;
    }
    assert(b@.subrange(0, i as int) =~= b@);
}

/// Appends one part.
fn push_part(out: &mut Vec<u8>, b: Option<&[u8]>)
    ensures
        final(out)@ == old(out)@ + part(opt_bytes(b)),
{
    match b {
        None => {
            out.push(0u8);
            assert(out@ =~= old(out)@ + seq![0u8]);
        },
        Some(b) => {
            let ghost start = out@;
            out.push(1u8);
            push_le64(out, b.len() as u64);
            push_bytes(out, b);
            assert(out@ =~= start + (seq![1u8] + le64(b@.len()) + b@));
        },
    }
}

/// The message a key hashes, framed.
pub fn key_bytes(oracle: &[u8; 32], script: &str, inputs: &[Option<&[u8]>], variant: Option<&str>) -> (m: Vec<u8>)
    ensures
        m@ == key_message(
            oracle@,
            script.spec_bytes(),
            opt_bytes_all(inputs@),
            match variant {
                Some(v) => Some(v.spec_bytes()),
                None => None,
            },
        ),
{
    let mut out: Vec<u8> = Vec::new();
    push_bytes(&mut out, oracle.as_slice());
    push_part(&mut out, Some(script.as_bytes()));
    push_le64(&mut out, inputs.len() as u64);
    let ghost head = out@;
    let ghost xs = opt_bytes_all(inputs@);
    assert(xs.skip(0) =~= xs);
    let mut i: usize = 0;
    while i < inputs.len()
        invariant
            i <= inputs@.len(),
            xs == opt_bytes_all(inputs@),
            head + parts(xs) == out@ + parts(xs.skip(i as int)),
        decreases inputs@.len() - i,
    {
        let ghost before = out@;
        push_part(&mut out, inputs[i]);
        assert(xs.skip(i as int)[0] == opt_bytes(inputs@[i as int]));
        assert(xs.skip(i as int).drop_first() =~= xs.skip(i + 1));
        assert(before + parts(xs.skip(i as int)) =~= out@ + parts(xs.skip(i + 1)));
        i = i + 1;
    }
    assert(xs.skip(i as int) =~= Seq::<Option<Seq<u8>>>::empty());
    let v = match variant {
        Some(v) => Some(v.as_bytes()),
        None => None,
    };
    push_part(&mut out, v);
    out
}

/// A cache key: sha256 over the oracle's digest, the script, the files it
/// reads and the variant.
#[derive(Debug, Clone, Copy, PartialEq, Eq, PartialOrd, Ord, Hash)]
pub struct Key(pub [u8; 32]);

impl Key {
    /// The key of running `script` on `inputs` (a file the script reads,
    /// or `None` where it is absent — distinct from an empty file) at
    /// `variant`, with the oracle's sources at `oracle`.
    pub fn new(oracle: &[u8; 32], script: &str, inputs: &[Option<&[u8]>], variant: Option<&str>) -> (k: Key)
        ensures
            k.0@ == sha256_of(
                key_message(
                    oracle@,
                    script.spec_bytes(),
                    opt_bytes_all(inputs@),
                    match variant {
                        Some(v) => Some(v.spec_bytes()),
                        None => None,
                    },
                ),
            ),
    {
        let m = key_bytes(oracle, script, inputs, variant);
        Key(sha256(m.as_slice()))
    }

    /// The key as 64 lower-case hex digits: its file name in the cache.
    pub fn hex(&self) -> (s: String)
        ensures
            s@ == hex_of(self.0@),
            s@.len() == 64,
    {
        digest_hex(&self.0)
    }
}

/// A 32-byte digest as 64 lower-case hex digits.
pub fn digest_hex(d: &[u8; 32]) -> (s: String)
    ensures
        s@ == hex_of(d@),
        s@.len() == 64,
{
    let mut out: Vec<char> = Vec::new();
    let mut i: usize = 0;
    while i < 32
        invariant
            i <= 32,
            d@.len() == 32,
            out@ == hex_of(d@.subrange(0, i as int)),
        decreases 32 - i,
    {
        let b = d[i];
        out.push(hex_digit(b / 16));
        out.push(hex_digit(b % 16));
        assert(d@.subrange(0, i + 1).drop_last() =~= d@.subrange(0, i as int));
        i = i + 1;
    }
    assert(d@.subrange(0, 32) =~= d@);
    proof {
        lemma_hex_of(d@);
    }
    string_of(out.as_slice())
}

/// The lower-case hex digit of `d < 16`.
pub open spec fn hex_char(d: nat) -> char {
    if d == 0 {
        '0'
    } else if d == 1 {
        '1'
    } else if d == 2 {
        '2'
    } else if d == 3 {
        '3'
    } else if d == 4 {
        '4'
    } else if d == 5 {
        '5'
    } else if d == 6 {
        '6'
    } else if d == 7 {
        '7'
    } else if d == 8 {
        '8'
    } else if d == 9 {
        '9'
    } else if d == 10 {
        'a'
    } else if d == 11 {
        'b'
    } else if d == 12 {
        'c'
    } else if d == 13 {
        'd'
    } else if d == 14 {
        'e'
    } else {
        'f'
    }
}

/// `bytes` as lower-case hex, two digits each, as `{:02x}` prints a byte.
pub open spec fn hex_of(bytes: Seq<u8>) -> Seq<char>
    decreases bytes.len(),
{
    if bytes.len() == 0 {
        Seq::empty()
    } else {
        let b = bytes.last();
        hex_of(bytes.drop_last()) + seq![hex_char((b / 16) as nat), hex_char((b % 16) as nat)]
    }
}

/// `hex_of` gives two digits a byte, the high one first.
pub proof fn lemma_hex_of(b: Seq<u8>)
    ensures
        hex_of(b).len() == 2 * b.len(),
        forall|i: int| 0 <= i < b.len() ==> hex_of(b)[2 * i] == hex_char((b[i] / 16) as nat) && hex_of(b)[2 * i + 1]
            == hex_char((b[i] % 16) as nat),
    decreases b.len(),
{
    if b.len() > 0 {
        let t = b.drop_last();
        lemma_hex_of(t);
        assert forall|i: int| 0 <= i < b.len() implies hex_of(b)[2 * i] == hex_char((b[i] / 16) as nat) && hex_of(b)[2 * i + 1]
            == hex_char((b[i] % 16) as nat) by {
            if i < t.len() {
                assert(b[i] == t[i]);
            }
        }
    }
}

/// The lower-case hex digit of `d`.
pub fn hex_digit(d: u8) -> (c: char)
    requires
        d < 16,
    ensures
        c == hex_char(d as nat),
{
    match d {
        0 => '0',
        1 => '1',
        2 => '2',
        3 => '3',
        4 => '4',
        5 => '5',
        6 => '6',
        7 => '7',
        8 => '8',
        9 => '9',
        10 => 'a',
        11 => 'b',
        12 => 'c',
        13 => 'd',
        14 => 'e',
        _ => 'f',
    }
}

} // verus!

verus! {

/// A part whose length a `u64` holds.
pub open spec fn fits(x: Option<Seq<u8>>) -> bool {
    match x {
        Some(b) => b.len() <= u64::MAX,
        None => true,
    }
}

proof fn lemma_le64(a: nat, b: nat)
    requires
        a <= u64::MAX,
        b <= u64::MAX,
    ensures
        le64(a).len() == 8,
        le64(a) == le64(b) ==> a == b,
{
    lemma_auto_spec_u64_to_from_le_bytes();
}

/// A part read back off the front of a message: the same front is the
/// same part, followed by the same rest.
proof fn lemma_part_prefix(x: Option<Seq<u8>>, y: Option<Seq<u8>>, r1: Seq<u8>, r2: Seq<u8>)
    requires
        fits(x),
        fits(y),
        part(x) + r1 == part(y) + r2,
    ensures
        x == y,
        r1 == r2,
{
    let (a, b) = (part(x) + r1, part(y) + r2);
    assert(a[0] == b[0]);
    match (x, y) {
        (None, None) => {
            assert(a.skip(1) =~= r1);
            assert(b.skip(1) =~= r2);
        },
        (Some(p), Some(q)) => {
            lemma_le64(p.len(), q.len());
            lemma_le64(q.len(), p.len());
            assert(a.subrange(1, 9) =~= le64(p.len()));
            assert(b.subrange(1, 9) =~= le64(q.len()));
            assert(p.len() == q.len());
            let n: int = 9int + p.len() as int;
            assert(a.subrange(9, n) =~= p);
            assert(b.subrange(9, n) =~= q);
            assert(a.skip(n) =~= r1);
            assert(b.skip(n) =~= r2);
        },
        (None, Some(q)) => {
            assert(b[0] == 1u8);
        },
        (Some(p), None) => {
            assert(a[0] == 1u8);
        },
    }
}

/// As many parts read back off the front of a message.
proof fn lemma_parts_prefix(xs: Seq<Option<Seq<u8>>>, ys: Seq<Option<Seq<u8>>>, r1: Seq<u8>, r2: Seq<u8>)
    requires
        xs.len() == ys.len(),
        forall|i: int| 0 <= i < xs.len() ==> fits(#[trigger] xs[i]),
        forall|i: int| 0 <= i < ys.len() ==> fits(#[trigger] ys[i]),
        parts(xs) + r1 == parts(ys) + r2,
    ensures
        xs == ys,
        r1 == r2,
    decreases xs.len(),
{
    if xs.len() > 0 {
        let (t1, t2) = (xs.drop_first(), ys.drop_first());
        assert(parts(xs) + r1 =~= part(xs[0]) + (parts(t1) + r1));
        assert(parts(ys) + r2 =~= part(ys[0]) + (parts(t2) + r2));
        lemma_part_prefix(xs[0], ys[0], parts(t1) + r1, parts(t2) + r2);
        assert forall|i: int| 0 <= i < t1.len() implies fits(#[trigger] t1[i]) by {
            assert(t1[i] == xs[i + 1]);
        }
        assert forall|i: int| 0 <= i < t2.len() implies fits(#[trigger] t2[i]) by {
            assert(t2[i] == ys[i + 1]);
        }
        lemma_parts_prefix(t1, t2, r1, r2);
        assert(xs =~= seq![xs[0]] + t1);
        assert(ys =~= seq![ys[0]] + t2);
    }
}

/// No two different lists of parts frame alike: a key's message gives
/// back the oracle's digest, the script, every input in order and the
/// variant it was made of. (A key is the SHA-256 of this message, so two
/// keys differ wherever their parts do, but for a SHA-256 collision.)
pub proof fn lemma_key_message_injective(
    o1: Seq<u8>,
    s1: Seq<u8>,
    i1: Seq<Option<Seq<u8>>>,
    v1: Option<Seq<u8>>,
    o2: Seq<u8>,
    s2: Seq<u8>,
    i2: Seq<Option<Seq<u8>>>,
    v2: Option<Seq<u8>>,
)
    requires
        o1.len() == 32,
        o2.len() == 32,
        s1.len() <= u64::MAX,
        s2.len() <= u64::MAX,
        i1.len() <= u64::MAX,
        i2.len() <= u64::MAX,
        forall|i: int| 0 <= i < i1.len() ==> fits(#[trigger] i1[i]),
        forall|i: int| 0 <= i < i2.len() ==> fits(#[trigger] i2[i]),
        fits(v1),
        fits(v2),
        key_message(o1, s1, i1, v1) == key_message(o2, s2, i2, v2),
    ensures
        o1 == o2,
        s1 == s2,
        i1 == i2,
        v1 == v2,
{
    let m = key_message(o1, s1, i1, v1);
    let rest1 = part(Some(s1)) + (le64(i1.len()) + (parts(i1) + part(v1)));
    let rest2 = part(Some(s2)) + (le64(i2.len()) + (parts(i2) + part(v2)));
    assert(m =~= o1 + rest1);
    assert(key_message(o2, s2, i2, v2) =~= o2 + rest2);
    assert(m.subrange(0, 32) =~= o1);
    assert((o2 + rest2).subrange(0, 32) =~= o2);
    assert(m.skip(32) =~= rest1);
    assert((o2 + rest2).skip(32) =~= rest2);
    lemma_part_prefix(Some(s1), Some(s2), le64(i1.len()) + (parts(i1) + part(v1)), le64(i2.len()) + (parts(i2) + part(v2)));
    lemma_le64(i1.len(), i2.len());
    lemma_le64(i2.len(), i1.len());
    let (t1, t2) = (le64(i1.len()) + (parts(i1) + part(v1)), le64(i2.len()) + (parts(i2) + part(v2)));
    assert(t1.subrange(0, 8) =~= le64(i1.len()));
    assert(t2.subrange(0, 8) =~= le64(i2.len()));
    assert(t1.skip(8) =~= parts(i1) + part(v1));
    assert(t2.skip(8) =~= parts(i2) + part(v2));
    lemma_parts_prefix(i1, i2, part(v1), part(v2));
    lemma_part_prefix(v1, v2, Seq::empty(), Seq::empty());
    assert(part(v1) + Seq::<u8>::empty() =~= part(v1));
    assert(part(v2) + Seq::<u8>::empty() =~= part(v2));
}

} // verus!

verus! {

/// The environment variable that turns the cache off: `off` bypasses it,
/// any other value or none uses the default directory.
pub const VAR: &'static str = "ARRIS_ORACLE_CACHE";

/// Where the cache reads and writes, or that it does neither.
#[derive(Debug, Clone, PartialEq, Eq)]
pub enum Setting {
    /// Every call runs the oracle and nothing is stored.
    Off,
    /// Entries are read from and written to this directory.
    At(String),
}

/// `target/oracle-cache/` under the workspace root `root`.
pub open spec fn default_dir_of(root: Seq<char>) -> Seq<char> {
    joined(root, "target/oracle-cache"@)
}

/// `target/oracle-cache/` under the workspace root `root`.
pub fn default_dir(root: &str) -> (d: String)
    ensures
        d@ == default_dir_of(root@),
{
    let mut out = chars_of(root);
    if out.len() > 0 && out[out.len() - 1] != '/' {
        out.push('/');
    }
    push_str(&mut out, "target/oracle-cache");
    string_of(out.as_slice())
}

/// Whether `r` is the setting in force: the one set for the process,
/// else off where [`VAR`] is `off`, else the default directory under
/// `root`.
pub open spec fn setting_is(r: Setting, set: Option<Setting>, var: Option<Seq<char>>, root: Seq<char>) -> bool {
    match set {
        Some(s) => r == s,
        None => if var == Some("off"@) {
            r == Setting::Off
        } else {
            r matches Setting::At(d) && d@ == default_dir_of(root)
        },
    }
}

/// The setting in force: `set`, the one set for the process, where there
/// is one; else [`VAR`]'s value `var`, under the workspace root `root`.
pub fn setting(set: Option<Setting>, var: Option<&str>, root: &str) -> (r: Setting)
    ensures
        setting_is(
            r,
            set,
            match var {
                Some(v) => Some(v@),
                None => None,
            },
            root@,
        ),
{
    match set {
        Some(s) => s,
        None => {
            let off = match var {
                Some(v) => crate::text::same_text(v, "off"),
                None => false,
            };
            if off {
                Setting::Off
            } else {
                Setting::At(default_dir(root))
            }
        },
    }
}

/// Where a call to `script` on `inputs` at `variant` is cached under
/// `setting`, with the oracle's digest `oracle`: the directory and the
/// key, or `None` when the cache is off or the oracle's sources could not
/// be read.
pub fn slot(
    setting: &Setting,
    oracle: Option<[u8; 32]>,
    script: &str,
    inputs: &[Option<&[u8]>],
    variant: Option<&str>,
) -> (r: Option<(String, Key)>)
    ensures
        match (*setting, oracle) {
            (Setting::At(dir), Some(o)) => r matches Some((d, k)) && d@ == dir@ && k.0@ == sha256_of(
                key_message(
                    o@,
                    script.spec_bytes(),
                    opt_bytes_all(inputs@),
                    match variant {
                        Some(v) => Some(v.spec_bytes()),
                        None => None,
                    },
                ),
            ),
            _ => r is None,
        },
{
    match (setting, oracle) {
        (Setting::At(dir), Some(o)) => Some((dir.clone(), Key::new(&o, script, inputs, variant))),
        _ => None,
    }
}

/// Whether the walk of the oracle's sources enters the directory `name`:
/// neither a hidden one nor Python's byte code.
pub open spec fn enters(name: Seq<char>) -> bool {
    !occurs_at(name, "."@, 0) && name != "__pycache__"@
}

/// Whether the walk enters the directory `name`.
pub fn enters_dir(name: &str) -> (r: bool)
    ensures
        r == enters(name@),
{
    !crate::text::starts_with(name, ".") && !crate::text::same_text(name, "__pycache__")
}

/// Whether the file `name` is an oracle source the walk counts.
pub fn is_source(name: &str) -> (r: bool)
    ensures
        r == crate::text::ends_with_text(name@, ".py"@),
{
    crate::text::ends_with(name, ".py")
}

/// The path of `name` under the relative directory `rel`: `name` at the
/// top, `rel/name` below it.
pub fn child_path(rel: &str, name: &str) -> (p: String)
    ensures
        p@ == if rel@.len() == 0 {
            name@
        } else {
            rel@ + "/"@ + name@
        },
{
    let mut out = chars_of(rel);
    if out.len() > 0 {
        push_str(&mut out, "/");
    }
    push_str(&mut out, name);
    string_of(out.as_slice())
}

/// The texts of `v`.
pub open spec fn texts(v: Seq<String>) -> Seq<Seq<char>> {
    v.map_values(|s: String| s@)
}

/// `a` before `b` in `String`'s order.
pub open spec fn path_first() -> spec_fn(Seq<char>, Seq<char>) -> bool {
    |a: Seq<char>, b: Seq<char>| seq_before(a, b)
}

/// `paths` in `String`'s order, as `sort` leaves them.
pub fn sorted_paths(paths: &Vec<String>) -> (out: Vec<String>)
    ensures
        texts(out@) == crate::sorted::sort_by(texts(paths@), path_first()),
{
    let ghost first = path_first();
    let mut out: Vec<String> = Vec::new();
    let mut i: usize = 0;
    assert(texts(paths@).take(0) =~= Seq::<Seq<char>>::empty());
    assert(texts(out@) =~= Seq::<Seq<char>>::empty());
    while i < paths.len()
        invariant
            first == path_first(),
            i <= paths@.len(),
            texts(out@) == crate::sorted::sort_by(texts(paths@).take(i as int), first),
        decreases paths@.len() - i,
    {
        let x = chars_of(paths[i].as_str());
        let mut p: usize = 0;
        while p < out.len()
            invariant
                first == path_first(),
                p <= out@.len(),
                i < paths@.len(),
                x@ == paths@[i as int]@,
                forall|j: int| 0 <= j < p ==> !first(x@, #[trigger] texts(out@)[j]),
            ensures
                p <= out@.len(),
                forall|j: int| 0 <= j < p ==> !first(x@, #[trigger] texts(out@)[j]),
                p < out@.len() ==> first(x@, texts(out@)[p as int]),
            decreases out@.len() - p,
        {
            let y = chars_of(out[p].as_str());
            if compare_chars(x.as_slice(), y.as_slice()) == Order::Less {
                assert(texts(out@)[p as int] == y@);
                break;
            }
            assert(texts(out@)[p as int] == y@);
            p = p + 1;
        }
        let ghost old_out = texts(out@);
        proof {
            if p < out@.len() {
                assert(old_out[p as int] == out@[p as int]@);
            }
            crate::sorted::lemma_insert_by(old_out, x@, first, p as int);
            assert(texts(paths@).take(i + 1).drop_last() =~= texts(paths@).take(i as int));
            assert(texts(paths@).take(i + 1).last() == x@);
        }
        out.insert(p, paths[i].clone());
        assert(texts(out@) =~= old_out.insert(p as int, x@));
        i = i + 1;
    }
    assert(texts(paths@).take(i as int) =~= texts(paths@));
    out
}

/// The message the oracle's digest hashes: each file's path and bytes as
/// two parts, in the order given.
pub open spec fn files_message(files: Seq<(Seq<u8>, Seq<u8>)>) -> Seq<u8>
    decreases files.len(),
{
    if files.len() == 0 {
        Seq::empty()
    } else {
        files_message(files.drop_last()) + part(Some(files.last().0)) + part(Some(files.last().1))
    }
}

/// The paths' bytes and the files' bytes.
pub open spec fn file_views(files: Seq<(String, Vec<u8>)>) -> Seq<(Seq<u8>, Seq<u8>)> {
    files.map_values(|f: (String, Vec<u8>)| (vstd::utf8::encode_utf8(f.0@), f.1@))
}

/// The digest of the oracle's sources: sha256 over each file's path
/// (relative to the oracle's root) and bytes, in the order given — the
/// caller reads them in [`sorted_paths`]'s order.
pub fn digest_files(files: &[(String, Vec<u8>)]) -> (d: [u8; 32])
    ensures
        d@ == sha256_of(files_message(file_views(files@))),
{
    let ghost fs = file_views(files@);
    let mut out: Vec<u8> = Vec::new();
    let mut i: usize = 0;
    assert(fs.take(0) =~= Seq::<(Seq<u8>, Seq<u8>)>::empty());
    while i < files.len()
        invariant
            i <= files@.len(),
            fs == file_views(files@),
            out@ == files_message(fs.take(i as int)),
        decreases files@.len() - i,
    {
        let (path, bytes) = (&files[i].0, &files[i].1);
        push_part(&mut out, Some(path.as_str().as_bytes()));
        push_part(&mut out, Some(bytes.as_slice()));
        assert(fs.take(i + 1).drop_last() =~= fs.take(i as int));
        assert(fs.take(i + 1).last() == fs[i as int]);
        i = i + 1;
    }
    assert(fs.take(i as int) =~= fs);
    sha256(out.as_slice())
}

/// Two hex digits are one only for one value under 16.
proof fn lemma_hex_char(d: nat, e: nat)
    requires
        d < 16,
        e < 16,
        hex_char(d) == hex_char(e),
    ensures
        d == e,
{
}

/// Bytes print as hex alike only if they are the same bytes: two keys
/// name one cache file only if they are one key.
pub proof fn lemma_hex_injective(a: Seq<u8>, b: Seq<u8>)
    requires
        hex_of(a) == hex_of(b),
    ensures
        a == b,
{
    lemma_hex_of(a);
    lemma_hex_of(b);
    assert forall|i: int| 0 <= i < a.len() implies a[i] == b[i] by {
        assert(hex_of(a)[2 * i] == hex_of(b)[2 * i]);
        assert(hex_of(a)[2 * i + 1] == hex_of(b)[2 * i + 1]);
        lemma_hex_char((a[i] / 16) as nat, (b[i] / 16) as nat);
        lemma_hex_char((a[i] % 16) as nat, (b[i] % 16) as nat);
        assert(a[i] == 16 * (a[i] / 16) + a[i] % 16);
        assert(b[i] == 16 * (b[i] / 16) + b[i] % 16);
    }
    assert(a =~= b);
}

} // verus!
