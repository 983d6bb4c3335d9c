//! What the rasteriser hands back, read: a fixed-size RGB image, a pixel
//! of it, and the colours it holds with how many pixels each.

use vstd::prelude::*;
use vstd::view::View as _;
use crate::corpus::joined;
use crate::sorted::{count_of, count_up, entries_view, map_of, strictly_sorted};
use crate::text::{chars_of, push_str, string_of};

verus! {

/// Image width in pixels. Fixed so two renders of the same scene are
/// comparable pixel for pixel.
pub const WIDTH: u32 = 800;

/// Image height in pixels.
pub const HEIGHT: u32 = 600;

/// The direction a render looks from. All views are orthographic.
#[derive(Debug, Clone, Copy, PartialEq, Eq, Hash, Structural)]
pub enum View {
    /// From `(+1, −1, +1)`.
    Iso,
    /// From `+z` down.
    Top,
    /// From `−y`.
    Front,
    /// From `+x`.
    Right,
}

/// An RGB pixel buffer of [`WIDTH`] × [`HEIGHT`], row-major from the top
/// left.
#[derive(Debug, Clone, PartialEq, Eq)]
pub struct Raster {
    pixels: Vec<[u8; 3]>,
}

impl vstd::view::View for Raster {
    type V = Seq<[u8; 3]>;

    closed spec fn view(&self) -> Seq<[u8; 3]> {
        self.pixels@
    }
}

/// The colour `c` as one number, red most significant: the order of the
/// numbers is the order of the colours.
pub open spec fn colour_key(c: [u8; 3]) -> u32 {
    (c[0] as int * 65536 + c[1] as int * 256 + c[2] as int) as u32
}

/// How many of `s` are `c`.
pub open spec fn occurrences(s: Seq<[u8; 3]>, c: [u8; 3]) -> nat
    decreases s.len(),
{
    if s.len() == 0 {
        0
    } else {
        occurrences(s.drop_last(), c) + if s.last() == c { 1nat } else { 0nat }
    }
}

/// The pixel at column `x`, row `y` of the pixels `p`.
pub open spec fn pixel_at(p: Seq<[u8; 3]>, x: u32, y: u32) -> Option<[u8; 3]> {
    let i = y as int * WIDTH as int + x as int;
    if x < WIDTH && y < HEIGHT && i < p.len() {
        Some(p[i])
    } else {
        None
    }
}

/// The counts of the colours of `s`, by key.
pub open spec fn key_counts(s: Seq<[u8; 3]>) -> Map<u32, usize>
    decreases s.len(),
{
    if s.len() == 0 {
        Map::empty()
    } else {
        let m = key_counts(s.drop_last());
        let k = colour_key(s.last());
        m.insert(k, (count_of(m, k) + 1) as usize)
    }
}

proof fn lemma_key_injective(a: [u8; 3], b: [u8; 3])
    ensures
        colour_key(a) == colour_key(b) ==> a == b,
        (colour_key(a) as int) == a[0] as int * 65536 + a[1] as int * 256 + a[2] as int,
{
    assert(a@.len() == 3 && b@.len() == 3);
    if colour_key(a) == colour_key(b) {
        assert(a[0] == b[0] && a[1] == b[1] && a[2] == b[2]) by (nonlinear_arith)
            requires
                a[0] as int * 65536 + a[1] as int * 256 + a[2] as int == b[0] as int * 65536 + b[1] as int
                    * 256 + b[2] as int,
                a[0] < 256,
                a[1] < 256,
                a[2] < 256,
                b[0] < 256,
                b[1] < 256,
                b[2] < 256,
        ;
        assert(a@ =~= b@);
    }
}

/// The counts by key are the occurrences of each colour, and only the
/// colours present have one.
proof fn lemma_key_counts(s: Seq<[u8; 3]>, c: [u8; 3])
    requires
        s.len() < usize::MAX,
    ensures
        key_counts(s).contains_key(colour_key(c)) <==> occurrences(s, c) > 0,
        count_of(key_counts(s), colour_key(c)) == occurrences(s, c),
        forall|k: u32| #[trigger] key_counts(s).contains_key(k) ==> exists|j: int| 0 <= j < s.len() && colour_key(s[j]) == k,
    decreases s.len(),
{
    if s.len() > 0 {
        let t = s.drop_last();
        lemma_key_counts(t, c);
        lemma_key_injective(s.last(), c);
        lemma_occurrences_bound(t, c);
        let m = key_counts(t);
        assert forall|k: u32| #[trigger] key_counts(s).contains_key(k) implies exists|j: int| 0 <= j < s.len() && colour_key(s[j]) == k by {
            if k == colour_key(s.last()) {
                assert(colour_key(s[s.len() - 1]) == k);
            } else {
                assert(m.contains_key(k));
                let j = choose|j: int| 0 <= j < t.len() && colour_key(t[j]) == k;
                assert(s[j] == t[j]);
            }
        }
    }
}

proof fn lemma_occurrences_bound(s: Seq<[u8; 3]>, c: [u8; 3])
    ensures
        occurrences(s, c) <= s.len(),
    decreases s.len(),
{
    if s.len() > 0 {
        lemma_occurrences_bound(s.drop_last(), c);
    }
}

/// The colour of the key `k < 2^24`.
fn colour_of(k: u32) -> (c: [u8; 3])
    requires
        k < 16777216,
    ensures
        colour_key(c) == k,
{
    let r = (k / 65536) as u8;
    let g = ((k / 256) % 256) as u8;
    let b = (k % 256) as u8;
    let c = [r, g, b];
    assert(r as int * 65536 + g as int * 256 + b as int == k) by (nonlinear_arith)
        requires
            r == k / 65536,
            g == (k / 256) % 256,
            b == k % 256,
            k < 16777216,
    ;
    c
}

impl Raster {
    /// The raster of `pixels`, row-major from the top left; `None` unless
    /// there are [`WIDTH`] × [`HEIGHT`] of them.
    pub fn from_pixels(pixels: Vec<[u8; 3]>) -> (r: Option<Raster>)
        ensures
            pixels@.len() == WIDTH * HEIGHT ==> (r matches Some(raster) && raster@ == pixels@),
            pixels@.len() != WIDTH * HEIGHT ==> r is None,
    {
        if pixels.len() == 480000 {
            Some(Raster { pixels })
        } else {
            None
        }
    }

    /// The pixel at column `x`, row `y` (row 0 at the top).
    pub fn pixel(&self, x: u32, y: u32) -> (p: Option<[u8; 3]>)
        ensures
            p == pixel_at(self@, x, y),
    {
        if x >= WIDTH || y >= HEIGHT {
            return None;
        }
        let i = (y * WIDTH + x) as usize;
        if i < self.pixels.len() {
            Some(self.pixels[i])
        } else {
            None
        }
    }

    /// All pixels, row-major from the top left.
    pub fn pixels(&self) -> (p: &[[u8; 3]])
        ensures
            p@ == self@,
    {
        self.pixels.as_slice()
    }

    /// The distinct colours present, sorted, with their pixel counts.
    pub fn histogram(&self) -> (h: Vec<([u8; 3], usize)>)
        requires
            self@.len() < usize::MAX,
        ensures
            forall|i: int, j: int| 0 <= i < j < h@.len() ==> colour_key(#[trigger] h@[i].0) < colour_key(#[trigger] h@[j].0),
            forall|i: int| 0 <= i < h@.len() ==> #[trigger] h@[i].1 == occurrences(self@, h@[i].0) && h@[i].1 > 0,
            forall|c: [u8; 3]| occurrences(self@, c) > 0 ==> exists|i: int| 0 <= i < h@.len() && #[trigger] h@[i].0 == c,
            count_total(h@) == self@.len(),
    {
        let ghost p = self.pixels@;
        let mut entries: Vec<(u32, usize)> = Vec::new();
        let mut i: usize = 0;
        assert(entries_view(entries@) =~= Seq::<(u32, usize)>::empty());
        assert(p.take(0) =~= Seq::<[u8; 3]>::empty());
        while i < self.pixels.len()
            invariant
                p == self.pixels@,
                p.len() < usize::MAX,
                i <= p.len(),
                strictly_sorted::<u32, usize>(entries_view(entries@)),
                map_of(entries_view(entries@)) == key_counts(p.take(i as int)),
            decreases p.len() - i,
        {
            let c = self.pixels[i];
            let k = (c[0] as u32) * 65536 + (c[1] as u32) * 256 + (c[2] as u32);
            proof {
                lemma_key_injective(c, c);
                lemma_key_counts(p.take(i as int), c);
                lemma_occurrences_bound(p.take(i as int), c);
            }
            count_up(&mut entries, k);
            assert(p.take(i + 1).drop_last() =~= p.take(i as int));
            assert(p.take(i + 1).last() == c);
            i = i + 1;
        }
        assert(p.take(i as int) =~= p);
        let ghost e = entries_view(entries@);
        proof {
            crate::sorted::lemma_map_of::<u32, usize>(e);
        }
        let mut h: Vec<([u8; 3], usize)> = Vec::new();
        let mut j: usize = 0;
        while j < entries.len()
            invariant
                j <= entries@.len(),
                e == entries_view(entries@),
                p == self@,
                p.len() < usize::MAX,
                strictly_sorted::<u32, usize>(e),
                map_of(e) == key_counts(p),
                forall|a: int| 0 <= a < e.len() ==> #[trigger] map_of(e).contains_key(e[a].0) && map_of(e)[e[a].0] == e[a].1,
                h@.len() == j,
                forall|a: int| 0 <= a < j ==> colour_key(#[trigger] h@[a].0) == e[a].0 && h@[a].1 == e[a].1,
            decreases entries@.len() - j,
        {
            let (k, n) = entries[j];
            assert(e[j as int] == (k, n));
            assert(map_of(e).contains_key(k));
            proof {
                let w = choose|w: int| 0 <= w < p.len() && colour_key(p[w]) == k;
                lemma_key_counts(p, p[w]);
                lemma_key_injective(p[w], p[w]);
            }
            let c = colour_of(k);
            let ghost before = h@;
            h.push((c, n));
            assert(forall|a: int| 0 <= a < j ==> h@[a] == before[a]);
            assert(h@[j as int] == (c, n));
            j = j + 1;
        }
        proof {
            assert forall|a: int, b: int| 0 <= a < b < h@.len() implies colour_key(#[trigger] h@[a].0) < colour_key(#[trigger] h@[b].0) by {
                assert(<u32 as crate::sorted::Ordered>::before(e[a].0, e[b].0));
            }
            assert forall|a: int| 0 <= a < h@.len() implies #[trigger] h@[a].1 == occurrences(self@, h@[a].0) && h@[a].1 > 0 by {
                lemma_key_counts(p, h@[a].0);
            }
            assert forall|c: [u8; 3]| occurrences(self@, c) > 0 implies exists|a: int| 0 <= a < h@.len() && #[trigger] h@[a].0 == c by {
                lemma_key_counts(p, c);
                let k = colour_key(c);
                assert(map_of(e).contains_key(k));
                let a = choose|a: int| 0 <= a < e.len() && e[a].0 == k;
                lemma_key_injective(h@[a].0, c);
            }
            lemma_histogram_total(p, h@);
        }
        h
    }
}

/// The pixel counts of a histogram, added up.
pub open spec fn count_total(h: Seq<([u8; 3], usize)>) -> nat
    decreases h.len(),
{
    if h.len() == 0 {
        0
    } else {
        count_total(h.drop_last()) + h.last().1 as nat
    }
}

/// The occurrences in `s` of each of `cs`, added up.
pub open spec fn occurrence_total(s: Seq<[u8; 3]>, cs: Seq<[u8; 3]>) -> nat
    decreases cs.len(),
{
    if cs.len() == 0 {
        0
    } else {
        occurrence_total(s, cs.drop_last()) + occurrences(s, cs.last())
    }
}

proof fn lemma_total_push(t: Seq<[u8; 3]>, x: [u8; 3], cs: Seq<[u8; 3]>)
    requires
        forall|i: int, j: int| 0 <= i < j < cs.len() ==> cs[i] != cs[j],
    ensures
        occurrence_total(t.push(x), cs) == occurrence_total(t, cs) + if cs.contains(x) { 1int } else { 0int },
    decreases cs.len(),
{
    let s = t.push(x);
    assert(s.drop_last() =~= t);
    if cs.len() > 0 {
        let d = cs.drop_last();
        lemma_total_push(t, x, d);
        assert(occurrences(s, cs.last()) == occurrences(t, cs.last()) + if x == cs.last() { 1int } else { 0int });
        if d.contains(x) {
            let i = choose|i: int| 0 <= i < d.len() && d[i] == x;
            assert(cs[i] == x);
        }
        if cs.contains(x) && x != cs.last() {
            let i = choose|i: int| 0 <= i < cs.len() && cs[i] == x;
            assert(d[i] == x);
        }
    }
}

proof fn lemma_total_covers(s: Seq<[u8; 3]>, cs: Seq<[u8; 3]>)
    requires
        forall|i: int, j: int| 0 <= i < j < cs.len() ==> cs[i] != cs[j],
        forall|k: int| 0 <= k < s.len() ==> cs.contains(#[trigger] s[k]),
    ensures
        occurrence_total(s, cs) == s.len(),
    decreases s.len(),
{
    if s.len() == 0 {
        assert(occurrence_total(s, cs) == 0) by {
            lemma_total_empty(s, cs);
        }
    } else {
        let t = s.drop_last();
        assert forall|k: int| 0 <= k < t.len() implies cs.contains(#[trigger] t[k]) by {
            assert(t[k] == s[k]);
        }
        lemma_total_covers(t, cs);
        assert(t.push(s.last()) =~= s);
        assert(cs.contains(s[s.len() - 1]));
        lemma_total_push(t, s.last(), cs);
    }
}

proof fn lemma_total_empty(s: Seq<[u8; 3]>, cs: Seq<[u8; 3]>)
    requires
        s.len() == 0,
    ensures
        occurrence_total(s, cs) == 0,
    decreases cs.len(),
{
    if cs.len() > 0 {
        lemma_total_empty(s, cs.drop_last());
    }
}

proof fn lemma_count_total(p: Seq<[u8; 3]>, h: Seq<([u8; 3], usize)>)
    requires
        forall|i: int| 0 <= i < h.len() ==> #[trigger] h[i].1 == occurrences(p, h[i].0),
    ensures
        count_total(h) == occurrence_total(p, h.map_values(|e: ([u8; 3], usize)| e.0)),
    decreases h.len(),
{
    if h.len() > 0 {
        let d = h.drop_last();
        assert forall|i: int| 0 <= i < d.len() implies #[trigger] d[i].1 == occurrences(p, d[i].0) by {
            assert(d[i] == h[i]);
        }
        lemma_count_total(p, d);
        assert(h.map_values(|e: ([u8; 3], usize)| e.0).drop_last() =~= d.map_values(|e: ([u8; 3], usize)| e.0));
        assert(h[h.len() - 1].1 == occurrences(p, h[h.len() - 1].0));
    }
}

/// A raster's histogram counts every pixel once: its counts add up to
/// the number of pixels.
pub proof fn lemma_histogram_total(p: Seq<[u8; 3]>, h: Seq<([u8; 3], usize)>)
    requires
        forall|i: int, j: int| 0 <= i < j < h.len() ==> colour_key(#[trigger] h[i].0) < colour_key(#[trigger] h[j].0),
        forall|i: int| 0 <= i < h.len() ==> #[trigger] h[i].1 == occurrences(p, h[i].0) && h[i].1 > 0,
        forall|c: [u8; 3]| occurrences(p, c) > 0 ==> exists|i: int| 0 <= i < h.len() && #[trigger] h[i].0 == c,
    ensures
        count_total(h) == p.len(),
{
    let cs = h.map_values(|e: ([u8; 3], usize)| e.0);
    lemma_count_total(p, h);
    assert forall|i: int, j: int| 0 <= i < j < cs.len() implies cs[i] != cs[j] by {
        assert(colour_key(h[i].0) < colour_key(h[j].0));
    }
    assert forall|k: int| 0 <= k < p.len() implies cs.contains(#[trigger] p[k]) by {
        lemma_occurs(p, k);
        let i = choose|i: int| 0 <= i < h.len() && #[trigger] h[i].0 == p[k];
        assert(cs[i] == p[k]);
    }
    lemma_total_covers(p, cs);
}

/// A pixel's colour occurs.
proof fn lemma_occurs(p: Seq<[u8; 3]>, k: int)
    requires
        0 <= k < p.len(),
    ensures
        occurrences(p, p[k]) > 0,
    decreases p.len(),
{
    if k < p.len() - 1 {
        let t = p.drop_last();
        assert(t[k] == p[k]);
        lemma_occurs(t, k);
    }
}

/// The directory renders go to: `target/inspect/` at the workspace root,
/// two levels above the crate's manifest directory `manifest_dir`.
pub fn inspect_dir(manifest_dir: &str) -> (d: String)
    ensures
        d@ == joined(manifest_dir@, "../../target/inspect"@),
{
    let mut out = chars_of(manifest_dir);
    if out.len() > 0 && out[out.len() - 1] != '/' {
        out.push('/');
    }
    push_str(&mut out, "../../target/inspect");
    string_of(out.as_slice())
}

} // verus!
