//! A map kept as a vector of entries in strictly increasing key order:
//! the same entries give the same vector, whatever order they came in.

use vstd::prelude::*;

use crate::text::{Order, compare_chars, lemma_seq_before_irreflexive, lemma_seq_before_total,
    lemma_seq_before_transitive, seq_before};

verus! {

/// A key with a strict total order on its view.
pub trait Ordered: View + Sized {
    /// `a` comes before `b`.
    spec fn before(a: Self::V, b: Self::V) -> bool;

    proof fn lemma_irreflexive(a: Self::V)
        ensures
            !Self::before(a, a),
    ;

    proof fn lemma_transitive(a: Self::V, b: Self::V, c: Self::V)
        requires
            Self::before(a, b),
            Self::before(b, c),
        ensures
            Self::before(a, c),
    ;

    proof fn lemma_total(a: Self::V, b: Self::V)
        ensures
            a == b || Self::before(a, b) || Self::before(b, a),
    ;

    /// `self` against `other`.
    fn compare(&self, other: &Self) -> (o: Order)
        ensures
            o == Order::Less <==> Self::before(self@, other@),
            o == Order::Equal <==> self@ == other@,
            o == Order::Greater <==> Self::before(other@, self@),
    ;

    /// A copy of `self`.
    fn duplicate(&self) -> (c: Self)
        ensures
            c@ == self@,
    ;
}

impl Ordered for Vec<char> {
    open spec fn before(a: Seq<char>, b: Seq<char>) -> bool {
        seq_before(a, b)
    }

    proof fn lemma_irreflexive(a: Seq<char>) {
        lemma_seq_before_irreflexive(a);
    }

    proof fn lemma_transitive(a: Seq<char>, b: Seq<char>, c: Seq<char>) {
        lemma_seq_before_transitive(a, b, c);
    }

    proof fn lemma_total(a: Seq<char>, b: Seq<char>) {
        lemma_seq_before_total(a, b);
    }

    fn compare(&self, other: &Self) -> (o: Order) {
        compare_chars(self.as_slice(), other.as_slice())
    }

    fn duplicate(&self) -> (c: Self) {
        self.clone()
    }
}

/// The keys of `s` strictly increase.
pub open spec fn strictly_sorted<K: Ordered, V>(s: Seq<(K::V, V)>) -> bool {
    forall|i: int, j: int| 0 <= i < j < s.len() ==> K::before(#[trigger] s[i].0, #[trigger] s[j].0)
}

/// The map of the entries `s`, a later entry of a key winning.
pub open spec fn map_of<KV, V>(s: Seq<(KV, V)>) -> Map<KV, V>
    decreases s.len(),
{
    if s.len() == 0 {
        Map::empty()
    } else {
        map_of(s.drop_last()).insert(s.last().0, s.last().1)
    }
}

/// The keys of a strictly sorted sequence are distinct.
pub proof fn lemma_distinct<K: Ordered, V>(s: Seq<(K::V, V)>, i: int, j: int)
    requires
        strictly_sorted::<K, V>(s),
        0 <= i < s.len(),
        0 <= j < s.len(),
        i != j,
    ensures
        s[i].0 != s[j].0,
{
    if i < j {
        K::lemma_irreflexive(s[i].0);
    } else {
        K::lemma_irreflexive(s[j].0);
    }
}

/// What [`map_of`] holds, for distinct keys: each entry, and nothing else.
pub proof fn lemma_map_of<K: Ordered, V>(s: Seq<(K::V, V)>)
    requires
        strictly_sorted::<K, V>(s),
    ensures
        forall|k: K::V| #[trigger] map_of(s).contains_key(k) <==> exists|i: int| 0 <= i < s.len() && s[i].0 == k,
        forall|i: int| 0 <= i < s.len() ==> #[trigger] map_of(s)[s[i].0] == s[i].1,
        map_of(s).dom().finite(),
        map_of(s).dom().len() == s.len(),
    decreases s.len(),
{
    if s.len() > 0 {
        let t = s.drop_last();
        assert(strictly_sorted::<K, V>(t));
        lemma_map_of::<K, V>(t);
        let last = s.last();
        assert forall|k: K::V| #[trigger] map_of(s).contains_key(k) <==> exists|i: int| 0 <= i < s.len() && s[i].0 == k by {
            if map_of(s).contains_key(k) {
                if k == last.0 {
                    assert(s[s.len() - 1].0 == k);
                } else {
                    let i = choose|i: int| 0 <= i < t.len() && t[i].0 == k;
                    assert(s[i].0 == k);
                }
            }
            if exists|i: int| 0 <= i < s.len() && s[i].0 == k {
                let i = choose|i: int| 0 <= i < s.len() && s[i].0 == k;
                if i < s.len() - 1 {
                    assert(t[i].0 == k);
                }
            }
        }
        assert forall|i: int| 0 <= i < s.len() implies #[trigger] map_of(s)[s[i].0] == s[i].1 by {
            if i < s.len() - 1 {
                lemma_distinct::<K, V>(s, i, s.len() - 1);
                assert(t[i] == s[i]);
            }
        }
        assert(!map_of(t).contains_key(last.0)) by {
            if map_of(t).contains_key(last.0) {
                let i = choose|i: int| 0 <= i < t.len() && t[i].0 == last.0;
                lemma_distinct::<K, V>(s, i, s.len() - 1);
            }
        }
    }
}

/// Two strictly sorted sequences of one map are one sequence: the
/// entries decide the vector.
pub proof fn lemma_canonical<K: Ordered, V>(a: Seq<(K::V, V)>, b: Seq<(K::V, V)>)
    requires
        strictly_sorted::<K, V>(a),
        strictly_sorted::<K, V>(b),
        map_of(a) == map_of(b),
    ensures
        a == b,
    decreases a.len(),
{
    lemma_map_of::<K, V>(a);
    lemma_map_of::<K, V>(b);
    if a.len() == 0 {
        assert(b.len() == 0);
        assert(a =~= b);
    } else {
        assert(b.len() == a.len());
        // The first key of each is the least of the map's keys.
        let (ka, kb) = (a[0].0, b[0].0);
        assert(map_of(b).contains_key(ka));
        let j = choose|j: int| 0 <= j < b.len() && b[j].0 == ka;
        assert(map_of(a).contains_key(kb));
        let i = choose|i: int| 0 <= i < a.len() && a[i].0 == kb;
        if ka != kb {
            assert(i != 0 && j != 0);
            assert(K::before(ka, kb));
            assert(K::before(kb, ka));
            K::lemma_transitive(ka, kb, ka);
            K::lemma_irreflexive(ka);
        }
        assert(map_of(a)[a[0].0] == a[0].1);
        assert(map_of(b)[b[0].0] == b[0].1);
        assert(a[0] == b[0]);
        let (ta, tb) = (a.drop_first(), b.drop_first());
        assert(strictly_sorted::<K, V>(ta));
        assert(strictly_sorted::<K, V>(tb));
        lemma_map_of::<K, V>(ta);
        lemma_map_of::<K, V>(tb);
        assert forall|k: K::V| #[trigger] map_of(ta).dom().contains(k) == map_of(tb).dom().contains(k) by {
            if map_of(ta).dom().contains(k) {
                let x = choose|x: int| 0 <= x < ta.len() && ta[x].0 == k;
                assert(a[x + 1].0 == k);
                lemma_distinct::<K, V>(a, 0, x + 1);
                assert(map_of(a).contains_key(k));
                let y = choose|y: int| 0 <= y < b.len() && b[y].0 == k;
                assert(y != 0);
                assert(tb[y - 1].0 == k);
                assert(map_of(tb).contains_key(k));
            }
            if map_of(tb).dom().contains(k) {
                let y = choose|y: int| 0 <= y < tb.len() && tb[y].0 == k;
                assert(b[y + 1].0 == k);
                lemma_distinct::<K, V>(b, 0, y + 1);
                assert(map_of(b).contains_key(k));
                let x = choose|x: int| 0 <= x < a.len() && a[x].0 == k;
                assert(x != 0);
                assert(ta[x - 1].0 == k);
                assert(map_of(ta).contains_key(k));
            }
        }
        assert forall|k: K::V| map_of(ta).dom().contains(k) implies #[trigger] map_of(ta)[k] == map_of(tb)[k] by {
            let x = choose|x: int| 0 <= x < ta.len() && ta[x].0 == k;
            assert(map_of(tb).dom().contains(k));
            let y = choose|y: int| 0 <= y < tb.len() && tb[y].0 == k;
            assert(a[x + 1].0 == k && b[y + 1].0 == k);
            assert(map_of(ta)[ta[x].0] == ta[x].1);
            assert(map_of(tb)[tb[y].0] == tb[y].1);
            assert(map_of(a)[a[x + 1].0] == a[x + 1].1);
            assert(map_of(b)[b[y + 1].0] == b[y + 1].1);
        }
        assert(map_of(ta) =~= map_of(tb));
        lemma_canonical::<K, V>(ta, tb);
        assert(a =~= seq![a[0]] + ta);
        assert(b =~= seq![b[0]] + tb);
    }
}

} // verus!

verus! {

/// The entries' views.
pub open spec fn entries_view<K: View, V: View>(s: Seq<(K, V)>) -> Seq<(K::V, V::V)> {
    s.map_values(|e: (K, V)| (e.0@, e.1@))
}

/// Where `key` stands in the strictly sorted `entries`: the index of the
/// first entry not before it, and whether that entry's key is `key`.
pub fn locate<K: Ordered, V: View>(entries: &Vec<(K, V)>, key: &K) -> (r: (usize, bool))
    requires
        strictly_sorted::<K, V::V>(entries_view(entries@)),
    ensures
        r.0 <= entries@.len(),
        forall|i: int| 0 <= i < r.0 ==> K::before(#[trigger] entries@[i].0@, key@),
        r.1 ==> r.0 < entries@.len() && entries@[r.0 as int].0@ == key@,
        !r.1 ==> r.0 == entries@.len() || K::before(key@, entries@[r.0 as int].0@),
{
    let ghost s = entries_view(entries@);
    let mut i: usize = 0;
    while i < entries.len()
        invariant
            i <= entries@.len(),
            s == entries_view(entries@),
            strictly_sorted::<K, V::V>(s),
            forall|j: int| 0 <= j < i ==> K::before(#[trigger] entries@[j].0@, key@),
        decreases entries@.len() - i,
    {
        assert(s[i as int].0 == entries@[i as int].0@);
        match entries[i].0.compare(key) {
            Order::Less => {
                i = i + 1;
            },
            Order::Equal => {
                return (i, true);
            },
            Order::Greater => {
                return (i, false);
            },
        }
    }
    (i, false)
}

/// A new key inserted where [`locate`] puts it keeps the order, and the
/// map gains the entry.
pub proof fn lemma_insert<K: Ordered, V>(s: Seq<(K::V, V)>, pos: int, k: K::V, v: V)
    requires
        strictly_sorted::<K, V>(s),
        0 <= pos <= s.len(),
        forall|i: int| 0 <= i < pos ==> K::before(#[trigger] s[i].0, k),
        pos == s.len() || K::before(k, s[pos].0),
    ensures
        strictly_sorted::<K, V>(s.insert(pos, (k, v))),
        map_of(s.insert(pos, (k, v))) == map_of(s).insert(k, v),
        !map_of(s).contains_key(k),
{
    let t = s.insert(pos, (k, v));
    assert forall|i: int, j: int| 0 <= i < j < t.len() implies K::before(#[trigger] t[i].0, #[trigger] t[j].0) by {
        if j < pos {
            assert(t[i] == s[i] && t[j] == s[j]);
        } else if j == pos {
            assert(t[i] == s[i]);
        } else if i < pos {
            assert(t[i] == s[i] && t[j] == s[j - 1]);
            if j - 1 > pos {
                assert(K::before(s[pos].0, s[j - 1].0));
                K::lemma_transitive(k, s[pos].0, s[j - 1].0);
            }
            K::lemma_transitive(s[i].0, k, s[j - 1].0);
        } else if i == pos {
            assert(t[j] == s[j - 1]);
            if j - 1 > pos {
                K::lemma_transitive(k, s[pos].0, s[j - 1].0);
            }
        } else {
            assert(t[i] == s[i - 1] && t[j] == s[j - 1]);
        }
    }
    lemma_map_of::<K, V>(s);
    lemma_map_of::<K, V>(t);
    assert(!map_of(s).contains_key(k)) by {
        if map_of(s).contains_key(k) {
            let i = choose|i: int| 0 <= i < s.len() && s[i].0 == k;
            if i < pos {
                K::lemma_irreflexive(k);
            } else {
                if i > pos {
                    K::lemma_transitive(k, s[pos].0, s[i].0);
                }
                K::lemma_irreflexive(k);
            }
        }
    }
    let m = map_of(s).insert(k, v);
    assert forall|x: K::V| #[trigger] map_of(t).dom().contains(x) == m.dom().contains(x) by {
        if map_of(t).dom().contains(x) {
            let i = choose|i: int| 0 <= i < t.len() && t[i].0 == x;
            if i < pos {
                assert(s[i].0 == x);
            } else if i > pos {
                assert(s[i - 1].0 == x);
            }
        }
        if m.dom().contains(x) && x != k {
            let i = choose|i: int| 0 <= i < s.len() && s[i].0 == x;
            if i < pos {
                assert(t[i].0 == x);
            } else {
                assert(t[i + 1].0 == x);
            }
        }
        if x == k {
            assert(t[pos].0 == k);
        }
    }
    assert forall|x: K::V| map_of(t).dom().contains(x) implies #[trigger] map_of(t)[x] == m[x] by {
        let i = choose|i: int| 0 <= i < t.len() && t[i].0 == x;
        assert(map_of(t)[t[i].0] == t[i].1);
        if i < pos {
            assert(map_of(s)[s[i].0] == s[i].1);
        } else if i > pos {
            assert(map_of(s)[s[i - 1].0] == s[i - 1].1);
        }
    }
    assert(map_of(t) =~= m);
}

/// A new value for a present key keeps the order, and the map's entry.
pub proof fn lemma_update<K: Ordered, V>(s: Seq<(K::V, V)>, i: int, v: V)
    requires
        strictly_sorted::<K, V>(s),
        0 <= i < s.len(),
    ensures
        strictly_sorted::<K, V>(s.update(i, (s[i].0, v))),
        map_of(s.update(i, (s[i].0, v))) == map_of(s).insert(s[i].0, v),
        map_of(s).contains_key(s[i].0),
{
    let k = s[i].0;
    let t = s.update(i, (k, v));
    assert forall|a: int, b: int| 0 <= a < b < t.len() implies K::before(#[trigger] t[a].0, #[trigger] t[b].0) by {
        assert(t[a].0 == s[a].0 && t[b].0 == s[b].0);
    }
    lemma_map_of::<K, V>(s);
    lemma_map_of::<K, V>(t);
    let m = map_of(s).insert(k, v);
    assert forall|x: K::V| #[trigger] map_of(t).dom().contains(x) == m.dom().contains(x) by {
        if map_of(t).dom().contains(x) {
            let j = choose|j: int| 0 <= j < t.len() && t[j].0 == x;
            assert(s[j].0 == x);
        }
        if m.dom().contains(x) && x != k {
            let j = choose|j: int| 0 <= j < s.len() && s[j].0 == x;
            assert(t[j].0 == x);
        }
        if x == k {
            assert(t[i].0 == k);
        }
    }
    assert forall|x: K::V| map_of(t).dom().contains(x) implies #[trigger] map_of(t)[x] == m[x] by {
        let j = choose|j: int| 0 <= j < t.len() && t[j].0 == x;
        assert(map_of(t)[t[j].0] == t[j].1);
        if j != i {
            lemma_distinct::<K, V>(s, i, j);
            assert(map_of(s)[s[j].0] == s[j].1);
        }
    }
    assert(map_of(t) =~= m);
}

} // verus!

verus! {

/// Adds `k` to the set kept as the strictly sorted `entries`.
pub fn set_insert<K: Ordered>(entries: &mut Vec<(K, ())>, k: K)
    requires
        strictly_sorted::<K, ()>(entries_view(old(entries)@)),
    ensures
        strictly_sorted::<K, ()>(entries_view(final(entries)@)),
        map_of(entries_view(final(entries)@)) == map_of(entries_view(old(entries)@)).insert(k@, ()),
{
    let ghost s = entries_view(entries@);
    let (pos, found) = locate(entries, &k);
    if found {
        proof {
            lemma_update::<K, ()>(s, pos as int, ());
            assert(s.update(pos as int, (s[pos as int].0, ())) =~= s);
        }
    } else {
        proof {
            assert forall|i: int| 0 <= i < pos implies K::before(#[trigger] s[i].0, k@) by {
                assert(s[i].0 == entries@[i].0@);
            }
            lemma_insert::<K, ()>(s, pos as int, k@, ());
        }
        entries.insert(pos, (k, ()));
        assert(entries_view(entries@) =~= s.insert(pos as int, (k@, ())));
    }
}

/// The count `map_of(s)` holds for `k`: zero where it holds none.
pub open spec fn count_of<KV>(m: Map<KV, usize>, k: KV) -> nat {
    if m.contains_key(k) {
        m[k] as nat
    } else {
        0
    }
}

/// The sum of the counts of `s`.
pub open spec fn sum_counts<KV>(s: Seq<(KV, usize)>) -> nat
    decreases s.len(),
{
    if s.len() == 0 {
        0
    } else {
        sum_counts(s.drop_last()) + s.last().1 as nat
    }
}

pub proof fn lemma_sum_concat<KV>(a: Seq<(KV, usize)>, b: Seq<(KV, usize)>)
    ensures
        sum_counts(a + b) == sum_counts(a) + sum_counts(b),
    decreases b.len(),
{
    if b.len() > 0 {
        lemma_sum_concat(a, b.drop_last());
        assert((a + b).drop_last() =~= a + b.drop_last());
    } else {
        assert(a + b =~= a);
    }
}

pub proof fn lemma_sum_single<KV>(x: (KV, usize))
    ensures
        sum_counts(seq![x]) == x.1 as nat,
{
    assert(seq![x].drop_last() =~= Seq::<(KV, usize)>::empty());
    assert(sum_counts(Seq::<(KV, usize)>::empty()) == 0);
    assert(seq![x].last() == x);
}

/// The sum after one count is replaced.
pub proof fn lemma_sum_update<KV>(s: Seq<(KV, usize)>, p: int, x: (KV, usize))
    requires
        0 <= p < s.len(),
    ensures
        sum_counts(s.update(p, x)) == sum_counts(s) - s[p].1 + x.1,
{
    let t = s.update(p, x);
    assert(s =~= s.take(p) + (seq![s[p]] + s.skip(p + 1)));
    assert(t =~= s.take(p) + (seq![x] + s.skip(p + 1)));
    lemma_sum_concat(s.take(p), seq![s[p]] + s.skip(p + 1));
    lemma_sum_concat(s.take(p), seq![x] + s.skip(p + 1));
    lemma_sum_concat(seq![s[p]], s.skip(p + 1));
    lemma_sum_concat(seq![x], s.skip(p + 1));
    lemma_sum_single(s[p]);
    lemma_sum_single(x);
}

/// The sum after one count is inserted.
pub proof fn lemma_sum_insert<KV>(s: Seq<(KV, usize)>, p: int, x: (KV, usize))
    requires
        0 <= p <= s.len(),
    ensures
        sum_counts(s.insert(p, x)) == sum_counts(s) + x.1,
{
    let t = s.insert(p, x);
    assert(s =~= s.take(p) + s.skip(p));
    assert(t =~= s.take(p) + (seq![x] + s.skip(p)));
    lemma_sum_concat(s.take(p), s.skip(p));
    lemma_sum_concat(s.take(p), seq![x] + s.skip(p));
    lemma_sum_concat(seq![x], s.skip(p));
    lemma_sum_single(x);
}

/// Each count is at most the sum.
pub proof fn lemma_sum_bounds<KV>(s: Seq<(KV, usize)>, i: int)
    requires
        0 <= i < s.len(),
    ensures
        s[i].1 <= sum_counts(s),
{
    lemma_sum_concat(s.take(i), s.skip(i));
    assert(s =~= s.take(i) + s.skip(i));
    lemma_sum_concat(seq![s[i]], s.skip(i + 1));
    assert(s.skip(i) =~= seq![s[i]] + s.skip(i + 1));
    lemma_sum_single(s[i]);
}

/// Counts `k` once more in the map kept as the strictly sorted `entries`.
pub fn count_up<K: Ordered>(entries: &mut Vec<(K, usize)>, k: K)
    requires
        strictly_sorted::<K, usize>(entries_view(old(entries)@)),
        count_of(map_of(entries_view(old(entries)@)), k@) < usize::MAX,
    ensures
        strictly_sorted::<K, usize>(entries_view(final(entries)@)),
        map_of(entries_view(final(entries)@)) == map_of(entries_view(old(entries)@)).insert(
            k@,
            (count_of(map_of(entries_view(old(entries)@)), k@) + 1) as usize,
        ),
        sum_counts(entries_view(final(entries)@)) == sum_counts(entries_view(old(entries)@)) + 1,
{
    let ghost s = entries_view(entries@);
    proof {
        crate::sorted::lemma_map_of::<K, usize>(s);
    }
    let (pos, found) = locate(entries, &k);
    if found {
        let n = entries[pos].1;
        proof {
            assert(s[pos as int].0 == k@ && s[pos as int].1 == n);
            assert(map_of(s)[s[pos as int].0] == s[pos as int].1);
            lemma_update::<K, usize>(s, pos as int, (n + 1) as usize);
        }
        entries.set(pos, (k, n + 1));
        assert(entries_view(entries@) =~= s.update(pos as int, (s[pos as int].0, (n + 1) as usize)));
        proof {
            lemma_sum_update(s, pos as int, (s[pos as int].0, (n + 1) as usize));
        }
    } else {
        proof {
            assert forall|i: int| 0 <= i < pos implies K::before(#[trigger] s[i].0, k@) by {
                assert(s[i].0 == entries@[i].0@);
            }
            lemma_insert::<K, usize>(s, pos as int, k@, 1);
        }
        entries.insert(pos, (k, 1));
        assert(entries_view(entries@) =~= s.insert(pos as int, (k@, 1usize)));
        proof {
            lemma_sum_insert(s, pos as int, (k@, 1usize));
        }
    }
}

} // verus!

verus! {

/// The strictly sorted sequence of the entries of `m`.
pub open spec fn canon<K: Ordered, V>(m: Map<K::V, V>) -> Seq<(K::V, V)> {
    choose|s: Seq<(K::V, V)>| strictly_sorted::<K, V>(s) && map_of(s) == m
}

/// A strictly sorted sequence is the one of its map.
pub proof fn lemma_canon<K: Ordered, V>(s: Seq<(K::V, V)>)
    requires
        strictly_sorted::<K, V>(s),
    ensures
        canon::<K, V>(map_of(s)) == s,
{
    let c = canon::<K, V>(map_of(s));
    assert(strictly_sorted::<K, V>(c) && map_of(c) == map_of(s));
    lemma_canonical::<K, V>(c, s);
}

/// `x` inserted into `s` before the first element it comes `first` of.
pub open spec fn insert_by<T>(s: Seq<T>, x: T, first: spec_fn(T, T) -> bool) -> Seq<T>
    decreases s.len(),
{
    if s.len() == 0 {
        seq![x]
    } else if first(x, s[0]) {
        seq![x] + s
    } else {
        seq![s[0]] + insert_by(s.drop_first(), x, first)
    }
}

/// `s` sorted by `first`, by insertion in order.
pub open spec fn sort_by<T>(s: Seq<T>, first: spec_fn(T, T) -> bool) -> Seq<T>
    decreases s.len(),
{
    if s.len() == 0 {
        s
    } else {
        insert_by(sort_by(s.drop_last(), first), s.last(), first)
    }
}

/// Inserting at the first place `x` comes `first` of is [`insert_by`].
pub proof fn lemma_insert_by<T>(s: Seq<T>, x: T, first: spec_fn(T, T) -> bool, p: int)
    requires
        0 <= p <= s.len(),
        forall|i: int| 0 <= i < p ==> !first(x, #[trigger] s[i]),
        p < s.len() ==> first(x, s[p]),
    ensures
        insert_by(s, x, first) == s.insert(p, x),
    decreases s.len(),
{
    if s.len() == 0 {
        assert(s.insert(p, x) =~= seq![x]);
    } else if p == 0 {
        assert(s.insert(p, x) =~= seq![x] + s);
    } else {
        let t = s.drop_first();
        assert forall|i: int| 0 <= i < p - 1 implies !first(x, #[trigger] t[i]) by {
            assert(t[i] == s[i + 1]);
        }
        lemma_insert_by(t, x, first, p - 1);
        assert(s.insert(p, x) =~= seq![s[0]] + t.insert(p - 1, x));
    }
}

} // verus!

verus! {

/// Numbers, in their order.
impl Ordered for u32 {
    open spec fn before(a: u32, b: u32) -> bool {
        a < b
    }

    proof fn lemma_irreflexive(a: u32) {
    }

    proof fn lemma_transitive(a: u32, b: u32, c: u32) {
    }

    proof fn lemma_total(a: u32, b: u32) {
    }

    fn compare(&self, other: &Self) -> (o: Order) {
        if *self < *other {
            Order::Less
        } else if *self == *other {
            Order::Equal
        } else {
            Order::Greater
        }
    }

    fn duplicate(&self) -> (c: Self) {
        *self
    }
}

} // verus!

verus! {

/// Numbers, in their order.
impl Ordered for u64 {
    open spec fn before(a: u64, b: u64) -> bool {
        a < b
    }

    proof fn lemma_irreflexive(a: u64) {
    }

    proof fn lemma_transitive(a: u64, b: u64, c: u64) {
    }

    proof fn lemma_total(a: u64, b: u64) {
    }

    fn compare(&self, other: &Self) -> (o: Order) {
        if *self < *other {
            Order::Less
        } else if *self == *other {
            Order::Equal
        } else {
            Order::Greater
        }
    }

    fn duplicate(&self) -> (c: Self) {
        *self
    }
}

} // verus!
