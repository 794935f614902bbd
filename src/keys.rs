//! Keys and key-ordered vectors.
//!
//! Entries and doc sections are stored in vectors kept sorted by key, with no
//! key repeated. Keys are ordered as `str` orders them: byte by byte on the
//! UTF-8 encoding, a proper prefix first.
use vstd::prelude::*;
use vstd::utf8::{encode_utf8, encode_utf8_decode_utf8};

verus! {

/// Lexicographic order on byte strings; a proper prefix comes first.
pub open spec fn bytes_lt(a: Seq<u8>, b: Seq<u8>) -> bool
    decreases a.len(),
{
    if a.len() == 0 {
        b.len() > 0
    } else if b.len() == 0 {
        false
    } else if a[0] != b[0] {
        a[0] < b[0]
    } else {
        bytes_lt(a.drop_first(), b.drop_first())
    }
}

/// Key order: the order of the keys' UTF-8 encodings.
pub open spec fn key_lt(a: Seq<char>, b: Seq<char>) -> bool {
    bytes_lt(encode_utf8(a), encode_utf8(b))
}

proof fn lemma_bytes_lt_irreflexive(a: Seq<u8>)
    ensures
        !bytes_lt(a, a),
    decreases a.len(),
{
    if a.len() > 0 {
        lemma_bytes_lt_irreflexive(a.drop_first());
    }
}

proof fn lemma_bytes_lt_transitive(a: Seq<u8>, b: Seq<u8>, c: Seq<u8>)
    requires
        bytes_lt(a, b),
        bytes_lt(b, c),
    ensures
        bytes_lt(a, c),
    decreases a.len(),
{
    if a.len() > 0 && b.len() > 0 && c.len() > 0 && a[0] == b[0] && b[0] == c[0] {
        lemma_bytes_lt_transitive(a.drop_first(), b.drop_first(), c.drop_first());
    }
}

proof fn lemma_bytes_lt_total(a: Seq<u8>, b: Seq<u8>)
    requires
        a != b,
    ensures
        bytes_lt(a, b) || bytes_lt(b, a),
    decreases a.len(),
{
    if a.len() > 0 && b.len() > 0 && a[0] == b[0] {
        if a.drop_first() == b.drop_first() {
            assert(a =~= seq![a[0]] + a.drop_first());
            assert(b =~= seq![b[0]] + b.drop_first());
        }
        lemma_bytes_lt_total(a.drop_first(), b.drop_first());
    } else if a.len() == 0 && b.len() == 0 {
        assert(a =~= b);
    }
}

/// No key comes before itself.
pub proof fn lemma_key_lt_irreflexive(a: Seq<char>)
    ensures
        !key_lt(a, a),
{
    lemma_bytes_lt_irreflexive(encode_utf8(a));
}

/// Key order is transitive.
pub proof fn lemma_key_lt_transitive(a: Seq<char>, b: Seq<char>, c: Seq<char>)
    requires
        key_lt(a, b),
        key_lt(b, c),
    ensures
        key_lt(a, c),
{
    lemma_bytes_lt_transitive(encode_utf8(a), encode_utf8(b), encode_utf8(c));
}

/// Of two different keys, one comes before the other.
pub proof fn lemma_key_lt_total(a: Seq<char>, b: Seq<char>)
    requires
        a != b,
    ensures
        key_lt(a, b) || key_lt(b, a),
{
    encode_utf8_decode_utf8(a);
    encode_utf8_decode_utf8(b);
    lemma_bytes_lt_total(encode_utf8(a), encode_utf8(b));
}

/// Whether key `a` comes before key `b`.
pub fn key_less(a: &str, b: &str) -> (r: bool)
    ensures
        r == key_lt(a@, b@),
{
    let x = a.as_bytes();
    let y = b.as_bytes();
    let mut i: usize = 0;
    assert(x@.skip(0) =~= x@);
    assert(y@.skip(0) =~= y@);
    while i < x.len() && i < y.len() && x[i] == y[i]
        invariant
            i <= x@.len(),
            i <= y@.len(),
            x@ == encode_utf8(a@),
            y@ == encode_utf8(b@),
            bytes_lt(x@, y@) == bytes_lt(x@.skip(i as int), y@.skip(i as int)),
        decreases x@.len() - i,
    {
        assert(x@.skip(i as int).drop_first() =~= x@.skip(i + 1));
        assert(y@.skip(i as int).drop_first() =~= y@.skip(i + 1));
        i += 1;
    }
    if i < y.len() {
        if i < x.len() {
            x[i] < y[i]
        } else {
            true
        }
    } else {
        false
    }
}

/// A value stored under a key of its own.
pub trait Keyed {
    spec fn key(&self) -> Seq<char>;

    fn key_str(&self) -> (r: &str)
        ensures
            r@ == self.key(),
    ;
}

/// The keys strictly increase along `s`.
pub open spec fn sorted<T: Keyed>(s: Seq<T>) -> bool {
    forall|i: int, j: int|
        0 <= i < j < s.len() ==> key_lt(#[trigger] s[i].key(), #[trigger] s[j].key())
}

/// How many leading items of `s` have a key before `k`: where `k` belongs.
pub open spec fn slot<T: Keyed>(s: Seq<T>, k: Seq<char>) -> nat
    decreases s.len(),
{
    if s.len() > 0 && key_lt(s[0].key(), k) {
        1 + slot(s.drop_first(), k)
    } else {
        0
    }
}

/// Whether the item at the slot of `k` has key `k`.
pub open spec fn found_at_slot<T: Keyed>(s: Seq<T>, k: Seq<char>) -> bool {
    slot(s, k) < s.len() && s[slot(s, k) as int].key() == k
}

/// Some item of `s` has key `k`.
pub open spec fn has_key<T: Keyed>(s: Seq<T>, k: Seq<char>) -> bool {
    exists|i: int| 0 <= i < s.len() && #[trigger] s[i].key() == k
}

/// The item of `s` with key `k`, if any.
pub open spec fn lookup<T: Keyed>(s: Seq<T>, k: Seq<char>) -> Option<T> {
    if found_at_slot(s, k) {
        Some(s[slot(s, k) as int])
    } else {
        None
    }
}

/// `s` with `x` stored under its key, replacing an item with that key.
pub open spec fn upserted<T: Keyed>(s: Seq<T>, x: T) -> Seq<T> {
    if found_at_slot(s, x.key()) {
        s.update(slot(s, x.key()) as int, x)
    } else {
        s.insert(slot(s, x.key()) as int, x)
    }
}

/// `s` without the item with key `k`, if any.
pub open spec fn removed<T: Keyed>(s: Seq<T>, k: Seq<char>) -> Seq<T> {
    if found_at_slot(s, k) {
        s.remove(slot(s, k) as int)
    } else {
        s
    }
}

/// Storing each item of `s` in turn into an empty vector.
pub open spec fn upserted_all<T: Keyed>(s: Seq<T>) -> Seq<T>
    decreases s.len(),
{
    if s.len() == 0 {
        Seq::empty()
    } else {
        upserted(upserted_all(s.drop_last()), s.last())
    }
}

/// The slot of `k` lies within `s`; the keys before it come before `k`,
/// the key at it does not.
pub proof fn lemma_slot_bounds<T: Keyed>(s: Seq<T>, k: Seq<char>)
    ensures
        slot(s, k) <= s.len(),
        forall|j: int| 0 <= j < slot(s, k) ==> key_lt(#[trigger] s[j].key(), k),
        slot(s, k) < s.len() ==> !key_lt(s[slot(s, k) as int].key(), k),
    decreases s.len(),
{
    if s.len() > 0 && key_lt(s[0].key(), k) {
        lemma_slot_bounds(s.drop_first(), k);
        assert forall|j: int| 0 <= j < slot(s, k) implies key_lt(#[trigger] s[j].key(), k) by {
            if j > 0 {
                assert(s[j] == s.drop_first()[j - 1]);
            }
        }
    }
}

proof fn lemma_slot_sorted<T: Keyed>(s: Seq<T>, k: Seq<char>)
    requires
        sorted(s),
    ensures
        slot(s, k) <= s.len(),
        forall|j: int| 0 <= j < slot(s, k) ==> key_lt(#[trigger] s[j].key(), k),
        forall|j: int| slot(s, k) <= j < s.len() ==> !key_lt(#[trigger] s[j].key(), k),
{
    lemma_slot_bounds(s, k);
    let p = slot(s, k) as int;
    assert forall|j: int| p <= j < s.len() implies !key_lt(#[trigger] s[j].key(), k) by {
        if j > p && key_lt(s[j].key(), k) {
            lemma_key_lt_transitive(s[p].key(), s[j].key(), k);
        }
    }
}

proof fn lemma_slot_is<T: Keyed>(s: Seq<T>, k: Seq<char>, p: int)
    requires
        0 <= p <= s.len(),
        forall|j: int| 0 <= j < p ==> key_lt(#[trigger] s[j].key(), k),
        p < s.len() ==> !key_lt(s[p].key(), k),
    ensures
        slot(s, k) == p,
    decreases s.len(),
{
    if p > 0 {
        let t = s.drop_first();
        assert forall|j: int| 0 <= j < p - 1 implies key_lt(#[trigger] t[j].key(), k) by {
            assert(t[j] == s[j + 1]);
        }
        lemma_slot_is(t, k, p - 1);
    }
}

/// In a sorted sequence, `lookup` finds the item with the key wherever it is.
pub proof fn lemma_lookup_sorted<T: Keyed>(s: Seq<T>, k: Seq<char>)
    requires
        sorted(s),
    ensures
        found_at_slot(s, k) <==> has_key(s, k),
        forall|i: int| 0 <= i < s.len() && s[i].key() == k ==> lookup(s, k) == Some(s[i]),
{
    lemma_slot_sorted(s, k);
    let p = slot(s, k) as int;
    assert forall|i: int| 0 <= i < s.len() && s[i].key() == k implies i == p by {
        lemma_key_lt_irreflexive(k);
    }
}

/// Storing an item keeps a sequence sorted.
pub proof fn lemma_upserted_sorted<T: Keyed>(s: Seq<T>, x: T)
    requires
        sorted(s),
    ensures
        sorted(upserted(s, x)),
{
    let k = x.key();
    lemma_slot_sorted(s, k);
    let p = slot(s, k) as int;
    let r = upserted(s, x);
    if !found_at_slot(s, k) {
        assert forall|j: int| p <= j < s.len() implies key_lt(k, #[trigger] s[j].key()) by {
            if j == p {
                lemma_key_lt_total(k, s[p].key());
            } else {
                lemma_key_lt_total(k, s[p].key());
                lemma_key_lt_transitive(k, s[p].key(), s[j].key());
            }
        }
    }
    assert forall|i: int, j: int| 0 <= i < j < r.len() implies key_lt(
        #[trigger] r[i].key(),
        #[trigger] r[j].key(),
    ) by {
        if found_at_slot(s, k) {
            if j == p {
            } else if i == p {
                assert(key_lt(s[p].key(), s[j].key()));
            }
        } else {
            if i < p && j == p {
            } else if i < p && j > p {
                assert(r[j] == s[j - 1]);
                lemma_key_lt_transitive(r[i].key(), k, r[j].key());
            } else if i == p {
                assert(r[j] == s[j - 1]);
            } else if i > p {
                assert(r[i] == s[i - 1]);
                assert(r[j] == s[j - 1]);
            }
        }
    }
}

/// Removing a key keeps a sequence sorted.
pub proof fn lemma_removed_sorted<T: Keyed>(s: Seq<T>, k: Seq<char>)
    requires
        sorted(s),
    ensures
        sorted(removed(s, k)),
{
    let r = removed(s, k);
    let p = slot(s, k) as int;
    assert forall|i: int, j: int| 0 <= i < j < r.len() implies key_lt(
        #[trigger] r[i].key(),
        #[trigger] r[j].key(),
    ) by {
        if found_at_slot(s, k) {
            if i >= p {
                assert(r[i] == s[i + 1]);
            }
            if j >= p {
                assert(r[j] == s[j + 1]);
            }
        }
    }
}

/// Storing the same item twice leaves what storing it once left.
pub proof fn lemma_upserted_twice<T: Keyed>(s: Seq<T>, x: T)
    requires
        sorted(s),
    ensures
        upserted(upserted(s, x), x) == upserted(s, x),
{
    let k = x.key();
    let r = upserted(s, x);
    lemma_slot_sorted(s, k);
    let p = slot(s, k) as int;
    lemma_key_lt_irreflexive(k);
    assert forall|j: int| 0 <= j < p implies key_lt(#[trigger] r[j].key(), k) by {
        assert(r[j] == s[j]);
    }
    lemma_slot_is(r, k, p);
    assert(r.update(p, x) =~= r);
}

/// Removing the same key twice leaves what removing it once left.
pub proof fn lemma_removed_twice<T: Keyed>(s: Seq<T>, k: Seq<char>)
    requires
        sorted(s),
    ensures
        removed(removed(s, k), k) == removed(s, k),
{
    let r = removed(s, k);
    lemma_removed_sorted(s, k);
    lemma_lookup_sorted(r, k);
    if found_at_slot(s, k) {
        lemma_slot_sorted(s, k);
        let p = slot(s, k) as int;
        if has_key(r, k) {
            let i = choose|i: int| 0 <= i < r.len() && #[trigger] r[i].key() == k;
            if i < p {
                assert(r[i] == s[i]);
                lemma_key_lt_irreflexive(k);
            } else {
                assert(r[i] == s[i + 1]);
                assert(key_lt(s[p].key(), s[i + 1].key()));
                lemma_key_lt_irreflexive(k);
            }
        }
    }
}

/// Storing the items of a sorted sequence one by one rebuilds it.
pub proof fn lemma_upserted_all_sorted<T: Keyed>(s: Seq<T>)
    requires
        sorted(s),
    ensures
        upserted_all(s) == s,
    decreases s.len(),
{
    if s.len() > 0 {
        let t = s.drop_last();
        assert(sorted(t));
        lemma_upserted_all_sorted(t);
        let k = s.last().key();
        assert forall|j: int| 0 <= j < t.len() implies key_lt(#[trigger] t[j].key(), k) by {
            assert(t[j] == s[j]);
        }
        lemma_slot_is(t, k, t.len() as int);
        assert(t.insert(t.len() as int, s.last()) =~= s);
    }
}

/// In a sorted sequence each item is found under its own key.
pub proof fn lemma_each_found<T: Keyed>(s: Seq<T>)
    requires
        sorted(s),
    ensures
        forall|i: int| 0 <= i < s.len() ==> lookup(s, (#[trigger] s[i]).key()) == Some(s[i]),
{
    assert forall|i: int| 0 <= i < s.len() implies lookup(s, (#[trigger] s[i]).key()) == Some(
        s[i],
    ) by {
        lemma_lookup_sorted(s, s[i].key());
    }
}

/// Looking a key up after storing an item: the item under its own key,
/// what was there before under any other.
pub proof fn lemma_lookup_upserted<T: Keyed>(s: Seq<T>, x: T, k: Seq<char>)
    requires
        sorted(s),
    ensures
        lookup(upserted(s, x), k) == (if k == x.key() {
            Some(x)
        } else {
            lookup(s, k)
        }),
{
    let r = upserted(s, x);
    let p = slot(s, x.key()) as int;
    lemma_slot_bounds(s, x.key());
    lemma_upserted_sorted(s, x);
    lemma_lookup_sorted(r, k);
    lemma_lookup_sorted(s, k);
    if k == x.key() {
        assert(r[p] == x);
    } else if has_key(s, k) {
        let i = choose|i: int| 0 <= i < s.len() && #[trigger] s[i].key() == k;
        if found_at_slot(s, x.key()) || i < p {
            assert(r[i] == s[i]);
        } else {
            assert(r[i + 1] == s[i]);
        }
    } else if has_key(r, k) {
        let j = choose|j: int| 0 <= j < r.len() && #[trigger] r[j].key() == k;
        if found_at_slot(s, x.key()) || j < p {
            assert(r[j] == s[j]);
        } else if j > p {
            assert(r[j] == s[j - 1]);
        }
    }
}

/// Looking a key up after removing one: nothing under the removed key,
/// what was there before under any other.
pub proof fn lemma_lookup_removed<T: Keyed>(s: Seq<T>, k: Seq<char>, q: Seq<char>)
    requires
        sorted(s),
    ensures
        lookup(removed(s, k), q) == (if q == k {
            None
        } else {
            lookup(s, q)
        }),
{
    let r = removed(s, k);
    let p = slot(s, k) as int;
    lemma_slot_sorted(s, k);
    lemma_removed_sorted(s, k);
    lemma_removed_twice(s, k);
    lemma_lookup_sorted(r, q);
    lemma_lookup_sorted(s, q);
    if q != k && has_key(s, q) {
        let i = choose|i: int| 0 <= i < s.len() && #[trigger] s[i].key() == q;
        if !found_at_slot(s, k) || i < p {
            assert(r[i] == s[i]);
        } else {
            assert(r[i - 1] == s[i]);
        }
    } else if q != k && has_key(r, q) {
        let j = choose|j: int| 0 <= j < r.len() && #[trigger] r[j].key() == q;
        if !found_at_slot(s, k) || j < p {
            assert(r[j] == s[j]);
        } else {
            assert(r[j] == s[j + 1]);
        }
    }
}

/// The position at which key `k` stands or belongs in `v`.
pub fn find_slot<T: Keyed>(v: &Vec<T>, k: &str) -> (p: usize)
    ensures
        p == slot(v@, k@),
        p <= v@.len(),
{
    proof {
        lemma_slot_bounds(v@, k@);
    }
    let mut i: usize = 0;
    assert(v@.skip(0) =~= v@);
    while i < v.len() && key_less(v[i].key_str(), k)
        invariant
            i <= v@.len(),
            slot(v@, k@) == i + slot(v@.skip(i as int), k@),
        decreases v@.len() - i,
    {
        assert(v@.skip(i as int).drop_first() =~= v@.skip(i + 1));
        i += 1;
    }
    i
}

/// Whether the item at position `p` of `v` has key `k`.
pub fn key_at<T: Keyed>(v: &Vec<T>, p: usize, k: &str) -> (r: bool)
    requires
        p == slot(v@, k@),
    ensures
        r == found_at_slot(v@, k@),
{
    if p < v.len() {
        proof {
            lemma_slot_bounds(v@, k@);
            if v@[p as int].key() != k@ {
                lemma_key_lt_total(k@, v@[p as int].key());
            } else {
                lemma_key_lt_irreflexive(k@);
            }
        }
        !key_less(k, v[p].key_str())
    } else {
        false
    }
}

/// Stores `x` under its key.
pub fn upsert<T: Keyed>(v: &mut Vec<T>, x: T)
    ensures
        final(v)@ == upserted(old(v)@, x),
{
    let p = find_slot(v, x.key_str());
    if key_at(v, p, x.key_str()) {
        v[p] = x;
    } else {
        v.insert(p, x);
    }
}

/// Removes the item with key `k`, if any.
pub fn remove_key<T: Keyed>(v: &mut Vec<T>, k: &str)
    ensures
        final(v)@ == removed(old(v)@, k@),
{
    let p = find_slot(v, k);
    if key_at(v, p, k) {
        v.remove(p);
    }
}

/// The position of the item with key `k`, if any.
pub fn position<T: Keyed>(v: &Vec<T>, k: &str) -> (r: Option<usize>)
    ensures
        r is Some <==> found_at_slot(v@, k@),
        r is Some ==> r->0 == slot(v@, k@),
{
    let p = find_slot(v, k);
    if key_at(v, p, k) {
        Some(p)
    } else {
        None
    }
}

} // verus!
