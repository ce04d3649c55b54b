//! The content of a clipboard as a map from MIME type to data, kept sorted by
//! MIME type as a `BTreeMap<String, Vec<u8>>` keeps it.

use vstd::prelude::*;
use vstd::utf8::*;

use crate::clipboard::entries_view;

verus! {

broadcast use {encode_utf8_decode_utf8};

/// Lexicographic order of byte sequences, a proper prefix first.
pub open spec fn bytes_less(a: Seq<u8>, b: Seq<u8>) -> bool
    decreases a.len(),
{
    if a.len() == 0 {
        b.len() > 0
    } else if b.len() == 0 {
        false
    } else if a[0] < b[0] {
        true
    } else if a[0] > b[0] {
        false
    } else {
        bytes_less(a.drop_first(), b.drop_first())
    }
}

/// The order of `String` keys: that of their UTF-8 bytes.
pub open spec fn key_less(a: Seq<char>, b: Seq<char>) -> bool {
    bytes_less(encode_utf8(a), encode_utf8(b))
}

/// Keys strictly increasing, so each key occurs once.
pub open spec fn sorted(es: Seq<(Seq<char>, Seq<u8>)>) -> bool {
    forall|i: int, j: int| 0 <= i < j < es.len() ==> key_less(#[trigger] es[i].0, #[trigger] es[j].0)
}

/// The value of the first pair with key `k`.
pub open spec fn lookup(es: Seq<(Seq<char>, Seq<u8>)>, k: Seq<char>) -> Option<Seq<u8>>
    decreases es.len(),
{
    if es.len() == 0 {
        None
    } else if es[0].0 == k {
        Some(es[0].1)
    } else {
        lookup(es.drop_first(), k)
    }
}

/// The value of the last pair with key `k`: what a map built by inserting the
/// pairs in order holds for `k`.
pub open spec fn last_value(es: Seq<(Seq<char>, Seq<u8>)>, k: Seq<char>) -> Option<Seq<u8>>
    decreases es.len(),
{
    if es.len() == 0 {
        None
    } else if es.last().0 == k {
        Some(es.last().1)
    } else {
        last_value(es.drop_last(), k)
    }
}

/// The map that holds the pairs of `es`, later pairs replacing earlier ones
/// with the same key, listed in key order.
pub open spec fn is_map_of(r: Seq<(Seq<char>, Seq<u8>)>, es: Seq<(Seq<char>, Seq<u8>)>) -> bool {
    &&& sorted(r)
    &&& forall|k: Seq<char>| #[trigger] lookup(r, k) == last_value(es, k)
}

// ---------------------------------------------------------------- order lemmas

proof fn lemma_bytes_less_irreflexive(a: Seq<u8>)
    ensures
        !bytes_less(a, a),
    decreases a.len(),
{
    if a.len() > 0 {
        lemma_bytes_less_irreflexive(a.drop_first());
    }
}

proof fn lemma_bytes_less_transitive(a: Seq<u8>, b: Seq<u8>, c: Seq<u8>)
    requires
        bytes_less(a, b),
        bytes_less(b, c),
    ensures
        bytes_less(a, c),
    decreases a.len(),
{
    if a.len() > 0 && b.len() > 0 && c.len() > 0 && a[0] == b[0] && b[0] == c[0] {
        lemma_bytes_less_transitive(a.drop_first(), b.drop_first(), c.drop_first());
    }
}

proof fn lemma_bytes_less_total(a: Seq<u8>, b: Seq<u8>)
    ensures
        a == b || bytes_less(a, b) || bytes_less(b, a),
    decreases a.len(),
{
    if a.len() > 0 && b.len() > 0 && a[0] == b[0] {
        lemma_bytes_less_total(a.drop_first(), b.drop_first());
        if a.drop_first() == b.drop_first() {
            assert(a =~= seq![a[0]] + a.drop_first());
            assert(b =~= seq![b[0]] + b.drop_first());
        }
    } else if a.len() == 0 && b.len() == 0 {
        assert(a =~= b);
    }
}

proof fn lemma_bytes_less_asymmetric(a: Seq<u8>, b: Seq<u8>)
    requires
        bytes_less(a, b),
    ensures
        !bytes_less(b, a),
    decreases a.len(),
{
    if a.len() > 0 && b.len() > 0 && a[0] == b[0] {
        lemma_bytes_less_asymmetric(a.drop_first(), b.drop_first());
    }
}

/// `key_less` is a strict total order.
pub proof fn lemma_key_order(a: Seq<char>, b: Seq<char>, c: Seq<char>)
    ensures
        !key_less(a, a),
        key_less(a, b) ==> !key_less(b, a),
        key_less(a, b) && key_less(b, c) ==> key_less(a, c),
        a == b || key_less(a, b) || key_less(b, a),
{
    lemma_bytes_less_irreflexive(encode_utf8(a));
    if key_less(a, b) {
        lemma_bytes_less_asymmetric(encode_utf8(a), encode_utf8(b));
        if key_less(b, c) {
            lemma_bytes_less_transitive(encode_utf8(a), encode_utf8(b), encode_utf8(c));
        }
    }
    lemma_bytes_less_total(encode_utf8(a), encode_utf8(b));
    if encode_utf8(a) == encode_utf8(b) {
        assert(decode_utf8(encode_utf8(a)) == a);
        assert(decode_utf8(encode_utf8(b)) == b);
    }
}

// ---------------------------------------------------------------- exec

/// Whether `a` sorts before `b`, comparing their UTF-8 bytes.
pub fn str_less(a: &str, b: &str) -> (r: bool)
    ensures
        r == key_less(a@, b@),
{
    let x = a.as_bytes();
    let y = b.as_bytes();
    let mut i: usize = 0;
    assert(x@.skip(0) =~= x@);
    assert(y@.skip(0) =~= y@);
    while i < x.len() && i < y.len() && x[i] == y[i]
        invariant
            x@ == encode_utf8(a@),
            y@ == encode_utf8(b@),
            i <= x@.len(),
            i <= y@.len(),
            bytes_less(x@, y@) == bytes_less(x@.skip(i as int), y@.skip(i as int)),
        decreases x.len() - i,
    {
        assert(x@.skip(i as int).drop_first() =~= x@.skip(i + 1));
        assert(y@.skip(i as int).drop_first() =~= y@.skip(i + 1));
        i = i + 1;
    }
    if i == x.len() {
        i < y.len()
    } else if i == y.len() {
        false
    } else {
        assert(x@.skip(i as int)[0] == x[i as int]);
        assert(y@.skip(i as int)[0] == y[i as int]);
        x[i] < y[i]
    }
}

proof fn lemma_lookup_absent(es: Seq<(Seq<char>, Seq<u8>)>, k: Seq<char>)
    requires
        forall|i: int| 0 <= i < es.len() ==> (#[trigger] es[i]).0 != k,
    ensures
        lookup(es, k) is None,
    decreases es.len(),
{
    if es.len() > 0 {
        lemma_lookup_absent(es.drop_first(), k);
    }
}

proof fn lemma_lookup_at(es: Seq<(Seq<char>, Seq<u8>)>, i: int)
    requires
        sorted(es),
        0 <= i < es.len(),
    ensures
        lookup(es, es[i].0) == Some(es[i].1),
    decreases es.len(),
{
    if i > 0 {
        assert(key_less(es[0].0, es[i].0));
        lemma_key_order(es[0].0, es[i].0, es[i].0);
        assert(sorted(es.drop_first()));
        lemma_lookup_at(es.drop_first(), i - 1);
    }
}

/// Where `lookup` finds a key in a sorted sequence, if anywhere.
proof fn lemma_lookup_sorted(es: Seq<(Seq<char>, Seq<u8>)>, k: Seq<char>)
    requires
        sorted(es),
    ensures
        lookup(es, k) matches Some(v) ==> exists|i: int| 0 <= i < es.len() && es[i].0 == k && es[i].1 == v,
        lookup(es, k) is None ==> forall|i: int| 0 <= i < es.len() ==> (#[trigger] es[i]).0 != k,
    decreases es.len(),
{
    if es.len() > 0 {
        assert(sorted(es.drop_first()));
        lemma_lookup_sorted(es.drop_first(), k);
        if es[0].0 != k {
            if let Some(v) = lookup(es, k) {
                let i = choose|i: int| 0 <= i < es.drop_first().len() && es.drop_first()[i].0 == k
                    && es.drop_first()[i].1 == v;
                assert(es[i + 1].0 == k);
            }
            if lookup(es, k) is None {
                assert forall|i: int| 0 <= i < es.len() implies (#[trigger] es[i]).0 != k by {
                    if i > 0 {
                        assert(es[i] == es.drop_first()[i - 1]);
                    }
                }
            }
        }
    }
}

/// Puts `(k, v)` into the sorted sequence `es`: in place of the pair with key
/// `k`, or where `k` sorts.
pub fn insert_sorted(es: &mut Vec<(String, Vec<u8>)>, k: String, v: Vec<u8>)
    requires
        sorted(entries_view(old(es)@)),
    ensures
        sorted(entries_view(final(es)@)),
        forall|q: Seq<char>|
            #[trigger] lookup(entries_view(final(es)@), q) == (if q == k@ {
                Some(v@)
            } else {
                lookup(entries_view(old(es)@), q)
            }),
{
    let ghost old_es = entries_view(es@);
    let mut i: usize = 0;
    while i < es.len() && str_less(es[i].0.as_str(), k.as_str())
        invariant
            i <= es@.len(),
            entries_view(es@) == old_es,
            sorted(old_es),
            forall|j: int| 0 <= j < i ==> key_less((#[trigger] old_es[j]).0, k@),
        decreases es.len() - i,
    {
        assert(old_es[i as int].0 == es@[i as int].0@);
        i = i + 1;
    }
    let ghost kv = k@;
    let ghost vv = v@;
    if i < es.len() && es[i].0 == k {
        // replace the value of the pair with key k
        let ghost at = i as int;
        assert(old_es[at].0 == kv);
        es.set(i, (k, v));
        let ghost new_es = entries_view(es@);
        assert(new_es =~= old_es.update(at, (kv, vv)));
        assert forall|q: Seq<char>| #[trigger]
            lookup(new_es, q) == (if q == kv {
                Some(vv)
            } else {
                lookup(old_es, q)
            }) by {
            if q == kv {
                lemma_lookup_at(new_es, at);
            } else {
                lemma_lookup_sorted(old_es, q);
                lemma_lookup_sorted(new_es, q);
                if let Some(w) = lookup(old_es, q) {
                    let j = choose|j: int| 0 <= j < old_es.len() && old_es[j].0 == q && old_es[j].1 == w;
                    assert(new_es[j] == old_es[j]);
                    lemma_lookup_at(new_es, j);
                }
                if let Some(w) = lookup(new_es, q) {
                    let j = choose|j: int| 0 <= j < new_es.len() && new_es[j].0 == q && new_es[j].1 == w;
                    assert(new_es[j] == old_es[j]);
                    lemma_lookup_at(old_es, j);
                }
            }
        }
    } else {
        proof {
            if i < es@.len() {
                assert(old_es[i as int].0 == es@[i as int].0@);
                lemma_key_order(kv, old_es[i as int].0, kv);
            }
        }
        let ghost at = i as int;
        es.insert(i, (k, v));
        let ghost new_es = entries_view(es@);
        assert(new_es =~= old_es.insert(at, (kv, vv)));
        assert forall|a: int, b: int| 0 <= a < b < new_es.len() implies key_less(
            #[trigger] new_es[a].0,
            #[trigger] new_es[b].0,
        ) by {
            if a < at && b == at {
            } else if a == at && b > at {
                if b - 1 > at {
                    lemma_key_order(kv, old_es[at].0, old_es[b - 1].0);
                }
            } else if a < at && b > at {
                lemma_key_order(old_es[a].0, kv, old_es[b - 1].0);
            }
        }
        assert forall|q: Seq<char>| #[trigger]
            lookup(new_es, q) == (if q == kv {
                Some(vv)
            } else {
                lookup(old_es, q)
            }) by {
            if q == kv {
                lemma_lookup_at(new_es, at);
            } else {
                lemma_lookup_sorted(old_es, q);
                lemma_lookup_sorted(new_es, q);
                if let Some(w) = lookup(old_es, q) {
                    let j = choose|j: int| 0 <= j < old_es.len() && old_es[j].0 == q && old_es[j].1 == w;
                    let j2 = if j < at { j } else { j + 1 };
                    assert(new_es[j2] == old_es[j]);
                    lemma_lookup_at(new_es, j2);
                }
                if let Some(w) = lookup(new_es, q) {
                    let j = choose|j: int| 0 <= j < new_es.len() && new_es[j].0 == q && new_es[j].1 == w;
                    let j2 = if j < at { j } else { j - 1 };
                    assert(j != at);
                    assert(new_es[j] == old_es[j2]);
                    lemma_lookup_at(old_es, j2);
                }
            }
        }
    }
}

/// The map of the pairs `es`; [`lemma_map_unique`] shows that there is at
/// most one, and [`collect_map`] builds it.
pub open spec fn map_of(es: Seq<(Seq<char>, Seq<u8>)>) -> Seq<(Seq<char>, Seq<u8>)> {
    listing(|k: Seq<char>| last_value(es, k))
}

/// The sorted listing of the keys that `f` gives a value, with their values.
pub open spec fn listing(f: spec_fn(Seq<char>) -> Option<Seq<u8>>) -> Seq<(Seq<char>, Seq<u8>)> {
    choose|r: Seq<(Seq<char>, Seq<u8>)>| sorted(r) && forall|k: Seq<char>| #[trigger] lookup(r, k) == f(k)
}

/// Two sequences of pairs that give every key the same last value have the
/// same map, whatever order their pairs come in.
pub proof fn lemma_same_last_values(a: Seq<(Seq<char>, Seq<u8>)>, b: Seq<(Seq<char>, Seq<u8>)>)
    requires
        forall|k: Seq<char>| #[trigger] last_value(a, k) == last_value(b, k),
    ensures
        map_of(a) == map_of(b),
{
    let fa = |k: Seq<char>| last_value(a, k);
    let fb = |k: Seq<char>| last_value(b, k);
    assert(fa =~= fb);
}

/// Two sorted sequences of pairs that give the same value for every key are
/// the same sequence: a map has one sorted listing.
pub proof fn lemma_sorted_unique(r1: Seq<(Seq<char>, Seq<u8>)>, r2: Seq<(Seq<char>, Seq<u8>)>)
    requires
        sorted(r1),
        sorted(r2),
        forall|k: Seq<char>| #[trigger] lookup(r1, k) == lookup(r2, k),
    ensures
        r1 == r2,
    decreases r1.len() + r2.len(),
{
    if r1.len() == 0 {
        if r2.len() > 0 {
            lemma_lookup_at(r2, 0);
            assert(lookup(r1, r2[0].0) is None);
        }
        assert(r1 =~= r2);
    } else if r2.len() == 0 {
        lemma_lookup_at(r1, 0);
        assert(lookup(r2, r1[0].0) is None);
    } else {
        let k1 = r1[0].0;
        let k2 = r2[0].0;
        lemma_lookup_at(r1, 0);
        lemma_lookup_at(r2, 0);
        lemma_lookup_sorted(r2, k1);
        lemma_lookup_sorted(r1, k2);
        let j2 = choose|i: int| 0 <= i < r2.len() && r2[i].0 == k1 && r2[i].1 == r1[0].1;
        let j1 = choose|i: int| 0 <= i < r1.len() && r1[i].0 == k2 && r1[i].1 == r2[0].1;
        if j2 > 0 && j1 > 0 {
            assert(key_less(k2, k1));
            assert(key_less(k1, k2));
            lemma_key_order(k1, k2, k1);
        }
        if j2 == 0 {
            assert(k1 == k2);
        } else {
            assert(j1 == 0);
            assert(k1 == k2);
        }
        assert(r1[0] == r2[0]);
        let t1 = r1.drop_first();
        let t2 = r2.drop_first();
        assert(sorted(t1));
        assert(sorted(t2));
        assert forall|k: Seq<char>| #[trigger] lookup(t1, k) == lookup(t2, k) by {
            if k == k1 {
                assert forall|i: int| 0 <= i < t1.len() implies (#[trigger] t1[i]).0 != k by {
                    assert(key_less(r1[0].0, r1[i + 1].0));
                    lemma_key_order(k, k, k);
                }
                assert forall|i: int| 0 <= i < t2.len() implies (#[trigger] t2[i]).0 != k by {
                    assert(key_less(r2[0].0, r2[i + 1].0));
                    lemma_key_order(k, k, k);
                }
                lemma_lookup_absent(t1, k);
                lemma_lookup_absent(t2, k);
            } else {
                assert(lookup(r1, k) == lookup(t1, k));
                assert(lookup(r2, k) == lookup(t2, k));
            }
        }
        lemma_sorted_unique(t1, t2);
        assert(r1 =~= seq![r1[0]] + t1);
        assert(r2 =~= seq![r2[0]] + t2);
    }
}

/// The map of a sequence of pairs is unique, so [`map_of`] names it.
pub proof fn lemma_map_unique(r: Seq<(Seq<char>, Seq<u8>)>, es: Seq<(Seq<char>, Seq<u8>)>)
    requires
        is_map_of(r, es),
    ensures
        map_of(es) == r,
{
    let f = |k: Seq<char>| last_value(es, k);
    assert(sorted(r) && forall|k: Seq<char>| #[trigger] lookup(r, k) == f(k));
    let m = map_of(es);
    assert(sorted(m) && forall|k: Seq<char>| #[trigger] lookup(m, k) == f(k));
    assert(is_map_of(m, es));
    assert forall|k: Seq<char>| #[trigger] lookup(m, k) == lookup(r, k) by {
        assert(lookup(m, k) == last_value(es, k));
        assert(lookup(r, k) == last_value(es, k));
    }
    lemma_sorted_unique(m, r);
}

/// The map of a sequence of pairs is empty exactly when the sequence is.
pub proof fn lemma_map_empty(r: Seq<(Seq<char>, Seq<u8>)>, es: Seq<(Seq<char>, Seq<u8>)>)
    requires
        is_map_of(r, es),
    ensures
        r.len() == 0 <==> es.len() == 0,
{
    if r.len() > 0 {
        lemma_lookup_at(r, 0);
        assert(lookup(r, r[0].0) is Some);
        assert(last_value(es, r[0].0) is Some);
    }
    if es.len() > 0 {
        assert(last_value(es, es.last().0) is Some);
        assert(lookup(r, es.last().0) is Some);
    }
}

/// The map of the pairs of `es`: sorted by key, each key once, holding the
/// value of its last pair, as collecting them into a `BTreeMap` does.
pub fn collect_map(es: &Vec<(String, Vec<u8>)>) -> (r: Vec<(String, Vec<u8>)>)
    ensures
        is_map_of(entries_view(r@), entries_view(es@)),
        entries_view(r@) == map_of(entries_view(es@)),
{
    let ghost ev = entries_view(es@);
    let mut out: Vec<(String, Vec<u8>)> = Vec::new();
    let mut i: usize = 0;
    assert(sorted(entries_view(out@)));
    assert forall|q: Seq<char>| #[trigger] lookup(entries_view(out@), q) == last_value(ev.take(0), q) by {
        assert(entries_view(out@).len() == 0);
        assert(ev.take(0).len() == 0);
    }
    while i < es.len()
        invariant
            ev == entries_view(es@),
            i <= es@.len(),
            sorted(entries_view(out@)),
            forall|q: Seq<char>| #[trigger] lookup(entries_view(out@), q) == last_value(ev.take(i as int), q),
        decreases es.len() - i,
    {
        let (k, v) = &es[i];
        let ghost kv = k@;
        let ghost vv = v@;
        assert(ev[i as int] == (kv, vv));
        let ghost before = entries_view(out@);
        insert_sorted(&mut out, String::from_str(k.as_str()), vstd::slice::slice_to_vec(v.as_slice()));
        assert forall|q: Seq<char>| #[trigger]
            lookup(entries_view(out@), q) == last_value(ev.take(i + 1), q) by {
            let t = ev.take(i + 1);
            assert(t.drop_last() =~= ev.take(i as int));
            assert(t.last() == (kv, vv));
            assert(lookup(before, q) == last_value(ev.take(i as int), q));
        }
        i = i + 1;
    }
    assert(ev.take(es@.len() as int) =~= ev);
    proof {
        lemma_map_unique(entries_view(out@), ev);
    }
    out
}

/// The value of the pair with key `k`, if any.
pub fn get_value<'a>(es: &'a Vec<(String, Vec<u8>)>, k: &str) -> (r: Option<&'a Vec<u8>>)
    ensures
        match lookup(entries_view(es@), k@) {
            Some(v) => r matches Some(x) && x@ == v,
            None => r is None,
        },
{
    let ghost ev = entries_view(es@);
    let mut i: usize = 0;
    assert(ev.skip(0) =~= ev);
    while i < es.len()
        invariant
            ev == entries_view(es@),
            i <= es@.len(),
            lookup(ev, k@) == lookup(ev.skip(i as int), k@),
        decreases es.len() - i,
    {
        assert(ev.skip(i as int)[0] == ev[i as int]);
        assert(ev.skip(i as int).drop_first() =~= ev.skip(i + 1));
        if str_eq(es[i].0.as_str(), k) {
            return Some(&es[i].1);
        }
        i = i + 1;
    }
    None
}

/// Whether two strings are equal.
pub fn str_eq(a: &str, b: &str) -> (r: bool)
    ensures
        r == (a@ == b@),
{
    let x = a.as_bytes();
    let y = b.as_bytes();
    if x.len() != y.len() {
        proof {
            if a@ == b@ {
                assert(x@ == y@);
            }
        }
        return false;
    }
    let mut i: usize = 0;
    while i < x.len()
        invariant
            x@ == encode_utf8(a@),
            y@ == encode_utf8(b@),
            x@.len() == y@.len(),
            i <= x@.len(),
            forall|j: int| 0 <= j < i ==> x@[j] == y@[j],
        decreases x.len() - i,
    {
        if x[i] != y[i] {
            proof {
                if a@ == b@ {
                    assert(x@ == y@);
                }
            }
            return false;
        }
        i = i + 1;
    }
    assert(x@ =~= y@);
    assert(decode_utf8(x@) == a@);
    assert(decode_utf8(y@) == b@);
    true
}

} // verus!
