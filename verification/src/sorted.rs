//! Sequences kept in strictly ascending order of a byte key, so that no key
//! occurs twice and the order does not depend on the order of insertion.

use crate::lex::{
    bytes_less, compare_bytes, lemma_bytes_less_asymmetric, lemma_bytes_less_total,
    lemma_bytes_less_transitive, Rank,
};
use crate::text::encode_text;
use vstd::prelude::*;
use vstd::utf8::encode_utf8;

verus! {

/// The keys stand in strictly ascending order.
pub open spec fn ascending(keys: Seq<Seq<u8>>) -> bool {
    forall|i: int, j: int|
        0 <= i < j < keys.len() ==> bytes_less(#[trigger] keys[i], #[trigger] keys[j])
}

/// The keys stand in strictly descending order.
pub open spec fn descending(keys: Seq<Seq<u8>>) -> bool {
    forall|i: int, j: int|
        0 <= i < j < keys.len() ==> bytes_less(#[trigger] keys[j], #[trigger] keys[i])
}

/// The keys of the items of `s`, in order.
pub open spec fn keys_by<V>(s: Seq<V>, key: spec_fn(V) -> Seq<u8>) -> Seq<Seq<u8>> {
    Seq::new(s.len(), |i: int| key(s[i]))
}

/// `s` with `x` put where its key belongs, or `s` itself where an item of
/// that key is already there.
pub open spec fn place<V>(s: Seq<V>, x: V, key: spec_fn(V) -> Seq<u8>) -> Seq<V>
    decreases s.len(),
{
    if s.len() == 0 {
        seq![x]
    } else if key(s.last()) == key(x) {
        s
    } else if bytes_less(key(s.last()), key(x)) {
        s.push(x)
    } else {
        place(s.drop_last(), x, key).push(s.last())
    }
}

/// `base` after each item of `items` has been placed in it, the first item
/// first.
pub open spec fn place_all<V>(base: Seq<V>, items: Seq<V>, key: spec_fn(V) -> Seq<u8>) -> Seq<V>
    decreases items.len(),
{
    if items.len() == 0 {
        base
    } else {
        place(place_all(base, items.drop_last(), key), items.last(), key)
    }
}

/// Where putting `x` at `p` leaves the keys ascending, `place` puts it there.
pub proof fn lemma_place_at<V>(s: Seq<V>, x: V, key: spec_fn(V) -> Seq<u8>, p: int)
    requires
        0 <= p <= s.len(),
        ascending(keys_by(s.insert(p, x), key)),
    ensures
        place(s, x, key) == s.insert(p, x),
    decreases s.len(),
{
    let t = s.insert(p, x);
    let kt = keys_by(t, key);
    if s.len() == 0 {
        assert(t =~= seq![x]);
    } else if p == s.len() {
        assert(kt[p - 1] == key(s.last()));
        assert(kt[p] == key(x));
        lemma_bytes_less_asymmetric(key(s.last()), key(x));
        assert(t =~= s.push(x));
    } else {
        assert(kt[p] == key(x));
        assert(kt[s.len() as int] == key(s.last()));
        lemma_bytes_less_asymmetric(key(x), key(s.last()));
        let d = s.drop_last();
        assert(d.insert(p, x) =~= t.drop_last());
        assert forall|i: int, j: int| 0 <= i < j < d.len() + 1 implies bytes_less(
            #[trigger] keys_by(d.insert(p, x), key)[i],
            #[trigger] keys_by(d.insert(p, x), key)[j],
        ) by {
            assert(keys_by(d.insert(p, x), key)[i] == kt[i]);
            assert(keys_by(d.insert(p, x), key)[j] == kt[j]);
        }
        lemma_place_at(d, x, key, p);
        assert(d.insert(p, x).push(s.last()) =~= t);
    }
}

/// Where an item of `x`'s key is in `s`, `place` leaves `s` as it is.
pub proof fn lemma_place_present<V>(s: Seq<V>, x: V, key: spec_fn(V) -> Seq<u8>, q: int)
    requires
        ascending(keys_by(s, key)),
        0 <= q < s.len(),
        key(s[q]) == key(x),
    ensures
        place(s, x, key) == s,
    decreases s.len(),
{
    let ks = keys_by(s, key);
    if key(s.last()) != key(x) {
        assert(ks[q] == key(x));
        assert(ks[s.len() - 1] == key(s.last()));
        lemma_bytes_less_asymmetric(key(x), key(s.last()));
        let d = s.drop_last();
        assert forall|i: int, j: int| 0 <= i < j < d.len() implies bytes_less(
            #[trigger] keys_by(d, key)[i],
            #[trigger] keys_by(d, key)[j],
        ) by {
            assert(keys_by(d, key)[i] == ks[i]);
            assert(keys_by(d, key)[j] == ks[j]);
        }
        lemma_place_present(d, x, key, q);
        assert(d.push(s.last()) =~= s);
    }
}

/// What `place` does to an ascending sequence: either an item of `x`'s key is
/// there and nothing changes, or none is and `x` goes in at one position that
/// keeps the keys ascending.
pub proof fn lemma_place_cases<V>(s: Seq<V>, x: V, key: spec_fn(V) -> Seq<u8>)
    requires
        ascending(keys_by(s, key)),
    ensures
        ascending(keys_by(place(s, x, key), key)),
        keys_by(s, key).contains(key(x)) ==> place(s, x, key) == s,
        !keys_by(s, key).contains(key(x)) ==> exists|p: int|
            0 <= p <= s.len() && place(s, x, key) == #[trigger] s.insert(p, x),
    decreases s.len(),
{
    let ks = keys_by(s, key);
    if ks.contains(key(x)) {
        let q = choose|q: int| 0 <= q < ks.len() && ks[q] == key(x);
        lemma_place_present(s, x, key, q);
    } else {
        let p = lemma_slot(s, x, key);
        lemma_place_at(s, x, key, p);
    }
}

/// In an ascending sequence without `x`'s key there is a position at which
/// `x` keeps the keys ascending.
pub proof fn lemma_slot<V>(s: Seq<V>, x: V, key: spec_fn(V) -> Seq<u8>) -> (p: int)
    requires
        ascending(keys_by(s, key)),
        !keys_by(s, key).contains(key(x)),
    ensures
        0 <= p <= s.len(),
        ascending(keys_by(s.insert(p, x), key)),
    decreases s.len(),
{
    let ks = keys_by(s, key);
    if s.len() == 0 {
        0
    } else {
        let n = s.len() as int;
        assert(ks[n - 1] == key(s.last()));
        lemma_bytes_less_total(key(s.last()), key(x));
        if bytes_less(key(s.last()), key(x)) {
            let t = s.insert(n, x);
            assert forall|i: int, j: int| 0 <= i < j < t.len() implies bytes_less(
                #[trigger] keys_by(t, key)[i],
                #[trigger] keys_by(t, key)[j],
            ) by {
                assert(keys_by(t, key)[i] == ks[i]);
                if j < n {
                    assert(keys_by(t, key)[j] == ks[j]);
                } else if i < n - 1 {
                    lemma_bytes_less_transitive(ks[i], ks[n - 1], key(x));
                }
            }
            n
        } else {
            let d = s.drop_last();
            let kd = keys_by(d, key);
            assert forall|i: int, j: int| 0 <= i < j < d.len() implies bytes_less(
                #[trigger] kd[i],
                #[trigger] kd[j],
            ) by {
                assert(kd[i] == ks[i]);
                assert(kd[j] == ks[j]);
            }
            assert forall|i: int| 0 <= i < kd.len() implies kd[i] != key(x) by {
                assert(kd[i] == ks[i]);
            }
            let p = lemma_slot(d, x, key);
            let t = s.insert(p, x);
            let td = d.insert(p, x);
            assert forall|i: int, j: int| 0 <= i < j < t.len() implies bytes_less(
                #[trigger] keys_by(t, key)[i],
                #[trigger] keys_by(t, key)[j],
            ) by {
                if j < n {
                    assert(keys_by(t, key)[i] == keys_by(td, key)[i]);
                    assert(keys_by(t, key)[j] == keys_by(td, key)[j]);
                } else if i == p {
                } else if i < p {
                    assert(keys_by(t, key)[i] == ks[i]);
                } else {
                    assert(keys_by(t, key)[i] == ks[i - 1]);
                }
            }
            p
        }
    }
}

/// Two ascending sequences that hold the same keys hold them at the same
/// positions.
pub proof fn lemma_ascending_unique(a: Seq<Seq<u8>>, b: Seq<Seq<u8>>)
    requires
        ascending(a),
        ascending(b),
        forall|k: Seq<u8>| a.contains(k) <==> b.contains(k),
    ensures
        a == b,
    decreases a.len(),
{
    if a.len() == 0 {
        if b.len() > 0 {
            assert(b.contains(b[0]));
        }
        assert(a =~= b);
    } else if b.len() == 0 {
        assert(a.contains(a[0]));
    } else {
        assert(a.contains(a[0]));
        assert(b.contains(b[0]));
        let j = choose|j: int| 0 <= j < b.len() && b[j] == a[0];
        let i = choose|i: int| 0 <= i < a.len() && a[i] == b[0];
        if j > 0 && i > 0 {
            lemma_bytes_less_transitive(b[0], b[j], a[i]);
            lemma_bytes_less_asymmetric(b[0], a[i]);
        }
        assert(a[0] == b[0]);
        let ra = a.drop_first();
        let rb = b.drop_first();
        assert forall|k: Seq<u8>| ra.contains(k) <==> rb.contains(k) by {
            if ra.contains(k) {
                let m = choose|m: int| 0 <= m < ra.len() && ra[m] == k;
                assert(a[m + 1] == k);
                assert(a.contains(k));
                lemma_bytes_less_asymmetric(a[0], a[m + 1]);
                let n = choose|n: int| 0 <= n < b.len() && b[n] == k;
                assert(rb[n - 1] == k);
            }
            if rb.contains(k) {
                let m = choose|m: int| 0 <= m < rb.len() && rb[m] == k;
                assert(b[m + 1] == k);
                assert(b.contains(k));
                lemma_bytes_less_asymmetric(b[0], b[m + 1]);
                let n = choose|n: int| 0 <= n < a.len() && a[n] == k;
                assert(ra[n - 1] == k);
            }
        }
        assert forall|i: int, j: int| 0 <= i < j < ra.len() implies bytes_less(
            #[trigger] ra[i],
            #[trigger] ra[j],
        ) by {
            assert(ra[i] == a[i + 1] && ra[j] == a[j + 1]);
        }
        assert forall|i: int, j: int| 0 <= i < j < rb.len() implies bytes_less(
            #[trigger] rb[i],
            #[trigger] rb[j],
        ) by {
            assert(rb[i] == b[i + 1] && rb[j] == b[j + 1]);
        }
        lemma_ascending_unique(ra, rb);
        assert(a =~= seq![a[0]] + ra);
        assert(b =~= seq![b[0]] + rb);
    }
}

/// What `s` holds after `x` went in at `p`: what it held, and `x`.
pub proof fn lemma_insert_contains<V>(s: Seq<V>, p: int, x: V)
    requires
        0 <= p <= s.len(),
    ensures
        forall|y: V| #[trigger] s.insert(p, x).contains(y) <==> (s.contains(y) || y == x),
{
    let t = s.insert(p, x);
    assert forall|y: V| #[trigger] t.contains(y) <==> (s.contains(y) || y == x) by {
        if t.contains(y) {
            let i = choose|i: int| 0 <= i < t.len() && t[i] == y;
            if i < p {
                assert(s[i] == y);
            } else if i > p {
                assert(s[i - 1] == y);
            }
        }
        if s.contains(y) {
            let i = choose|i: int| 0 <= i < s.len() && s[i] == y;
            if i < p {
                assert(t[i] == y);
            } else {
                assert(t[i + 1] == y);
            }
        }
        if y == x {
            assert(t[p] == y);
        }
    }
}

/// The two sequences hold the same items, in whatever order and number.
pub open spec fn same_items<V>(a: Seq<V>, b: Seq<V>) -> bool {
    forall|x: V| a.contains(x) <==> b.contains(x)
}

/// Items of `a` that have one key are one item.
pub open spec fn one_per_key<V>(a: Seq<V>, key: spec_fn(V) -> Seq<u8>) -> bool {
    forall|i: int, j: int|
        0 <= i < a.len() && 0 <= j < a.len() && key(#[trigger] a[i]) == key(#[trigger] a[j])
            ==> a[i] == a[j]
}

/// What `place` made of `before`, told by where the item went: `after` is
/// `place(before, x, key)`.
pub proof fn lemma_place_step<V>(
    before: Seq<V>,
    after: Seq<V>,
    x: V,
    key: spec_fn(V) -> Seq<u8>,
    at: Option<int>,
)
    requires
        ascending(keys_by(before, key)),
        match at {
            Some(p) => 0 <= p <= before.len() && after == before.insert(p, x) && ascending(
                keys_by(after, key),
            ),
            None => after == before && keys_by(before, key).contains(key(x)),
        },
    ensures
        after == place(before, x, key),
{
    match at {
        Some(p) => {
            lemma_place_at(before, x, key, p);
        },
        None => {
            let ks = keys_by(before, key);
            let q = choose|q: int| 0 <= q < ks.len() && ks[q] == key(x);
            lemma_place_present(before, x, key, q);
        },
    }
}

/// What placing all of `items` into the empty sequence gives: the keys
/// ascend, nothing is there that was not among `items`, and every key of
/// `items` is there.
pub proof fn lemma_place_all<V>(items: Seq<V>, key: spec_fn(V) -> Seq<u8>)
    ensures
        ascending(keys_by(place_all(Seq::empty(), items, key), key)),
        forall|x: V| #[trigger]
            place_all(Seq::empty(), items, key).contains(x) ==> items.contains(x),
        forall|x: V| #[trigger]
            items.contains(x) ==> keys_by(place_all(Seq::empty(), items, key), key).contains(
                key(x),
            ),
    decreases items.len(),
{
    let r = place_all(Seq::<V>::empty(), items, key);
    if items.len() > 0 {
        let d = items.drop_last();
        let x = items.last();
        let rd = place_all(Seq::<V>::empty(), d, key);
        lemma_place_all(d, key);
        lemma_place_cases(rd, x, key);
        assert(items.contains(x)) by {
            assert(items[items.len() - 1] == x);
        }
        assert forall|y: V| d.contains(y) implies items.contains(y) by {
            let i = choose|i: int| 0 <= i < d.len() && d[i] == y;
            assert(items[i] == y);
        }
        assert forall|y: V| items.contains(y) implies d.contains(y) || y == x by {
            let i = choose|i: int| 0 <= i < items.len() && items[i] == y;
            if i < d.len() {
                assert(d[i] == y);
            }
        }
        if keys_by(rd, key).contains(key(x)) {
            assert(r == rd);
        } else {
            let p = choose|p: int| 0 <= p <= rd.len() && r == #[trigger] rd.insert(p, x);
            assert forall|y: V| r.contains(y) implies items.contains(y) by {
                let i = choose|i: int| 0 <= i < r.len() && r[i] == y;
                if i < p {
                    assert(rd[i] == y);
                    assert(rd.contains(y));
                } else if i > p {
                    assert(rd[i - 1] == y);
                    assert(rd.contains(y));
                }
            }
            assert forall|y: V| items.contains(y) implies keys_by(r, key).contains(key(y)) by {
                if d.contains(y) {
                    let q = choose|q: int|
                        0 <= q < rd.len() && keys_by(rd, key)[q] == key(y);
                    if q < p {
                        assert(keys_by(r, key)[q] == key(y));
                    } else {
                        assert(keys_by(r, key)[q + 1] == key(y));
                    }
                } else {
                    assert(keys_by(r, key)[p] == key(y));
                }
            }
        }
    }
}

/// Placing the same items gives the same sequence in whatever order they
/// come, where items of one key are one item.
pub proof fn lemma_place_all_any_order<V>(a: Seq<V>, b: Seq<V>, key: spec_fn(V) -> Seq<u8>)
    requires
        same_items(a, b),
        one_per_key(a, key),
    ensures
        place_all(Seq::empty(), a, key) == place_all(Seq::empty(), b, key),
{
    let ra = place_all(Seq::<V>::empty(), a, key);
    let rb = place_all(Seq::<V>::empty(), b, key);
    let ka = keys_by(ra, key);
    let kb = keys_by(rb, key);
    lemma_place_all(a, key);
    lemma_place_all(b, key);
    assert forall|k: Seq<u8>| ka.contains(k) <==> kb.contains(k) by {
        if ka.contains(k) {
            let i = choose|i: int| 0 <= i < ka.len() && ka[i] == k;
            assert(ra.contains(ra[i]));
            assert(b.contains(ra[i]));
        }
        if kb.contains(k) {
            let i = choose|i: int| 0 <= i < kb.len() && kb[i] == k;
            assert(rb.contains(rb[i]));
            assert(a.contains(rb[i]));
        }
    }
    lemma_ascending_unique(ka, kb);
    assert(ra.len() == ka.len() && rb.len() == kb.len());
    assert forall|i: int| 0 <= i < ra.len() implies ra[i] == rb[i] by {
        assert(ka[i] == key(ra[i]) && kb[i] == key(rb[i]));
        assert(ra.contains(ra[i]));
        assert(rb.contains(rb[i]));
        assert(a.contains(rb[i]));
        let m = choose|m: int| 0 <= m < a.len() && a[m] == ra[i];
        let n = choose|n: int| 0 <= n < a.len() && a[n] == rb[i];
        assert(key(a[m]) == key(a[n]));
    }
    assert(ra =~= rb);
}

/// An item that is found and ordered by a byte key.
pub trait Keyed {
    /// The key of the item.
    spec fn key(&self) -> Seq<u8>;

    /// Computes the key of the item.
    fn key_bytes(&self) -> (k: Vec<u8>)
        ensures
            k@ == self.key(),
    ;
}

impl Keyed for String {
    open spec fn key(&self) -> Seq<u8> {
        encode_utf8(self@)
    }

    fn key_bytes(&self) -> (k: Vec<u8>) {
        encode_text(self.as_str())
    }
}

/// The keys of the items of `s`, in order.
pub open spec fn keys_of<T: Keyed>(s: Seq<T>) -> Seq<Seq<u8>> {
    Seq::new(s.len(), |i: int| s[i].key())
}

/// The first position of `v` whose key does not come before `key`.
pub fn lower_bound<T: Keyed>(v: &Vec<T>, key: &[u8]) -> (p: usize)
    ensures
        p <= v.len(),
        forall|j: int| 0 <= j < p ==> bytes_less(#[trigger] v@[j].key(), key@),
        p < v.len() ==> !bytes_less(v@[p as int].key(), key@),
{
    let mut i: usize = 0;
    let mut found = false;
    while !found && i < v.len()
        invariant
            i <= v.len(),
            forall|j: int| 0 <= j < i ==> bytes_less(#[trigger] v@[j].key(), key@),
            found ==> i < v.len() && !bytes_less(v@[i as int].key(), key@),
        decreases v.len() - i, if found { 0int } else { 1int },
    {
        let k = v[i].key_bytes();
        if compare_bytes(k.as_slice(), key) == Rank::Before {
            i += 1;
        } else {
            found = true;
        }
    }
    i
}

/// Tells whether the keys of `v` stand in strictly ascending order.
pub fn is_ascending<T: Keyed>(v: &Vec<T>) -> (r: bool)
    ensures
        r == ascending(keys_of(v@)),
{
    let ghost keys = keys_of(v@);
    let mut i: usize = 1;
    while i < v.len()
        invariant
            1 <= i,
            keys == keys_of(v@),
            forall|a: int, b: int|
                0 <= a < b < i && b < keys.len() ==> bytes_less(
                    #[trigger] keys[a],
                    #[trigger] keys[b],
                ),
        decreases v.len() - i,
    {
        let below = v[i - 1].key_bytes();
        let here = v[i].key_bytes();
        if compare_bytes(below.as_slice(), here.as_slice()) != Rank::Before {
            assert(!bytes_less(keys[i - 1], keys[i as int]));
            return false;
        }
        proof {
            assert forall|a: int, b: int| 0 <= a < b < i + 1 && b < keys.len() implies bytes_less(
                #[trigger] keys[a],
                #[trigger] keys[b],
            ) by {
                if b == i && a < i - 1 {
                    lemma_bytes_less_transitive(keys[a], keys[i - 1], keys[i as int]);
                }
            }
        }
        i += 1;
    }
    true
}

/// Puts `item` into `v` where its key belongs, unless an item of that key is
/// there already. Returns the position it was put at.
pub fn insert_by_key<T: Keyed>(v: &mut Vec<T>, item: T) -> (r: Option<usize>)
    requires
        ascending(keys_of(old(v)@)),
    ensures
        ascending(keys_of(final(v)@)),
        match r {
            Some(p) => {
                &&& p <= old(v)@.len()
                &&& final(v)@ == old(v)@.insert(p as int, item)
                &&& !keys_of(old(v)@).contains(item.key())
            },
            None => {
                &&& final(v)@ == old(v)@
                &&& keys_of(old(v)@).contains(item.key())
            },
        },
{
    let item_key = item.key_bytes();
    let p = lower_bound(v, item_key.as_slice());
    let ghost ks = keys_of(v@);
    if p < v.len() {
        let k = v[p].key_bytes();
        if compare_bytes(k.as_slice(), item_key.as_slice()) == Rank::Same {
            assert(ks[p as int] == item.key());
            return None;
        }
    }
    proof {
        assert forall|j: int| 0 <= j < ks.len() implies ks[j] != item.key() && (j >= p
            ==> bytes_less(item.key(), ks[j])) by {
            if j < p {
                lemma_bytes_less_asymmetric(v@[j].key(), item.key());
            } else {
                lemma_bytes_less_total(ks[p as int], item.key());
                if j > p {
                    lemma_bytes_less_transitive(item.key(), ks[p as int], ks[j]);
                }
                lemma_bytes_less_asymmetric(item.key(), ks[j]);
            }
        }
    }
    v.insert(p, item);
    proof {
        let kn = keys_of(v@);
        assert forall|i: int, j: int| 0 <= i < j < kn.len() implies bytes_less(
            #[trigger] kn[i],
            #[trigger] kn[j],
        ) by {
            let oi = if i < p { i } else { i - 1 };
            let oj = if j < p { j } else { j - 1 };
            if i != p {
                assert(kn[i] == ks[oi]);
            }
            if j != p {
                assert(kn[j] == ks[oj]);
            }
        }
    }
    Some(p)
}

} // verus!
