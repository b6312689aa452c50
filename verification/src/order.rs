//! Ordering: texts compared character by character, and stable sorting by a key.

use vstd::prelude::*;
use crate::text::chars_of;

verus! {

/// `a` comes before `b`, or they are equal, by the code points of their characters.
pub open spec fn text_le(a: Seq<char>, b: Seq<char>) -> bool
    decreases a.len(),
{
    if a.len() == 0 {
        true
    } else if b.len() == 0 {
        false
    } else if a[0] != b[0] {
        a[0] < b[0]
    } else {
        text_le(a.skip(1), b.skip(1))
    }
}

/// Whether `a` comes before `b` or equals it.
pub fn chars_le(a: &Vec<char>, b: &Vec<char>) -> (r: bool)
    ensures
        r == text_le(a@, b@),
{
    let mut i: usize = 0;
    proof {
        assert(a@.skip(0) == a@);
        assert(b@.skip(0) == b@);
    }
    while i < a.len() && i < b.len()
        invariant
            i <= a.len(),
            i <= b.len(),
            text_le(a@, b@) == text_le(a@.skip(i as int), b@.skip(i as int)),
        decreases a.len() - i,
    {
        if a[i] != b[i] {
            return a[i] < b[i];
        }
        proof {
            assert(a@.skip(i as int).skip(1) == a@.skip(i + 1));
            assert(b@.skip(i as int).skip(1) == b@.skip(i + 1));
        }
        i = i + 1;
    }
    i == a.len()
}

/// What a list is sorted by: two ranks, then a text. Smaller ranks come first.
pub struct SortKey {
    pub first: i64,
    pub second: i64,
    pub name: Vec<char>,
}

/// The model of a [`SortKey`].
pub struct KeyV {
    pub first: int,
    pub second: int,
    pub name: Seq<char>,
}

impl View for SortKey {
    type V = KeyV;

    open spec fn view(&self) -> KeyV {
        KeyV { first: self.first as int, second: self.second as int, name: self.name@ }
    }
}

/// The key that is a text alone.
pub open spec fn name_key(name: Seq<char>) -> KeyV {
    KeyV { first: 0, second: 0, name }
}

/// The key that is a text alone.
pub fn name_sort_key(name: &str) -> (k: SortKey)
    ensures
        k@ == name_key(name@),
{
    SortKey { first: 0, second: 0, name: chars_of(name) }
}

/// Key order: by the first rank, then the second, then the text.
pub open spec fn key_le(a: KeyV, b: KeyV) -> bool {
    if a.first != b.first {
        a.first < b.first
    } else if a.second != b.second {
        a.second < b.second
    } else {
        text_le(a.name, b.name)
    }
}

impl SortKey {
    /// Whether this key comes before `other` or equals it.
    pub fn le(&self, other: &SortKey) -> (r: bool)
        ensures
            r == key_le(self@, other@),
    {
        if self.first != other.first {
            self.first < other.first
        } else if self.second != other.second {
            self.second < other.second
        } else {
            chars_le(&self.name, &other.name)
        }
    }
}

/// `x` put into `s` behind the last element whose key is not greater.
pub open spec fn put_sorted<T>(s: Seq<T>, x: T, key: spec_fn(T) -> KeyV) -> Seq<T>
    decreases s.len(),
{
    if s.len() == 0 || key_le(key(s.last()), key(x)) {
        s.push(x)
    } else {
        put_sorted(s.drop_last(), x, key).push(s.last())
    }
}

/// `s` in the order of its keys; elements with equal keys keep their order.
pub open spec fn sorted_by<T>(s: Seq<T>, key: spec_fn(T) -> KeyV) -> Seq<T>
    decreases s.len(),
{
    if s.len() == 0 {
        s
    } else {
        put_sorted(sorted_by(s.drop_last(), key), s.last(), key)
    }
}

/// Every element's key is at most that of any element behind it.
pub open spec fn in_order<T>(s: Seq<T>, key: spec_fn(T) -> KeyV) -> bool {
    forall|i: int, j: int| 0 <= i < j < s.len() ==> key_le(key(#[trigger] s[i]), key(#[trigger] s[j]))
}

/// No element's key is beyond `k`.
pub open spec fn bounded<T>(s: Seq<T>, key: spec_fn(T) -> KeyV, k: KeyV) -> bool {
    forall|i: int| 0 <= i < s.len() ==> key_le(key(#[trigger] s[i]), k)
}

// ---- laws of the order ----

/// Any two texts can be ordered.
pub proof fn law_text_le_total(a: Seq<char>, b: Seq<char>)
    ensures
        text_le(a, b) || text_le(b, a),
    decreases a.len(),
{
    if a.len() > 0 && b.len() > 0 && a[0] == b[0] {
        law_text_le_total(a.skip(1), b.skip(1));
    }
}

/// The order of texts is transitive.
pub proof fn law_text_le_transitive(a: Seq<char>, b: Seq<char>, c: Seq<char>)
    requires
        text_le(a, b),
        text_le(b, c),
    ensures
        text_le(a, c),
    decreases a.len(),
{
    if a.len() > 0 && b.len() > 0 && c.len() > 0 && a[0] == b[0] && b[0] == c[0] {
        law_text_le_transitive(a.skip(1), b.skip(1), c.skip(1));
    }
}

/// Texts that come before each other are equal.
pub proof fn law_text_le_antisymmetric(a: Seq<char>, b: Seq<char>)
    requires
        text_le(a, b),
        text_le(b, a),
    ensures
        a == b,
    decreases a.len(),
{
    if a.len() > 0 && b.len() > 0 {
        law_text_le_antisymmetric(a.skip(1), b.skip(1));
        assert(a == seq![a[0]] + a.skip(1));
        assert(b == seq![b[0]] + b.skip(1));
    } else {
        assert(a == b);
    }
}

proof fn lemma_key_le_total(a: KeyV, b: KeyV)
    ensures
        key_le(a, b) || key_le(b, a),
{
    law_text_le_total(a.name, b.name);
}

proof fn lemma_key_le_transitive(a: KeyV, b: KeyV, c: KeyV)
    requires
        key_le(a, b),
        key_le(b, c),
    ensures
        key_le(a, c),
{
    if a.first == b.first && b.first == c.first && a.second == b.second && b.second == c.second {
        law_text_le_transitive(a.name, b.name, c.name);
    }
}

proof fn lemma_put_sorted<T>(s: Seq<T>, x: T, key: spec_fn(T) -> KeyV)
    requires
        in_order(s, key),
    ensures
        in_order(put_sorted(s, x, key), key),
        put_sorted(s, x, key).len() == s.len() + 1,
        put_sorted(s, x, key).to_multiset() == s.to_multiset().insert(x),
        forall|k: KeyV|
            #![trigger bounded(s, key, k)]
            bounded(s, key, k) && key_le(key(x), k) ==> bounded(put_sorted(s, x, key), key, k),
    decreases s.len(),
{
    broadcast use vstd::seq_lib::group_to_multiset_ensures;

    let r = put_sorted(s, x, key);
    if s.len() == 0 || key_le(key(s.last()), key(x)) {
        assert forall|i: int, j: int| 0 <= i < j < r.len() implies key_le(key(#[trigger] r[i]), key(#[trigger] r[j])) by {
            if j == s.len() && i < s.len() - 1 {
                lemma_key_le_transitive(key(s[i]), key(s.last()), key(x));
            }
        }
    } else {
        let front = s.drop_last();
        lemma_put_sorted(front, x, key);
        lemma_key_le_total(key(s.last()), key(x));
        assert(bounded(front, key, key(s.last())));
        assert(bounded(put_sorted(front, x, key), key, key(s.last())));
        assert(in_order(r, key));
        assert(s == front.push(s.last()));
        assert(r.to_multiset() == front.to_multiset().insert(x).insert(s.last()));
        assert(s.to_multiset().insert(x) =~= front.to_multiset().insert(s.last()).insert(x));
        assert(r.to_multiset() =~= s.to_multiset().insert(x));
        assert forall|k: KeyV|
            #![trigger bounded(s, key, k)]
            bounded(s, key, k) && key_le(key(x), k) implies bounded(r, key, k) by {
            assert forall|i: int| 0 <= i < front.len() implies key_le(key(#[trigger] front[i]), k) by {
                assert(front[i] == s[i]);
            }
            assert(bounded(front, key, k));
            let p = put_sorted(front, x, key);
            assert(bounded(p, key, k));
            assert forall|i: int| 0 <= i < r.len() implies key_le(key(#[trigger] r[i]), k) by {
                if i < s.len() {
                    assert(r[i] == p[i]);
                } else {
                    assert(r[i] == s[s.len() - 1]);
                }
            }
        }
    }
}

/// Sorting puts the elements in key order and neither drops nor adds any.
pub proof fn law_sorted<T>(s: Seq<T>, key: spec_fn(T) -> KeyV)
    ensures
        in_order(sorted_by(s, key), key),
        sorted_by(s, key).len() == s.len(),
        sorted_by(s, key).to_multiset() == s.to_multiset(),
    decreases s.len(),
{
    broadcast use vstd::seq_lib::group_to_multiset_ensures;

    if s.len() > 0 {
        law_sorted(s.drop_last(), key);
        lemma_put_sorted(sorted_by(s.drop_last(), key), s.last(), key);
        assert(s == s.drop_last().push(s.last()));
    }
}

proof fn lemma_put_in_order<T>(s: Seq<T>, x: T, key: spec_fn(T) -> KeyV)
    requires
        s.len() == 0 || key_le(key(s.last()), key(x)),
    ensures
        put_sorted(s, x, key) == s.push(x),
{
}

/// A list that is in order already stays as it is.
pub proof fn law_sorted_keeps_order<T>(s: Seq<T>, key: spec_fn(T) -> KeyV)
    requires
        in_order(s, key),
    ensures
        sorted_by(s, key) == s,
    decreases s.len(),
{
    if s.len() > 0 {
        let front = s.drop_last();
        assert(in_order(front, key));
        law_sorted_keeps_order(front, key);
        if front.len() > 0 {
            assert(key_le(key(s[s.len() - 2]), key(s[s.len() - 1])));
        }
        lemma_put_in_order(front, s.last(), key);
        assert(front.push(s.last()) == s);
    }
}

/// Sorting commutes with a map that keeps the keys.
pub proof fn lemma_sorted_map<A, B>(s: Seq<A>, f: spec_fn(A) -> B, ka: spec_fn(A) -> KeyV, kb: spec_fn(B) -> KeyV)
    requires
        forall|x: A| #[trigger] ka(x) == kb(f(x)),
    ensures
        sorted_by(s, ka).map_values(f) == sorted_by(s.map_values(f), kb),
    decreases s.len(),
{
    if s.len() > 0 {
        lemma_sorted_map(s.drop_last(), f, ka, kb);
        assert(s.map_values(f).drop_last() == s.drop_last().map_values(f));
        lemma_put_map(sorted_by(s.drop_last(), ka), s.last(), f, ka, kb);
    } else {
        assert(s.map_values(f) == Seq::<B>::empty());
        assert(sorted_by(s, ka).map_values(f) == Seq::<B>::empty());
    }
}

proof fn lemma_put_map<A, B>(s: Seq<A>, x: A, f: spec_fn(A) -> B, ka: spec_fn(A) -> KeyV, kb: spec_fn(B) -> KeyV)
    requires
        forall|x: A| #[trigger] ka(x) == kb(f(x)),
    ensures
        put_sorted(s, x, ka).map_values(f) == put_sorted(s.map_values(f), f(x), kb),
    decreases s.len(),
{
    let m = s.map_values(f);
    if s.len() == 0 || key_le(ka(s.last()), ka(x)) {
        assert(ka(x) == kb(f(x)));
        if s.len() > 0 {
            assert(m.last() == f(s.last()));
            assert(ka(s.last()) == kb(f(s.last())));
        }
        assert(s.push(x).map_values(f) == m.push(f(x)));
    } else {
        assert(m.last() == f(s.last()));
        assert(ka(s.last()) == kb(f(s.last())));
        assert(ka(x) == kb(f(x)));
        lemma_put_map(s.drop_last(), x, f, ka, kb);
        assert(m.drop_last() == s.drop_last().map_values(f));
        assert(put_sorted(s, x, ka).map_values(f) == put_sorted(s.drop_last(), x, ka).map_values(f).push(f(s.last())));
    }
}

proof fn lemma_put_position<T>(s: Seq<T>, x: T, key: spec_fn(T) -> KeyV, j: int)
    requires
        0 <= j <= s.len(),
        j == 0 || key_le(key(s[j - 1]), key(x)),
        forall|i: int| j <= i < s.len() ==> !key_le(key(#[trigger] s[i]), key(x)),
    ensures
        put_sorted(s, x, key) == s.insert(j, x),
    decreases s.len(),
{
    if j < s.len() {
        let front = s.drop_last();
        lemma_put_position(front, x, key, j);
        assert(!key_le(key(s[s.len() - 1]), key(x)));
        assert(front.insert(j, x).push(s.last()) == s.insert(j, x));
    } else {
        assert(s.insert(j, x) == s.push(x));
    }
}

/// Sorts `items` by the given keys, one for each item.
pub fn sort_items<T>(items: &mut Vec<T>, keys: Vec<SortKey>, Ghost(key): Ghost<spec_fn(T) -> KeyV>)
    requires
        keys.len() == old(items).len(),
        forall|i: int| 0 <= i < keys.len() ==> (#[trigger] keys@[i])@ == key(old(items)@[i]),
    ensures
        final(items)@ == sorted_by(old(items)@, key),
{
    let mut keys = keys;
    let n: usize = items.len();
    let ghost start = items@;
    let mut i: usize = 0;
    proof {
        assert(start.take(0) == Seq::<T>::empty());
        assert(items@.take(0) == sorted_by(start.take(0), key));
    }
    while i < n
        invariant
            i <= n,
            n == items.len(),
            n == keys.len(),
            n == start.len(),
            items@.take(i as int) == sorted_by(start.take(i as int), key),
            items@.skip(i as int) == start.skip(i as int),
            forall|j: int| 0 <= j < n ==> (#[trigger] keys@[j])@ == key(items@[j]),
        decreases n - i,
    {
        let ghost before = items@;
        let ghost keys_before = keys@;
        let mut j: usize = i;
        proof {
            assert(before[i as int] == before.skip(i as int)[0]);
            assert(start[i as int] == start.skip(i as int)[0]);
        }
        while j > 0 && !keys[j - 1].le(&keys[i])
            invariant
                0 <= j <= i,
                i < n,
                n == items.len(),
                n == keys.len(),
                items@ == before,
                keys@ == keys_before,
                forall|j: int| 0 <= j < n ==> (#[trigger] keys@[j])@ == key(items@[j]),
                forall|k: int| j <= k < i ==> !key_le(key(#[trigger] before[k]), key(before[i as int])),
            ensures
                0 <= j <= i,
                j == 0 || key_le(key(before[j - 1]), key(before[i as int])),
            decreases j,
        {
            j = j - 1;
        }
        let x = items.remove(i);
        items.insert(j, x);
        let k = keys.remove(i);
        keys.insert(j, k);
        proof {
            let front = before.take(i as int);
            assert(before[i as int] == start[i as int]);
            lemma_put_position(front, before[i as int], key, j as int);
            assert(start.take(i + 1).drop_last() == start.take(i as int));
            assert(items@.take(i + 1) == front.insert(j as int, before[i as int]));
            assert(items@.skip(i + 1) == start.skip(i + 1)) by {
                assert forall|q: int| 0 <= q < n - (i + 1) implies #[trigger] items@.skip(i + 1)[q] == start.skip(i + 1)[q] by {
                    assert(items@[i + 1 + q] == before[i + 1 + q]);
                    assert(before.skip(i as int)[1 + q] == start.skip(i as int)[1 + q]);
                }
            }
        }
        i = i + 1;
    }
    proof {
        assert(items@.take(n as int) == items@);
        assert(start.take(n as int) == start);
    }
}

/// The order of texts is that of a dictionary: a text comes before any that it begins, and where
/// two first differ, the smaller character comes first.
pub proof fn law_dictionary_order(p: Seq<char>, a: Seq<char>, b: Seq<char>)
    ensures
        text_le(p, p + a),
        a.len() > 0 ==> !text_le(p + a, p),
        a.len() > 0 && b.len() > 0 && a[0] < b[0] ==> text_le(p + a, p + b) && !text_le(p + b, p + a),
    decreases p.len(),
{
    if p.len() == 0 {
        assert(p + a =~= a);
        assert(p + b =~= b);
    } else {
        let r = p.skip(1);
        law_dictionary_order(r, a, b);
        assert((p + a).skip(1) =~= r + a);
        assert((p + b).skip(1) =~= r + b);
        assert((p + a)[0] == p[0] && (p + b)[0] == p[0]);
    }
}

/// Keys are compared by their ranks first, smaller ones in front, and by their texts last.
pub proof fn law_ranks_come_first(a: KeyV, b: KeyV)
    ensures
        a.first < b.first ==> key_le(a, b) && !key_le(b, a),
        a.first == b.first && a.second < b.second ==> key_le(a, b) && !key_le(b, a),
        a.first == b.first && a.second == b.second ==> (key_le(a, b) <==> text_le(a.name, b.name)),
{
}

/// Sorting keeps the order of elements whose keys are alike: one that comes behind another, and
/// whose key is not smaller than any there, stays behind them all.
pub proof fn law_sorting_is_stable<T>(s: Seq<T>, x: T, key: spec_fn(T) -> KeyV)
    requires
        bounded(s, key, key(x)),
    ensures
        sorted_by(s.push(x), key) == sorted_by(s, key).push(x),
{
    broadcast use vstd::seq_lib::group_to_multiset_ensures;

    assert(s.push(x).drop_last() =~= s);
    let t = sorted_by(s, key);
    law_sorted(s, key);
    if t.len() > 0 {
        assert(t.contains(t[t.len() - 1]));
        assert(t.to_multiset().count(t.last()) > 0);
        assert(s.contains(t.last()));
        let i = s.index_of(t.last());
        assert(key_le(key(s[i]), key(x)));
    }
}

} // verus!
