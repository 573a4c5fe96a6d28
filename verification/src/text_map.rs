//! A map from text keys to values, kept as a list in strict key order.
//!
//! The model of a map is the sequence of its entries. Because the sequence is
//! strictly sorted, every key occurs once, and two maps with the same
//! bindings have the same model.

use vstd::prelude::*;
use crate::text::{
    lemma_text_before_asymmetric, lemma_text_before_irreflexive, lemma_text_before_total,
    lemma_text_before_transitive, precedes, same_text, text_before,
};

verus! {

/// The value bound to `key`: that of the last entry with this key.
pub open spec fn lookup<T>(s: Seq<(Seq<char>, T)>, key: Seq<char>) -> Option<T>
    decreases s.len(),
{
    if s.len() == 0 {
        None
    } else if s.last().0 == key {
        Some(s.last().1)
    } else {
        lookup(s.drop_last(), key)
    }
}

/// Some entry of `s` has the key `key`.
pub open spec fn has_key<T>(s: Seq<(Seq<char>, T)>, key: Seq<char>) -> bool {
    exists|i: int| 0 <= i < s.len() && (#[trigger] s[i]).0 == key
}

/// The keys of `s` rise strictly from entry to entry.
pub open spec fn strictly_sorted<T>(s: Seq<(Seq<char>, T)>) -> bool {
    forall|i: int, j: int| 0 <= i < j < s.len() ==> text_before((#[trigger] s[i]).0, (#[trigger] s[j]).0)
}

/// `s` with `key` bound to `value`: the entry replaces one with the same key,
/// or else goes where the order puts it.
pub open spec fn upsert<T>(s: Seq<(Seq<char>, T)>, key: Seq<char>, value: T) -> Seq<(Seq<char>, T)>
    decreases s.len(),
{
    if s.len() == 0 {
        seq![(key, value)]
    } else if text_before(s.last().0, key) {
        s.push((key, value))
    } else if s.last().0 == key {
        s.drop_last().push((key, value))
    } else {
        upsert(s.drop_last(), key, value).push(s.last())
    }
}

/// The sorted map that holds the bindings of `s`, later entries winning.
pub open spec fn sorted_from<T>(s: Seq<(Seq<char>, T)>) -> Seq<(Seq<char>, T)>
    decreases s.len(),
{
    if s.len() == 0 {
        Seq::empty()
    } else {
        upsert(sorted_from(s.drop_last()), s.last().0, s.last().1)
    }
}

/// `p` is where `key` stands or would stand in the sorted `s`.
pub open spec fn is_slot<T>(s: Seq<(Seq<char>, T)>, key: Seq<char>, p: int) -> bool {
    &&& 0 <= p <= s.len()
    &&& forall|i: int| 0 <= i < p ==> text_before((#[trigger] s[i]).0, key)
    &&& forall|i: int| p <= i < s.len() ==> !text_before((#[trigger] s[i]).0, key)
}

/// In a sorted list an entry is found by its key.
pub proof fn lemma_lookup_at<T>(s: Seq<(Seq<char>, T)>, i: int)
    requires
        strictly_sorted(s),
        0 <= i < s.len(),
    ensures
        lookup(s, s[i].0) == Some(s[i].1),
    decreases s.len(),
{
    if i < s.len() - 1 {
        lemma_text_before_asymmetric(s[i].0, s.last().0);
        lemma_lookup_at(s.drop_last(), i);
    }
}

/// A key that no entry has is bound to nothing, and a bound key is some
/// entry's.
pub proof fn lemma_lookup_has_key<T>(s: Seq<(Seq<char>, T)>, key: Seq<char>)
    ensures
        lookup(s, key) is Some <==> has_key(s, key),
        lookup(s, key) matches Some(v) ==> exists|i: int| 0 <= i < s.len() && #[trigger] s[i] == (key, v),
    decreases s.len(),
{
    if s.len() > 0 {
        let t = s.drop_last();
        lemma_lookup_has_key(t, key);
        if s.last().0 == key {
            assert(s[s.len() - 1] == (key, s.last().1));
        } else {
            if has_key(s, key) {
                let i = choose|i: int| 0 <= i < s.len() && (#[trigger] s[i]).0 == key;
                assert(t[i].0 == key);
            }
            if has_key(t, key) {
                let i = choose|i: int| 0 <= i < t.len() && (#[trigger] t[i]).0 == key;
                assert(s[i].0 == key);
            }
            if let Some(v) = lookup(s, key) {
                let i = choose|i: int| 0 <= i < t.len() && #[trigger] t[i] == (key, v);
                assert(s[i] == (key, v));
            }
        }
    }
}

/// What `upsert` does to a sorted list, stated by the slot of the key.
pub proof fn lemma_upsert_at_slot<T>(s: Seq<(Seq<char>, T)>, key: Seq<char>, value: T, p: int)
    requires
        strictly_sorted(s),
        is_slot(s, key, p),
    ensures
        p < s.len() && s[p].0 == key ==> upsert(s, key, value) == s.update(p, (key, value)),
        !(p < s.len() && s[p].0 == key) ==> upsert(s, key, value) == s.insert(p, (key, value)),
    decreases s.len(),
{
    if s.len() == 0 {
        assert(s.insert(0, (key, value)) =~= seq![(key, value)]);
    } else if text_before(s.last().0, key) {
        assert(p == s.len());
        assert(s.insert(p, (key, value)) =~= s.push((key, value)));
    } else if s.last().0 == key {
        if p < s.len() - 1 {
            lemma_text_before_irreflexive(key);
            lemma_text_before_asymmetric(s[p].0, s.last().0);
        }
        assert(p == s.len() - 1);
        assert(s.update(p, (key, value)) =~= s.drop_last().push((key, value)));
    } else {
        let t = s.drop_last();
        lemma_text_before_total(s.last().0, key);
        assert(p <= s.len() - 1) by {
            if p == s.len() {
                assert(text_before(s[s.len() - 1].0, key));
            }
        }
        assert(is_slot(t, key, p)) by {
            assert forall|i: int| 0 <= i < p implies text_before((#[trigger] t[i]).0, key) by {
                assert(t[i] == s[i]);
            }
            assert forall|i: int| p <= i < t.len() implies !text_before((#[trigger] t[i]).0, key) by {
                assert(t[i] == s[i]);
            }
        }
        assert(strictly_sorted(t)) by {
            assert forall|i: int, j: int| 0 <= i < j < t.len() implies text_before(
                (#[trigger] t[i]).0,
                (#[trigger] t[j]).0,
            ) by {
                assert(t[i] == s[i] && t[j] == s[j]);
            }
        }
        lemma_upsert_at_slot(t, key, value, p);
        if p < s.len() && s[p].0 == key {
            assert(p < t.len());
            assert(t[p] == s[p]);
            assert(s.update(p, (key, value)) =~= t.update(p, (key, value)).push(s.last()));
        } else {
            if p < t.len() {
                assert(t[p] == s[p]);
            }
            assert(s.insert(p, (key, value)) =~= t.insert(p, (key, value)).push(s.last()));
        }
    }
}

/// `upsert` keeps a sorted list sorted.
pub proof fn lemma_upsert_sorted<T>(s: Seq<(Seq<char>, T)>, key: Seq<char>, value: T)
    requires
        strictly_sorted(s),
    ensures
        strictly_sorted(upsert(s, key, value)),
        forall|i: int| #![trigger upsert(s, key, value)[i]]
            0 <= i < upsert(s, key, value).len() ==> upsert(s, key, value)[i].0 == key || has_key(
                s,
                upsert(s, key, value)[i].0,
            ),
    decreases s.len(),
{
    let r = upsert(s, key, value);
    if s.len() == 0 {
    } else if text_before(s.last().0, key) {
        assert forall|i: int, j: int| 0 <= i < j < r.len() implies text_before(
            (#[trigger] r[i]).0,
            (#[trigger] r[j]).0,
        ) by {
            if j == s.len() {
                if i < s.len() - 1 {
                    assert(text_before(s[i].0, s[s.len() - 1].0));
                    lemma_text_before_transitive(s[i].0, s.last().0, key);
                }
            } else {
                assert(r[i] == s[i] && r[j] == s[j]);
            }
        }
        assert forall|i: int| 0 <= i < r.len() implies (#[trigger] r[i]).0 == key || has_key(s, r[i].0) by {
            if i < s.len() {
                assert(s[i].0 == r[i].0);
            }
        }
    } else if s.last().0 == key {
        assert forall|i: int, j: int| 0 <= i < j < r.len() implies text_before(
            (#[trigger] r[i]).0,
            (#[trigger] r[j]).0,
        ) by {
            assert(r[i] == s[i]);
            assert(r[j].0 == s[j].0);
        }
        assert forall|i: int| 0 <= i < r.len() implies (#[trigger] r[i]).0 == key || has_key(s, r[i].0) by {
            assert(s[i].0 == r[i].0);
        }
    } else {
        let t = s.drop_last();
        assert(strictly_sorted(t)) by {
            assert forall|i: int, j: int| 0 <= i < j < t.len() implies text_before(
                (#[trigger] t[i]).0,
                (#[trigger] t[j]).0,
            ) by {
                assert(t[i] == s[i] && t[j] == s[j]);
            }
        }
        lemma_upsert_sorted(t, key, value);
        let u = upsert(t, key, value);
        lemma_text_before_total(s.last().0, key);
        assert forall|i: int| 0 <= i < u.len() implies text_before((#[trigger] u[i]).0, s.last().0) by {
            if u[i].0 != key {
                assert(has_key(t, u[i].0));
                let k = choose|k: int| 0 <= k < t.len() && (#[trigger] t[k]).0 == u[i].0;
                assert(t[k] == s[k]);
                assert(text_before(s[k].0, s[s.len() - 1].0));
            }
        }
        assert forall|i: int, j: int| 0 <= i < j < r.len() implies text_before(
            (#[trigger] r[i]).0,
            (#[trigger] r[j]).0,
        ) by {
            if j < u.len() {
                assert(r[i] == u[i] && r[j] == u[j]);
            } else {
                assert(r[i] == u[i]);
            }
        }
        assert forall|i: int| 0 <= i < r.len() implies (#[trigger] r[i]).0 == key || has_key(s, r[i].0) by {
            if i < u.len() {
                assert(r[i] == u[i]);
                if u[i].0 != key {
                    let k = choose|k: int| 0 <= k < t.len() && (#[trigger] t[k]).0 == u[i].0;
                    assert(s[k].0 == u[i].0);
                }
            } else {
                assert(s[s.len() - 1].0 == r[i].0);
            }
        }
    }
}

/// `upsert` binds its key and leaves the other keys as they were.
pub proof fn lemma_upsert_lookup<T>(s: Seq<(Seq<char>, T)>, key: Seq<char>, value: T, other: Seq<char>)
    ensures
        lookup(upsert(s, key, value), other) == if other == key {
            Some(value)
        } else {
            lookup(s, other)
        },
    decreases s.len(),
{
    if s.len() == 0 {
        assert(seq![(key, value)].drop_last() =~= Seq::<(Seq<char>, T)>::empty());
    } else if text_before(s.last().0, key) {
        assert(s.push((key, value)).drop_last() =~= s);
    } else if s.last().0 == key {
        let t = s.drop_last();
        assert(t.push((key, value)).drop_last() =~= t);
    } else {
        let t = s.drop_last();
        lemma_upsert_lookup(t, key, value, other);
        assert(upsert(t, key, value).push(s.last()).drop_last() =~= upsert(t, key, value));
    }
}

/// `sorted_from` gives a sorted list with the bindings of its argument.
pub proof fn lemma_sorted_from<T>(s: Seq<(Seq<char>, T)>)
    ensures
        strictly_sorted(sorted_from(s)),
        forall|key: Seq<char>| lookup(sorted_from(s), key) == lookup(s, key),
    decreases s.len(),
{
    if s.len() > 0 {
        let t = s.drop_last();
        lemma_sorted_from(t);
        lemma_upsert_sorted(sorted_from(t), s.last().0, s.last().1);
        assert forall|key: Seq<char>| lookup(sorted_from(s), key) == lookup(s, key) by {
            lemma_upsert_lookup(sorted_from(t), s.last().0, s.last().1, key);
            assert(lookup(sorted_from(t), key) == lookup(t, key));
        }
    }
}

/// A sorted list is what `sorted_from` makes of it.
pub proof fn lemma_sorted_from_sorted<T>(s: Seq<(Seq<char>, T)>)
    requires
        strictly_sorted(s),
    ensures
        sorted_from(s) == s,
    decreases s.len(),
{
    if s.len() > 0 {
        let t = s.drop_last();
        assert(strictly_sorted(t)) by {
            assert forall|i: int, j: int| 0 <= i < j < t.len() implies text_before(
                (#[trigger] t[i]).0,
                (#[trigger] t[j]).0,
            ) by {
                assert(t[i] == s[i] && t[j] == s[j]);
            }
        }
        lemma_sorted_from_sorted(t);
        if t.len() > 0 {
            assert(t.last() == s[s.len() - 2]);
            assert(text_before(s[s.len() - 2].0, s[s.len() - 1].0));
        }
        assert(t.push(s.last()) =~= s);
    }
}

/// A map from text keys to values of type `V`.
#[derive(Debug, PartialEq, Eq)]
pub struct TextMap<V: View> {
    entries: Vec<(String, V)>,
}

/// The model of a list of entries: key and value of each by their views.
pub open spec fn entries_model<V: View>(entries: Seq<(String, V)>) -> Seq<(Seq<char>, V::V)> {
    Seq::new(entries.len(), |i: int| (entries[i].0@, entries[i].1@))
}

impl<V: View> View for TextMap<V> {
    type V = Seq<(Seq<char>, V::V)>;

    /// The entries in key order.
    closed spec fn view(&self) -> Seq<(Seq<char>, V::V)> {
        entries_model(self.entries@)
    }
}

impl<V: View> TextMap<V> {
    #[verifier::type_invariant]
    closed spec fn ordered(&self) -> bool {
        strictly_sorted(self@)
    }

    /// The map without entries.
    pub fn new() -> (r: Self)
        ensures
            r@ == Seq::<(Seq<char>, V::V)>::empty(),
    {
        let r = TextMap { entries: Vec::new() };
        assert(r@ =~= Seq::<(Seq<char>, V::V)>::empty());
        r
    }

    /// Number of entries.
    pub fn len(&self) -> (r: usize)
        ensures
            r == self@.len(),
            strictly_sorted(self@),
    {
        proof {
            use_type_invariant(self);
        }
        self.entries.len()
    }

    /// Key of the entry at position `i` in key order.
    pub fn key_at(&self, i: usize) -> (r: &String)
        requires
            i < self@.len(),
        ensures
            r@ == self@[i as int].0,
    {
        &self.entries[i].0
    }

    /// Value of the entry at position `i` in key order.
    pub fn value_at(&self, i: usize) -> (r: &V)
        requires
            i < self@.len(),
        ensures
            r@ == self@[i as int].1,
    {
        &self.entries[i].1
    }

    /// The position at which `key` stands or would stand.
    fn slot(&self, key: &str) -> (p: usize)
        ensures
            is_slot(self@, key@, p as int),
    {
        let mut p: usize = 0;
        while p < self.entries.len() && precedes(self.entries[p].0.as_str(), key)
            invariant
                p <= self.entries.len(),
                forall|i: int| 0 <= i < p ==> text_before((#[trigger] self@[i]).0, key@),
            decreases self.entries.len() - p,
        {
            p += 1;
        }
        proof {
            use_type_invariant(self);
            assert forall|i: int| p <= i < self@.len() implies !text_before((#[trigger] self@[i]).0, key@) by {
                if p < i {
                    assert(text_before(self@[p as int].0, self@[i].0));
                    if text_before(self@[i].0, key@) {
                        lemma_text_before_transitive(self@[p as int].0, self@[i].0, key@);
                    }
                }
            }
        }
        p
    }

    /// The value bound to `key`, if any.
    pub fn get(&self, key: &str) -> (r: Option<&V>)
        ensures
            r matches Some(v) ==> lookup(self@, key@) == Some(v@),
            r is None ==> lookup(self@, key@) is None,
    {
        let p = self.slot(key);
        proof {
            use_type_invariant(self);
        }
        if p < self.entries.len() && same_text(self.entries[p].0.as_str(), key) {
            proof {
                lemma_lookup_at(self@, p as int);
            }
            Some(&self.entries[p].1)
        } else {
            proof {
                lemma_lookup_has_key(self@, key@);
                if has_key(self@, key@) {
                    let i = choose|i: int| 0 <= i < self@.len() && (#[trigger] self@[i]).0 == key@;
                    lemma_text_before_irreflexive(key@);
                    if p < i {
                        assert(text_before(self@[p as int].0, self@[i].0));
                    }
                }
            }
            None
        }
    }

    /// Whether `key` is bound.
    pub fn contains_key(&self, key: &str) -> (r: bool)
        ensures
            r == lookup(self@, key@).is_some(),
    {
        self.get(key).is_some()
    }

    /// Binds `key` to `value`, in place of an earlier binding if there is one.
    pub fn insert(&mut self, key: String, value: V)
        ensures
            final(self)@ == upsert(old(self)@, key@, value@),
    {
        let p = self.slot(key.as_str());
        proof {
            use_type_invariant(&*self);
            lemma_upsert_at_slot(self@, key@, value@, p as int);
            lemma_upsert_sorted(self@, key@, value@);
        }
        let ghost before = self@;
        let replace = p < self.entries.len() && same_text(self.entries[p].0.as_str(), key.as_str());
        let mut taken = TextMap { entries: Vec::new() };
        assert(taken@ =~= Seq::<(Seq<char>, V::V)>::empty());
        core::mem::swap(self, &mut taken);
        let TextMap { entries } = taken;
        let mut entries = entries;
        if replace {
            entries.set(p, (key, value));
        } else {
            entries.insert(p, (key, value));
        }
        proof {
            if replace {
                assert(entries_model(entries@) =~= before.update(p as int, (key@, value@)));
            } else {
                assert(entries_model(entries@) =~= before.insert(p as int, (key@, value@)));
            }
        }
        *self = TextMap { entries };
    }
}

} // verus!
