//! A map from texts to values that hands its entries out in the order of the texts.

use vstd::prelude::*;

use crate::text::{
    chars_of, str_lt, string_of, text_lt, text_lt_irreflexive, text_lt_total, text_lt_transitive,
    texts,
};

verus! {

/// Values by text, kept in the order of the texts, each text once.
#[derive(Debug)]
pub struct TextMap<V> {
    entries: Vec<(String, V)>,
}

/// Whether the texts stand in their order, each once.
pub open spec fn strictly_sorted(keys: Seq<Seq<char>>) -> bool {
    forall|i: int, j: int| 0 <= i < j < keys.len() ==> text_lt(#[trigger] keys[i], #[trigger] keys[j])
}

/// Texts in strict order occur once each.
pub proof fn sorted_texts_are_distinct(keys: Seq<Seq<char>>, i: int, j: int)
    requires
        strictly_sorted(keys),
        0 <= i < keys.len(),
        0 <= j < keys.len(),
        keys[i] == keys[j],
    ensures
        i == j,
{
    text_lt_irreflexive(keys[i]);
}

/// Two strictly ordered sequences of the same texts are the same.
pub proof fn sorted_texts_are_unique(a: Seq<Seq<char>>, b: Seq<Seq<char>>)
    requires
        strictly_sorted(a),
        strictly_sorted(b),
        forall|k: Seq<char>| a.contains(k) <==> b.contains(k),
    ensures
        a == b,
    decreases a.len(),
{
    if a.len() == 0 {
        if b.len() > 0 {
            assert(b.contains(b[0]));
        }
        assert(a =~= b);
    } else {
        assert(a.contains(a[a.len() - 1]));
        assert(b.len() > 0);
        let x = a.last();
        let y = b.last();
        assert(b.contains(x));
        assert(b.contains(y));
        assert(a.contains(y));
        let i = choose|i: int| 0 <= i < b.len() && b[i] == x;
        let j = choose|j: int| 0 <= j < a.len() && a[j] == y;
        if x != y {
            assert(text_lt(b[i], b[b.len() - 1]));
            assert(text_lt(a[j], a[a.len() - 1]));
            text_lt_transitive(x, y, x);
            text_lt_irreflexive(x);
        }
        let a0 = a.drop_last();
        let b0 = b.drop_last();
        assert forall|k: Seq<char>| a0.contains(k) <==> b0.contains(k) by {
            if a0.contains(k) {
                let m = choose|m: int| 0 <= m < a0.len() && a0[m] == k;
                assert(a[m] == k);
                assert(a.contains(k));
                let n = choose|n: int| 0 <= n < b.len() && b[n] == k;
                if n == b.len() - 1 {
                    sorted_texts_are_distinct(a, m, a.len() - 1);
                }
                assert(b0[n] == k);
            }
            if b0.contains(k) {
                let m = choose|m: int| 0 <= m < b0.len() && b0[m] == k;
                assert(b[m] == k);
                assert(b.contains(k));
                let n = choose|n: int| 0 <= n < a.len() && a[n] == k;
                if n == a.len() - 1 {
                    sorted_texts_are_distinct(b, m, b.len() - 1);
                }
                assert(a0[n] == k);
            }
        }
        assert(strictly_sorted(a0)) by {
            assert forall|p: int, q: int| 0 <= p < q < a0.len() implies text_lt(
                #[trigger] a0[p],
                #[trigger] a0[q],
            ) by {
                assert(text_lt(a[p], a[q]));
            }
        }
        assert(strictly_sorted(b0)) by {
            assert forall|p: int, q: int| 0 <= p < q < b0.len() implies text_lt(
                #[trigger] b0[p],
                #[trigger] b0[q],
            ) by {
                assert(text_lt(b[p], b[q]));
            }
        }
        sorted_texts_are_unique(a0, b0);
        assert(a =~= a0.push(x));
        assert(b =~= b0.push(y));
    }
}

impl<V> TextMap<V> {
    /// The texts, in their order.
    pub closed spec fn keys(&self) -> Seq<Seq<char>> {
        self.entries@.map_values(|e: (String, V)| e.0@)
    }

    /// The values, in the order of their texts.
    pub closed spec fn values(&self) -> Seq<V> {
        self.entries@.map_values(|e: (String, V)| e.1)
    }

    /// The texts stand in their order, each with one value.
    pub open spec fn wf(&self) -> bool {
        strictly_sorted(self.keys()) && self.keys().len() == self.values().len()
    }

    /// Whether a text has a value.
    pub open spec fn has(&self, key: Seq<char>) -> bool {
        self.keys().contains(key)
    }

    /// The value of a text that has one.
    pub open spec fn at(&self, key: Seq<char>) -> V {
        self.values()[self.keys().index_of(key)]
    }

    /// The value of a text, where it has one.
    pub open spec fn lookup(&self, key: Seq<char>) -> Option<V> {
        if self.has(key) {
            Some(self.at(key))
        } else {
            None
        }
    }

    /// A text with a value has that of its place.
    pub proof fn value_at(&self, i: int)
        requires
            self.wf(),
            0 <= i < self.keys().len(),
        ensures
            self.has(self.keys()[i]),
            self.at(self.keys()[i]) == self.values()[i],
    {
        let k = self.keys()[i];
        assert(self.keys().contains(k));
        let j = self.keys().index_of(k);
        sorted_texts_are_distinct(self.keys(), i, j);
    }

    /// A map without entries.
    pub fn new() -> (r: Self)
        ensures
            r.wf(),
            r.keys() == Seq::<Seq<char>>::empty(),
            r.values() == Seq::<V>::empty(),
            forall|k: Seq<char>| !#[trigger] r.has(k),
    {
        let entries: Vec<(String, V)> = Vec::new();
        let r = TextMap { entries };
        assert(r.keys() =~= Seq::<Seq<char>>::empty());
        assert(r.values() =~= Seq::<V>::empty());
        r
    }

    /// The number of entries.
    pub fn len(&self) -> (r: usize)
        ensures
            r == self.keys().len(),
            r == self.values().len(),
    {
        self.entries.len()
    }

    /// The text of the entry at a place.
    pub fn key_at(&self, i: usize) -> (r: &str)
        requires
            i < self.keys().len(),
        ensures
            r@ == self.keys()[i as int],
    {
        self.entries[i].0.as_str()
    }

    /// The value of the entry at a place.
    pub fn entry_at(&self, i: usize) -> (r: &V)
        requires
            i < self.keys().len(),
        ensures
            *r == self.values()[i as int],
    {
        &self.entries[i].1
    }

    fn position(&self, key: &str) -> (r: (bool, usize))
        requires
            self.wf(),
        ensures
            r.1 <= self.keys().len(),
            r.0 ==> r.1 < self.keys().len() && self.keys()[r.1 as int] == key@,
            !r.0 ==> !self.has(key@) && (forall|i: int|
                0 <= i < r.1 ==> text_lt(#[trigger] self.keys()[i], key@)) && (forall|i: int|
                r.1 <= i < self.keys().len() ==> text_lt(key@, #[trigger] self.keys()[i])),
    {
        let mut lo: usize = 0;
        let mut hi: usize = self.entries.len();
        while lo < hi
            invariant
                lo <= hi <= self.entries.len(),
                self.keys().len() == self.entries.len(),
                self.wf(),
                forall|i: int| 0 <= i < lo ==> text_lt(#[trigger] self.keys()[i], key@),
                forall|i: int|
                    hi <= i < self.keys().len() ==> text_lt(key@, #[trigger] self.keys()[i]),
            decreases hi - lo,
        {
            let mid: usize = lo + (hi - lo) / 2;
            let here = self.key_at(mid);
            if str_lt(here, key) {
                assert forall|i: int| 0 <= i < mid + 1 implies text_lt(
                    #[trigger] self.keys()[i],
                    key@,
                ) by {
                    if i < mid {
                        assert(text_lt(self.keys()[i], self.keys()[mid as int]));
                        text_lt_transitive(self.keys()[i], self.keys()[mid as int], key@);
                    }
                }
                lo = mid + 1;
            } else if str_lt(key, here) {
                assert forall|i: int| mid <= i < self.keys().len() implies text_lt(
                    key@,
                    #[trigger] self.keys()[i],
                ) by {
                    if mid < i {
                        assert(text_lt(self.keys()[mid as int], self.keys()[i]));
                        text_lt_transitive(key@, self.keys()[mid as int], self.keys()[i]);
                    }
                }
                hi = mid;
            } else {
                proof {
                    text_lt_total(here@, key@);
                }
                return (true, mid);
            }
        }
        assert(!self.has(key@)) by {
            if self.has(key@) {
                let i = self.keys().index_of(key@);
                text_lt_irreflexive(key@);
            }
        }
        (false, lo)
    }

    /// The value of a text, where it has one.
    pub fn get(&self, key: &str) -> (r: Option<&V>)
        requires
            self.wf(),
        ensures
            match r {
                Some(v) => self.has(key@) && *v == self.at(key@),
                None => !self.has(key@),
            },
    {
        let (found, i) = self.position(key);
        if found {
            proof {
                self.value_at(i as int);
            }
            Some(&self.entries[i].1)
        } else {
            None
        }
    }

    /// Whether a text has a value.
    pub fn contains(&self, key: &str) -> (r: bool)
        requires
            self.wf(),
        ensures
            r == self.has(key@),
    {
        self.get(key).is_some()
    }

    /// Gives a text a value, in place of the one it had.
    pub fn insert(&mut self, key: String, value: V)
        requires
            old(self).wf(),
        ensures
            final(self).wf(),
            final(self).has(key@),
            final(self).at(key@) == value,
            forall|k: Seq<char>| k != key@ ==> (#[trigger] final(self).has(k) <==> old(self).has(k)),
            forall|k: Seq<char>|
                k != key@ && old(self).has(k) ==> #[trigger] final(self).at(k) == old(self).at(k),
            old(self).has(key@) ==> final(self).keys() == old(self).keys(),
    {
        let (found, at) = self.position(key.as_str());
        let ghost before = *self;
        let ghost k0 = self.keys();
        if found {
            self.entries.set(at, (key, value));
            assert(self.keys() =~= k0);
            assert(self.values() =~= before.values().update(at as int, value));
            proof {
                self.value_at(at as int);
                before.value_at(at as int);
                assert forall|k: Seq<char>| k != key@ && before.has(k) implies #[trigger] self.at(k)
                    == before.at(k) by {
                    let i = k0.index_of(k);
                    assert(k0[i] == k);
                    self.value_at(i);
                    before.value_at(i);
                }
            }
        } else {
            self.entries.insert(at, (key, value));
            assert(self.keys() =~= k0.insert(at as int, key@));
            assert(self.values() =~= before.values().insert(at as int, value));
            proof {
                assert forall|i: int, j: int| 0 <= i < j < self.keys().len() implies text_lt(
                    #[trigger] self.keys()[i],
                    #[trigger] self.keys()[j],
                ) by {
                    if i < at && j < at {
                        assert(text_lt(k0[i], k0[j]));
                    } else if i < at && j == at {
                    } else if i < at && j > at {
                        assert(text_lt(k0[i], k0[j - 1]));
                    } else if i == at {
                        assert(text_lt(key@, k0[j - 1]));
                    } else {
                        assert(text_lt(k0[i - 1], k0[j - 1]));
                    }
                }
                self.value_at(at as int);
                assert forall|k: Seq<char>| k != key@ implies (#[trigger] self.has(k)
                    <==> before.has(k)) by {
                    if before.has(k) {
                        let i = k0.index_of(k);
                        assert(k0[i] == k);
                        if i < at {
                            assert(self.keys()[i] == k);
                        } else {
                            assert(self.keys()[i + 1] == k);
                        }
                    }
                    if self.has(k) {
                        let i = self.keys().index_of(k);
                        assert(self.keys()[i] == k);
                        if i < at {
                            assert(k0[i] == k);
                        } else {
                            assert(k0[i - 1] == k);
                        }
                    }
                }
                assert forall|k: Seq<char>| k != key@ && before.has(k) implies #[trigger] self.at(k)
                    == before.at(k) by {
                    let i = k0.index_of(k);
                    assert(k0[i] == k);
                    before.value_at(i);
                    if i < at {
                        self.value_at(i);
                    } else {
                        self.value_at(i + 1);
                    }
                }
            }
        }
    }
}

/// Texts in their order, each once.
#[derive(Debug)]
pub struct TextSet {
    items: TextMap<()>,
}

impl TextSet {
    /// The texts, in their order.
    pub closed spec fn elems(&self) -> Seq<Seq<char>> {
        self.items.keys()
    }

    /// The texts stand in their order, each once.
    pub closed spec fn wf(&self) -> bool {
        self.items.wf()
    }

    /// Whether a text belongs to the set.
    pub open spec fn has(&self, key: Seq<char>) -> bool {
        self.elems().contains(key)
    }

    /// The texts of a set are in strict order.
    pub proof fn elems_are_sorted(&self)
        requires
            self.wf(),
        ensures
            strictly_sorted(self.elems()),
    {
    }

    /// A set without texts.
    pub fn new() -> (r: Self)
        ensures
            r.wf(),
            r.elems() == Seq::<Seq<char>>::empty(),
    {
        TextSet { items: TextMap::new() }
    }

    /// Puts a text into the set.
    pub fn insert(&mut self, item: String)
        requires
            old(self).wf(),
        ensures
            final(self).wf(),
            forall|k: Seq<char>| #[trigger] final(self).has(k) <==> (old(self).has(k) || k == item@),
    {
        let ghost before = self.items;
        self.items.insert(item, ());
        assert forall|k: Seq<char>| #[trigger] self.has(k) <==> (old(self).has(k) || k == item@) by {
            assert(self.has(k) == self.items.has(k));
            assert(old(self).has(k) == before.has(k));
        }
    }

    /// Whether a text belongs to the set.
    pub fn contains(&self, item: &str) -> (r: bool)
        requires
            self.wf(),
        ensures
            r == self.has(item@),
    {
        self.items.contains(item)
    }

    /// The number of texts.
    pub fn len(&self) -> (r: usize)
        ensures
            r == self.elems().len(),
    {
        self.items.len()
    }

    /// The text at a place.
    pub fn text_at(&self, i: usize) -> (r: &str)
        requires
            i < self.elems().len(),
        ensures
            r@ == self.elems()[i as int],
    {
        self.items.key_at(i)
    }

    /// The texts, in their order.
    pub fn to_vec(&self) -> (r: Vec<String>)
        ensures
            texts(r@) == self.elems(),
    {
        let mut out: Vec<String> = Vec::new();
        let mut i: usize = 0;
        while i < self.len()
            invariant
                i <= self.elems().len(),
                texts(out@) =~= self.elems().take(i as int),
            decreases self.elems().len() - i,
        {
            let ghost before = out@;
            let item = string_of(chars_of(self.text_at(i)).as_slice());
            out.push(item);
            assert(texts(out@) =~= texts(before).push(item@));
            i = i + 1;
        }
        assert(self.elems().take(i as int) =~= self.elems());
        out
    }
}

} // verus!
