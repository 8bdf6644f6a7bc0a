//! Tables from names to values.
//!
//! A table is modelled by the list of its pairs of name and value; no name occurs twice.

use crate::text;
use indexmap::IndexMap;
use vstd::prelude::*;
use vstd::string::*;

verus! {

// ---------------------------------------------------------------------------
// The model
// ---------------------------------------------------------------------------
/// The position of the pair with the name `key`, or the number of pairs where there is none.
pub open spec fn key_at<V>(items: Seq<(Seq<char>, V)>, key: Seq<char>) -> int
    decreases items.len(),
{
    if items.len() == 0 || items[0].0 == key {
        0
    } else {
        1 + key_at(items.drop_first(), key)
    }
}

/// Whether some pair has the name `key`.
pub open spec fn has_key<V>(items: Seq<(Seq<char>, V)>, key: Seq<char>) -> bool {
    key_at(items, key) < items.len()
}

/// The value under the name `key`.
pub open spec fn lookup<V>(items: Seq<(Seq<char>, V)>, key: Seq<char>) -> Option<V> {
    if has_key(items, key) {
        Some(items[key_at(items, key)].1)
    } else {
        None
    }
}

/// Whether no name occurs twice.
pub open spec fn unique_keys<V>(items: Seq<(Seq<char>, V)>) -> bool {
    forall|i: int, j: int|
        0 <= i < items.len() && 0 <= j < items.len() && i != j ==> #[trigger] items[i].0
            != #[trigger] items[j].0
}

/// The pairs with `value` under the name `key`: in its place where the name is there, else behind
/// all others.
pub open spec fn put<V>(items: Seq<(Seq<char>, V)>, key: Seq<char>, value: V) -> Seq<
    (Seq<char>, V),
> {
    if has_key(items, key) {
        items.update(key_at(items, key), (key, value))
    } else {
        items.push((key, value))
    }
}

/// The pairs without the one with the name `key`.
pub open spec fn without<V>(items: Seq<(Seq<char>, V)>, key: Seq<char>) -> Seq<(Seq<char>, V)> {
    if has_key(items, key) {
        items.remove(key_at(items, key))
    } else {
        items
    }
}

/// The names of the pairs.
pub open spec fn keys<V>(items: Seq<(Seq<char>, V)>) -> Seq<Seq<char>> {
    items.map_values(|p: (Seq<char>, V)| p.0)
}

/// What `key_at` finds.
pub proof fn lemma_key_at<V>(items: Seq<(Seq<char>, V)>, key: Seq<char>)
    ensures
        0 <= key_at(items, key) <= items.len(),
        key_at(items, key) < items.len() ==> items[key_at(items, key)].0 == key,
        forall|i: int| 0 <= i < key_at(items, key) ==> (#[trigger] items[i]).0 != key,
    decreases items.len(),
{
    if items.len() > 0 && items[0].0 != key {
        let t = items.drop_first();
        lemma_key_at(t, key);
        assert forall|i: int| 0 <= i < key_at(items, key) implies (#[trigger] items[i]).0
            != key by {
            if i > 0 {
                assert(items[i] == t[i - 1]);
            }
        }
    }
}

/// A pair with the name and none before it with that name is what `key_at` finds.
pub proof fn lemma_key_at_is<V>(items: Seq<(Seq<char>, V)>, key: Seq<char>, k: int)
    requires
        0 <= k <= items.len(),
        k < items.len() ==> items[k].0 == key,
        forall|i: int| 0 <= i < k ==> (#[trigger] items[i]).0 != key,
    ensures
        key_at(items, key) == k,
{
    lemma_key_at(items, key);
    let f = key_at(items, key);
    if f < k {
        assert(items[f].0 != key);
    }
    if k < f {
        assert(items[k].0 != key);
    }
}

/// Putting a value in keeps the names unique.
pub proof fn lemma_put_unique<V>(items: Seq<(Seq<char>, V)>, key: Seq<char>, value: V)
    requires
        unique_keys(items),
    ensures
        unique_keys(put(items, key, value)),
{
    lemma_key_at(items, key);
    let w = put(items, key, value);
    assert forall|i: int, j: int|
        0 <= i < w.len() && 0 <= j < w.len() && i != j implies #[trigger] w[i].0
        != #[trigger] w[j].0 by {
        if i < items.len() && j < items.len() {
            assert(items[i].0 != items[j].0);
        }
    }
}

/// Taking a value out keeps the names unique.
pub proof fn lemma_without_unique<V>(items: Seq<(Seq<char>, V)>, key: Seq<char>)
    requires
        unique_keys(items),
    ensures
        unique_keys(without(items, key)),
{
    lemma_key_at(items, key);
    let w = without(items, key);
    let k = key_at(items, key);
    if has_key(items, key) {
        assert forall|i: int, j: int|
            0 <= i < w.len() && 0 <= j < w.len() && i != j implies #[trigger] w[i].0
            != #[trigger] w[j].0 by {
            let a = if i < k {
                i
            } else {
                i + 1
            };
            let b = if j < k {
                j
            } else {
                j + 1
            };
            assert(items[a].0 != items[b].0);
        }
    }
}

/// What was put in is found again, and everything else as before.
pub proof fn law_lookup_after_put<V>(
    items: Seq<(Seq<char>, V)>,
    key: Seq<char>,
    value: V,
    other: Seq<char>,
)
    ensures
        lookup(put(items, key, value), key) == Some(value),
        other != key ==> lookup(put(items, key, value), other) == lookup(items, other),
{
    let w = put(items, key, value);
    lemma_key_at(items, key);
    lemma_key_at(items, other);
    assert forall|i: int| 0 <= i < key_at(items, key) implies (#[trigger] w[i]).0 != key by {
        assert(items[i].0 != key);
    }
    lemma_key_at_is(w, key, key_at(items, key));
    if other != key {
        let k = key_at(items, other);
        if k < items.len() {
            assert forall|i: int| 0 <= i < k implies (#[trigger] w[i]).0 != other by {
                assert(items[i].0 != other);
            }
            lemma_key_at_is(w, other, k);
        } else {
            assert forall|i: int| 0 <= i < w.len() implies (#[trigger] w[i]).0 != other by {
                if i < items.len() {
                    assert(items[i].0 != other);
                }
            }
            lemma_key_at_is(w, other, w.len() as int);
        }
    }
}

/// What was taken out is gone, and everything else is found as before.
pub proof fn law_lookup_after_removal<V>(
    items: Seq<(Seq<char>, V)>,
    key: Seq<char>,
    other: Seq<char>,
)
    requires
        unique_keys(items),
    ensures
        lookup(without(items, key), key) is None,
        other != key ==> lookup(without(items, key), other) == lookup(items, other),
{
    let w = without(items, key);
    let k = key_at(items, key);
    lemma_key_at(items, key);
    lemma_key_at(items, other);
    if has_key(items, key) {
        assert forall|i: int| 0 <= i < w.len() implies (#[trigger] w[i]).0 != key by {
            let a = if i < k {
                i
            } else {
                i + 1
            };
            assert(items[a].0 != items[k].0);
        }
        lemma_key_at_is(w, key, w.len() as int);
        if other != key {
            let o = key_at(items, other);
            if o < items.len() {
                let p = if o < k {
                    o
                } else {
                    o - 1
                };
                assert forall|i: int| 0 <= i < p implies (#[trigger] w[i]).0 != other by {
                    let a = if i < k {
                        i
                    } else {
                        i + 1
                    };
                    assert(items[a].0 != other);
                }
                lemma_key_at_is(w, other, p);
            } else {
                assert forall|i: int| 0 <= i < w.len() implies (#[trigger] w[i]).0 != other by {
                    let a = if i < k {
                        i
                    } else {
                        i + 1
                    };
                    assert(items[a].0 != other);
                }
                lemma_key_at_is(w, other, w.len() as int);
            }
        }
    }
}

// ---------------------------------------------------------------------------
// The ordered map of the indexmap crate
// ---------------------------------------------------------------------------
/// `indexmap::IndexMap`.
#[verifier::external_type_specification]
#[verifier::external_body]
#[verifier::reject_recursive_types(K)]
#[verifier::reject_recursive_types(V)]
#[verifier::reject_recursive_types(S)]
pub struct ExIndexMap<K, V, S>(IndexMap<K, V, S>);

/// The pairs of an index map, in its order.
pub uninterp spec fn index_items(m: IndexMap<String, usize>) -> Seq<(Seq<char>, usize)>;

/// `IndexMap::new` makes a map without pairs.
#[verifier::external_body]
fn index_new() -> (r: IndexMap<String, usize>)
    ensures
        index_items(r) == Seq::<(Seq<char>, usize)>::empty(),
{
    IndexMap::new()
}

/// `IndexMap::get` finds the value under a name.
#[verifier::external_body]
fn index_get(m: &IndexMap<String, usize>, key: &str) -> (r: Option<usize>)
    ensures
        r == lookup(index_items(*m), key@),
{
    m.get(key).copied()
}

/// `IndexMap::get_index` gives the pair at a position; this is its name.
#[verifier::external_body]
fn index_key(m: &IndexMap<String, usize>, i: usize) -> (r: Option<String>)
    ensures
        match r {
            Some(k) => i < index_items(*m).len() && k@ == index_items(*m)[i as int].0,
            None => i >= index_items(*m).len(),
        },
{
    m.get_index(i).map(|p| p.0.clone())
}

/// `IndexMap::insert` puts a value under a name: in its place where the name is there, else behind
/// all others. It gives back the value that was there.
#[verifier::external_body]
fn index_insert(m: &mut IndexMap<String, usize>, key: String, value: usize) -> (r: Option<usize>)
    ensures
        index_items(*final(m)) == put(index_items(*old(m)), key@, value),
        r == lookup(index_items(*old(m)), key@),
{
    m.insert(key, value)
}

/// A table that keeps its names in the order in which they came.
pub struct OrderedTable<V> {
    index: IndexMap<String, usize>,
    values: Vec<V>,
}

impl<V> View for OrderedTable<V> {
    type V = Seq<(Seq<char>, V)>;

    closed spec fn view(&self) -> Seq<(Seq<char>, V)> {
        Seq::new(self.values@.len(), |i: int| (index_items(self.index)[i].0, self.values@[i]))
    }
}

impl<V> OrderedTable<V> {
    /// The index names each value by its position, and no name occurs twice.
    pub closed spec fn wf(&self) -> bool {
        &&& index_items(self.index).len() == self.values@.len()
        &&& forall|i: int|
            0 <= i < self.values@.len() ==> (#[trigger] index_items(self.index)[i]).1 == i
        &&& unique_keys(index_items(self.index))
    }

    proof fn lemma_same_keys(&self, key: Seq<char>)
        requires
            self.wf(),
        ensures
            key_at(self@, key) == key_at(index_items(self.index), key),
            unique_keys(self@),
            self@.len() == self.values@.len(),
    {
        let items = index_items(self.index);
        lemma_key_at(items, key);
        let k = key_at(items, key);
        assert forall|i: int| 0 <= i < k implies (#[trigger] self@[i]).0 != key by {
            assert(items[i].0 != key);
        }
        lemma_key_at_is(self@, key, k);
        assert forall|i: int, j: int|
            0 <= i < self@.len() && 0 <= j < self@.len() && i != j implies #[trigger] self@[i].0
            != #[trigger] self@[j].0 by {
            assert(items[i].0 != items[j].0);
        }
    }

    /// A table without names.
    pub fn new() -> (r: Self)
        ensures
            r@ == Seq::<(Seq<char>, V)>::empty(),
            r.wf(),
    {
        let r = OrderedTable { index: index_new(), values: Vec::new() };
        assert(r@ =~= Seq::empty());
        r
    }

    /// The value under the name `key`.
    pub fn get(&self, key: &str) -> (r: Option<&V>)
        requires
            self.wf(),
        ensures
            match r {
                Some(v) => lookup(self@, key@) == Some(*v),
                None => lookup(self@, key@) is None,
            },
    {
        proof {
            self.lemma_same_keys(key@);
            lemma_key_at(index_items(self.index), key@);
        }
        match index_get(&self.index, key) {
            Some(i) => Some(&self.values[i]),
            None => None,
        }
    }

    /// The position of the name `key`.
    pub fn position(&self, key: &str) -> (r: Option<usize>)
        requires
            self.wf(),
        ensures
            match r {
                Some(i) => has_key(self@, key@) && i == key_at(self@, key@),
                None => !has_key(self@, key@),
            },
    {
        proof {
            self.lemma_same_keys(key@);
            lemma_key_at(index_items(self.index), key@);
        }
        index_get(&self.index, key)
    }

    /// Puts `value` under the name `key`.
    pub fn insert(&mut self, key: String, value: V)
        requires
            old(self).wf(),
        ensures
            final(self)@ == put(old(self)@, key@, value),
            final(self).wf(),
    {
        let ghost before = self@;
        let ghost items = index_items(self.index);
        proof {
            self.lemma_same_keys(key@);
            lemma_key_at(items, key@);
            lemma_put_unique(items, key@, self.values@.len() as usize);
        }
        match index_get(&self.index, key.as_str()) {
            Some(i) => {
                self.values.set(i, value);
                assert(self@ =~= put(before, key@, value));
            },
            None => {
                let n: usize = self.values.len();
                let ghost k = key@;
                index_insert(&mut self.index, key, n);
                self.values.push(value);
                assert(self@ =~= put(before, k, value));
            },
        }
    }

    /// How many names there are.
    pub fn len(&self) -> (r: usize)
        requires
            self.wf(),
        ensures
            r == self@.len(),
    {
        self.values.len()
    }

    /// The name at the position `i`.
    pub fn key(&self, i: usize) -> (r: String)
        requires
            self.wf(),
            i < self@.len(),
        ensures
            r@ == self@[i as int].0,
    {
        match index_key(&self.index, i) {
            Some(k) => k,
            None => String::new(),
        }
    }

    /// The value at the position `i`.
    pub fn value(&self, i: usize) -> (r: &V)
        requires
            self.wf(),
            i < self@.len(),
        ensures
            *r == self@[i as int].1,
    {
        &self.values[i]
    }

    /// Replaces the value at the position `i`.
    pub fn set_value(&mut self, i: usize, value: V)
        requires
            old(self).wf(),
            i < old(self)@.len(),
        ensures
            final(self)@ == old(self)@.update(i as int, (old(self)@[i as int].0, value)),
            final(self).wf(),
    {
        let ghost before = self@;
        self.values.set(i, value);
        assert(self@ =~= before.update(i as int, (before[i as int].0, value)));
    }

    /// All names, in order.
    pub fn names(&self) -> (r: Vec<String>)
        requires
            self.wf(),
        ensures
            text::views(r@) == keys(self@),
    {
        let mut out: Vec<String> = Vec::new();
        let mut i: usize = 0;
        while i < self.values.len()
            invariant
                i <= self.values@.len(),
                self.wf(),
                self@.len() == self.values@.len(),
                out@.len() == i,
                forall|k: int| 0 <= k < i ==> (#[trigger] out@[k])@ == self@[k].0,
            decreases self.values@.len() - i,
        {
            out.push(self.key(i));
            i += 1;
        }
        assert(text::views(out@) =~= keys(self@));
        out
    }
}

// ---------------------------------------------------------------------------
// Plain tables
// ---------------------------------------------------------------------------
/// A table from names to values.
pub struct Table<V> {
    entries: Vec<(String, V)>,
}

impl<V> View for Table<V> {
    type V = Seq<(Seq<char>, V)>;

    closed spec fn view(&self) -> Seq<(Seq<char>, V)> {
        self.entries@.map_values(|p: (String, V)| (p.0@, p.1))
    }
}

impl<V> Table<V> {
    /// No name occurs twice.
    pub open spec fn wf(&self) -> bool {
        unique_keys(self@)
    }

    /// A table without names.
    pub fn new() -> (r: Self)
        ensures
            r@ == Seq::<(Seq<char>, V)>::empty(),
            r.wf(),
    {
        let r = Table { entries: Vec::new() };
        assert(r@ =~= Seq::empty());
        r
    }

    /// The position of the name `key`.
    pub fn position(&self, key: &str) -> (r: Option<usize>)
        ensures
            match r {
                Some(i) => has_key(self@, key@) && i == key_at(self@, key@),
                None => !has_key(self@, key@),
            },
    {
        let mut i: usize = 0;
        while i < self.entries.len()
            invariant
                i <= self.entries@.len(),
                forall|k: int| 0 <= k < i ==> (#[trigger] self@[k]).0 != key@,
            decreases self.entries@.len() - i,
        {
            assert(self@[i as int].0 == self.entries@[i as int].0@);
            if text::same_text(self.entries[i].0.as_str(), key) {
                proof {
                    lemma_key_at_is(self@, key@, i as int);
                }
                return Some(i);
            }
            i += 1;
        }
        proof {
            lemma_key_at_is(self@, key@, self@.len() as int);
        }
        None
    }

    /// The value under the name `key`.
    pub fn get(&self, key: &str) -> (r: Option<&V>)
        ensures
            match r {
                Some(v) => lookup(self@, key@) == Some(*v),
                None => lookup(self@, key@) is None,
            },
    {
        match self.position(key) {
            Some(i) => {
                assert(self@[i as int].1 == self.entries@[i as int].1);
                Some(&self.entries[i].1)
            },
            None => None,
        }
    }

    /// Puts `value` under the name `key`.
    pub fn insert(&mut self, key: String, value: V)
        requires
            old(self).wf(),
        ensures
            final(self)@ == put(old(self)@, key@, value),
            final(self).wf(),
    {
        let ghost before = self@;
        let ghost k = key@;
        proof {
            lemma_put_unique(before, k, value);
        }
        match self.position(key.as_str()) {
            Some(i) => {
                self.entries.set(i, (key, value));
            },
            None => {
                self.entries.push((key, value));
            },
        }
        assert(self@ =~= put(before, k, value));
    }

    /// Takes the value under the name `key` out.
    pub fn remove(&mut self, key: &str) -> (r: Option<V>)
        requires
            old(self).wf(),
        ensures
            final(self)@ == without(old(self)@, key@),
            r == lookup(old(self)@, key@),
            final(self).wf(),
    {
        let ghost before = self@;
        proof {
            lemma_without_unique(before, key@);
        }
        match self.position(key) {
            Some(i) => {
                assert(before[i as int].1 == self.entries@[i as int].1);
                let pair = self.entries.remove(i);
                assert(self@ =~= without(before, key@));
                Some(pair.1)
            },
            None => None,
        }
    }

    /// How many names there are.
    pub fn len(&self) -> (r: usize)
        ensures
            r == self@.len(),
    {
        self.entries.len()
    }

    /// Whether there are no names.
    pub fn is_empty(&self) -> (r: bool)
        ensures
            r == (self@.len() == 0),
    {
        self.entries.len() == 0
    }

    /// The name at the position `i`.
    pub fn key(&self, i: usize) -> (r: &str)
        requires
            i < self@.len(),
        ensures
            r@ == self@[i as int].0,
    {
        self.entries[i].0.as_str()
    }

    /// The value at the position `i`.
    pub fn value(&self, i: usize) -> (r: &V)
        requires
            i < self@.len(),
        ensures
            *r == self@[i as int].1,
    {
        &self.entries[i].1
    }

    /// All names.
    pub fn names(&self) -> (r: Vec<String>)
        ensures
            text::views(r@) == keys(self@),
    {
        let mut out: Vec<String> = Vec::new();
        let mut i: usize = 0;
        while i < self.entries.len()
            invariant
                i <= self.entries@.len(),
                self@.len() == self.entries@.len(),
                out@.len() == i,
                forall|k: int| 0 <= k < i ==> (#[trigger] out@[k])@ == self@[k].0,
            decreases self.entries@.len() - i,
        {
            out.push(self.key(i).to_string());
            i += 1;
        }
        assert(text::views(out@) =~= keys(self@));
        out
    }
}

/// A value is found under its key, wherever that stands, and only there.
pub proof fn law_values_are_found_under_their_keys<V>(
    items: Seq<(Seq<char>, V)>,
    key: Seq<char>,
    k: int,
)
    requires
        unique_keys(items),
    ensures
        0 <= k < items.len() && items[k].0 == key ==> lookup(items, key) == Some(items[k].1)
            && has_key(items, key),
        lookup(items, key) is Some ==> exists|i: int|
            0 <= i < items.len() && (#[trigger] items[i]).0 == key && lookup(items, key) == Some(
                items[i].1,
            ),
        has_key(items, key) <==> lookup(items, key) is Some,
        keys(items).len() == items.len(),
        0 <= k < items.len() ==> keys(items)[k] == items[k].0,
{
    lemma_key_at(items, key);
    if has_key(items, key) {
        let i = key_at(items, key);
        assert(items[i].0 == key);
    }
    if 0 <= k < items.len() && items[k].0 == key {
        let i = key_at(items, key);
        if i < items.len() && i != k {
            assert(items[i].0 != items[k].0);
        }
    }
}

/// A new value takes the place of the old one under its key; under a new key it comes last. The order
/// of everything else stays.
pub proof fn law_values_keep_their_places<V>(
    items: Seq<(Seq<char>, V)>,
    key: Seq<char>,
    value: V,
    k: int,
)
    requires
        0 <= k < items.len(),
    ensures
        has_key(items, key) ==> put(items, key, value).len() == items.len(),
        !has_key(items, key) ==> put(items, key, value) == items.push((key, value)),
        put(items, key, value)[k].0 == items[k].0,
        items[k].0 != key ==> put(items, key, value)[k] == items[k],
        !has_key(items, key) ==> without(items, key) == items,
        has_key(items, key) ==> without(items, key).len() == items.len() - 1,
{
    lemma_key_at(items, key);
}

} // verus!
