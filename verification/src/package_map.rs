//! Maps from package names to values and sets of package names, kept in the order
//! of names so that walking them is reproducible.

use crate::text::{
    lemma_precedes_transitive, lemma_precedes_trichotomy, precedes, rank_chars, to_chars, Rank,
};
use vstd::prelude::*;

verus! {

/// The names of `entries` come in strictly ascending order.
pub open spec fn ascending<X>(entries: Seq<(Seq<char>, X)>) -> bool {
    forall|i: int, j: int|
        #![trigger entries[i], entries[j]]
        0 <= i < j < entries.len() ==> precedes(entries[i].0, entries[j].0)
}

/// Whether some entry has the name `name`.
pub open spec fn has_key<X>(entries: Seq<(Seq<char>, X)>, name: Seq<char>) -> bool {
    exists|i: int| 0 <= i < entries.len() && (#[trigger] entries[i]).0 == name
}

/// The index of an entry named `name`.
pub open spec fn index_of_key<X>(entries: Seq<(Seq<char>, X)>, name: Seq<char>) -> int {
    choose|i: int| 0 <= i < entries.len() && (#[trigger] entries[i]).0 == name
}

/// The map that a sequence of entries stands for.
pub open spec fn to_map<X>(entries: Seq<(Seq<char>, X)>) -> Map<Seq<char>, X> {
    Map::new(
        |name: Seq<char>| has_key(entries, name),
        |name: Seq<char>| entries[index_of_key(entries, name)].1,
    )
}

/// The names of a sequence of entries, in its order.
pub open spec fn names_of<X>(entries: Seq<(Seq<char>, X)>) -> Seq<Seq<char>> {
    Seq::new(entries.len(), |i: int| entries[i].0)
}

/// In an ascending sequence no name occurs twice.
pub proof fn lemma_key_unique<X>(entries: Seq<(Seq<char>, X)>, i: int, j: int)
    requires
        ascending(entries),
        0 <= i < entries.len(),
        0 <= j < entries.len(),
        entries[i].0 == entries[j].0,
    ensures
        i == j,
{
    lemma_precedes_trichotomy(entries[i].0, entries[j].0);
}

/// The map of an ascending sequence holds each entry under its name.
pub proof fn lemma_to_map_at<X>(entries: Seq<(Seq<char>, X)>, i: int)
    requires
        ascending(entries),
        0 <= i < entries.len(),
    ensures
        to_map(entries).contains_key(entries[i].0),
        to_map(entries)[entries[i].0] == entries[i].1,
{
    let name = entries[i].0;
    assert(has_key(entries, name));
    lemma_key_unique(entries, i, index_of_key(entries, name));
}

/// Where `name` lies strictly between the entries before `at` and those from `at`
/// on, no entry has it.
pub proof fn lemma_absent<X>(entries: Seq<(Seq<char>, X)>, at: int, name: Seq<char>)
    requires
        0 <= at <= entries.len(),
        forall|j: int| 0 <= j < at ==> precedes((#[trigger] entries[j]).0, name),
        forall|j: int| at <= j < entries.len() ==> precedes(name, (#[trigger] entries[j]).0),
    ensures
        !has_key(entries, name),
        !to_map(entries).contains_key(name),
{
    if has_key(entries, name) {
        let i = index_of_key(entries, name);
        lemma_precedes_trichotomy(entries[i].0, name);
    }
}

/// Putting a new name at its place keeps the order and inserts into the map.
pub proof fn lemma_insert_at<X>(entries: Seq<(Seq<char>, X)>, at: int, name: Seq<char>, value: X)
    requires
        ascending(entries),
        0 <= at <= entries.len(),
        forall|j: int| 0 <= j < at ==> precedes((#[trigger] entries[j]).0, name),
        forall|j: int| at <= j < entries.len() ==> precedes(name, (#[trigger] entries[j]).0),
    ensures
        ascending(entries.insert(at, (name, value))),
        to_map(entries.insert(at, (name, value))) == to_map(entries).insert(name, value),
{
    let after = entries.insert(at, (name, value));
    assert forall|i: int, j: int| 0 <= i < j < after.len() implies precedes(
        (#[trigger] after[i]).0,
        (#[trigger] after[j]).0,
    ) by {
        let oi = if i < at { i } else { i - 1 };
        let oj = if j < at { j } else { j - 1 };
        if i != at && j != at {
            assert(after[i] == entries[oi]);
            assert(after[j] == entries[oj]);
        } else if i == at {
            assert(after[j] == entries[oj]);
        } else {
            assert(after[i] == entries[oi]);
        }
    }
    assert(after[at] == (name, value));
    lemma_to_map_at(after, at);
    assert forall|k: Seq<char>| to_map(after).contains_key(k) <==> (k == name || to_map(
        entries,
    ).contains_key(k)) by {
        if has_key(after, k) {
            let i = index_of_key(after, k);
            if i != at {
                let oi = if i < at { i } else { i - 1 };
                assert(after[i] == entries[oi]);
                assert(has_key(entries, k));
            }
        }
        if has_key(entries, k) {
            let i = index_of_key(entries, k);
            let ni = if i < at { i } else { i + 1 };
            assert(after[ni] == entries[i]);
            assert(has_key(after, k));
        }
    }
    assert forall|k: Seq<char>| to_map(entries).contains_key(k) && k != name implies to_map(
        after,
    )[k] == to_map(entries)[k] by {
        let i = index_of_key(entries, k);
        let ni = if i < at { i } else { i + 1 };
        assert(after[ni] == entries[i]);
        lemma_to_map_at(after, ni);
    }
    assert(to_map(after) =~= to_map(entries).insert(name, value));
}

/// Giving the entry at `at` a new value keeps the order and inserts into the map.
pub proof fn lemma_update_at<X>(entries: Seq<(Seq<char>, X)>, at: int, value: X)
    requires
        ascending(entries),
        0 <= at < entries.len(),
    ensures
        ascending(entries.update(at, (entries[at].0, value))),
        to_map(entries.update(at, (entries[at].0, value))) == to_map(entries).insert(
            entries[at].0,
            value,
        ),
{
    let name = entries[at].0;
    let after = entries.update(at, (name, value));
    assert forall|i: int, j: int| 0 <= i < j < after.len() implies precedes(
        (#[trigger] after[i]).0,
        (#[trigger] after[j]).0,
    ) by {
        assert(after[i].0 == entries[i].0);
        assert(after[j].0 == entries[j].0);
    }
    lemma_to_map_at(after, at);
    assert forall|k: Seq<char>| to_map(after).contains_key(k) <==> (k == name || to_map(
        entries,
    ).contains_key(k)) by {
        if has_key(after, k) {
            let i = index_of_key(after, k);
            assert(after[i].0 == entries[i].0);
            assert(has_key(entries, k));
        }
        if has_key(entries, k) {
            let i = index_of_key(entries, k);
            assert(after[i].0 == entries[i].0);
            assert(has_key(after, k));
        }
        assert(has_key(entries, name));
    }
    assert forall|k: Seq<char>| to_map(entries).contains_key(k) && k != name implies to_map(
        after,
    )[k] == to_map(entries)[k] by {
        let i = index_of_key(entries, k);
        assert(after[i] == entries[i]);
        lemma_to_map_at(after, i);
    }
    assert(to_map(after) =~= to_map(entries).insert(name, value));
}

/// Taking the entry at `at` out keeps the order and removes its name from the map.
pub proof fn lemma_remove_at<X>(entries: Seq<(Seq<char>, X)>, at: int)
    requires
        ascending(entries),
        0 <= at < entries.len(),
    ensures
        ascending(entries.remove(at)),
        to_map(entries.remove(at)) == to_map(entries).remove(entries[at].0),
{
    let name = entries[at].0;
    let after = entries.remove(at);
    assert forall|i: int, j: int| 0 <= i < j < after.len() implies precedes(
        (#[trigger] after[i]).0,
        (#[trigger] after[j]).0,
    ) by {
        let oi = if i < at { i } else { i + 1 };
        let oj = if j < at { j } else { j + 1 };
        assert(after[i] == entries[oi]);
        assert(after[j] == entries[oj]);
    }
    assert forall|k: Seq<char>| to_map(after).contains_key(k) <==> (k != name && to_map(
        entries,
    ).contains_key(k)) by {
        if has_key(after, k) {
            let i = index_of_key(after, k);
            let oi = if i < at { i } else { i + 1 };
            assert(after[i] == entries[oi]);
            assert(has_key(entries, k));
            if k == name {
                lemma_key_unique(entries, oi, at);
            }
        }
        if has_key(entries, k) && k != name {
            let i = index_of_key(entries, k);
            let ni = if i < at { i } else { i - 1 };
            assert(after[ni] == entries[i]);
            assert(has_key(after, k));
        }
    }
    assert forall|k: Seq<char>| to_map(entries).contains_key(k) && k != name implies to_map(
        after,
    )[k] == to_map(entries)[k] by {
        let i = index_of_key(entries, k);
        let ni = if i < at { i } else { i - 1 };
        assert(after[ni] == entries[i]);
        lemma_to_map_at(after, ni);
    }
    assert(to_map(after) =~= to_map(entries).remove(name));
}

/// The entries of a map in the order of their names.
pub open spec fn entries_of<X>(map: Map<Seq<char>, X>) -> Seq<(Seq<char>, X)> {
    choose|entries: Seq<(Seq<char>, X)>| ascending(entries) && to_map(entries) == map
}

/// Two ascending sequences that stand for the same map are the same sequence.
pub proof fn lemma_ascending_unique<X>(a: Seq<(Seq<char>, X)>, b: Seq<(Seq<char>, X)>)
    requires
        ascending(a),
        ascending(b),
        to_map(a) == to_map(b),
    ensures
        a == b,
    decreases a.len(),
{
    if a.len() == 0 {
        if b.len() > 0 {
            lemma_to_map_at(b, 0);
            assert(has_key(a, b[0].0));
        }
        assert(a =~= b);
    } else {
        let la = a.len() - 1;
        lemma_to_map_at(a, la);
        assert(has_key(b, a[la].0));
        let lb = b.len() - 1;
        lemma_to_map_at(b, lb);
        assert(has_key(a, b[lb].0));
        let ia = index_of_key(a, b[lb].0);
        let ib = index_of_key(b, a[la].0);
        lemma_precedes_trichotomy(a[la].0, b[lb].0);
        assert(a[la].0 == b[lb].0);
        lemma_remove_at(a, la);
        lemma_remove_at(b, lb);
        assert(a.remove(la) =~= a.drop_last());
        assert(b.remove(lb) =~= b.drop_last());
        lemma_ascending_unique(a.drop_last(), b.drop_last());
        assert(a =~= a.drop_last().push(a[la]));
        assert(b =~= b.drop_last().push(b[lb]));
    }
}

/// An ascending sequence is the sequence of entries of its map.
pub proof fn lemma_entries_of<X>(entries: Seq<(Seq<char>, X)>)
    requires
        ascending(entries),
    ensures
        entries_of(to_map(entries)) == entries,
{
    let chosen = entries_of(to_map(entries));
    lemma_ascending_unique(chosen, entries);
}

/// The place at or after `from` at which `name` would stand among `entries`: the
/// index of the first entry that `name` precedes, or `entries.len()`.
pub open spec fn place<X>(entries: Seq<(Seq<char>, X)>, name: Seq<char>, from: int) -> int
    decreases entries.len() - from,
{
    if from >= entries.len() {
        entries.len() as int
    } else if precedes(name, entries[from].0) {
        from
    } else {
        place(entries, name, from + 1)
    }
}

/// A name that no entry has stands between the entries before its place and those
/// from its place on.
pub proof fn lemma_place<X>(entries: Seq<(Seq<char>, X)>, name: Seq<char>, from: int)
    requires
        ascending(entries),
        !has_key(entries, name),
        0 <= from <= entries.len(),
        forall|j: int| 0 <= j < from ==> precedes((#[trigger] entries[j]).0, name),
    ensures
        from <= place(entries, name, from) <= entries.len(),
        forall|j: int|
            0 <= j < place(entries, name, from) ==> precedes((#[trigger] entries[j]).0, name),
        forall|j: int|
            place(entries, name, from) <= j < entries.len() ==> precedes(
                name,
                (#[trigger] entries[j]).0,
            ),
    decreases entries.len() - from,
{
    if from < entries.len() {
        if precedes(name, entries[from].0) {
            assert forall|j: int| from <= j < entries.len() implies precedes(
                name,
                (#[trigger] entries[j]).0,
            ) by {
                if j > from {
                    lemma_precedes_transitive(name, entries[from].0, entries[j].0);
                }
            }
        } else {
            lemma_precedes_trichotomy(entries[from].0, name);
            assert(entries[from].0 != name);
            lemma_place(entries, name, from + 1);
        }
    }
}

/// Every map with finitely many names has its entries: they are in the order of
/// their names and stand for the map.
pub proof fn lemma_entries_exist<X>(map: Map<Seq<char>, X>)
    requires
        map.dom().finite(),
    ensures
        ascending(entries_of(map)),
        to_map(entries_of(map)) == map,
    decreases map.dom().len(),
{
    if map.dom().len() == 0 {
        let none = Seq::<(Seq<char>, X)>::empty();
        assert(map.dom() =~= Set::<Seq<char>>::empty());
        assert(to_map(none) =~= map);
        assert(ascending(none) && to_map(none) == map);
    } else {
        let name = map.dom().choose();
        let smaller = map.remove(name);
        lemma_entries_exist(smaller);
        let rest = entries_of(smaller);
        lemma_place(rest, name, 0);
        let at = place(rest, name, 0);
        lemma_insert_at(rest, at, name, map[name]);
        let all = rest.insert(at, (name, map[name]));
        assert(smaller.insert(name, map[name]) =~= map);
        assert(ascending(all) && to_map(all) == map);
    }
}

/// A map from package names to values, walked in the order of the names.
#[derive(Debug)]
pub struct PackageMap<V: View> {
    entries: Vec<(String, V)>,
}

impl<V: View> View for PackageMap<V> {
    type V = Map<Seq<char>, V::V>;

    closed spec fn view(&self) -> Map<Seq<char>, V::V> {
        to_map(self.entries())
    }
}

impl<V: View> PackageMap<V> {
    /// The entries in the order in which they are walked: name and value.
    pub closed spec fn entries(&self) -> Seq<(Seq<char>, V::V)> {
        Seq::new(self.entries@.len(), |i: int| (self.entries@[i].0@, self.entries@[i].1@))
    }

    #[verifier::type_invariant]
    spec fn ordered(&self) -> bool {
        ascending(self.entries())
    }

    /// The map is what the entries hold, and it has finitely many names.
    pub proof fn lemma_entries(&self)
        ensures
            self@ == to_map(self.entries()),
            self@.dom().finite(),
    {
        let entries = self.entries();
        let indices = Set::new(|i: int| 0 <= i < entries.len());
        vstd::set_lib::lemma_int_range(0, entries.len() as int);
        assert(indices =~= vstd::set_lib::set_int_range(0, entries.len() as int));
        let names = indices.map(|i: int| entries[i].0);
        indices.lemma_map_finite(|i: int| entries[i].0);
        assert(self@.dom() =~= names) by {
            assert forall|k: Seq<char>| self@.dom().contains(k) <==> names.contains(k) by {
                if has_key(entries, k) {
                    let i = index_of_key(entries, k);
                    assert(indices.contains(i));
                }
            }
        }
    }

    /// The empty map.
    pub fn new() -> (m: Self)
        ensures
            m@ == Map::<Seq<char>, V::V>::empty(),
            m.entries() == Seq::<(Seq<char>, V::V)>::empty(),
    {
        let m = PackageMap { entries: Vec::new() };
        assert(m.entries() =~= Seq::<(Seq<char>, V::V)>::empty());
        assert(m@ =~= Map::<Seq<char>, V::V>::empty());
        m
    }

    /// The number of entries.
    pub fn len(&self) -> (n: usize)
        ensures
            n == self.entries().len(),
            ascending(self.entries()),
            self@ == to_map(self.entries()),
            self.entries() == entries_of(self@),
    {
        proof {
            use_type_invariant(self);
            lemma_entries_of(self.entries());
        }
        self.entries.len()
    }

    /// Whether the map has no entry.
    pub fn is_empty(&self) -> (b: bool)
        ensures
            b == (self.entries().len() == 0),
            b == (self@ == Map::<Seq<char>, V::V>::empty()),
    {
        proof {
            use_type_invariant(self);
            if self.entries().len() > 0 {
                lemma_to_map_at(self.entries(), 0);
            } else {
                assert(self@ =~= Map::<Seq<char>, V::V>::empty());
            }
        }
        self.entries.len() == 0
    }

    /// The name of the entry at place `i` of the walk.
    pub fn key(&self, i: usize) -> (name: &String)
        requires
            i < self.entries().len(),
        ensures
            name@ == self.entries()[i as int].0,
            self@.contains_key(name@),
    {
        proof {
            use_type_invariant(self);
            lemma_to_map_at(self.entries(), i as int);
        }
        &self.entries[i].0
    }

    /// The value of the entry at place `i` of the walk.
    pub fn value(&self, i: usize) -> (value: &V)
        requires
            i < self.entries().len(),
        ensures
            value@ == self.entries()[i as int].1,
            self@.contains_key(self.entries()[i as int].0),
            self@[self.entries()[i as int].0] == value@,
    {
        proof {
            use_type_invariant(self);
            lemma_to_map_at(self.entries(), i as int);
        }
        &self.entries[i].1
    }

    /// Where `name` is or would have to be: whether an entry has it, and the place
    /// of that entry, or else the place at which it would be put.
    fn locate(&self, name: &str) -> (r: (bool, usize))
        ensures
            r.1 <= self.entries().len(),
            r.0 ==> r.1 < self.entries().len() && self.entries()[r.1 as int].0 == name@,
            !r.0 ==> forall|j: int| 0 <= j < r.1 ==> precedes((#[trigger] self.entries()[j]).0, name@),
            !r.0 ==> forall|j: int|
                r.1 <= j < self.entries().len() ==> precedes(
                    name@,
                    (#[trigger] self.entries()[j]).0,
                ),
    {
        proof {
            use_type_invariant(self);
        }
        let needle = to_chars(name);
        let mut lo: usize = 0;
        let mut hi: usize = self.entries.len();
        while lo < hi
            invariant
                needle@ == name@,
                ascending(self.entries()),
                lo <= hi <= self.entries().len(),
                self.entries().len() == self.entries@.len(),
                forall|j: int| 0 <= j < lo ==> precedes((#[trigger] self.entries()[j]).0, name@),
                forall|j: int|
                    hi <= j < self.entries().len() ==> precedes(
                        name@,
                        (#[trigger] self.entries()[j]).0,
                    ),
            decreases hi - lo,
        {
            let mid: usize = lo + (hi - lo) / 2;
            let probe = to_chars(self.entries[mid].0.as_str());
            assert(probe@ == self.entries()[mid as int].0);
            match rank_chars(&probe, &needle) {
                Rank::Same => {
                    return (true, mid);
                },
                Rank::Before => {
                    assert forall|j: int| 0 <= j < mid + 1 implies precedes(
                        (#[trigger] self.entries()[j]).0,
                        name@,
                    ) by {
                        if j < mid {
                            lemma_precedes_transitive(
                                self.entries()[j].0,
                                self.entries()[mid as int].0,
                                name@,
                            );
                        }
                    }
                    lo = mid + 1;
                },
                Rank::After => {
                    assert forall|j: int| mid <= j < self.entries().len() implies precedes(
                        name@,
                        (#[trigger] self.entries()[j]).0,
                    ) by {
                        if j > mid {
                            lemma_precedes_transitive(
                                name@,
                                self.entries()[mid as int].0,
                                self.entries()[j].0,
                            );
                        }
                    }
                    hi = mid;
                },
            }
        }
        (false, lo)
    }

    /// Whether the map has an entry for `name`.
    pub fn contains_key(&self, name: &str) -> (b: bool)
        ensures
            b == self@.contains_key(name@),
    {
        let (found, at) = self.locate(name);
        proof {
            use_type_invariant(self);
            if found {
                lemma_to_map_at(self.entries(), at as int);
            } else {
                lemma_absent(self.entries(), at as int, name@);
            }
        }
        found
    }

    /// The value held for `name`, if there is one.
    pub fn get(&self, name: &str) -> (r: Option<&V>)
        ensures
            r is Some <==> self@.contains_key(name@),
            r matches Some(v) ==> v@ == self@[name@],
    {
        let (found, at) = self.locate(name);
        proof {
            use_type_invariant(self);
            if found {
                lemma_to_map_at(self.entries(), at as int);
            } else {
                lemma_absent(self.entries(), at as int, name@);
            }
        }
        if found {
            Some(&self.entries[at].1)
        } else {
            None
        }
    }

    /// Holds `value` for `name` from now on, and hands back what was held for it
    /// before, if anything was.
    pub fn insert(&mut self, name: String, value: V) -> (r: Option<V>)
        ensures
            final(self)@ == old(self)@.insert(name@, value@),
            r is Some <==> old(self)@.contains_key(name@),
            r matches Some(v) ==> v@ == old(self)@[name@],
    {
        let (found, at) = self.locate(name.as_str());
        proof {
            use_type_invariant(&*self);
        }
        let ghost before = self.entries();
        let mut entries: Vec<(String, V)> = Vec::new();
        std::mem::swap(&mut entries, &mut self.entries);
        let r = if found {
            let mut pair: (String, V) = (name, value);
            std::mem::swap(&mut pair, &mut entries[at]);
            proof {
                lemma_to_map_at(before, at as int);
                lemma_update_at(before, at as int, value@);
            }
            Some(pair.1)
        } else {
            entries.insert(at, (name, value));
            proof {
                lemma_absent(before, at as int, name@);
                lemma_insert_at(before, at as int, name@, value@);
            }
            None
        };
        let ghost after = Seq::new(entries@.len(), |i: int| (entries@[i].0@, entries@[i].1@));
        assert(after =~= if found {
            before.update(at as int, (name@, value@))
        } else {
            before.insert(at as int, (name@, value@))
        });
        self.entries = entries;
        assert(self.entries() == after);
        r
    }

    /// Holds nothing for `name` from now on, and hands back what was held for it.
    pub fn remove(&mut self, name: &str) -> (r: Option<V>)
        ensures
            final(self)@ == old(self)@.remove(name@),
            r is Some <==> old(self)@.contains_key(name@),
            r matches Some(v) ==> v@ == old(self)@[name@],
    {
        let (found, at) = self.locate(name);
        proof {
            use_type_invariant(&*self);
        }
        let ghost before = self.entries();
        if found {
            let mut entries: Vec<(String, V)> = Vec::new();
            std::mem::swap(&mut entries, &mut self.entries);
            let pair = entries.remove(at);
            proof {
                lemma_to_map_at(before, at as int);
                lemma_remove_at(before, at as int);
            }
            let ghost after = Seq::new(entries@.len(), |i: int| (entries@[i].0@, entries@[i].1@));
            assert(after =~= before.remove(at as int));
            self.entries = entries;
            assert(self.entries() == after);
            Some(pair.1)
        } else {
            proof {
                lemma_absent(before, at as int, name@);
                assert(self@ =~= self@.remove(name@));
            }
            None
        }
    }
}

/// Holds `value` for `name` from now on, as where two declarations of a package
/// are merged: the later one wins. Where something was held for `name` before, the
/// name is appended to `overwritten`, once; otherwise `overwritten` stays as it is.
pub fn insert_recording<V: View>(
    map: &mut PackageMap<V>,
    name: String,
    value: V,
    overwritten: &mut Vec<String>,
)
    ensures
        final(map)@ == old(map)@.insert(name@, value@),
        old(map)@.contains_key(name@) ==> crate::text::texts(final(overwritten)@)
            == crate::text::texts(old(overwritten)@).push(name@),
        !old(map)@.contains_key(name@) ==> crate::text::texts(final(overwritten)@)
            == crate::text::texts(old(overwritten)@),
{
    let key = name.clone();
    if map.insert(name, value).is_some() {
        crate::text::push_text(overwritten, key);
    }
}

/// The names come in strictly ascending order.
pub open spec fn increasing(names: Seq<Seq<char>>) -> bool {
    forall|i: int, j: int|
        #![trigger names[i], names[j]]
        0 <= i < j < names.len() ==> precedes(names[i], names[j])
}

/// The names of an ascending sequence of entries are increasing, and they are the
/// names that its map holds.
pub proof fn lemma_names_of<X>(entries: Seq<(Seq<char>, X)>)
    requires
        ascending(entries),
    ensures
        increasing(names_of(entries)),
        names_of(entries).to_set() == to_map(entries).dom(),
{
    let names = names_of(entries);
    assert forall|k: Seq<char>| names.to_set().contains(k) <==> to_map(entries).dom().contains(
        k,
    ) by {
        if names.contains(k) {
            let i = choose|i: int| 0 <= i < names.len() && names[i] == k;
            assert(entries[i].0 == k);
            assert(has_key(entries, k));
        }
        if has_key(entries, k) {
            let i = index_of_key(entries, k);
            assert(names[i] == k);
        }
    }
    assert(names.to_set() =~= to_map(entries).dom());
}

/// A set of package names, walked in the order of the names.
#[derive(Debug)]
pub struct NameSet {
    map: PackageMap<()>,
}

impl View for NameSet {
    type V = Set<Seq<char>>;

    closed spec fn view(&self) -> Set<Seq<char>> {
        self.map@.dom()
    }
}

impl NameSet {
    /// The names in the order in which they are walked.
    pub closed spec fn names(&self) -> Seq<Seq<char>> {
        names_of(self.map.entries())
    }

    /// The empty set.
    pub fn new() -> (s: Self)
        ensures
            s@ == Set::<Seq<char>>::empty(),
            s.names() == Seq::<Seq<char>>::empty(),
    {
        let s = NameSet { map: PackageMap::new() };
        assert(s.names() =~= Seq::<Seq<char>>::empty());
        assert(s@ =~= Set::<Seq<char>>::empty());
        s
    }

    /// The set of the given names.
    pub fn from_names(names: &Vec<String>) -> (s: Self)
        ensures
            s@ == crate::text::texts(names@).to_set(),
    {
        let mut s = NameSet::new();
        let mut i: usize = 0;
        let ghost all = crate::text::texts(names@);
        assert(all.take(0) =~= Seq::<Seq<char>>::empty());
        assert(all.take(0).to_set() =~= Set::<Seq<char>>::empty());
        while i < names.len()
            invariant
                i <= names.len(),
                all == crate::text::texts(names@),
                s@ == all.take(i as int).to_set(),
            decreases names.len() - i,
        {
            s.insert(names[i].clone());
            proof {
                assert(all.take(i + 1) =~= all.take(i as int).push(all[i as int]));
                all.take(i as int).lemma_push_to_set_commute(all[i as int]);
            }
            i += 1;
        }
        assert(all.take(names.len() as int) =~= all);
        s
    }

    /// The number of names.
    pub fn len(&self) -> (n: usize)
        ensures
            n == self.names().len(),
            increasing(self.names()),
            self@ == self.names().to_set(),
    {
        let n = self.map.len();
        proof {
            lemma_names_of(self.map.entries());
        }
        n
    }

    /// Whether the set has no name.
    pub fn is_empty(&self) -> (b: bool)
        ensures
            b == (self.names().len() == 0),
            b == (self@ == Set::<Seq<char>>::empty()),
    {
        let n = self.map.len();
        proof {
            if n == 0 {
                assert(self@ =~= Set::<Seq<char>>::empty());
            } else {
                lemma_to_map_at(self.map.entries(), 0);
            }
        }
        n == 0
    }

    /// The name at place `i` of the walk.
    pub fn name(&self, i: usize) -> (name: &String)
        requires
            i < self.names().len(),
        ensures
            name@ == self.names()[i as int],
            self@.contains(name@),
    {
        self.map.key(i)
    }

    /// Whether `name` is in the set.
    pub fn contains(&self, name: &str) -> (b: bool)
        ensures
            b == self@.contains(name@),
    {
        self.map.contains_key(name)
    }

    /// Puts `name` into the set; says whether it was new.
    pub fn insert(&mut self, name: String) -> (fresh: bool)
        ensures
            final(self)@ == old(self)@.insert(name@),
            fresh == !old(self)@.contains(name@),
    {
        let r = self.map.insert(name, ());
        assert(self@ =~= old(self)@.insert(name@));
        r.is_none()
    }

    /// Takes `name` out of the set; says whether it was there.
    pub fn remove(&mut self, name: &str) -> (present: bool)
        ensures
            final(self)@ == old(self)@.remove(name@),
            present == old(self)@.contains(name@),
    {
        let r = self.map.remove(name);
        assert(self@ =~= old(self)@.remove(name@));
        r.is_some()
    }
}

} // verus!
