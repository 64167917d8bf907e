//! Sets and maps held as lists: a set is a list in which nothing occurs
//! twice, a map a list of keys and values in which no key occurs twice.

use crate::family::{AFI, SAFI};
use crate::open::AddPathDirection;
use vstd::prelude::*;

verus! {

/// Values that can be told apart when the program runs.
pub trait Same: Sized {
    /// Whether two values are the same value.
    fn same(&self, other: &Self) -> (r: bool)
        ensures
            r == (*self == *other),
    ;
}

impl Same for (AFI, SAFI) {
    fn same(&self, other: &Self) -> (r: bool) {
        self.0 == other.0 && self.1 == other.1
    }
}

impl Same for (AFI, SAFI, u8) {
    fn same(&self, other: &Self) -> (r: bool) {
        self.0 == other.0 && self.1 == other.1 && self.2 == other.2
    }
}

impl Same for (AFI, SAFI, AddPathDirection) {
    fn same(&self, other: &Self) -> (r: bool) {
        self.0 == other.0 && self.1 == other.1 && self.2 == other.2
    }
}

impl Same for (AFI, SAFI, u8, AddPathDirection) {
    fn same(&self, other: &Self) -> (r: bool) {
        self.0 == other.0 && self.1 == other.1 && self.2 == other.2 && self.3 == other.3
    }
}

/// `acc` with `x` at its end, unless `acc` holds `x` already.
pub open spec fn add_once<T>(acc: Seq<T>, x: T) -> Seq<T> {
    if acc.contains(x) {
        acc
    } else {
        acc.push(x)
    }
}

/// Adding an entry once keeps a list free of repetitions, and adds the
/// entry to the set of what it holds.
pub proof fn lemma_add_once<T>(acc: Seq<T>, x: T)
    requires
        acc.no_duplicates(),
    ensures
        add_once(acc, x).no_duplicates(),
        add_once(acc, x).to_set() == acc.to_set().insert(x),
{
    if acc.contains(x) {
        assert(acc.to_set().insert(x) =~= acc.to_set());
    } else {
        acc.lemma_push_to_set_commute(x);
    }
}

/// Whether `entries` holds `x`.
pub fn contains<T: Same + Copy>(entries: &Vec<T>, x: T) -> (r: bool)
    ensures
        r == entries@.contains(x),
{
    let mut i: usize = 0;
    while i < entries.len()
        invariant
            i <= entries.len(),
            forall|j: int| 0 <= j < i ==> entries@[j] != x,
        decreases entries.len() - i,
    {
        if entries[i].same(&x) {
            return true;
        }
        i = i + 1;
    }
    false
}

/// Adds `x` at the end of `entries`, unless it is there.
pub fn insert_once<T: Same + Copy>(entries: &mut Vec<T>, x: T)
    ensures
        final(entries)@ == add_once(old(entries)@, x),
{
    if !contains(entries, x) {
        entries.push(x);
    }
}

/// What two sets have in common, in the order of the first.
pub fn common<T: Same + Copy>(a: &Vec<T>, b: &Vec<T>) -> (r: Vec<T>)
    requires
        a@.no_duplicates(),
    ensures
        r@.no_duplicates(),
        r@.to_set() == a@.to_set().intersect(b@.to_set()),
{
    let mut out: Vec<T> = Vec::new();
    let ghost mut places: Seq<int> = Seq::empty();
    let mut i: usize = 0;
    while i < a.len()
        invariant
            i <= a.len(),
            a@.no_duplicates(),
            places.len() == out@.len(),
            forall|j: int| 0 <= j < out@.len() ==> 0 <= #[trigger] places[j] < i,
            forall|j: int| 0 <= j < out@.len() ==> out@[j] == a@[#[trigger] places[j]],
            forall|j: int, k: int| 0 <= j < k < out@.len() ==> places[j] < places[k],
            forall|j: int| 0 <= j < out@.len() ==> b@.contains(#[trigger] out@[j]),
            forall|k: int| 0 <= k < i && b@.contains(#[trigger] a@[k]) ==> out@.contains(a@[k]),
        decreases a.len() - i,
    {
        let x = a[i];
        if contains(b, x) {
            proof {
                let ghost before = out@;
                assert forall|k: int| 0 <= k < i && b@.contains(#[trigger] a@[k]) implies before.push(
                    x,
                ).contains(a@[k]) by {
                    let j = choose|j: int| 0 <= j < before.len() && before[j] == a@[k];
                    assert(before.push(x)[j] == a@[k]);
                }
                assert(before.push(x)[before.len() as int] == x);
                places = places.push(i as int);
            }
            out.push(x);
        }
        i = i + 1;
    }
    proof {
        assert forall|j: int, k: int|
            0 <= j < out@.len() && 0 <= k < out@.len() && j != k implies out@[j] != out@[k] by {
            if j < k {
                assert(places[j] < places[k]);
            } else {
                assert(places[k] < places[j]);
            }
            assert(out@[j] == a@[places[j]]);
            assert(out@[k] == a@[places[k]]);
        }
        assert forall|x: T| out@.to_set().contains(x) <==> a@.to_set().intersect(
            b@.to_set(),
        ).contains(x) by {
            if out@.contains(x) {
                let j = choose|j: int| 0 <= j < out@.len() && out@[j] == x;
                assert(a@[places[j]] == x);
            }
            if a@.contains(x) && b@.contains(x) {
                let k = choose|k: int| 0 <= k < a@.len() && a@[k] == x;
                assert(out@.contains(a@[k]));
            }
        }
        assert(out@.to_set() =~= a@.to_set().intersect(b@.to_set()));
    }
    out
}

/// The map that a list of keys and values stands for, where a later
/// entry of a key takes the place of an earlier one.
pub open spec fn assoc_map<K, V>(entries: Seq<(K, V)>) -> Map<K, V>
    decreases entries.len(),
{
    if entries.len() == 0 {
        Map::empty()
    } else {
        assoc_map(entries.drop_last()).insert(entries.last().0, entries.last().1)
    }
}

/// Whether no key occurs twice in a list of keys and values.
pub open spec fn unique_keys<K, V>(entries: Seq<(K, V)>) -> bool {
    forall|i: int, j: int|
        0 <= i < entries.len() && 0 <= j < entries.len() && i != j ==> entries[i].0 != entries[j].0
}

/// An entry at the end of a list adds its key and value to the map.
pub proof fn lemma_assoc_push<K, V>(entries: Seq<(K, V)>, key: K, value: V)
    ensures
        assoc_map(entries.push((key, value))) == assoc_map(entries).insert(key, value),
{
    assert(entries.push((key, value)).drop_last() =~= entries);
}

/// A new value in the place of a key's entry gives the key that value in
/// the map, where no key occurs twice.
pub proof fn lemma_assoc_update<K, V>(entries: Seq<(K, V)>, i: int, value: V)
    requires
        0 <= i < entries.len(),
        unique_keys(entries),
    ensures
        unique_keys(entries.update(i, (entries[i].0, value))),
        assoc_map(entries.update(i, (entries[i].0, value))) == assoc_map(entries).insert(
            entries[i].0,
            value,
        ),
    decreases entries.len(),
{
    let key = entries[i].0;
    let updated = entries.update(i, (key, value));
    let last = entries.len() - 1;
    if i == last {
        assert(updated.drop_last() =~= entries.drop_last());
        assert(assoc_map(updated) =~= assoc_map(entries).insert(key, value));
    } else {
        assert(unique_keys(entries.drop_last()));
        lemma_assoc_update(entries.drop_last(), i, value);
        assert(updated.drop_last() =~= entries.drop_last().update(i, (key, value)));
        assert(updated.last() == entries.last());
        assert(entries.last().0 != key);
        assert(assoc_map(updated) =~= assoc_map(entries).insert(key, value));
    }
}

/// The keys of the map are the keys of the list.
pub proof fn lemma_assoc_dom<K, V>(entries: Seq<(K, V)>, key: K)
    ensures
        assoc_map(entries).dom().contains(key) <==> exists|i: int|
            0 <= i < entries.len() && (#[trigger] entries[i]).0 == key,
    decreases entries.len(),
{
    if entries.len() > 0 {
        let rest = entries.drop_last();
        lemma_assoc_dom(rest, key);
        if assoc_map(entries).dom().contains(key) {
            if entries.last().0 == key {
                assert(entries[entries.len() - 1].0 == key);
            } else {
                let i = choose|i: int| 0 <= i < rest.len() && (#[trigger] rest[i]).0 == key;
                assert(entries[i].0 == key);
            }
        }
        if exists|i: int| 0 <= i < entries.len() && (#[trigger] entries[i]).0 == key {
            let i = choose|i: int| 0 <= i < entries.len() && (#[trigger] entries[i]).0 == key;
            if i < rest.len() {
                assert(rest[i].0 == key);
            }
        }
    }
}

/// Where no key occurs twice, the map gives each key the value of its
/// entry.
pub proof fn lemma_assoc_value<K, V>(entries: Seq<(K, V)>, i: int)
    requires
        0 <= i < entries.len(),
        unique_keys(entries),
    ensures
        assoc_map(entries).dom().contains(entries[i].0),
        assoc_map(entries)[entries[i].0] == entries[i].1,
    decreases entries.len(),
{
    let last = entries.len() - 1;
    if i < last {
        assert(unique_keys(entries.drop_last()));
        lemma_assoc_value(entries.drop_last(), i);
        assert(entries.last().0 != entries[i].0);
    }
}

/// The place of the entry of `key` among `entries`; the length of the
/// list where there is none.
pub fn find_key<V: Copy>(entries: &Vec<((AFI, SAFI), V)>, key: (AFI, SAFI)) -> (r: usize)
    ensures
        r <= entries@.len(),
        r < entries@.len() ==> entries@[r as int].0 == key,
        r == entries@.len() ==> forall|j: int| 0 <= j < entries@.len() ==> entries@[j].0 != key,
        r < entries@.len() <==> assoc_map(entries@).dom().contains(key),
{
    let mut i: usize = 0;
    while i < entries.len()
        invariant
            i <= entries.len(),
            forall|j: int| 0 <= j < i ==> entries@[j].0 != key,
        decreases entries.len() - i,
    {
        if entries[i].0.same(&key) {
            proof {
                lemma_assoc_dom(entries@, key);
            }
            return i;
        }
        i = i + 1;
    }
    proof {
        lemma_assoc_dom(entries@, key);
    }
    i
}

/// Gives `key` the value `value` among `entries`.
pub fn put_entry<V: Copy>(entries: &mut Vec<((AFI, SAFI), V)>, key: (AFI, SAFI), value: V)
    requires
        unique_keys(old(entries)@),
    ensures
        unique_keys(final(entries)@),
        assoc_map(final(entries)@) == assoc_map(old(entries)@).insert(key, value),
        final(entries)@.len() > 0,
{
    let i = find_key(entries, key);
    if i < entries.len() {
        proof {
            lemma_assoc_update(entries@, i as int, value);
        }
        entries[i] = (key, value);
    } else {
        proof {
            lemma_assoc_push(entries@, key, value);
        }
        entries.push((key, value));
    }
}

/// The entries of `a` whose keys `b` holds too, in the order of `a`.
pub fn common_keys<V: Copy>(a: &Vec<((AFI, SAFI), V)>, b: &Vec<((AFI, SAFI), V)>) -> (r: Vec<
    ((AFI, SAFI), V),
>)
    requires
        unique_keys(a@),
    ensures
        unique_keys(r@),
        assoc_map(r@) == assoc_map(a@).restrict(assoc_map(b@).dom()),
{
    let mut out: Vec<((AFI, SAFI), V)> = Vec::new();
    let ghost mut places: Seq<int> = Seq::empty();
    let mut i: usize = 0;
    while i < a.len()
        invariant
            i <= a.len(),
            unique_keys(a@),
            places.len() == out@.len(),
            forall|j: int| 0 <= j < out@.len() ==> 0 <= #[trigger] places[j] < i,
            forall|j: int| 0 <= j < out@.len() ==> out@[j] == a@[#[trigger] places[j]],
            forall|j: int, k: int| 0 <= j < k < out@.len() ==> places[j] < places[k],
            forall|j: int|
                0 <= j < out@.len() ==> assoc_map(b@).dom().contains((#[trigger] out@[j]).0),
            forall|k: int|
                0 <= k < i && assoc_map(b@).dom().contains((#[trigger] a@[k]).0) ==> out@.contains(
                    a@[k],
                ),
        decreases a.len() - i,
    {
        let entry = a[i];
        if find_key(b, entry.0) < b.len() {
            proof {
                let ghost before = out@;
                assert forall|k: int|
                    0 <= k < i && assoc_map(b@).dom().contains(
                        (#[trigger] a@[k]).0,
                    ) implies before.push(entry).contains(a@[k]) by {
                    let j = choose|j: int| 0 <= j < before.len() && before[j] == a@[k];
                    assert(before.push(entry)[j] == a@[k]);
                }
                assert(before.push(entry)[before.len() as int] == entry);
                places = places.push(i as int);
            }
            out.push(entry);
        }
        i = i + 1;
    }
    proof {
        assert forall|j: int, k: int|
            0 <= j < out@.len() && 0 <= k < out@.len() && j != k implies out@[j].0 != out@[k].0 by {
            if j < k {
                assert(places[j] < places[k]);
            } else {
                assert(places[k] < places[j]);
            }
            assert(out@[j] == a@[places[j]]);
            assert(out@[k] == a@[places[k]]);
        }
        let left = assoc_map(out@);
        let right = assoc_map(a@).restrict(assoc_map(b@).dom());
        assert forall|key: (AFI, SAFI)| left.dom().contains(key) <==> right.dom().contains(key) by {
            lemma_assoc_dom(out@, key);
            lemma_assoc_dom(a@, key);
            if left.dom().contains(key) {
                let j = choose|j: int| 0 <= j < out@.len() && (#[trigger] out@[j]).0 == key;
                assert(a@[places[j]].0 == key);
            }
            if right.dom().contains(key) {
                let k = choose|k: int| 0 <= k < a@.len() && (#[trigger] a@[k]).0 == key;
                assert(out@.contains(a@[k]));
                let j = choose|j: int| 0 <= j < out@.len() && out@[j] == a@[k];
                assert(out@[j].0 == key);
            }
        }
        assert forall|key: (AFI, SAFI)| left.dom().contains(key) implies left[key] == right[key] by {
            lemma_assoc_dom(out@, key);
            let j = choose|j: int| 0 <= j < out@.len() && (#[trigger] out@[j]).0 == key;
            lemma_assoc_value(out@, j);
            lemma_assoc_value(a@, places[j]);
        }
        assert(left =~= right);
    }
    out
}

} // verus!
