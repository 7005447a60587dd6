//! The insertion-ordered map that both lists are built on: `indexmap::IndexMap`,
//! keyed by an id string. A map is seen as the sequence of its entries, in
//! order, each a key and a value taken by their views.
use indexmap::IndexMap;
use vstd::prelude::*;

use crate::container::{ContainerRef, ContainerRefView};
use crate::image::{Image, ImageView};

verus! {

/// `indexmap::IndexMap`, an insertion-ordered hash map, as an opaque type.
#[verifier::external_type_specification]
#[verifier::external_body]
#[verifier::reject_recursive_types(K)]
#[verifier::reject_recursive_types(V)]
#[verifier::reject_recursive_types(S)]
pub struct ExIndexMap<K, V, S>(IndexMap<K, V, S>);

// ---------------------------------------------------------------------------
// Entry sequences
// ---------------------------------------------------------------------------

/// No key occurs twice among the entries (what an `IndexMap` always keeps).
pub open spec fn keys_distinct<V>(entries: Seq<(Seq<char>, V)>) -> bool {
    forall|i: int, j: int|
        0 <= i < entries.len() && 0 <= j < entries.len() && i != j ==> #[trigger] entries[i].0
            != #[trigger] entries[j].0
}

/// Some entry has the key `k`.
pub open spec fn has_key<V>(entries: Seq<(Seq<char>, V)>, k: Seq<char>) -> bool {
    exists|i: int| 0 <= i < entries.len() && #[trigger] entries[i].0 == k
}

/// The index of the entry with key `k` (meaningful when `has_key(entries, k)`).
pub open spec fn index_of<V>(entries: Seq<(Seq<char>, V)>, k: Seq<char>) -> int {
    choose|i: int| 0 <= i < entries.len() && entries[i].0 == k
}

/// The entries after a key-value pair is put in: a present key keeps its place
/// and takes the new value; a new key comes last.
pub open spec fn inserted<V>(entries: Seq<(Seq<char>, V)>, k: Seq<char>, v: V) -> Seq<
    (Seq<char>, V),
> {
    if has_key(entries, k) {
        entries.update(index_of(entries, k), (k, v))
    } else {
        entries.push((k, v))
    }
}

/// The entries after the entry with key `k`, if any, is taken out.
pub open spec fn without_key<V>(entries: Seq<(Seq<char>, V)>, k: Seq<char>) -> Seq<
    (Seq<char>, V),
> {
    if has_key(entries, k) {
        entries.remove(index_of(entries, k))
    } else {
        entries
    }
}

/// With distinct keys, `index_of` finds the one index that holds the key.
pub proof fn lemma_index_of<V>(entries: Seq<(Seq<char>, V)>, k: Seq<char>, i: int)
    requires
        keys_distinct(entries),
        0 <= i < entries.len(),
        entries[i].0 == k,
    ensures
        has_key(entries, k),
        index_of(entries, k) == i,
{
    assert(has_key(entries, k));
    let j = index_of(entries, k);
    assert(entries[j].0 == entries[i].0);
}

/// Removing an entry keeps the keys distinct.
pub proof fn lemma_remove_keeps_distinct<V>(entries: Seq<(Seq<char>, V)>, i: int)
    requires
        keys_distinct(entries),
        0 <= i < entries.len(),
    ensures
        keys_distinct(entries.remove(i)),
{
    let r = entries.remove(i);
    assert forall|a: int, b: int| 0 <= a < r.len() && 0 <= b < r.len() && a != b implies r[a].0
        != r[b].0 by {
        let a0 = if a < i { a } else { a + 1 };
        let b0 = if b < i { b } else { b + 1 };
        assert(r[a] == entries[a0]);
        assert(r[b] == entries[b0]);
    }
}

/// Replacing the value at an index keeps the keys distinct.
pub proof fn lemma_update_keeps_distinct<V>(entries: Seq<(Seq<char>, V)>, i: int, v: V)
    requires
        keys_distinct(entries),
        0 <= i < entries.len(),
    ensures
        keys_distinct(entries.update(i, (entries[i].0, v))),
{
    let u = entries.update(i, (entries[i].0, v));
    assert forall|a: int, b: int| 0 <= a < u.len() && 0 <= b < u.len() && a != b implies u[a].0
        != u[b].0 by {
        assert(u[a].0 == entries[a].0);
        assert(u[b].0 == entries[b].0);
    }
}

/// Appending an entry under a new key keeps the keys distinct.
pub proof fn lemma_push_keeps_distinct<V>(entries: Seq<(Seq<char>, V)>, k: Seq<char>, v: V)
    requires
        keys_distinct(entries),
        !has_key(entries, k),
    ensures
        keys_distinct(entries.push((k, v))),
{
    let p = entries.push((k, v));
    assert forall|a: int, b: int| 0 <= a < p.len() && 0 <= b < p.len() && a != b implies p[a].0
        != p[b].0 by {
        if a < entries.len() && b < entries.len() {
            assert(p[a] == entries[a]);
            assert(p[b] == entries[b]);
        } else if a < entries.len() {
            assert(p[a] == entries[a]);
        } else {
            assert(p[b] == entries[b]);
        }
    }
}

// ---------------------------------------------------------------------------
// Laws of keyed entries
// ---------------------------------------------------------------------------

/// Law: what is put in under a key is what is found under it afterwards, at
/// the key's old place if it was there and last otherwise; the keys stay distinct
/// and no other key comes or goes.
pub proof fn law_read_after_insert<V>(entries: Seq<(Seq<char>, V)>, k: Seq<char>, v: V)
    requires
        keys_distinct(entries),
    ensures
        keys_distinct(inserted(entries, k, v)),
        has_key(inserted(entries, k, v), k),
        index_of(inserted(entries, k, v), k) == if has_key(entries, k) {
            index_of(entries, k)
        } else {
            entries.len() as int
        },
        inserted(entries, k, v)[index_of(inserted(entries, k, v), k)] == (k, v),
        inserted(entries, k, v).len() == if has_key(entries, k) {
            entries.len()
        } else {
            entries.len() + 1
        },
        forall|k2: Seq<char>| k2 != k ==> has_key(inserted(entries, k, v), k2) == has_key(entries, k2),
{
    let after = inserted(entries, k, v);
    if has_key(entries, k) {
        let i = index_of(entries, k);
        lemma_update_keeps_distinct(entries, i, v);
        assert(entries.update(i, (entries[i].0, v)) == after);
        lemma_index_of(after, k, i);
        assert forall|k2: Seq<char>| k2 != k implies has_key(after, k2) == has_key(entries, k2) by {
            if has_key(entries, k2) {
                let j = choose|j: int| 0 <= j < entries.len() && #[trigger] entries[j].0 == k2;
                assert(after[j].0 == k2);
            }
            if has_key(after, k2) {
                let j = choose|j: int| 0 <= j < after.len() && #[trigger] after[j].0 == k2;
                assert(entries[j].0 == k2);
            }
        }
    } else {
        lemma_push_keeps_distinct(entries, k, v);
        lemma_index_of(after, k, entries.len() as int);
        assert forall|k2: Seq<char>| k2 != k implies has_key(after, k2) == has_key(entries, k2) by {
            if has_key(entries, k2) {
                let j = choose|j: int| 0 <= j < entries.len() && #[trigger] entries[j].0 == k2;
                assert(after[j].0 == k2);
            }
            if has_key(after, k2) {
                let j = choose|j: int| 0 <= j < after.len() && #[trigger] after[j].0 == k2;
                assert(entries[j].0 == k2);
            }
        }
    }
}

/// Law: after the entry with a key is taken out, the key is gone, one entry
/// fewer remains if it was there, no other key comes or goes, and taking it
/// out again changes nothing.
pub proof fn law_without_key<V>(entries: Seq<(Seq<char>, V)>, k: Seq<char>)
    requires
        keys_distinct(entries),
    ensures
        keys_distinct(without_key(entries, k)),
        !has_key(without_key(entries, k), k),
        without_key(entries, k).len() == if has_key(entries, k) {
            entries.len() - 1
        } else {
            entries.len() as int
        },
        forall|k2: Seq<char>|
            k2 != k ==> has_key(without_key(entries, k), k2) == has_key(entries, k2),
        without_key(without_key(entries, k), k) == without_key(entries, k),
{
    let after = without_key(entries, k);
    if has_key(entries, k) {
        let i = index_of(entries, k);
        lemma_remove_keeps_distinct(entries, i);
        assert(!has_key(after, k)) by {
            if has_key(after, k) {
                let j = choose|j: int| 0 <= j < after.len() && #[trigger] after[j].0 == k;
                let j0 = if j < i { j } else { j + 1 };
                assert(after[j] == entries[j0]);
                lemma_index_of(entries, k, j0);
            }
        }
        assert forall|k2: Seq<char>| k2 != k implies has_key(after, k2) == has_key(entries, k2) by {
            if has_key(entries, k2) {
                let j = choose|j: int| 0 <= j < entries.len() && #[trigger] entries[j].0 == k2;
                assert(j != i);
                let j1 = if j < i { j } else { j - 1 };
                assert(after[j1] == entries[j]);
            }
            if has_key(after, k2) {
                let j = choose|j: int| 0 <= j < after.len() && #[trigger] after[j].0 == k2;
                let j0 = if j < i { j } else { j + 1 };
                assert(after[j] == entries[j0]);
            }
        }
    }
}

/// Law: taking out the entry at index `i` (the one with key `k`) keeps the
/// others in their order: those before `i` stay where they are, those after it
/// move down by exactly one.
pub proof fn law_without_key_keeps_order<V>(entries: Seq<(Seq<char>, V)>, k: Seq<char>, i: int)
    requires
        keys_distinct(entries),
        0 <= i < entries.len(),
        entries[i].0 == k,
    ensures
        without_key(entries, k).len() == entries.len() - 1,
        forall|j: int| 0 <= j < i ==> #[trigger] without_key(entries, k)[j] == entries[j],
        forall|j: int|
            i < j < entries.len() ==> without_key(entries, k)[j - 1] == #[trigger] entries[j],
{
    lemma_index_of(entries, k, i);
}

/// Law: taking out a key that no entry has changes nothing.
pub proof fn law_without_absent_key<V>(entries: Seq<(Seq<char>, V)>, k: Seq<char>)
    requires
        forall|j: int| 0 <= j < entries.len() ==> #[trigger] entries[j].0 != k,
    ensures
        without_key(entries, k) == entries,
{
}

// ---------------------------------------------------------------------------
// Maps of images
// ---------------------------------------------------------------------------

/// The entries of an `IndexMap<String, Image>`, in the map's order: what the
/// map holds, as the wrappers below state it.
pub uninterp spec fn image_entries(m: IndexMap<String, Image>) -> Seq<(Seq<char>, ImageView)>;

/// Calls `IndexMap::new`; trusted to give a map with no entries.
#[verifier::external_body]
pub(crate) fn image_map_new() -> (m: IndexMap<String, Image>)
    ensures
        image_entries(m) == Seq::<(Seq<char>, ImageView)>::empty(),
{
    IndexMap::new()
}

/// Calls `IndexMap::len`; trusted to give the number of entries.
#[verifier::external_body]
pub(crate) fn image_map_len(m: &IndexMap<String, Image>) -> (n: usize)
    ensures
        n == image_entries(*m).len(),
{
    m.len()
}

/// Calls `IndexMap::get_index`; trusted to give the key and value at
/// `index`, or `None` past the last entry.
#[verifier::external_body]
pub(crate) fn image_map_get_index(m: &IndexMap<String, Image>, index: usize) -> (r: Option<(&String, &Image)>)
    ensures
        index < image_entries(*m).len() ==> r is Some,
        index < image_entries(*m).len() ==> r.unwrap().0@ == image_entries(*m)[index as int].0,
        index < image_entries(*m).len() ==> r.unwrap().1@ == image_entries(*m)[index as int].1,
        index >= image_entries(*m).len() ==> r is None,
{
    m.get_index(index)
}

/// Calls `IndexMap::contains_key`; trusted to tell whether an entry has the key `key`.
#[verifier::external_body]
pub(crate) fn image_map_contains_key(m: &IndexMap<String, Image>, key: &str) -> (r: bool)
    ensures
        r == has_key(image_entries(*m), key@),
{
    m.contains_key(key)
}

/// Calls `IndexMap::insert`; trusted to behave as its documentation says: a
/// present key keeps its place and takes the new value (the old value is
/// returned); a new key is appended last (and `None` returned).
#[verifier::external_body]
pub(crate) fn image_map_insert(m: &mut IndexMap<String, Image>, key: String, value: Image) -> (r:
    Option<Image>)
    requires
        keys_distinct(image_entries(*old(m))),
    ensures
        has_key(image_entries(*old(m)), key@) ==> exists|i: int|
            0 <= i < image_entries(*old(m)).len() && image_entries(*old(m))[i].0 == key@
                && image_entries(*final(m)) == image_entries(*old(m)).update(i, (key@, value@))
                && r is Some && r.unwrap()@ == image_entries(*old(m))[i].1,
        !has_key(image_entries(*old(m)), key@) ==> image_entries(*final(m)) == image_entries(
            *old(m),
        ).push((key@, value@)) && r is None,
{
    m.insert(key, value)
}

/// Calls `IndexMap::shift_remove_full`; trusted to behave as its documentation
/// says: the entry with key `key` is taken out, the later entries move down
/// by one, and its index, key and value are returned (`None`, and no change,
/// when no entry has the key).
#[verifier::external_body]
pub(crate) fn image_map_shift_remove_full(m: &mut IndexMap<String, Image>, key: &str) -> (r:
    Option<(usize, String, Image)>)
    requires
        keys_distinct(image_entries(*old(m))),
    ensures
        ({
            let before = image_entries(*old(m));
            let after = image_entries(*final(m));
            match r {
                Some((i, k, v)) => {
                    &&& i < before.len()
                    &&& before[i as int].0 == key@
                    &&& k@ == key@
                    &&& v@ == before[i as int].1
                    &&& after == before.remove(i as int)
                },
                None => !has_key(before, key@) && after == before,
            }
        }),
{
    m.shift_remove_full(key)
}

// ---------------------------------------------------------------------------
// Maps of container references
// ---------------------------------------------------------------------------

/// The entries of an `IndexMap<String, ContainerRef>`, in the map's order:
/// what the map holds, as the wrappers below state it.
pub uninterp spec fn container_entries(m: IndexMap<String, ContainerRef>) -> Seq<
    (Seq<char>, ContainerRefView),
>;

/// Calls `IndexMap::new`; trusted to give a map with no entries.
#[verifier::external_body]
pub(crate) fn container_map_new() -> (m: IndexMap<String, ContainerRef>)
    ensures
        container_entries(m) == Seq::<(Seq<char>, ContainerRefView)>::empty(),
{
    IndexMap::new()
}

/// Calls `IndexMap::len`; trusted to give the number of entries.
#[verifier::external_body]
pub(crate) fn container_map_len(m: &IndexMap<String, ContainerRef>) -> (n: usize)
    ensures
        n == container_entries(*m).len(),
{
    m.len()
}

/// Calls `IndexMap::get_index`; trusted to give the key and value at
/// `index`, or `None` past the last entry.
#[verifier::external_body]
pub(crate) fn container_map_get_index(m: &IndexMap<String, ContainerRef>, index: usize) -> (r: Option<(&String, &ContainerRef)>)
    ensures
        index < container_entries(*m).len() ==> r is Some,
        index < container_entries(*m).len() ==> r.unwrap().0@ == container_entries(*m)[index as int].0,
        index < container_entries(*m).len() ==> r.unwrap().1@ == container_entries(*m)[index as int].1,
        index >= container_entries(*m).len() ==> r is None,
{
    m.get_index(index)
}

/// Calls `IndexMap::contains_key`; trusted to tell whether an entry has the key `key`.
#[verifier::external_body]
pub(crate) fn container_map_contains_key(m: &IndexMap<String, ContainerRef>, key: &str) -> (r: bool)
    ensures
        r == has_key(container_entries(*m), key@),
{
    m.contains_key(key)
}

/// Calls `IndexMap::insert_full`; trusted to behave as its documentation says:
/// a present key keeps its place and takes the new value; a new key is
/// appended last. Returns the entry's index and the old value, if any.
#[verifier::external_body]
pub(crate) fn container_map_insert_full(
    m: &mut IndexMap<String, ContainerRef>,
    key: String,
    value: ContainerRef,
) -> (r: (usize, Option<ContainerRef>))
    requires
        keys_distinct(container_entries(*old(m))),
    ensures
        has_key(container_entries(*old(m)), key@) ==> r.0 < container_entries(*old(m)).len()
            && container_entries(*old(m))[r.0 as int].0 == key@ && container_entries(*final(m))
            == container_entries(*old(m)).update(r.0 as int, (key@, value@)) && r.1 is Some
            && r.1.unwrap()@ == container_entries(*old(m))[r.0 as int].1,
        !has_key(container_entries(*old(m)), key@) ==> r.0 == container_entries(*old(m)).len()
            && container_entries(*final(m)) == container_entries(*old(m)).push((key@, value@))
            && r.1 is None,
{
    m.insert_full(key, value)
}

/// Calls `IndexMap::shift_remove_full`; trusted to behave as its documentation
/// says: the entry with key `key` is taken out, the later entries move down
/// by one, and its index, key and value are returned (`None`, and no change,
/// when no entry has the key).
#[verifier::external_body]
pub(crate) fn container_map_shift_remove_full(m: &mut IndexMap<String, ContainerRef>, key: &str) -> (r:
    Option<(usize, String, ContainerRef)>)
    requires
        keys_distinct(container_entries(*old(m))),
    ensures
        ({
            let before = container_entries(*old(m));
            let after = container_entries(*final(m));
            match r {
                Some((i, k, v)) => {
                    &&& i < before.len()
                    &&& before[i as int].0 == key@
                    &&& k@ == key@
                    &&& v@ == before[i as int].1
                    &&& after == before.remove(i as int)
                },
                None => !has_key(before, key@) && after == before,
            }
        }),
{
    m.shift_remove_full(key)
}

} // verus!
