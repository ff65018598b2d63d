//! Insertion-ordered maps and sets of the `indexmap` crate, as this library
//! sees them: a sequence of entries without a repeated key.
//!
//! What a collection holds is given a name here, and each method that the
//! library calls is wrapped in a function whose contract tells, over those
//! names, what `indexmap` documents of it. These contracts are taken on
//! trust; everything else in the library is proved from them.

use indexmap::IndexMap;
use indexmap::IndexSet;
use vstd::prelude::*;

verus! {

#[verifier::external_type_specification]
#[verifier::external_body]
#[verifier::reject_recursive_types(K)]
#[verifier::reject_recursive_types(V)]
#[verifier::reject_recursive_types(S)]
pub struct ExIndexMap<K, V, S>(IndexMap<K, V, S>);

#[verifier::external_type_specification]
#[verifier::external_body]
#[verifier::reject_recursive_types(T)]
#[verifier::reject_recursive_types(S)]
pub struct ExIndexSet<T, S>(IndexSet<T, S>);

/// The index of the first entry under `key`, or the number of entries where
/// there is none.
pub open spec fn key_index<K, V>(entries: Seq<(K, V)>, key: K) -> int
    decreases entries.len(),
{
    if entries.len() == 0 {
        0
    } else {
        let before = key_index(entries.drop_last(), key);
        if before < entries.len() - 1 {
            before
        } else if entries.last().0 == key {
            entries.len() - 1
        } else {
            entries.len() as int
        }
    }
}

/// Whether some entry stands under `key`.
pub open spec fn has_key<K, V>(entries: Seq<(K, V)>, key: K) -> bool {
    key_index(entries, key) < entries.len()
}

/// The value under `key`, if there is one.
pub open spec fn lookup<K, V>(entries: Seq<(K, V)>, key: K) -> Option<V> {
    if has_key(entries, key) {
        Some(entries[key_index(entries, key)].1)
    } else {
        None
    }
}

/// The entries after `key` was set to `value`: an entry under `key` keeps its
/// place and takes the new value, a new key goes last.
pub open spec fn inserted<K, V>(entries: Seq<(K, V)>, key: K, value: V) -> Seq<(K, V)> {
    if has_key(entries, key) {
        entries.update(key_index(entries, key), (key, value))
    } else {
        entries.push((key, value))
    }
}

/// The entries after `key` was set to `value` in front of the entry at
/// `index`: a new key goes exactly there; an entry under `key` moves there,
/// or one place lower where it stood before `index`, and takes the new value.
pub open spec fn inserted_before<K, V>(entries: Seq<(K, V)>, index: int, key: K, value: V) -> Seq<
    (K, V),
> {
    let found = key_index(entries, key);
    if has_key(entries, key) {
        let target = if index > found {
            index - 1
        } else {
            index
        };
        entries.remove(found).insert(target, (key, value))
    } else {
        entries.insert(index, (key, value))
    }
}

/// The items after `item` was added: nothing changes where it is there
/// already, else it goes last.
pub open spec fn added<T>(items: Seq<T>, item: T) -> Seq<T> {
    if items.contains(item) {
        items
    } else {
        items.push(item)
    }
}

/// `key_index` is the least index under which `key` stands.
pub proof fn lemma_key_index<K, V>(entries: Seq<(K, V)>, key: K)
    ensures
        0 <= key_index(entries, key) <= entries.len(),
        has_key(entries, key) ==> entries[key_index(entries, key)].0 == key,
        forall|i: int| 0 <= i < key_index(entries, key) ==> (#[trigger] entries[i]).0 != key,
    decreases entries.len(),
{
    if entries.len() > 0 {
        lemma_key_index(entries.drop_last(), key);
        assert forall|i: int| 0 <= i < key_index(entries, key) implies (#[trigger] entries[i]).0
            != key by {
            if i < entries.len() - 1 {
                assert(entries.drop_last()[i] == entries[i]);
            }
        }
    }
}

/// An entry found under `key` at `index`, with no such entry before it, is
/// where `key_index` points.
pub proof fn lemma_key_index_is<K, V>(entries: Seq<(K, V)>, key: K, index: int)
    requires
        0 <= index < entries.len(),
        entries[index].0 == key,
        forall|i: int| 0 <= i < index ==> (#[trigger] entries[i]).0 != key,
    ensures
        key_index(entries, key) == index,
{
    lemma_key_index(entries, key);
    let found = key_index(entries, key);
    if found > index {
        assert(entries[index].0 != key);
    }
}

/// Where no entry stands under `key`, `key_index` is the number of entries.
pub proof fn lemma_key_absent<K, V>(entries: Seq<(K, V)>, key: K)
    requires
        forall|i: int| 0 <= i < entries.len() ==> (#[trigger] entries[i]).0 != key,
    ensures
        !has_key(entries, key),
{
    lemma_key_index(entries, key);
}

/// What an assignment holds: its entries, in insertion order.
pub uninterp spec fn assignment_entries(map: IndexMap<char, bool>) -> Seq<(char, bool)>;

/// What a row holds: its entries, in insertion order, each key by its characters.
pub uninterp spec fn row_entries(map: IndexMap<String, bool>) -> Seq<(Seq<char>, bool)>;

/// What a set of characters holds: its items, in insertion order.
pub uninterp spec fn set_items(set: IndexSet<char>) -> Seq<char>;

/// `IndexMap::new`: the map it makes holds nothing.
#[verifier::external_body]
pub(crate) fn assignment_new() -> (map: IndexMap<char, bool>)
    ensures
        assignment_entries(map) == Seq::<(char, bool)>::empty(),
{
    IndexMap::new()
}

/// `IndexMap::insert`: an entry under an equal key keeps its place and takes
/// the new value, a new key is put last.
#[verifier::external_body]
pub(crate) fn assignment_insert(map: &mut IndexMap<char, bool>, key: char, value: bool)
    ensures
        assignment_entries(*final(map)) == inserted(assignment_entries(*old(map)), key, value),
{
    map.insert(key, value);
}

/// `IndexMap::get`: the value stored under `key`, if the key is present.
#[verifier::external_body]
pub(crate) fn assignment_get(map: &IndexMap<char, bool>, key: char) -> (value: Option<bool>)
    ensures
        value == lookup(assignment_entries(*map), key),
{
    map.get(&key).copied()
}

/// `IndexMap::new`: the map it makes holds nothing.
#[verifier::external_body]
pub(crate) fn row_new() -> (map: IndexMap<String, bool>)
    ensures
        row_entries(map) == Seq::<(Seq<char>, bool)>::empty(),
{
    IndexMap::new()
}

/// `IndexMap::insert`: an entry under an equal key keeps its place and takes
/// the new value, a new key is put last.
#[verifier::external_body]
pub(crate) fn row_insert(map: &mut IndexMap<String, bool>, key: String, value: bool)
    ensures
        row_entries(*final(map)) == inserted(row_entries(*old(map)), key@, value),
{
    map.insert(key, value);
}

/// `IndexMap::insert_before`: a new key is put exactly at `index`; an entry
/// under an equal key is moved to `index`, or to the place below it where it
/// stood before `index`, and takes the new value. The call panics on an
/// index beyond the number of entries, which `requires` leaves out.
#[verifier::external_body]
pub(crate) fn row_insert_before(
    map: &mut IndexMap<String, bool>,
    index: usize,
    key: String,
    value: bool,
)
    requires
        index <= row_entries(*old(map)).len(),
    ensures
        row_entries(*final(map)) == inserted_before(
            row_entries(*old(map)),
            index as int,
            key@,
            value,
        ),
{
    map.insert_before(index, key, value);
}

/// `IndexMap::len`: the number of entries.
#[verifier::external_body]
pub(crate) fn row_len(map: &IndexMap<String, bool>) -> (len: usize)
    ensures
        len == row_entries(*map).len(),
{
    map.len()
}

/// `IndexMap::get_index`: the entry at `index`, `None` beyond the last one.
#[verifier::external_body]
pub(crate) fn row_get_index(map: &IndexMap<String, bool>, index: usize) -> (entry: Option<
    (&String, bool),
>)
    ensures
        match entry {
            Some((key, value)) => index < row_entries(*map).len() && row_entries(*map)[index as int]
                == (key@, value),
            None => index >= row_entries(*map).len(),
        },
{
    map.get_index(index).map(|(key, value)| (key, *value))
}

/// `IndexSet::new`: the set it makes holds nothing.
#[verifier::external_body]
pub(crate) fn set_new() -> (set: IndexSet<char>)
    ensures
        set_items(set) == Seq::<char>::empty(),
{
    IndexSet::new()
}

/// `IndexSet::insert`: an item that is there already leaves the set as it
/// was, a new one is put last; the result tells whether the item was new.
#[verifier::external_body]
pub(crate) fn set_insert(set: &mut IndexSet<char>, item: char) -> (fresh: bool)
    ensures
        fresh == !set_items(*old(set)).contains(item),
        set_items(*final(set)) == added(set_items(*old(set)), item),
{
    set.insert(item)
}

/// `IndexSet::into_iter`, collected: the items in insertion order.
#[verifier::external_body]
pub(crate) fn set_into_vec(set: IndexSet<char>) -> (items: Vec<char>)
    ensures
        items@ == set_items(set),
{
    set.into_iter().collect()
}

} // verus!
