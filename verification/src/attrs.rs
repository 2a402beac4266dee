//! Attribute maps: insertion-ordered `name -> value` maps with unique keys,
//! backed by `indexmap::IndexMap`.
//!
//! The map itself is opaque; [`attr_entries`] names its contents as a
//! sequence of `(name, value)` pairs in insertion order, and the wrappers
//! below state, over that name, what the `indexmap` operations the printer
//! and the document builder rely on do.

use indexmap::IndexMap;
use vstd::prelude::*;

verus! {

#[verifier::external_type_specification]
#[verifier::external_body]
#[verifier::reject_recursive_types(K)]
#[verifier::reject_recursive_types(V)]
#[verifier::reject_recursive_types(S)]
pub struct ExIndexMap<K, V, S>(IndexMap<K, V, S>);

/// The contents of an attribute map: its `(name, value)` pairs in insertion
/// order. Keys are unique; the wrappers below pin down how each operation
/// changes this sequence.
pub uninterp spec fn attr_entries(m: IndexMap<String, String>) -> Seq<(Seq<char>, Seq<char>)>;

/// The position of a key among entries, or -1 when it is absent.
pub open spec fn find_key(entries: Seq<(Seq<char>, Seq<char>)>, k: Seq<char>) -> int
    decreases entries.len(),
{
    if entries.len() == 0 {
        -1
    } else if entries[0].0 == k {
        0
    } else {
        let r = find_key(entries.drop_first(), k);
        if r < 0 {
            -1
        } else {
            r + 1
        }
    }
}

/// What inserting a pair does to the entries: an existing key keeps its
/// position and takes the new value; a new key is appended at the end.
pub open spec fn insert_entry(
    entries: Seq<(Seq<char>, Seq<char>)>,
    k: Seq<char>,
    v: Seq<char>,
) -> Seq<(Seq<char>, Seq<char>)> {
    if find_key(entries, k) >= 0 {
        entries.update(find_key(entries, k), (k, v))
    } else {
        entries.push((k, v))
    }
}

/// Relies on `IndexMap::new`: creates a map with no entries.
#[verifier::external_body]
pub fn attrs_new() -> (m: IndexMap<String, String>)
    ensures
        attr_entries(m) == Seq::<(Seq<char>, Seq<char>)>::empty(),
{
    IndexMap::new()
}

/// Relies on `IndexMap::len`: returns the number of entries.
#[verifier::external_body]
pub fn attrs_len(m: &IndexMap<String, String>) -> (n: usize)
    ensures
        n == attr_entries(*m).len(),
{
    m.len()
}

/// Relies on `IndexMap::get_index`: returns the entry at the given position
/// in insertion order, or nothing when the position is past the end.
#[verifier::external_body]
pub fn attrs_get_index(m: &IndexMap<String, String>, i: usize) -> (r: Option<(String, String)>)
    ensures
        match r {
            Some(kv) => i < attr_entries(*m).len() && kv.0@ == attr_entries(*m)[i as int].0
                && kv.1@ == attr_entries(*m)[i as int].1,
            None => i >= attr_entries(*m).len(),
        },
{
    m.get_index(i).map(|(k, v)| (k.clone(), v.clone()))
}

/// Relies on `IndexMap::insert`: an equivalent key keeps its place in the
/// order and its value is updated; otherwise the pair is appended last.
#[verifier::external_body]
pub fn attrs_insert(m: &mut IndexMap<String, String>, k: String, v: String)
    ensures
        attr_entries(*final(m)) == insert_entry(attr_entries(*old(m)), k@, v@),
{
    m.insert(k, v);
}

} // verus!
