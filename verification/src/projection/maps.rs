//! The insertion-ordered maps (`indexmap::IndexMap`) that projection
//! definitions hold, with the operations that the definitions use.
use vstd::prelude::*;

use crate::projection::definition::{FieldSpec, HandlerSpec, ScalarFieldSpec};

verus! {

/// `indexmap::IndexMap`, a hash map that keeps its entries in insertion
/// order.
#[verifier::external_type_specification]
#[verifier::external_body]
#[verifier::reject_recursive_types(K)]
#[verifier::reject_recursive_types(V)]
#[verifier::reject_recursive_types(S)]
pub struct ExIndexMap<K, V, S>(indexmap::IndexMap<K, V, S>);

/// `IndexMap::clone` copies the map entry by entry with the keys' and
/// values' own `clone`; nothing is claimed of the copy, since those `clone`s
/// are arbitrary.
pub assume_specification<K, V, S>[ <indexmap::IndexMap<K, V, S> as Clone>::clone ](m: &indexmap::IndexMap<K, V, S>) -> (r: indexmap::IndexMap<K, V, S>)
    where
        K: Clone,
        V: Clone,
        S: Clone,
;

/// The entries of an event-type-to-handler map, in order.
pub uninterp spec fn handler_entries(m: indexmap::IndexMap<String, HandlerSpec>) -> Seq<(Seq<char>, HandlerSpec)>;

/// The entries of a name-to-scalar-field map, in order.
pub uninterp spec fn scalar_entries(m: indexmap::IndexMap<String, ScalarFieldSpec>) -> Seq<(Seq<char>, ScalarFieldSpec)>;

/// The entries of a name-to-field map, in order.
pub uninterp spec fn field_entries(m: indexmap::IndexMap<String, FieldSpec>) -> Seq<(Seq<char>, FieldSpec)>;

/// No key occurs twice among the entries.
pub open spec fn unique_keys<V>(entries: Seq<(Seq<char>, V)>) -> bool {
    forall|i: int, j: int| 0 <= i < j < entries.len() ==> (#[trigger] entries[i]).0 != (#[trigger] entries[j]).0
}

/// Some entry has key `k`.
pub open spec fn has_key<V>(entries: Seq<(Seq<char>, V)>, k: Seq<char>) -> bool {
    exists|i: int| 0 <= i < entries.len() && (#[trigger] entries[i]).0 == k
}

/// The index of the first entry with key `k`, or -1.
pub open spec fn key_index<V>(entries: Seq<(Seq<char>, V)>, k: Seq<char>) -> int
    decreases entries.len(),
{
    if entries.len() == 0 {
        -1
    } else if entries[0].0 == k {
        0
    } else {
        let r = key_index(entries.drop_first(), k);
        if r < 0 { -1 } else { r + 1 }
    }
}

/// The entries after inserting `(k, v)`: an existing key keeps its place and
/// takes the new value; a new key goes last.
pub open spec fn inserted<V>(entries: Seq<(Seq<char>, V)>, k: Seq<char>, v: V) -> Seq<(Seq<char>, V)> {
    let i = key_index(entries, k);
    if i >= 0 {
        entries.update(i, (k, v))
    } else {
        entries.push((k, v))
    }
}

/// `key_index` finds an entry with the key exactly when there is one.
pub proof fn lemma_key_index<V>(entries: Seq<(Seq<char>, V)>, k: Seq<char>)
    ensures
        -1 <= key_index(entries, k) < entries.len(),
        key_index(entries, k) >= 0 ==> entries[key_index(entries, k)].0 == k,
        key_index(entries, k) >= 0 <==> has_key(entries, k),
    decreases entries.len(),
{
    if entries.len() > 0 && entries[0].0 != k {
        let rest = entries.drop_first();
        lemma_key_index(rest, k);
        if has_key(entries, k) {
            let i = choose|i: int| 0 <= i < entries.len() && (#[trigger] entries[i]).0 == k;
            assert(rest[i - 1].0 == k);
        }
        if has_key(rest, k) {
            let i = choose|i: int| 0 <= i < rest.len() && (#[trigger] rest[i]).0 == k;
            assert(entries[i + 1].0 == k);
        }
    } else if entries.len() > 0 {
        assert(entries[0].0 == k);
    }
}

/// Mapping the values of the entries commutes with looking up a key.
pub proof fn lemma_key_index_map<V, W>(entries: Seq<(Seq<char>, V)>, f: spec_fn((Seq<char>, V)) -> (Seq<char>, W), k: Seq<char>)
    requires
        forall|e: (Seq<char>, V)| #[trigger] f(e).0 == e.0,
    ensures
        key_index(entries.map_values(f), k) == key_index(entries, k),
    decreases entries.len(),
{
    if entries.len() > 0 {
        assert(entries.map_values(f)[0] == f(entries[0]));
        assert(entries.map_values(f).drop_first() =~= entries.drop_first().map_values(f));
        lemma_key_index_map(entries.drop_first(), f, k);
    }
}

/// Mapping the values of the entries keeps the keys that occur.
pub proof fn lemma_has_key_map<V, W>(entries: Seq<(Seq<char>, V)>, f: spec_fn((Seq<char>, V)) -> (Seq<char>, W), k: Seq<char>)
    requires
        forall|e: (Seq<char>, V)| #[trigger] f(e).0 == e.0,
    ensures
        has_key(entries.map_values(f), k) == has_key(entries, k),
{
    lemma_key_index_map(entries, f, k);
    lemma_key_index(entries, k);
    lemma_key_index(entries.map_values(f), k);
}

/// Mapping the values of the entries commutes with inserting.
pub proof fn lemma_inserted_map<V, W>(
    entries: Seq<(Seq<char>, V)>,
    f: spec_fn((Seq<char>, V)) -> (Seq<char>, W),
    k: Seq<char>,
    v: V,
)
    requires
        forall|e: (Seq<char>, V)| #[trigger] f(e).0 == e.0,
    ensures
        inserted(entries, k, v).map_values(f) == inserted(entries.map_values(f), k, f((k, v)).1),
{
    lemma_key_index_map(entries, f, k);
    lemma_key_index(entries, k);
    let g = f((k, v));
    assert(g == (k, g.1));
    assert(inserted(entries, k, v).map_values(f) =~= inserted(entries.map_values(f), k, g.1));
}

/// After inserting `(k, v)`, a key is present exactly when it was before or
/// is `k`; the entry of `k` holds `v`; other entries stay where they were.
pub proof fn lemma_inserted_facts<V>(entries: Seq<(Seq<char>, V)>, k: Seq<char>, v: V)
    ensures
        forall|x: Seq<char>| #[trigger] has_key(inserted(entries, k, v), x) == (has_key(entries, x) || x == k),
        key_index(inserted(entries, k, v), k) >= 0,
        inserted(entries, k, v)[key_index(inserted(entries, k, v), k)] == (k, v),
        inserted(entries, k, v).len() >= entries.len(),
        forall|j: int| 0 <= j < entries.len() && (#[trigger] entries[j]).0 != k ==> inserted(entries, k, v)[j] == entries[j],
{
    let r = inserted(entries, k, v);
    lemma_key_index(entries, k);
    lemma_key_index(r, k);
    assert forall|x: Seq<char>| #[trigger] has_key(r, x) == (has_key(entries, x) || x == k) by {
        if has_key(entries, x) {
            let j = choose|j: int| 0 <= j < entries.len() && (#[trigger] entries[j]).0 == x;
            assert(r[j].0 == x);
        }
        if x == k {
            if key_index(entries, k) >= 0 {
                assert(r[key_index(entries, k)].0 == k);
            } else {
                assert(r[entries.len() as int].0 == k);
            }
        }
        if has_key(r, x) {
            let j = choose|j: int| 0 <= j < r.len() && (#[trigger] r[j]).0 == x;
            if x != k {
                assert(entries[j].0 == x);
            }
        }
    }
    if key_index(entries, k) >= 0 {
        assert(r[key_index(entries, k)] == (k, v));
        lemma_key_index_minimal(entries, k);
        lemma_key_index_first(r, k, key_index(entries, k));
    } else {
        assert(r[entries.len() as int] == (k, v));
        assert forall|j: int| 0 <= j < entries.len() implies r[j].0 != k by {
            if r[j].0 == k {
                assert(entries[j].0 == k);
            }
        }
        lemma_key_index_first(r, k, entries.len() as int);
    }
}

/// No entry before `key_index` has the key.
pub proof fn lemma_key_index_minimal<V>(entries: Seq<(Seq<char>, V)>, k: Seq<char>)
    ensures
        forall|j: int| 0 <= j < key_index(entries, k) ==> (#[trigger] entries[j]).0 != k,
    decreases entries.len(),
{
    if entries.len() > 0 && entries[0].0 != k {
        let rest = entries.drop_first();
        lemma_key_index(entries, k);
        lemma_key_index_minimal(rest, k);
        assert forall|j: int| 0 <= j < key_index(entries, k) implies (#[trigger] entries[j]).0 != k by {
            if j > 0 {
                assert(entries[j] == rest[j - 1]);
            }
        }
    }
}

/// The first index of a key: if `k` stands at `i` and at no earlier index,
/// `key_index` finds `i`.
pub proof fn lemma_key_index_first<V>(entries: Seq<(Seq<char>, V)>, k: Seq<char>, i: int)
    requires
        0 <= i < entries.len(),
        entries[i].0 == k,
        forall|j: int| 0 <= j < i ==> (#[trigger] entries[j]).0 != k,
    ensures
        key_index(entries, k) == i,
    decreases i,
{
    if i > 0 {
        let rest = entries.drop_first();
        assert forall|j: int| 0 <= j < i - 1 implies (#[trigger] rest[j]).0 != k by {
            assert(rest[j] == entries[j + 1]);
        }
        assert(entries[0].0 != k);
        lemma_key_index_first(rest, k, i - 1);
    }
}

/// Calls `IndexMap::new`, which creates an empty map.
#[verifier::external_body]
pub(crate) fn new_handler_map() -> (m: indexmap::IndexMap<String, HandlerSpec>)
    ensures
        handler_entries(m) == Seq::<(Seq<char>, HandlerSpec)>::empty(),
{
    indexmap::IndexMap::new()
}

/// Calls `IndexMap::insert`: if the key exists it keeps its place and its
/// value is replaced; otherwise the entry is inserted last.
#[verifier::external_body]
pub(crate) fn insert_handler(m: &mut indexmap::IndexMap<String, HandlerSpec>, key: String, value: HandlerSpec)
    ensures
        handler_entries(*final(m)) == inserted(handler_entries(*old(m)), key@, value),
        unique_keys(handler_entries(*old(m))) ==> unique_keys(handler_entries(*final(m))),
{
    m.insert(key, value);
}

/// Calls `IndexMap::contains_key`, which reports whether an equal key is
/// present.
#[verifier::external_body]
pub(crate) fn handler_map_contains(m: &indexmap::IndexMap<String, HandlerSpec>, key: &String) -> (result: bool)
    ensures
        result == has_key(handler_entries(*m), key@),
{
    m.contains_key(key)
}

/// Calls `IndexMap::new`, which creates an empty map.
#[verifier::external_body]
pub(crate) fn new_scalar_map() -> (m: indexmap::IndexMap<String, ScalarFieldSpec>)
    ensures
        scalar_entries(m) == Seq::<(Seq<char>, ScalarFieldSpec)>::empty(),
{
    indexmap::IndexMap::new()
}

/// Calls `IndexMap::insert`: if the key exists it keeps its place and its
/// value is replaced; otherwise the entry is inserted last.
#[verifier::external_body]
pub(crate) fn insert_scalar(m: &mut indexmap::IndexMap<String, ScalarFieldSpec>, key: String, value: ScalarFieldSpec)
    ensures
        scalar_entries(*final(m)) == inserted(scalar_entries(*old(m)), key@, value),
        unique_keys(scalar_entries(*old(m))) ==> unique_keys(scalar_entries(*final(m))),
{
    m.insert(key, value);
}

/// Calls `IndexMap::len`, the number of entries.
#[verifier::external_body]
pub(crate) fn scalar_map_len(m: &indexmap::IndexMap<String, ScalarFieldSpec>) -> (result: usize)
    ensures
        result == scalar_entries(*m).len(),
{
    m.len()
}

/// Calls `IndexMap::get_index`: the entry at position `index` in insertion
/// order, if there is one.
#[verifier::external_body]
pub(crate) fn scalar_map_get_index(m: &indexmap::IndexMap<String, ScalarFieldSpec>, index: usize) -> (result: Option<(&String, &ScalarFieldSpec)>)
    ensures
        match result {
            Some((k, v)) => index < scalar_entries(*m).len() && scalar_entries(*m)[index as int] == (k@, *v),
            None => index >= scalar_entries(*m).len(),
        },
{
    m.get_index(index)
}

/// Calls `IndexMap::new`, which creates an empty map.
#[verifier::external_body]
pub(crate) fn new_field_map() -> (m: indexmap::IndexMap<String, FieldSpec>)
    ensures
        field_entries(m) == Seq::<(Seq<char>, FieldSpec)>::empty(),
{
    indexmap::IndexMap::new()
}

/// Calls `IndexMap::insert`: if the key exists it keeps its place and its
/// value is replaced; otherwise the entry is inserted last.
#[verifier::external_body]
pub(crate) fn insert_field(m: &mut indexmap::IndexMap<String, FieldSpec>, key: String, value: FieldSpec)
    ensures
        field_entries(*final(m)) == inserted(field_entries(*old(m)), key@, value),
        unique_keys(field_entries(*old(m))) ==> unique_keys(field_entries(*final(m))),
{
    m.insert(key, value);
}

} // verus!
