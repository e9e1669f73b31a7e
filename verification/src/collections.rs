//! Insertion-ordered collections from the `indexmap` crate, with the contracts
//! that the rest of the library relies on.
use vstd::prelude::*;
use indexmap::IndexMap;
use indexmap::IndexSet;
use crate::expression::Expression;

verus! {

/// `indexmap::IndexMap`, a hash map that keeps its entries in the order in
/// which their keys were first inserted. Nothing is known of what a map holds
/// but through [`map_entries`] and [`override_entries`].
#[verifier::external_type_specification]
#[verifier::external_body]
#[verifier::reject_recursive_types(K)]
#[verifier::reject_recursive_types(V)]
#[verifier::reject_recursive_types(S)]
pub struct ExIndexMap<K, V, S>(IndexMap<K, V, S>);

/// `indexmap::IndexSet`, a hash set that keeps its members in the order in
/// which they were first inserted. Nothing is known of what a set holds but
/// through [`set_members`].
#[verifier::external_type_specification]
#[verifier::external_body]
#[verifier::reject_recursive_types(T)]
#[verifier::reject_recursive_types(S)]
pub struct ExIndexSet<T, S>(IndexSet<T, S>);

/// The entries of an `IndexMap` from names to expressions, in the order in
/// which `IndexMap::iter` yields them: that of the first insertion of each key.
pub uninterp spec fn map_entries(m: IndexMap<String, Expression>) -> Seq<(Seq<char>, Expression)>;

/// The entries of an `IndexMap` from pairs of names to maps, in the order in
/// which `IndexMap::iter` yields them.
pub uninterp spec fn override_entries(
    m: IndexMap<(String, String), IndexMap<String, Expression>>,
) -> Seq<((Seq<char>, Seq<char>), IndexMap<String, Expression>)>;

/// The members of an `IndexSet` of names, in the order in which
/// `IndexSet::iter` yields them: that of their first insertion.
pub uninterp spec fn set_members(s: IndexSet<String>) -> Seq<Seq<char>>;

/// The position of the first entry with the given key, or the number of entries
/// when there is none.
pub open spec fn position_of_key<V>(entries: Seq<(Seq<char>, V)>, key: Seq<char>) -> int
    decreases entries.len(),
{
    if entries.len() == 0 {
        0
    } else if entries[0].0 == key {
        0
    } else {
        1 + position_of_key(entries.drop_first(), key)
    }
}

/// The value stored under a key, if any.
pub open spec fn lookup<V>(entries: Seq<(Seq<char>, V)>, key: Seq<char>) -> Option<V> {
    let i = position_of_key(entries, key);
    if 0 <= i < entries.len() {
        Some(entries[i].1)
    } else {
        None
    }
}

/// The map stored under a pair of names, if any.
pub open spec fn override_lookup(
    entries: Seq<((Seq<char>, Seq<char>), IndexMap<String, Expression>)>,
    first: Seq<char>,
    second: Seq<char>,
) -> Option<IndexMap<String, Expression>>
    decreases entries.len(),
{
    if entries.len() == 0 {
        None
    } else if entries[0].0 == (first, second) {
        Some(entries[0].1)
    } else {
        override_lookup(entries.drop_first(), first, second)
    }
}

/// The entries after inserting a key with a value: an entry with that key keeps
/// its place and takes the new value, otherwise the pair goes last.
pub open spec fn with_entry<V>(entries: Seq<(Seq<char>, V)>, key: Seq<char>, value: V) -> Seq<
    (Seq<char>, V),
> {
    let i = position_of_key(entries, key);
    if 0 <= i < entries.len() {
        entries.update(i, (key, value))
    } else {
        entries.push((key, value))
    }
}

/// The members after inserting a name: a name already present changes nothing,
/// otherwise it goes last.
pub open spec fn with_member(members: Seq<Seq<char>>, name: Seq<char>) -> Seq<Seq<char>> {
    if members.contains(name) {
        members
    } else {
        members.push(name)
    }
}

/// `IndexMap::new`: the new map has no entries.
#[verifier::external_body]
pub(crate) fn new_map() -> (m: IndexMap<String, Expression>)
    ensures
        map_entries(m) == Seq::<(Seq<char>, Expression)>::empty(),
{
    IndexMap::new()
}

/// `IndexMap::insert`: an equivalent key keeps its place in the order and gets
/// the new value; a new key is appended last.
#[verifier::external_body]
pub(crate) fn map_insert(m: &mut IndexMap<String, Expression>, key: String, value: Expression)
    ensures
        map_entries(*final(m)) == with_entry(map_entries(*old(m)), key@, value),
{
    m.insert(key, value);
}

/// `IndexMap::get`: the value stored for the key, if the key is present.
#[verifier::external_body]
pub(crate) fn map_get<'a>(m: &'a IndexMap<String, Expression>, key: &str) -> (r: Option<
    &'a Expression,
>)
    ensures
        match r {
            Some(v) => lookup(map_entries(*m), key@) == Some(*v),
            None => lookup(map_entries(*m), key@) is None,
        },
{
    m.get(key)
}

/// `IndexMap::get` with a pair of names as key: the map stored for the pair,
/// if the pair is present.
#[verifier::external_body]
pub(crate) fn overrides_get<'a>(
    m: &'a IndexMap<(String, String), IndexMap<String, Expression>>,
    first: &str,
    second: &str,
) -> (r: Option<&'a IndexMap<String, Expression>>)
    ensures
        match r {
            Some(v) => override_lookup(override_entries(*m), first@, second@) == Some(*v),
            None => override_lookup(override_entries(*m), first@, second@) is None,
        },
{
    m.get(&(first.to_string(), second.to_string()))
}

/// `IndexSet::new`: the new set has no members.
#[verifier::external_body]
pub(crate) fn new_set() -> (s: IndexSet<String>)
    ensures
        set_members(s) == Seq::<Seq<char>>::empty(),
{
    IndexSet::new()
}

/// `IndexSet::insert`: an equivalent member leaves the set and its order
/// unchanged; a new member is appended last. The result tells whether the value
/// was new.
#[verifier::external_body]
pub(crate) fn set_insert(s: &mut IndexSet<String>, name: String) -> (added: bool)
    ensures
        set_members(*final(s)) == with_member(set_members(*old(s)), name@),
        added == !set_members(*old(s)).contains(name@),
{
    s.insert(name)
}

} // verus!
