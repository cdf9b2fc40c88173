//! The insertion-ordered maps of the configuration, held in `indexmap::IndexMap`.
//!
//! Nothing here is proved: each item states what the `indexmap` source shows of
//! the method it calls, over names for what a map holds.
use indexmap::IndexMap;
use vstd::prelude::*;

use crate::config::{DependencyCondition, ProcessConfig, ProcessConfigView};

verus! {

#[verifier::external_type_specification]
#[verifier::external_body]
#[verifier::reject_recursive_types(K)]
#[verifier::reject_recursive_types(V)]
#[verifier::reject_recursive_types(S)]
pub struct ExIndexMap<K, V, S>(IndexMap<K, V, S>);

/// An entry of a map of processes, borrowed.
pub type ProcessEntry<'a> = (&'a String, &'a ProcessConfig);

/// An entry of a map of dependencies, borrowed.
pub type DependencyEntry<'a> = (&'a String, &'a DependencyCondition);

/// What a map of processes holds: its entries in insertion order, each a key and
/// the model of its value.
pub uninterp spec fn process_entries(m: IndexMap<String, ProcessConfig>) -> Seq<(Seq<char>, ProcessConfigView)>;

/// What a map of dependencies holds: its entries in insertion order.
pub uninterp spec fn dependency_entries(m: IndexMap<String, DependencyCondition>) -> Seq<(Seq<char>, DependencyCondition)>;

/// `IndexMap::len` on a map of processes: the number of entries, whose keys are
/// unique, as they are in any `IndexMap`.
#[verifier::external_body]
pub(crate) fn process_count(m: &IndexMap<String, ProcessConfig>) -> (r: usize)
    ensures
        r == process_entries(*m).len(),
        forall|i: int, j: int|
            0 <= i < r && 0 <= j < r && i != j ==> process_entries(*m)[i].0 != process_entries(*m)[j].0,
{
    m.len()
}

/// `IndexMap::get_index` on a map of processes: the entry at a position, if the
/// position is below the length.
#[verifier::external_body]
pub(crate) fn process_at(m: &IndexMap<String, ProcessConfig>, i: usize) -> (r: Option<ProcessEntry<'_>>)
    ensures
        i < process_entries(*m).len() ==> (r is Some && (r->0).0@ == process_entries(*m)[i as int].0 && (r->0).1@ == process_entries(*m)[i as int].1),
        i >= process_entries(*m).len() ==> r is None,
{
    m.get_index(i)
}

/// `IndexMap::get_index_of` on a map of processes: the position of the one entry
/// whose key equals `key`, or `None` where there is no such entry. Keys of an
/// `IndexMap` are unique.
#[verifier::external_body]
pub(crate) fn process_index_of(m: &IndexMap<String, ProcessConfig>, key: &str) -> (r: Option<usize>)
    ensures
        match r {
            Some(i) => i < process_entries(*m).len() && process_entries(*m)[i as int].0 == key@
                && forall|j: int| 0 <= j < process_entries(*m).len() && j != i ==> process_entries(*m)[j].0 != key@,
            None => forall|j: int| 0 <= j < process_entries(*m).len() ==> process_entries(*m)[j].0 != key@,
        },
{
    m.get_index_of(key)
}

/// `IndexMap::len` on a map of dependencies.
#[verifier::external_body]
pub(crate) fn dependency_count(m: &IndexMap<String, DependencyCondition>) -> (r: usize)
    ensures
        r == dependency_entries(*m).len(),
{
    m.len()
}

/// `IndexMap::get_index` on a map of dependencies.
#[verifier::external_body]
pub(crate) fn dependency_at(m: &IndexMap<String, DependencyCondition>, i: usize) -> (r: Option<DependencyEntry<'_>>)
    ensures
        i < dependency_entries(*m).len() ==> (r is Some && (r->0).0@ == dependency_entries(*m)[i as int].0 && *(r->0).1 == dependency_entries(*m)[i as int].1),
        i >= dependency_entries(*m).len() ==> r is None,
{
    m.get_index(i)
}

/// `IndexMap::clone` on a map of dependencies: keys are `String`s and values are
/// `Copy`, so the copy holds equal entries in the same order.
#[verifier::external_body]
pub(crate) fn dependency_clone(m: &IndexMap<String, DependencyCondition>) -> (r: IndexMap<String, DependencyCondition>)
    ensures
        dependency_entries(r) == dependency_entries(*m),
{
    m.clone()
}

} // verus!
