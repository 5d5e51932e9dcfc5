//! The genome's two insertion-ordered maps are `indexmap::IndexMap`s.
//! This module is the trusted boundary around them: the contents of each
//! map are named as a sequence of key/value entries, and every method
//! the library calls is wrapped with a contract over that sequence,
//! stated as the `indexmap` documentation gives it.  Everything built on
//! top (key uniqueness, reference integrity, insertion order) is proved
//! in verified code from these contracts.

use vstd::prelude::*;
use indexmap::IndexMap;
use crate::gene::{ConnectionGene, NeuronGene};

verus! {

#[verifier::external_type_specification]
#[verifier::external_body]
#[verifier::reject_recursive_types(K)]
#[verifier::reject_recursive_types(V)]
#[verifier::reject_recursive_types(S)]
pub struct ExIndexMap<K, V, S>(IndexMap<K, V, S>);

/// The entries of a neuron map, in insertion order.
pub uninterp spec fn neuron_entries(m: IndexMap<usize, NeuronGene>) -> Seq<(usize, NeuronGene)>;

/// The entries of a connection map, in insertion order.
pub uninterp spec fn conn_entries(m: IndexMap<(usize, usize), ConnectionGene>) -> Seq<
    ((usize, usize), ConnectionGene),
>;

/// Some entry of `s` carries the key `k`.
pub open spec fn has_key<K, V>(s: Seq<(K, V)>, k: K) -> bool {
    exists|i: int| 0 <= i < s.len() && s[i].0 == k
}

/// No two entries of `s` carry the same key.
pub open spec fn unique_keys<K, V>(s: Seq<(K, V)>) -> bool {
    forall|i: int, j: int| 0 <= i < j < s.len() ==> s[i].0 != s[j].0
}

/// The sequence `t` is `s` with the value at every entry keyed `k`
/// replaced by `v` — with unique keys, the single entry — and a fresh
/// key appended instead when `s` has no such entry.
pub open spec fn upserted<K, V>(s: Seq<(K, V)>, k: K, v: V, t: Seq<(K, V)>) -> bool {
    if has_key(s, k) {
        t.len() == s.len() && forall|i: int|
            0 <= i < s.len() ==> t[i] == (if s[i].0 == k {
                (k, v)
            } else {
                s[i]
            })
    } else {
        t == s.push((k, v))
    }
}

/// Relies on `IndexMap::new`: an empty map.
#[verifier::external_body]
pub(crate) fn nm_new() -> (m: IndexMap<usize, NeuronGene>)
    ensures
        neuron_entries(m) == Seq::<(usize, NeuronGene)>::empty(),
{
    IndexMap::new()
}

/// Relies on `IndexMap::len`: the number of entries.
#[verifier::external_body]
pub(crate) fn nm_len(m: &IndexMap<usize, NeuronGene>) -> (n: usize)
    ensures
        n == neuron_entries(*m).len(),
{
    m.len()
}

/// Relies on `IndexMap::get`: the value stored under a key, if any.
#[verifier::external_body]
pub(crate) fn nm_get(m: &IndexMap<usize, NeuronGene>, k: usize) -> (r: Option<NeuronGene>)
    ensures
        match r {
            Some(v) => exists|i: int|
                0 <= i < neuron_entries(*m).len() && neuron_entries(*m)[i] == (k, v),
            None => !has_key(neuron_entries(*m), k),
        },
{
    m.get(&k).copied()
}

/// Relies on `IndexMap::insert`: an existing key keeps its place and
/// takes the new value; a fresh key is appended, last in order.
#[verifier::external_body]
pub(crate) fn nm_insert(m: &mut IndexMap<usize, NeuronGene>, k: usize, v: NeuronGene)
    ensures
        upserted(neuron_entries(*old(m)), k, v, neuron_entries(*final(m))),
{
    m.insert(k, v);
}

/// Relies on `IndexMap::get_index`: the entry at a position, if any.
#[verifier::external_body]
pub(crate) fn nm_get_index(m: &IndexMap<usize, NeuronGene>, i: usize) -> (r: Option<
    (usize, NeuronGene),
>)
    ensures
        match r {
            Some(p) => i < neuron_entries(*m).len() && p == neuron_entries(*m)[i as int],
            None => i >= neuron_entries(*m).len(),
        },
{
    m.get_index(i).map(|(k, v)| (*k, *v))
}

/// Relies on `IndexMap::get_index_mut`: replace the value at a position,
/// keeping the key and the order.
#[verifier::external_body]
pub(crate) fn nm_set_index(m: &mut IndexMap<usize, NeuronGene>, i: usize, v: NeuronGene)
    ensures
        i < neuron_entries(*old(m)).len() ==> neuron_entries(*final(m)) == neuron_entries(
            *old(m),
        ).update(i as int, (neuron_entries(*old(m))[i as int].0, v)),
        i >= neuron_entries(*old(m)).len() ==> neuron_entries(*final(m)) == neuron_entries(
            *old(m),
        ),
{
    if let Some((_, slot)) = m.get_index_mut(i) {
        *slot = v;
    }
}

/// Relies on `IndexMap::get_index_of`: the position of a key, if any.
#[verifier::external_body]
pub(crate) fn nm_index_of(m: &IndexMap<usize, NeuronGene>, k: usize) -> (r: Option<usize>)
    ensures
        match r {
            Some(i) => i < neuron_entries(*m).len() && neuron_entries(*m)[i as int].0 == k,
            None => !has_key(neuron_entries(*m), k),
        },
{
    m.get_index_of(&k)
}

/// Relies on `IndexMap::clone`: the clone has the same entries in the
/// same order (keys and values are `Copy` here).
#[verifier::external_body]
pub(crate) fn nm_clone(m: &IndexMap<usize, NeuronGene>) -> (r: IndexMap<usize, NeuronGene>)
    ensures
        neuron_entries(r) == neuron_entries(*m),
{
    m.clone()
}

/// Relies on `IndexMap::new`: an empty map.
#[verifier::external_body]
pub(crate) fn cm_new() -> (m: IndexMap<(usize, usize), ConnectionGene>)
    ensures
        conn_entries(m) == Seq::<((usize, usize), ConnectionGene)>::empty(),
{
    IndexMap::new()
}

/// Relies on `IndexMap::len`: the number of entries.
#[verifier::external_body]
pub(crate) fn cm_len(m: &IndexMap<(usize, usize), ConnectionGene>) -> (n: usize)
    ensures
        n == conn_entries(*m).len(),
{
    m.len()
}

/// Relies on `IndexMap::get`: the value stored under a key, if any.
#[verifier::external_body]
pub(crate) fn cm_get(m: &IndexMap<(usize, usize), ConnectionGene>, k: (usize, usize)) -> (r: Option<
    ConnectionGene,
>)
    ensures
        match r {
            Some(v) => exists|i: int|
                0 <= i < conn_entries(*m).len() && conn_entries(*m)[i] == (k, v),
            None => !has_key(conn_entries(*m), k),
        },
{
    m.get(&k).copied()
}

/// Relies on `IndexMap::insert`: an existing key keeps its place and
/// takes the new value; a fresh key is appended, last in order.
#[verifier::external_body]
pub(crate) fn cm_insert(
    m: &mut IndexMap<(usize, usize), ConnectionGene>,
    k: (usize, usize),
    v: ConnectionGene,
)
    ensures
        upserted(conn_entries(*old(m)), k, v, conn_entries(*final(m))),
{
    m.insert(k, v);
}

/// Relies on `IndexMap::get_index`: the entry at a position, if any.
#[verifier::external_body]
pub(crate) fn cm_get_index(m: &IndexMap<(usize, usize), ConnectionGene>, i: usize) -> (r: Option<
    ((usize, usize), ConnectionGene),
>)
    ensures
        match r {
            Some(p) => i < conn_entries(*m).len() && p == conn_entries(*m)[i as int],
            None => i >= conn_entries(*m).len(),
        },
{
    m.get_index(i).map(|(k, v)| (*k, *v))
}

/// Relies on `IndexMap::get_index_mut`: replace the value at a position,
/// keeping the key and the order.
#[verifier::external_body]
pub(crate) fn cm_set_index(
    m: &mut IndexMap<(usize, usize), ConnectionGene>,
    i: usize,
    v: ConnectionGene,
)
    ensures
        i < conn_entries(*old(m)).len() ==> conn_entries(*final(m)) == conn_entries(
            *old(m),
        ).update(i as int, (conn_entries(*old(m))[i as int].0, v)),
        i >= conn_entries(*old(m)).len() ==> conn_entries(*final(m)) == conn_entries(*old(m)),
{
    if let Some((_, slot)) = m.get_index_mut(i) {
        *slot = v;
    }
}

/// Relies on `IndexMap::clone`: the clone has the same entries in the
/// same order (keys and values are `Copy` here).
#[verifier::external_body]
pub(crate) fn cm_clone(m: &IndexMap<(usize, usize), ConnectionGene>) -> (r: IndexMap<
    (usize, usize),
    ConnectionGene,
>)
    ensures
        conn_entries(r) == conn_entries(*m),
{
    m.clone()
}

} // verus!
