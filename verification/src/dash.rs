//! The concurrent maps of the hot store, `dashmap::DashMap`, as the store
//! uses them: each kind of map the store holds has a name for its contents,
//! and each map operation the store calls states what it does to them.
use vstd::prelude::*;
use dashmap::DashMap;
use crate::util::nested_view;

verus! {

#[verifier::external_type_specification]
#[verifier::external_body]
#[verifier::reject_recursive_types(K)]
#[verifier::reject_recursive_types(V)]
#[verifier::reject_recursive_types(S)]
pub struct ExDashMap<K, V, S>(DashMap<K, V, S>);

/// A map from channel lists to continuation lists.
pub type ContMap = DashMap<Vec<u64>, Vec<u64>>;
/// A map from channel lists to one installed continuation.
pub type InstalledMap = DashMap<Vec<u64>, u64>;
/// A map from a channel to its data.
pub type DataMap = DashMap<u64, Vec<u64>>;
/// A map from a channel to the joins it takes part in.
pub type JoinMap = DashMap<u64, Vec<Vec<u64>>>;

/// What a continuation map holds.
pub uninterp spec fn cont_contents(m: DashMap<Vec<u64>, Vec<u64>>) -> Map<Seq<u64>, Seq<u64>>;
/// What an installed-continuation map holds.
pub uninterp spec fn installed_contents(m: DashMap<Vec<u64>, u64>) -> Map<Seq<u64>, u64>;
/// What a data map holds.
pub uninterp spec fn data_contents(m: DashMap<u64, Vec<u64>>) -> Map<u64, Seq<u64>>;
/// What a join map holds.
pub uninterp spec fn join_contents(m: DashMap<u64, Vec<Vec<u64>>>) -> Map<u64, Seq<Seq<u64>>>;

/// The map a list of entries with distinct keys stands for.
pub open spec fn cont_entries_map(s: Seq<(Vec<u64>, Vec<u64>)>) -> Map<Seq<u64>, Seq<u64>> {
    Map::new(|k: Seq<u64>| exists|i: int| 0 <= i < s.len() && #[trigger] s[i].0@ == k,
        |k: Seq<u64>| s[choose|i: int| 0 <= i < s.len() && #[trigger] s[i].0@ == k].1@)
}

pub open spec fn installed_entries_map(s: Seq<(Vec<u64>, u64)>) -> Map<Seq<u64>, u64> {
    Map::new(|k: Seq<u64>| exists|i: int| 0 <= i < s.len() && #[trigger] s[i].0@ == k,
        |k: Seq<u64>| s[choose|i: int| 0 <= i < s.len() && #[trigger] s[i].0@ == k].1)
}

pub open spec fn data_entries_map(s: Seq<(u64, Vec<u64>)>) -> Map<u64, Seq<u64>> {
    Map::new(|k: u64| exists|i: int| 0 <= i < s.len() && #[trigger] s[i].0 == k,
        |k: u64| s[choose|i: int| 0 <= i < s.len() && #[trigger] s[i].0 == k].1@)
}

pub open spec fn join_entries_map(s: Seq<(u64, Vec<Vec<u64>>)>) -> Map<u64, Seq<Seq<u64>>> {
    Map::new(|k: u64| exists|i: int| 0 <= i < s.len() && #[trigger] s[i].0 == k,
        |k: u64| nested_view(s[choose|i: int| 0 <= i < s.len() && #[trigger] s[i].0 == k].1@))
}

/// `DashMap::new` for continuation maps: an empty map.
#[verifier::external_body]
pub(crate) fn cont_map_new() -> (r: DashMap<Vec<u64>, Vec<u64>>)
    ensures
        forall|k: Seq<u64>| !#[trigger] cont_contents(r).contains_key(k),
{
    DashMap::new()
}

/// `DashMap::get` for continuation maps, with the value copied out.
#[verifier::external_body]
pub(crate) fn cont_map_get(m: &ContMap, k: &Vec<u64>) -> (r: Option<Vec<u64>>)
    ensures
        match r {
            Some(v) => cont_contents(*m).contains_key(k@) && v@ == cont_contents(*m)[k@],
            None => !cont_contents(*m).contains_key(k@),
        },
{
    m.get(k).map(|e| e.value().clone())
}

/// `DashMap::insert` for continuation maps: the key now maps to the value.
#[verifier::external_body]
pub(crate) fn cont_map_insert(m: &mut ContMap, k: Vec<u64>, v: Vec<u64>)
    ensures
        cont_contents(*final(m)) == cont_contents(*old(m)).insert(k@, v@),
{
    m.insert(k, v);
}

/// `DashMap::iter` for continuation maps, entries copied out, in the map's
/// order, each key once.
#[verifier::external_body]
pub(crate) fn cont_map_entries(m: &ContMap) -> (r: Vec<(Vec<u64>, Vec<u64>)>)
    ensures
        forall|i: int, j: int| 0 <= i < r@.len() && 0 <= j < r@.len() && i != j ==> #[trigger] r@[i].0@ != #[trigger] r@[j].0@,
        cont_entries_map(r@) == cont_contents(*m),
{
    m.iter().map(|e| (e.key().clone(), e.value().clone())).collect()
}

/// `DashMap::clone` for continuation maps: the same contents.
#[verifier::external_body]
pub(crate) fn cont_map_clone(m: &ContMap) -> (r: DashMap<Vec<u64>, Vec<u64>>)
    ensures
        cont_contents(r) == cont_contents(*m),
{
    m.clone()
}

/// `DashMap::new` for installed-continuation maps.
#[verifier::external_body]
pub(crate) fn installed_map_new() -> (r: DashMap<Vec<u64>, u64>)
    ensures
        forall|k: Seq<u64>| !#[trigger] installed_contents(r).contains_key(k),
{
    DashMap::new()
}

/// `DashMap::get` for installed-continuation maps.
#[verifier::external_body]
pub(crate) fn installed_map_get(m: &InstalledMap, k: &Vec<u64>) -> (r: Option<u64>)
    ensures
        match r {
            Some(v) => installed_contents(*m).contains_key(k@) && v == installed_contents(*m)[k@],
            None => !installed_contents(*m).contains_key(k@),
        },
{
    m.get(k).map(|e| *e.value())
}

/// `DashMap::insert` for installed-continuation maps.
#[verifier::external_body]
pub(crate) fn installed_map_insert(m: &mut InstalledMap, k: Vec<u64>, v: u64)
    ensures
        installed_contents(*final(m)) == installed_contents(*old(m)).insert(k@, v),
{
    m.insert(k, v);
}

/// `DashMap::iter` for installed-continuation maps, entries copied out, in
/// the map's order, each key once.
#[verifier::external_body]
pub(crate) fn installed_map_entries(m: &InstalledMap) -> (r: Vec<(Vec<u64>, u64)>)
    ensures
        forall|i: int, j: int| 0 <= i < r@.len() && 0 <= j < r@.len() && i != j ==> #[trigger] r@[i].0@ != #[trigger] r@[j].0@,
        installed_entries_map(r@) == installed_contents(*m),
{
    m.iter().map(|e| (e.key().clone(), *e.value())).collect()
}

/// `DashMap::clone` for installed-continuation maps.
#[verifier::external_body]
pub(crate) fn installed_map_clone(m: &InstalledMap) -> (r: DashMap<Vec<u64>, u64>)
    ensures
        installed_contents(r) == installed_contents(*m),
{
    m.clone()
}

/// `DashMap::new` for data maps.
#[verifier::external_body]
pub(crate) fn data_map_new() -> (r: DashMap<u64, Vec<u64>>)
    ensures
        forall|k: u64| !#[trigger] data_contents(r).contains_key(k),
{
    DashMap::new()
}

/// `DashMap::get` for data maps.
#[verifier::external_body]
pub(crate) fn data_map_get(m: &DataMap, k: u64) -> (r: Option<Vec<u64>>)
    ensures
        match r {
            Some(v) => data_contents(*m).contains_key(k) && v@ == data_contents(*m)[k],
            None => !data_contents(*m).contains_key(k),
        },
{
    m.get(&k).map(|e| e.value().clone())
}

/// `DashMap::insert` for data maps.
#[verifier::external_body]
pub(crate) fn data_map_insert(m: &mut DataMap, k: u64, v: Vec<u64>)
    ensures
        data_contents(*final(m)) == data_contents(*old(m)).insert(k, v@),
{
    m.insert(k, v);
}

/// `DashMap::iter` for data maps.
#[verifier::external_body]
pub(crate) fn data_map_entries(m: &DataMap) -> (r: Vec<(u64, Vec<u64>)>)
    ensures
        forall|i: int, j: int| 0 <= i < r@.len() && 0 <= j < r@.len() && i != j ==> #[trigger] r@[i].0 != #[trigger] r@[j].0,
        data_entries_map(r@) == data_contents(*m),
{
    m.iter().map(|e| (*e.key(), e.value().clone())).collect()
}

/// `DashMap::clone` for data maps.
#[verifier::external_body]
pub(crate) fn data_map_clone(m: &DataMap) -> (r: DashMap<u64, Vec<u64>>)
    ensures
        data_contents(r) == data_contents(*m),
{
    m.clone()
}

/// `DashMap::new` for join maps.
#[verifier::external_body]
pub(crate) fn join_map_new() -> (r: DashMap<u64, Vec<Vec<u64>>>)
    ensures
        forall|k: u64| !#[trigger] join_contents(r).contains_key(k),
{
    DashMap::new()
}

/// `DashMap::get` for join maps.
#[verifier::external_body]
pub(crate) fn join_map_get(m: &JoinMap, k: u64) -> (r: Option<Vec<Vec<u64>>>)
    ensures
        match r {
            Some(v) => join_contents(*m).contains_key(k) && nested_view(v@) == join_contents(*m)[k],
            None => !join_contents(*m).contains_key(k),
        },
{
    m.get(&k).map(|e| e.value().clone())
}

/// `DashMap::insert` for join maps.
#[verifier::external_body]
pub(crate) fn join_map_insert(m: &mut JoinMap, k: u64, v: Vec<Vec<u64>>)
    ensures
        join_contents(*final(m)) == join_contents(*old(m)).insert(k, nested_view(v@)),
{
    m.insert(k, v);
}

/// `DashMap::iter` for join maps.
#[verifier::external_body]
pub(crate) fn join_map_entries(m: &JoinMap) -> (r: Vec<(u64, Vec<Vec<u64>>)>)
    ensures
        forall|i: int, j: int| 0 <= i < r@.len() && 0 <= j < r@.len() && i != j ==> #[trigger] r@[i].0 != #[trigger] r@[j].0,
        join_entries_map(r@) == join_contents(*m),
{
    m.iter().map(|e| (*e.key(), e.value().clone())).collect()
}

/// `DashMap::clone` for join maps.
#[verifier::external_body]
pub(crate) fn join_map_clone(m: &JoinMap) -> (r: DashMap<u64, Vec<Vec<u64>>>)
    ensures
        join_contents(r) == join_contents(*m),
{
    m.clone()
}

} // verus!
