//! The hot store of the tuple space: the working copy of the continuations,
//! data and joins of the channels in use, in front of the history. A channel
//! not yet in the hot store is read from the history (through a cache) the
//! first time it is needed.
//!
//! Channels, data and continuations are represented by the `u64` values by
//! which the space identifies them.
use vstd::prelude::*;
use crate::dash::{installed_entries_map, installed_map_entries, cont_contents, cont_entries_map, cont_map_clone, cont_map_entries, cont_map_get, cont_map_insert,
    cont_map_new, data_contents, data_entries_map, data_map_clone, data_map_entries, data_map_get, data_map_insert,
    data_map_new, installed_contents, installed_map_clone,
    installed_map_get, installed_map_insert, installed_map_new, join_contents, join_entries_map, join_map_clone,
    join_map_entries, join_map_get, join_map_insert, join_map_new, ContMap, DataMap, InstalledMap, JoinMap};
use crate::util::{copy_nested, copy_vec, nested_view, vec_eq};
use crate::random::random_at_most;

verus! {

/// Reads the history below the hot store; implemented by the users of this
/// library for their storage.
pub trait HistoryReaderBase {
    fn get_continuations(&self, channels: &Vec<u64>) -> Vec<u64>;
    fn get_data(&self, channel: u64) -> Vec<u64>;
    fn get_joins(&self, channel: u64) -> Vec<Vec<u64>>;
}

/// What the maps of a hot store hold.
pub struct HotStoreView {
    pub continuations: Map<Seq<u64>, Seq<u64>>,
    pub installed_continuations: Map<Seq<u64>, u64>,
    pub data: Map<u64, Seq<u64>>,
    pub joins: Map<u64, Seq<Seq<u64>>>,
    pub installed_joins: Map<u64, Seq<Seq<u64>>>,
}

/// What the history cache holds.
pub struct CacheView {
    pub continuations: Map<Seq<u64>, Seq<u64>>,
    pub datums: Map<u64, Seq<u64>>,
    pub joins: Map<u64, Seq<Seq<u64>>>,
}

/// The maps of a hot store.
pub struct HotStoreState {
    continuations: ContMap,
    installed_continuations: InstalledMap,
    data: DataMap,
    joins: JoinMap,
    installed_joins: JoinMap,
}

impl View for HotStoreState {
    type V = HotStoreView;

    closed spec fn view(&self) -> HotStoreView {
        HotStoreView {
            continuations: cont_contents(self.continuations),
            installed_continuations: installed_contents(self.installed_continuations),
            data: data_contents(self.data),
            joins: join_contents(self.joins),
            installed_joins: join_contents(self.installed_joins),
        }
    }
}

pub open spec fn empty_hot_view() -> HotStoreView {
    HotStoreView {
        continuations: Map::empty(),
        installed_continuations: Map::empty(),
        data: Map::empty(),
        joins: Map::empty(),
        installed_joins: Map::empty(),
    }
}

pub open spec fn empty_cache_view() -> CacheView {
    CacheView { continuations: Map::empty(), datums: Map::empty(), joins: Map::empty() }
}

impl HotStoreState {
    /// A state with all maps empty.
    pub fn new() -> (r: Self)
        ensures
            r@ == empty_hot_view(),
    {
        let r = HotStoreState {
            continuations: cont_map_new(),
            installed_continuations: installed_map_new(),
            data: data_map_new(),
            joins: join_map_new(),
            installed_joins: join_map_new(),
        };
        assert(r@.continuations =~= Map::empty());
        assert(r@.installed_continuations =~= Map::empty());
        assert(r@.data =~= Map::empty());
        assert(r@.joins =~= Map::empty());
        assert(r@.installed_joins =~= Map::empty());
        r
    }

    /// The continuation lists, one entry per channel list, in no stated order.
    pub fn continuation_entries(&self) -> (r: Vec<(Vec<u64>, Vec<u64>)>)
        ensures
            forall|i: int, j: int| 0 <= i < r@.len() && 0 <= j < r@.len() && i != j ==> #[trigger] r@[i].0@ != #[trigger] r@[j].0@,
            cont_entries_map(r@) == self@.continuations,
    {
        cont_map_entries(&self.continuations)
    }

    /// The installed continuations, one entry per channel list, in no stated order.
    pub fn installed_continuation_entries(&self) -> (r: Vec<(Vec<u64>, u64)>)
        ensures
            forall|i: int, j: int| 0 <= i < r@.len() && 0 <= j < r@.len() && i != j ==> #[trigger] r@[i].0@ != #[trigger] r@[j].0@,
            installed_entries_map(r@) == self@.installed_continuations,
    {
        installed_map_entries(&self.installed_continuations)
    }

    /// The data lists, one entry per channel, in no stated order.
    pub fn data_entries(&self) -> (r: Vec<(u64, Vec<u64>)>)
        ensures
            forall|i: int, j: int| 0 <= i < r@.len() && 0 <= j < r@.len() && i != j ==> #[trigger] r@[i].0 != #[trigger] r@[j].0,
            data_entries_map(r@) == self@.data,
    {
        data_map_entries(&self.data)
    }

    /// The join lists, one entry per channel, in no stated order.
    pub fn join_entries(&self) -> (r: Vec<(u64, Vec<Vec<u64>>)>)
        ensures
            forall|i: int, j: int| 0 <= i < r@.len() && 0 <= j < r@.len() && i != j ==> #[trigger] r@[i].0 != #[trigger] r@[j].0,
            join_entries_map(r@) == self@.joins,
    {
        join_map_entries(&self.joins)
    }

    /// The installed join lists, one entry per channel, in no stated order.
    pub fn installed_join_entries(&self) -> (r: Vec<(u64, Vec<Vec<u64>>)>)
        ensures
            forall|i: int, j: int| 0 <= i < r@.len() && 0 <= j < r@.len() && i != j ==> #[trigger] r@[i].0 != #[trigger] r@[j].0,
            join_entries_map(r@) == self@.installed_joins,
    {
        join_map_entries(&self.installed_joins)
    }

    /// A copy of the state.
    pub fn copy(&self) -> (r: Self)
        ensures
            r@ == self@,
    {
        HotStoreState {
            continuations: cont_map_clone(&self.continuations),
            installed_continuations: installed_map_clone(&self.installed_continuations),
            data: data_map_clone(&self.data),
            joins: join_map_clone(&self.joins),
            installed_joins: join_map_clone(&self.installed_joins),
        }
    }
}

/// A vector of zeros (the default value) of a random length of at most `size`.
fn random_vec(size: usize) -> (r: Vec<u64>)
    ensures
        r@.len() <= size,
        forall|i: int| 0 <= i < r@.len() ==> #[trigger] r@[i] == 0,
{
    let n = random_at_most(size);
    let mut r: Vec<u64> = Vec::new();
    while r.len() < n
        invariant
            r@.len() <= n,
            forall|i: int| 0 <= i < r@.len() ==> #[trigger] r@[i] == 0,
        decreases n - r@.len(),
    {
        r.push(0);
    }
    r
}

/// A list of empty lists of a random length of at most `size`.
fn random_empty_lists(size: usize) -> (r: Vec<Vec<u64>>)
    ensures
        r@.len() <= size,
        forall|i: int| 0 <= i < r@.len() ==> (#[trigger] r@[i])@.len() == 0,
{
    let n = random_at_most(size);
    let mut r: Vec<Vec<u64>> = Vec::new();
    while r.len() < n
        invariant
            r@.len() <= n,
            forall|i: int| 0 <= i < r@.len() ==> (#[trigger] r@[i])@.len() == 0,
        decreases n - r@.len(),
    {
        r.push(Vec::new());
    }
    r
}

/// A sequence of zeros.
pub open spec fn all_zero(s: Seq<u64>) -> bool {
    forall|i: int| 0 <= i < s.len() ==> #[trigger] s[i] == 0
}

/// The shape of a random state: one channel list of zeros, of at most ten
/// channels, with at most ten continuations (all 0) and the installed
/// continuation 0; on channel 0, at most ten data (all 0), and at most ten
/// joins and ten installed joins, all empty.
pub open spec fn random_state_shape(st: HotStoreView) -> bool {
    exists|chans: Seq<u64>| {
        &&& chans.len() <= 10 && all_zero(chans)
        &&& st.continuations.dom() == set![chans]
        &&& st.continuations[chans].len() <= 10 && all_zero(st.continuations[chans])
        &&& st.installed_continuations == map![chans => 0u64]
        &&& st.data.dom() == set![0u64]
        &&& st.data[0] .len() <= 10 && all_zero(st.data[0])
        &&& st.joins.dom() == set![0u64]
        &&& st.joins[0].len() <= 10 && forall|i: int| 0 <= i < st.joins[0].len() ==> (#[trigger] st.joins[0][i]).len() == 0
        &&& st.installed_joins.dom() == set![0u64]
        &&& st.installed_joins[0].len() <= 10
            && forall|i: int| 0 <= i < st.installed_joins[0].len() ==> (#[trigger] st.installed_joins[0][i]).len() == 0
    }
}

impl HotStoreState {
    /// A state with random sizes for tests: see `random_state_shape`.
    pub fn random_state() -> (r: Self)
        ensures
            random_state_shape(r@),
    {
        let channels = random_vec(10);
        let continuations = random_vec(10);
        let data = random_vec(10);
        let joins = random_empty_lists(10);
        let installed_joins = random_empty_lists(10);
        let mut st = HotStoreState::new();
        let ghost chans = channels@;
        cont_map_insert(&mut st.continuations, copy_vec(&channels), continuations);
        installed_map_insert(&mut st.installed_continuations, channels, 0);
        data_map_insert(&mut st.data, 0, data);
        join_map_insert(&mut st.joins, 0, joins);
        join_map_insert(&mut st.installed_joins, 0, installed_joins);
        proof {
            let v = st@;
            assert(v.continuations.dom() =~= set![chans]);
            assert(v.installed_continuations =~= map![chans => 0u64]);
            assert(v.data.dom() =~= set![0u64]);
            assert(v.joins.dom() =~= set![0u64]);
            assert(v.installed_joins.dom() =~= set![0u64]);
            assert forall|i: int| 0 <= i < v.joins[0].len() implies (#[trigger] v.joins[0][i]).len() == 0 by {
                assert(v.joins[0] == nested_view(joins@));
            }
            assert forall|i: int| 0 <= i < v.installed_joins[0].len() implies (#[trigger] v.installed_joins[0][i]).len() == 0 by {
                assert(v.installed_joins[0] == nested_view(installed_joins@));
            }
            assert(random_state_shape(v));
        }
        st
    }
}

impl Default for HotStoreState {
    /// A state with all maps empty.
    fn default() -> (r: Self)
        ensures
            r@ == empty_hot_view(),
    {
        HotStoreState::new()
    }
}

struct HistoryStoreCache {
    continuations: ContMap,
    datums: DataMap,
    joins: JoinMap,
}

/// `m` with `k` set to `v` unless it already has `k`.
pub open spec fn cached<K, V>(m: Map<K, V>, k: K, v: V) -> Map<K, V> {
    if m.contains_key(k) { m } else { m.insert(k, v) }
}

/// The value at `k`, or `default` when there is none.
pub open spec fn get_or<K, V>(m: Map<K, V>, k: K, default: V) -> V {
    if m.contains_key(k) { m[k] } else { default }
}

/// The installed continuation of `k`, as a list of at most one.
pub open spec fn installed_list(m: Map<Seq<u64>, u64>, k: Seq<u64>) -> Seq<u64> {
    if m.contains_key(k) { seq![m[k]] } else { Seq::empty() }
}

/// The first position of `x` in `s`, if any.
#[verifier::opaque]
pub open spec fn first_index_of(s: Seq<Seq<u64>>, x: Seq<u64>) -> Option<int> {
    if exists|i: int| 0 <= i < s.len() && #[trigger] s[i] == x {
        Some(choose|i: int| 0 <= i < s.len() && #[trigger] s[i] == x && forall|j: int| 0 <= j < i ==> s[j] != x)
    } else {
        None
    }
}

pub proof fn lemma_first_index_at(s: Seq<Seq<u64>>, x: Seq<u64>, i: int)
    requires
        0 <= i < s.len(),
        s[i] == x,
        forall|j: int| 0 <= j < i ==> s[j] != x,
    ensures
        first_index_of(s, x) == Some(i),
{
    reveal(first_index_of);
    assert(s[i] == x);
    let c = choose|k: int| 0 <= k < s.len() && #[trigger] s[k] == x && forall|j: int| 0 <= j < k ==> s[j] != x;
    if c < i {
        assert(s[c] == x);
    } else if c > i {
        assert(s[i] != x);
    }
}

pub proof fn lemma_first_index_none(s: Seq<Seq<u64>>, x: Seq<u64>)
    requires
        forall|j: int| 0 <= j < s.len() ==> s[j] != x,
    ensures
        first_index_of(s, x) is None,
{
    reveal(first_index_of);
}

/// A hot store in memory over a history reader.
pub struct InMemHotStore<R: HistoryReaderBase> {
    hot_store_state: HotStoreState,
    history_store_cache: HistoryStoreCache,
    history_reader_base: R,
}

impl<R: HistoryReaderBase> InMemHotStore<R> {
    /// What the hot store's maps hold.
    pub closed spec fn state(&self) -> HotStoreView {
        self.hot_store_state@
    }

    /// What the history cache holds.
    pub closed spec fn cache(&self) -> CacheView {
        CacheView {
            continuations: cont_contents(self.history_store_cache.continuations),
            datums: data_contents(self.history_store_cache.datums),
            joins: join_contents(self.history_store_cache.joins),
        }
    }

    /// The history reader.
    pub closed spec fn reader(&self) -> R {
        self.history_reader_base
    }

    /// A hot store over the given state and reader, with an empty cache.
    pub fn create(state: HotStoreState, reader: R) -> (r: Self)
        ensures
            r.state() == state@,
            r.cache() == empty_cache_view(),
            r.reader() == reader,
    {
        let cache = HistoryStoreCache { continuations: cont_map_new(), datums: data_map_new(), joins: join_map_new() };
        let r = InMemHotStore { hot_store_state: state, history_store_cache: cache, history_reader_base: reader };
        assert(r.cache().continuations =~= Map::empty());
        assert(r.cache().datums =~= Map::empty());
        assert(r.cache().joins =~= Map::empty());
        r
    }

    /// The continuations of `channels` in the history, read once and cached.
    fn get_cont_from_history_store(&mut self, channels: &Vec<u64>) -> (r: Vec<u64>)
        ensures
            final(self).cache().continuations == cached(old(self).cache().continuations, channels@, r@),
            final(self).cache().continuations[channels@] == r@,
            final(self).cache().datums == old(self).cache().datums,
            final(self).cache().joins == old(self).cache().joins,
            final(self).state() == old(self).state(),
            final(self).reader() == old(self).reader(),
    {
        match cont_map_get(&self.history_store_cache.continuations, channels) {
            Some(ks) => ks,
            None => {
                let ks = self.history_reader_base.get_continuations(channels);
                cont_map_insert(&mut self.history_store_cache.continuations, copy_vec(channels), copy_vec(&ks));
                ks
            },
        }
    }

    /// The data of `channel` in the history, read once and cached.
    fn get_data_from_history_store(&mut self, channel: u64) -> (r: Vec<u64>)
        ensures
            final(self).cache().datums == cached(old(self).cache().datums, channel, r@),
            final(self).cache().datums[channel] == r@,
            final(self).cache().continuations == old(self).cache().continuations,
            final(self).cache().joins == old(self).cache().joins,
            final(self).state() == old(self).state(),
            final(self).reader() == old(self).reader(),
    {
        match data_map_get(&self.history_store_cache.datums, channel) {
            Some(ds) => ds,
            None => {
                let ds = self.history_reader_base.get_data(channel);
                data_map_insert(&mut self.history_store_cache.datums, channel, copy_vec(&ds));
                ds
            },
        }
    }

    /// The joins of `channel` in the history, read once and cached.
    fn get_joins_from_history_store(&mut self, channel: u64) -> (r: Vec<Vec<u64>>)
        ensures
            final(self).cache().joins == cached(old(self).cache().joins, channel, nested_view(r@)),
            final(self).cache().joins[channel] == nested_view(r@),
            final(self).cache().continuations == old(self).cache().continuations,
            final(self).cache().datums == old(self).cache().datums,
            final(self).state() == old(self).state(),
            final(self).reader() == old(self).reader(),
    {
        match join_map_get(&self.history_store_cache.joins, channel) {
            Some(js) => js,
            None => {
                let js = self.history_reader_base.get_joins(channel);
                join_map_insert(&mut self.history_store_cache.joins, channel, copy_nested(&js));
                js
            },
        }
    }

    /// Whether a continuation is installed on `channels`.
    pub fn is_installed(&self, channels: &Vec<u64>) -> (r: bool)
        ensures
            r == self.state().installed_continuations.contains_key(channels@),
    {
        installed_map_get(&self.hot_store_state.installed_continuations, channels).is_some()
    }

    /// The entries of the history cache: its continuations, data and joins.
    pub fn cache_entries(&self) -> (r: (Vec<(Vec<u64>, Vec<u64>)>, Vec<(u64, Vec<u64>)>, Vec<(u64, Vec<Vec<u64>>)>))
        ensures
            cont_entries_map(r.0@) == self.cache().continuations,
            data_entries_map(r.1@) == self.cache().datums,
            join_entries_map(r.2@) == self.cache().joins,
    {
        (
            cont_map_entries(&self.history_store_cache.continuations),
            data_map_entries(&self.history_store_cache.datums),
            join_map_entries(&self.history_store_cache.joins),
        )
    }

    /// A copy of the hot store's maps.
    pub fn snapshot(&self) -> (r: HotStoreState)
        ensures
            r@ == self.state(),
    {
        self.hot_store_state.copy()
    }

    /// The continuations waiting on `channels`: the installed one first, if
    /// any, then the others. A list not yet in the hot store is taken from the
    /// history and kept.
    pub fn get_continuations(&mut self, channels: &Vec<u64>) -> (r: Vec<u64>)
        ensures
            ({
                let h = final(self).cache().continuations[channels@];
                let base = get_or(old(self).state().continuations, channels@, h);
                &&& final(self).cache().continuations == cached(old(self).cache().continuations, channels@, h)
                &&& final(self).cache().datums == old(self).cache().datums
                &&& final(self).cache().joins == old(self).cache().joins
                &&& r@ == installed_list(old(self).state().installed_continuations, channels@) + base
                &&& final(self).state() == HotStoreView {
                    continuations: old(self).state().continuations.insert(channels@, base),
                    ..old(self).state()
                }
            }),
            final(self).reader() == old(self).reader(),
    {
        let from_history_store = self.get_cont_from_history_store(channels);
        let continuations = cont_map_get(&self.hot_store_state.continuations, channels);
        let installed = installed_map_get(&self.hot_store_state.installed_continuations, channels);
        let ghost st = self.hot_store_state@;
        match continuations {
            Some(conts) => {
                proof { assert(st.continuations.insert(channels@, conts@) =~= st.continuations); }
                match installed {
                    Some(inst) => {
                        let mut result: Vec<u64> = Vec::new();
                        result.push(inst);
                        let mut rest = conts;
                        result.append(&mut rest);
                        proof { assert(result@ =~= seq![inst] + st.continuations[channels@]); }
                        result
                    },
                    None => {
                        proof { assert(conts@ =~= Seq::<u64>::empty() + conts@); }
                        conts
                    },
                }
            },
            None => {
                cont_map_insert(&mut self.hot_store_state.continuations, copy_vec(channels), copy_vec(&from_history_store));
                match installed {
                    Some(inst) => {
                        let mut result: Vec<u64> = Vec::new();
                        result.push(inst);
                        let mut rest = from_history_store;
                        result.append(&mut rest);
                        result
                    },
                    None => {
                        proof { assert(from_history_store@ =~= Seq::<u64>::empty() + from_history_store@); }
                        from_history_store
                    },
                }
            },
        }
    }

    /// Puts the continuation `wc` first among those waiting on `channels`.
    pub fn put_continuation(&mut self, channels: &Vec<u64>, wc: u64) -> (r: Option<()>)
        ensures
            r is Some,
            ({
                let h = final(self).cache().continuations[channels@];
                let current = get_or(old(self).state().continuations, channels@, h);
                &&& final(self).cache().continuations == cached(old(self).cache().continuations, channels@, h)
                &&& final(self).cache().datums == old(self).cache().datums
                &&& final(self).cache().joins == old(self).cache().joins
                &&& final(self).state() == HotStoreView {
                    continuations: old(self).state().continuations.insert(channels@, seq![wc] + current),
                    ..old(self).state()
                }
            }),
            final(self).reader() == old(self).reader(),
    {
        let from_history_store = self.get_cont_from_history_store(channels);
        let current = match cont_map_get(&self.hot_store_state.continuations, channels) {
            Some(c) => c,
            None => from_history_store,
        };
        let mut new_continuations: Vec<u64> = Vec::new();
        new_continuations.push(wc);
        let mut rest = current;
        new_continuations.append(&mut rest);
        cont_map_insert(&mut self.hot_store_state.continuations, copy_vec(channels), new_continuations);
        Some(())
    }

    /// Installs `wc` as the continuation of `channels`, replacing any other.
    pub fn install_continuation(&mut self, channels: &Vec<u64>, wc: u64) -> (r: Option<()>)
        ensures
            r is Some,
            final(self).state() == (HotStoreView {
                installed_continuations: old(self).state().installed_continuations.insert(channels@, wc),
                ..old(self).state()
            }),
            final(self).cache() == old(self).cache(),
            final(self).reader() == old(self).reader(),
    {
        installed_map_insert(&mut self.hot_store_state.installed_continuations, copy_vec(channels), wc);
        Some(())
    }

    /// Removes the continuation at `index` among those waiting on `channels`,
    /// counting the installed one, if any, as index 0. An installed
    /// continuation is not removed, nor is anything at an index out of range:
    /// then the answer is `None`. The list, from the history if it was not in
    /// the hot store, is kept in either case.
    pub fn remove_continuation(&mut self, channels: &Vec<u64>, index: i32) -> (r: Option<()>)
        requires
            old(self).state().installed_continuations.contains_key(channels@) ==> index != i32::MIN,
        ensures
            ({
                let h = final(self).cache().continuations[channels@];
                let current = get_or(old(self).state().continuations, channels@, h);
                let installed = old(self).state().installed_continuations.contains_key(channels@);
                let removed_index: int = if installed { index - 1 } else { index as int };
                let refused = (installed && index == 0) || removed_index < 0 || removed_index >= current.len();
                &&& final(self).cache().continuations == cached(old(self).cache().continuations, channels@, h)
                &&& final(self).cache().datums == old(self).cache().datums
                &&& final(self).cache().joins == old(self).cache().joins
                &&& (r is None <==> refused)
                &&& final(self).state() == HotStoreView {
                    continuations: old(self).state().continuations.insert(channels@,
                        if refused { current } else { current.remove(removed_index) }),
                    ..old(self).state()
                }
            }),
            final(self).reader() == old(self).reader(),
    {
        let from_history_store = self.get_cont_from_history_store(channels);
        let current = match cont_map_get(&self.hot_store_state.continuations, channels) {
            Some(c) => c,
            None => from_history_store,
        };
        let is_installed = installed_map_get(&self.hot_store_state.installed_continuations, channels).is_some();
        let removing_installed = is_installed && index == 0;
        let removed_index: i32 = if is_installed { index - 1 } else { index };
        let out_of_bounds = removed_index < 0 || (removed_index as usize) >= current.len();
        if removing_installed {
            cont_map_insert(&mut self.hot_store_state.continuations, copy_vec(channels), current);
            None
        } else if out_of_bounds {
            cont_map_insert(&mut self.hot_store_state.continuations, copy_vec(channels), current);
            None
        } else {
            let mut new_continuations = current;
            new_continuations.remove(removed_index as usize);
            cont_map_insert(&mut self.hot_store_state.continuations, copy_vec(channels), new_continuations);
            Some(())
        }
    }

    /// The data on `channel`, taken from the history and kept if the hot
    /// store does not have them yet.
    pub fn get_data(&mut self, channel: u64) -> (r: Vec<u64>)
        ensures
            ({
                let h = final(self).cache().datums[channel];
                let base = get_or(old(self).state().data, channel, h);
                &&& final(self).cache().datums == cached(old(self).cache().datums, channel, h)
                &&& final(self).cache().continuations == old(self).cache().continuations
                &&& final(self).cache().joins == old(self).cache().joins
                &&& r@ == base
                &&& final(self).state() == HotStoreView { data: old(self).state().data.insert(channel, base), ..old(self).state() }
            }),
            final(self).reader() == old(self).reader(),
    {
        let from_history_store = self.get_data_from_history_store(channel);
        let ghost st = self.hot_store_state@;
        match data_map_get(&self.hot_store_state.data, channel) {
            Some(data) => {
                proof { assert(st.data.insert(channel, data@) =~= st.data); }
                data
            },
            None => {
                data_map_insert(&mut self.hot_store_state.data, channel, copy_vec(&from_history_store));
                from_history_store
            },
        }
    }

    /// Puts the datum `d` first among the data on `channel`.
    pub fn put_datum(&mut self, channel: u64, d: u64)
        ensures
            ({
                let h = final(self).cache().datums[channel];
                let current = get_or(old(self).state().data, channel, h);
                &&& final(self).cache().datums == cached(old(self).cache().datums, channel, h)
                &&& final(self).cache().continuations == old(self).cache().continuations
                &&& final(self).cache().joins == old(self).cache().joins
                &&& final(self).state() == HotStoreView { data: old(self).state().data.insert(channel, seq![d] + current), ..old(self).state() }
            }),
            final(self).reader() == old(self).reader(),
    {
        let from_history_store = self.get_data_from_history_store(channel);
        let current = match data_map_get(&self.hot_store_state.data, channel) {
            Some(existing) => existing,
            None => from_history_store,
        };
        let mut new_data: Vec<u64> = Vec::new();
        new_data.push(d);
        let mut rest = current;
        new_data.append(&mut rest);
        data_map_insert(&mut self.hot_store_state.data, channel, new_data);
    }

    /// Removes the datum at `index` on `channel`; `None`, with nothing
    /// removed, when the index is out of range (a negative index is). The
    /// data, from the history if they were not in the hot store, are kept in
    /// either case.
    pub fn remove_datum(&mut self, channel: u64, index: i32) -> (r: Option<()>)
        ensures
            ({
                let h = final(self).cache().datums[channel];
                let current = get_or(old(self).state().data, channel, h);
                let refused = index < 0 || index >= current.len();
                &&& final(self).cache().datums == cached(old(self).cache().datums, channel, h)
                &&& final(self).cache().continuations == old(self).cache().continuations
                &&& final(self).cache().joins == old(self).cache().joins
                &&& (r is None <==> refused)
                &&& final(self).state() == HotStoreView {
                    data: old(self).state().data.insert(channel, if refused { current } else { current.remove(index as int) }),
                    ..old(self).state()
                }
            }),
            final(self).reader() == old(self).reader(),
    {
        let from_history_store = self.get_data_from_history_store(channel);
        let current = match data_map_get(&self.hot_store_state.data, channel) {
            Some(c) => c,
            None => from_history_store,
        };
        let out_of_bounds = index < 0 || (index as usize) >= current.len();
        if out_of_bounds {
            data_map_insert(&mut self.hot_store_state.data, channel, current);
            None
        } else {
            let mut new_datums = current;
            new_datums.remove(index as usize);
            data_map_insert(&mut self.hot_store_state.data, channel, new_datums);
            Some(())
        }
    }

    /// The joins `channel` takes part in: the installed ones first, then the
    /// others. A list not yet in the hot store is taken from the history and
    /// kept.
    pub fn get_joins(&mut self, channel: u64) -> (r: Vec<Vec<u64>>)
        ensures
            ({
                let h = final(self).cache().joins[channel];
                let base = get_or(old(self).state().joins, channel, h);
                &&& final(self).cache().joins == cached(old(self).cache().joins, channel, h)
                &&& final(self).cache().continuations == old(self).cache().continuations
                &&& final(self).cache().datums == old(self).cache().datums
                &&& nested_view(r@) == get_or(old(self).state().installed_joins, channel, Seq::empty()) + base
                &&& final(self).state() == HotStoreView { joins: old(self).state().joins.insert(channel, base), ..old(self).state() }
            }),
            final(self).reader() == old(self).reader(),
    {
        let from_history_store = self.get_joins_from_history_store(channel);
        let joins = join_map_get(&self.hot_store_state.joins, channel);
        let installed = join_map_get(&self.hot_store_state.installed_joins, channel);
        let ghost st = self.hot_store_state@;
        let mut result: Vec<Vec<u64>> = Vec::new();
        match installed {
            Some(inst) => {
                result = inst;
            },
            None => {},
        }
        let ghost first = nested_view(result@);
        let base = match joins {
            Some(joins_data) => {
                proof { assert(st.joins.insert(channel, nested_view(joins_data@)) =~= st.joins); }
                joins_data
            },
            None => {
                join_map_insert(&mut self.hot_store_state.joins, channel, copy_nested(&from_history_store));
                from_history_store
            },
        };
        let ghost b = nested_view(base@);
        let mut rest = base;
        result.append(&mut rest);
        proof {
            assert(nested_view(result@) =~= first + b);
            assert(first =~= get_or(st.installed_joins, channel, Seq::empty()));
        }
        result
    }

    /// Adds `join` first among the joins of `channel`, unless it is there
    /// already (then nothing changes in the hot store).
    pub fn put_join(&mut self, channel: u64, join: &Vec<u64>) -> (r: Option<()>)
        ensures
            r is Some,
            ({
                let h = final(self).cache().joins[channel];
                let current = get_or(old(self).state().joins, channel, h);
                &&& final(self).cache().joins == cached(old(self).cache().joins, channel, h)
                &&& final(self).cache().continuations == old(self).cache().continuations
                &&& final(self).cache().datums == old(self).cache().datums
                &&& final(self).state() == if current.contains(join@) {
                    old(self).state()
                } else {
                    HotStoreView { joins: old(self).state().joins.insert(channel, seq![join@] + current), ..old(self).state() }
                }
            }),
            final(self).reader() == old(self).reader(),
    {
        let from_history_store = self.get_joins_from_history_store(channel);
        let current = match join_map_get(&self.hot_store_state.joins, channel) {
            Some(j) => j,
            None => from_history_store,
        };
        if contains_join(&current, join) {
            Some(())
        } else {
            let mut new_joins: Vec<Vec<u64>> = Vec::new();
            new_joins.push(copy_vec(join));
            let ghost c = nested_view(current@);
            let mut rest = current;
            new_joins.append(&mut rest);
            proof { assert(nested_view(new_joins@) =~= seq![join@] + c); }
            join_map_insert(&mut self.hot_store_state.joins, channel, new_joins);
            Some(())
        }
    }

    /// Installs `join` first among the installed joins of `channel`, unless it
    /// is there already. The history is not read.
    pub fn install_join(&mut self, channel: u64, join: &Vec<u64>) -> (r: Option<()>)
        ensures
            r is Some,
            ({
                let current = get_or(old(self).state().installed_joins, channel, Seq::empty());
                final(self).state() == if current.contains(join@) {
                    old(self).state()
                } else {
                    HotStoreView { installed_joins: old(self).state().installed_joins.insert(channel, seq![join@] + current), ..old(self).state() }
                }
            }),
            final(self).cache() == old(self).cache(),
            final(self).reader() == old(self).reader(),
    {
        let current = match join_map_get(&self.hot_store_state.installed_joins, channel) {
            Some(c) => c,
            None => Vec::new(),
        };
        proof {
            if !old(self).state().installed_joins.contains_key(channel) {
                assert(nested_view(current@) =~= Seq::<Seq<u64>>::empty());
            }
        }
        if !contains_join(&current, join) {
            let mut new_joins: Vec<Vec<u64>> = Vec::new();
            new_joins.push(copy_vec(join));
            let ghost c = nested_view(current@);
            let mut rest = current;
            new_joins.append(&mut rest);
            proof { assert(nested_view(new_joins@) =~= seq![join@] + c); }
            join_map_insert(&mut self.hot_store_state.installed_joins, channel, new_joins);
        }
        Some(())
    }

    /// Removes `join` from the joins of `channel`, but only when no
    /// continuation (installed or not) waits on the channels of `join`. The
    /// joins, from the history if they were not in the hot store, are kept in
    /// any case.
    #[verifier::rlimit(40)]
    pub fn remove_join(&mut self, channel: u64, join: &Vec<u64>) -> (r: Option<()>)
        ensures
            r is Some,
            ({
                let hj = final(self).cache().joins[channel];
                let hc = final(self).cache().continuations[join@];
                let current_joins = get_or(old(self).state().joins, channel, hj);
                let current_continuations = installed_list(old(self).state().installed_continuations, join@)
                    + get_or(old(self).state().continuations, join@, hc);
                let idx = first_index_of(current_joins, join@);
                &&& final(self).cache().joins == cached(old(self).cache().joins, channel, hj)
                &&& final(self).cache().continuations == cached(old(self).cache().continuations, join@, hc)
                &&& final(self).cache().datums == old(self).cache().datums
                &&& final(self).state() == HotStoreView {
                    joins: old(self).state().joins.insert(channel,
                        if current_continuations.len() == 0 && idx is Some { current_joins.remove(idx.unwrap()) } else { current_joins }),
                    ..old(self).state()
                }
            }),
            final(self).reader() == old(self).reader(),
    {
        let joins_in_history_store = self.get_joins_from_history_store(channel);
        let continuations_in_history_store = self.get_cont_from_history_store(join);
        let current_joins = match join_map_get(&self.hot_store_state.joins, channel) {
            Some(j) => j,
            None => joins_in_history_store,
        };
        let installed = installed_map_get(&self.hot_store_state.installed_continuations, join);
        let stored = cont_map_get(&self.hot_store_state.continuations, join);
        let installed_count: usize = if installed.is_some() { 1 } else { 0 };
        let stored_count: usize = match &stored {
            Some(c) => c.len(),
            None => continuations_in_history_store.len(),
        };
        let do_remove = installed_count == 0 && stored_count == 0;
        proof {
            let st = old(self).state();
            let hc = self.cache().continuations[join@];
            assert(installed_count == installed_list(st.installed_continuations, join@).len());
            assert(stored_count == get_or(st.continuations, join@, hc).len());
        }
        let new_joins = joins_after_removal(current_joins, do_remove, join);
        join_map_insert(&mut self.hot_store_state.joins, channel, new_joins);
        Some(())
    }

    /// Whether removing `join` from the joins of `channel` would find no such
    /// join: no continuation waits on the channels of `join` (so the removal
    /// is not skipped), and `join` is not among the joins of `channel`. The
    /// history is read and kept in the cache as `remove_join` reads it; the
    /// hot store's maps do not change.
    #[verifier::rlimit(40)]
    pub fn removal_misses_join(&mut self, channel: u64, join: &Vec<u64>) -> (r: bool)
        ensures
            ({
                let hj = final(self).cache().joins[channel];
                let hc = final(self).cache().continuations[join@];
                let current_joins = get_or(old(self).state().joins, channel, hj);
                let current_continuations = installed_list(old(self).state().installed_continuations, join@)
                    + get_or(old(self).state().continuations, join@, hc);
                &&& r == (current_continuations.len() == 0 && first_index_of(current_joins, join@) is None)
                &&& final(self).cache().joins == cached(old(self).cache().joins, channel, hj)
                &&& final(self).cache().continuations == cached(old(self).cache().continuations, join@, hc)
                &&& final(self).cache().datums == old(self).cache().datums
                &&& final(self).state() == old(self).state()
            }),
            final(self).reader() == old(self).reader(),
    {
        let joins_in_history_store = self.get_joins_from_history_store(channel);
        let continuations_in_history_store = self.get_cont_from_history_store(join);
        let current_joins = match join_map_get(&self.hot_store_state.joins, channel) {
            Some(j) => j,
            None => joins_in_history_store,
        };
        let installed = installed_map_get(&self.hot_store_state.installed_continuations, join);
        let stored = cont_map_get(&self.hot_store_state.continuations, join);
        let installed_count: usize = if installed.is_some() { 1 } else { 0 };
        let stored_count: usize = match &stored {
            Some(c) => c.len(),
            None => continuations_in_history_store.len(),
        };
        proof {
            let st = old(self).state();
            let hc = self.cache().continuations[join@];
            assert(installed_count == installed_list(st.installed_continuations, join@).len());
            assert(stored_count == get_or(st.continuations, join@, hc).len());
        }
        installed_count == 0 && stored_count == 0 && position_of_join(&current_joins, join).is_none()
    }

    /// The changes to write to the history: for each entry of the
    /// continuation, data and join maps (in that order of kinds), an insert
    /// when its list is not empty and a delete when it is.
    pub fn changes(&self) -> (r: Vec<HotStoreAction>)
        ensures
            describes_changes(r@, self.state()),
    {
        let mut conts = continuation_changes(&self.hot_store_state.continuations);
        let mut data = data_changes(&self.hot_store_state.data);
        let mut joins = join_changes(&self.hot_store_state.joins);
        let ghost c = conts@;
        let ghost d = data@;
        let ghost j = joins@;
        let mut r: Vec<HotStoreAction> = Vec::new();
        r.append(&mut conts);
        r.append(&mut data);
        r.append(&mut joins);
        proof {
            let a = c.len() as int;
            let b = (c.len() + d.len()) as int;
            assert(r@.subrange(0, a) =~= c);
            assert(r@.subrange(a, b) =~= d);
            assert(r@.subrange(b, r@.len() as int) =~= j);
            assert(describes_conts(r@.subrange(0, a), self.state().continuations));
            assert(describes_data(r@.subrange(a, b), self.state().data));
            assert(describes_joins(r@.subrange(b, r@.len() as int), self.state().joins));
        }
        r
    }

    /// Whether the hot store has nothing to write to the history: no entry of
    /// its continuation, data or join maps holds anything.
    pub fn is_empty(&self) -> (r: bool)
        ensures
            r == nothing_to_insert(self.state()),
    {
        let actions = self.changes();
        let mut i: usize = 0;
        while i < actions.len()
            invariant
                i <= actions@.len(),
                forall|j: int| 0 <= j < i ==> (#[trigger] actions@[j]) is Delete,
                describes_changes(actions@, self.state()),
            decreases actions@.len() - i,
        {
            if let HotStoreAction::Insert(_) = &actions[i] {
                proof { lemma_changes_insert(self.state(), actions@, i as int); }
                return false;
            }
            i = i + 1;
        }
        proof { lemma_changes_all_delete(self.state(), actions@); }
        true
    }

    /// The rows of the single channels that have data: for each, its data
    /// and its continuations (the stored ones, then the installed one), when
    /// not both are empty.
    pub fn to_map(&self) -> (r: Vec<(Vec<u64>, Row)>)
        ensures
            describes_rows(r@, self.state()),
    {
        let ghost st = self.state();
        let entries = data_map_entries(&self.hot_store_state.data);
        let mut rows: Vec<(Vec<u64>, Row)> = Vec::new();
        let mut i: usize = 0;
        while i < entries.len()
            invariant
                i <= entries@.len(),
                st == self.state(),
                st.data == data_entries_map(entries@),
                forall|a: int, b: int| 0 <= a < entries@.len() && 0 <= b < entries@.len() && a != b ==>
                    #[trigger] entries@[a].0 != #[trigger] entries@[b].0,
                forall|x: int| 0 <= x < rows@.len() ==> {
                    &&& (#[trigger] rows@[x]).0@.len() == 1
                    &&& exists|e: int| 0 <= e < i && rows@[x].0@[0] == #[trigger] entries@[e].0
                    &&& st.data.contains_key(rows@[x].0@[0])
                    &&& rows@[x].1.data@ == st.data[rows@[x].0@[0]]
                    &&& rows@[x].1.wks@ == row_wks(st, rows@[x].0@[0])
                    &&& !(rows@[x].1.data@.len() == 0 && rows@[x].1.wks@.len() == 0)
                },
                forall|e: int| 0 <= e < i && !(st.data[#[trigger] entries@[e].0].len() == 0 && row_wks(st, entries@[e].0).len() == 0) ==>
                    exists|x: int| 0 <= x < rows@.len() && #[trigger] rows@[x].0@ == seq![entries@[e].0],
                forall|x: int, y: int| 0 <= x < rows@.len() && 0 <= y < rows@.len() && x != y ==>
                    #[trigger] rows@[x].0@ != #[trigger] rows@[y].0@,
            decreases entries@.len() - i,
        {
            proof { lemma_data_entry(entries@, i as int); }
            let k = entries[i].0;
            let mut key: Vec<u64> = Vec::new();
            key.push(k);
            let mut wks = match cont_map_get(&self.hot_store_state.continuations, &key) {
                Some(c) => c,
                None => Vec::new(),
            };
            match installed_map_get(&self.hot_store_state.installed_continuations, &key) {
                Some(w) => wks.push(w),
                None => {},
            }
            let data = copy_vec(&entries[i].1);
            proof {
                assert(key@ =~= seq![k]);
                assert(wks@ =~= row_wks(st, k));
            }
            if !(data.len() == 0 && wks.len() == 0) {
                let ghost before = rows@;
                rows.push((key, Row { data, wks }));
                proof {
                    assert forall|x: int| 0 <= x < rows@.len() implies {
                        &&& (#[trigger] rows@[x]).0@.len() == 1
                        &&& exists|e: int| 0 <= e < i + 1 && rows@[x].0@[0] == #[trigger] entries@[e].0
                        &&& st.data.contains_key(rows@[x].0@[0])
                        &&& rows@[x].1.data@ == st.data[rows@[x].0@[0]]
                        &&& rows@[x].1.wks@ == row_wks(st, rows@[x].0@[0])
                        &&& !(rows@[x].1.data@.len() == 0 && rows@[x].1.wks@.len() == 0)
                    } by {
                        if x < before.len() {
                            assert(rows@[x] == before[x]);
                        } else {
                            assert(rows@[x].0@[0] == entries@[i as int].0);
                        }
                    }
                    assert forall|x: int, y: int| 0 <= x < rows@.len() && 0 <= y < rows@.len() && x != y implies
                        #[trigger] rows@[x].0@ != #[trigger] rows@[y].0@ by {
                        if x < before.len() && y < before.len() {
                            assert(rows@[x] == before[x] && rows@[y] == before[y]);
                        } else if x < before.len() {
                            assert(rows@[x] == before[x]);
                            let e = choose|e: int| 0 <= e < i && before[x].0@[0] == #[trigger] entries@[e].0;
                            assert(entries@[e].0 != entries@[i as int].0);
                            assert(rows@[y].0@[0] == k);
                        } else {
                            assert(rows@[y] == before[y]);
                            let e = choose|e: int| 0 <= e < i && before[y].0@[0] == #[trigger] entries@[e].0;
                            assert(entries@[e].0 != entries@[i as int].0);
                            assert(rows@[x].0@[0] == k);
                        }
                    }
                    assert forall|e: int| 0 <= e < i + 1 && !(st.data[#[trigger] entries@[e].0].len() == 0 && row_wks(st, entries@[e].0).len() == 0) implies
                        exists|x: int| 0 <= x < rows@.len() && #[trigger] rows@[x].0@ == seq![entries@[e].0] by {
                        if e < i {
                            let x = choose|x: int| 0 <= x < before.len() && #[trigger] before[x].0@ == seq![entries@[e].0];
                            assert(rows@[x] == before[x]);
                        } else {
                            assert(rows@[before.len() as int].0@ == seq![entries@[e].0]);
                        }
                    }
                }
            }
            i = i + 1;
        }
        proof {
            assert forall|k: u64| st.data.contains_key(k) && !(st.data[k].len() == 0 && row_wks(st, k).len() == 0) implies
                exists|x: int| 0 <= x < rows@.len() && #[trigger] rows@[x].0@ == seq![k] by {
                let e = choose|e: int| 0 <= e < entries@.len() && #[trigger] entries@[e].0 == k;
            }
        }
        rows
    }

    /// Empties all the maps of the hot store.
    pub fn clear(&mut self)
        ensures
            final(self).state() == empty_hot_view(),
            final(self).cache() == old(self).cache(),
            final(self).reader() == old(self).reader(),
    {
        self.hot_store_state = HotStoreState::new();
    }
}

/// The ways to make a hot store.
pub struct HotStoreInstances;

impl HotStoreInstances {
    /// A hot store over the given state and reader, with an empty cache.
    pub fn create_from_mhs_and_hr<R: HistoryReaderBase>(hot_store_state: HotStoreState, history_reader_base: R) -> (r: InMemHotStore<R>)
        ensures
            r.state() == hot_store_state@,
            r.cache() == empty_cache_view(),
            r.reader() == history_reader_base,
    {
        InMemHotStore::create(hot_store_state, history_reader_base)
    }

    /// A hot store over the given state and reader, with an empty cache.
    pub fn create_from_hs_and_hr<R: HistoryReaderBase>(cache: HotStoreState, history_reader: R) -> (r: InMemHotStore<R>)
        ensures
            r.state() == cache@,
            r.cache() == empty_cache_view(),
            r.reader() == history_reader,
    {
        HotStoreInstances::create_from_mhs_and_hr(cache, history_reader)
    }

    /// An empty hot store over the given reader.
    pub fn create_from_hr<R: HistoryReaderBase>(history_reader: R) -> (r: InMemHotStore<R>)
        ensures
            r.state() == empty_hot_view(),
            r.cache() == empty_cache_view(),
            r.reader() == history_reader,
    {
        HotStoreInstances::create_from_hs_and_hr(HotStoreState::new(), history_reader)
    }
}

/// A change the hot store makes to the history.
pub enum HotStoreAction {
    Insert(InsertAction),
    Delete(DeleteAction),
}

pub enum InsertAction {
    InsertData(InsertData),
    InsertJoins(InsertJoins),
    InsertContinuations(InsertContinuations),
}

pub enum DeleteAction {
    DeleteData(DeleteData),
    DeleteJoins(DeleteJoins),
    DeleteContinuations(DeleteContinuations),
}

pub struct InsertData {
    pub channel: u64,
    pub data: Vec<u64>,
}

pub struct InsertJoins {
    pub channel: u64,
    pub joins: Vec<Vec<u64>>,
}

pub struct InsertContinuations {
    pub channels: Vec<u64>,
    pub continuations: Vec<u64>,
}

pub struct DeleteData {
    pub channel: u64,
}

pub struct DeleteJoins {
    pub channel: u64,
}

pub struct DeleteContinuations {
    pub channels: Vec<u64>,
}

/// The data and continuations of one channel list.
pub struct Row {
    pub data: Vec<u64>,
    pub wks: Vec<u64>,
}

/// `a` is the change for the entry of `m` it names: an insert of the entry
/// when its list is not empty, a delete when it is.
pub open spec fn cont_action_for(a: HotStoreAction, m: Map<Seq<u64>, Seq<u64>>) -> bool {
    match a {
        HotStoreAction::Insert(InsertAction::InsertContinuations(ic)) =>
            m.contains_key(ic.channels@) && m[ic.channels@] == ic.continuations@ && ic.continuations@.len() > 0,
        HotStoreAction::Delete(DeleteAction::DeleteContinuations(dc)) =>
            m.contains_key(dc.channels@) && m[dc.channels@].len() == 0,
        _ => false,
    }
}

pub open spec fn cont_action_key(a: HotStoreAction) -> Seq<u64> {
    match a {
        HotStoreAction::Insert(InsertAction::InsertContinuations(ic)) => ic.channels@,
        HotStoreAction::Delete(DeleteAction::DeleteContinuations(dc)) => dc.channels@,
        _ => Seq::empty(),
    }
}

pub open spec fn data_action_for(a: HotStoreAction, m: Map<u64, Seq<u64>>) -> bool {
    match a {
        HotStoreAction::Insert(InsertAction::InsertData(d)) =>
            m.contains_key(d.channel) && m[d.channel] == d.data@ && d.data@.len() > 0,
        HotStoreAction::Delete(DeleteAction::DeleteData(d)) =>
            m.contains_key(d.channel) && m[d.channel].len() == 0,
        _ => false,
    }
}

pub open spec fn data_action_key(a: HotStoreAction) -> u64 {
    match a {
        HotStoreAction::Insert(InsertAction::InsertData(d)) => d.channel,
        HotStoreAction::Delete(DeleteAction::DeleteData(d)) => d.channel,
        _ => 0,
    }
}

pub open spec fn join_action_for(a: HotStoreAction, m: Map<u64, Seq<Seq<u64>>>) -> bool {
    match a {
        HotStoreAction::Insert(InsertAction::InsertJoins(j)) =>
            m.contains_key(j.channel) && m[j.channel] == nested_view(j.joins@) && j.joins@.len() > 0,
        HotStoreAction::Delete(DeleteAction::DeleteJoins(j)) =>
            m.contains_key(j.channel) && m[j.channel].len() == 0,
        _ => false,
    }
}

pub open spec fn join_action_key(a: HotStoreAction) -> u64 {
    match a {
        HotStoreAction::Insert(InsertAction::InsertJoins(j)) => j.channel,
        HotStoreAction::Delete(DeleteAction::DeleteJoins(j)) => j.channel,
        _ => 0,
    }
}

/// `acts` holds one change for each entry of `m`, and nothing else.
pub open spec fn describes_conts(acts: Seq<HotStoreAction>, m: Map<Seq<u64>, Seq<u64>>) -> bool {
    &&& forall|i: int| 0 <= i < acts.len() ==> cont_action_for(#[trigger] acts[i], m)
    &&& forall|k: Seq<u64>| m.contains_key(k) ==> exists|i: int| 0 <= i < acts.len() && #[trigger] cont_action_key(acts[i]) == k
    &&& forall|i: int, j: int| 0 <= i < acts.len() && 0 <= j < acts.len() && i != j ==>
        #[trigger] cont_action_key(acts[i]) != #[trigger] cont_action_key(acts[j])
}

pub open spec fn describes_data(acts: Seq<HotStoreAction>, m: Map<u64, Seq<u64>>) -> bool {
    &&& forall|i: int| 0 <= i < acts.len() ==> data_action_for(#[trigger] acts[i], m)
    &&& forall|k: u64| m.contains_key(k) ==> exists|i: int| 0 <= i < acts.len() && #[trigger] data_action_key(acts[i]) == k
    &&& forall|i: int, j: int| 0 <= i < acts.len() && 0 <= j < acts.len() && i != j ==>
        #[trigger] data_action_key(acts[i]) != #[trigger] data_action_key(acts[j])
}

pub open spec fn describes_joins(acts: Seq<HotStoreAction>, m: Map<u64, Seq<Seq<u64>>>) -> bool {
    &&& forall|i: int| 0 <= i < acts.len() ==> join_action_for(#[trigger] acts[i], m)
    &&& forall|k: u64| m.contains_key(k) ==> exists|i: int| 0 <= i < acts.len() && #[trigger] join_action_key(acts[i]) == k
    &&& forall|i: int, j: int| 0 <= i < acts.len() && 0 <= j < acts.len() && i != j ==>
        #[trigger] join_action_key(acts[i]) != #[trigger] join_action_key(acts[j])
}

/// Every list in the continuation, data and join maps is empty.
pub open spec fn nothing_to_insert(st: HotStoreView) -> bool {
    &&& forall|k: Seq<u64>| #[trigger] st.continuations.contains_key(k) ==> st.continuations[k].len() == 0
    &&& forall|k: u64| #[trigger] st.data.contains_key(k) ==> st.data[k].len() == 0
    &&& forall|k: u64| #[trigger] st.joins.contains_key(k) ==> st.joins[k].len() == 0
}

/// The continuations of the single channel `k`: the stored ones, then the
/// installed one, if any.
pub open spec fn row_wks(st: HotStoreView, k: u64) -> Seq<u64> {
    get_or(st.continuations, seq![k], Seq::empty()) + installed_list(st.installed_continuations, seq![k])
}

/// The rows `to_map` gives: one for each channel with data, unless both its
/// data and its continuations are empty.
pub open spec fn describes_rows(rows: Seq<(Vec<u64>, Row)>, st: HotStoreView) -> bool {
    &&& forall|i: int| 0 <= i < rows.len() ==> {
        &&& (#[trigger] rows[i]).0@.len() == 1
        &&& st.data.contains_key(rows[i].0@[0])
        &&& rows[i].1.data@ == st.data[rows[i].0@[0]]
        &&& rows[i].1.wks@ == row_wks(st, rows[i].0@[0])
        &&& !(rows[i].1.data@.len() == 0 && rows[i].1.wks@.len() == 0)
    }
    &&& forall|k: u64| st.data.contains_key(k) && !(st.data[k].len() == 0 && row_wks(st, k).len() == 0) ==>
        exists|i: int| 0 <= i < rows.len() && #[trigger] rows[i].0@ == seq![k]
    &&& forall|i: int, j: int| 0 <= i < rows.len() && 0 <= j < rows.len() && i != j ==>
        #[trigger] rows[i].0@ != #[trigger] rows[j].0@
}

/// The rows of `to_map` show every installed continuation: the row of a
/// channel `k` lists the continuations stored on `[k]` (none when there are
/// none) and then, when one is installed on `[k]`, that one last. A channel
/// with data and an installed continuation always has a row.
pub proof fn law_rows_show_installed_continuations(rows: Seq<(Vec<u64>, Row)>, st: HotStoreView)
    requires
        describes_rows(rows, st),
    ensures
        forall|i: int| 0 <= i < rows.len() ==> {
            let k = (#[trigger] rows[i]).0@[0];
            let wks = rows[i].1.wks@;
            let stored = if st.continuations.contains_key(seq![k]) { st.continuations[seq![k]] } else { Seq::empty() };
            if st.installed_continuations.contains_key(seq![k]) {
                &&& wks.len() == stored.len() + 1
                &&& wks.drop_last() == stored
                &&& wks.last() == st.installed_continuations[seq![k]]
            } else {
                wks == stored
            }
        },
        forall|k: u64| st.data.contains_key(k) && #[trigger] st.installed_continuations.contains_key(seq![k]) ==>
            exists|i: int| 0 <= i < rows.len() && #[trigger] rows[i].0@ == seq![k],
{
    assert forall|i: int| 0 <= i < rows.len() implies {
        let k = (#[trigger] rows[i]).0@[0];
        let wks = rows[i].1.wks@;
        let stored = if st.continuations.contains_key(seq![k]) { st.continuations[seq![k]] } else { Seq::empty() };
        if st.installed_continuations.contains_key(seq![k]) {
            &&& wks.len() == stored.len() + 1
            &&& wks.drop_last() == stored
            &&& wks.last() == st.installed_continuations[seq![k]]
        } else {
            wks == stored
        }
    } by {
        let k = rows[i].0@[0];
        let stored = if st.continuations.contains_key(seq![k]) { st.continuations[seq![k]] } else { Seq::empty() };
        if st.installed_continuations.contains_key(seq![k]) {
            assert((stored + seq![st.installed_continuations[seq![k]]]).drop_last() =~= stored);
        } else {
            assert(stored + Seq::<u64>::empty() =~= stored);
        }
    }
    assert forall|k: u64| st.data.contains_key(k) && #[trigger] st.installed_continuations.contains_key(seq![k]) implies
        exists|i: int| 0 <= i < rows.len() && #[trigger] rows[i].0@ == seq![k] by {
        assert(row_wks(st, k).len() > 0);
    }
}

pub proof fn lemma_cont_entry(s: Seq<(Vec<u64>, Vec<u64>)>, i: int)
    requires
        forall|a: int, b: int| 0 <= a < s.len() && 0 <= b < s.len() && a != b ==> #[trigger] s[a].0@ != #[trigger] s[b].0@,
        0 <= i < s.len(),
    ensures
        cont_entries_map(s).contains_key(s[i].0@),
        cont_entries_map(s)[s[i].0@] == s[i].1@,
{
    let k = s[i].0@;
    assert(s[i].0@ == k);
    let c = choose|c: int| 0 <= c < s.len() && #[trigger] s[c].0@ == k;
    if c != i {
        assert(s[c].0@ != s[i].0@);
    }
}

pub proof fn lemma_data_entry(s: Seq<(u64, Vec<u64>)>, i: int)
    requires
        forall|a: int, b: int| 0 <= a < s.len() && 0 <= b < s.len() && a != b ==> #[trigger] s[a].0 != #[trigger] s[b].0,
        0 <= i < s.len(),
    ensures
        data_entries_map(s).contains_key(s[i].0),
        data_entries_map(s)[s[i].0] == s[i].1@,
{
    let k = s[i].0;
    assert(s[i].0 == k);
    let c = choose|c: int| 0 <= c < s.len() && #[trigger] s[c].0 == k;
    if c != i {
        assert(s[c].0 != s[i].0);
    }
}

pub proof fn lemma_join_entry(s: Seq<(u64, Vec<Vec<u64>>)>, i: int)
    requires
        forall|a: int, b: int| 0 <= a < s.len() && 0 <= b < s.len() && a != b ==> #[trigger] s[a].0 != #[trigger] s[b].0,
        0 <= i < s.len(),
    ensures
        join_entries_map(s).contains_key(s[i].0),
        join_entries_map(s)[s[i].0] == nested_view(s[i].1@),
{
    let k = s[i].0;
    assert(s[i].0 == k);
    let c = choose|c: int| 0 <= c < s.len() && #[trigger] s[c].0 == k;
    if c != i {
        assert(s[c].0 != s[i].0);
    }
}

/// The changes of a continuation map, one per entry.
fn continuation_changes(m: &ContMap) -> (r: Vec<HotStoreAction>)
    ensures
        describes_conts(r@, cont_contents(*m)),
{
    let entries = cont_map_entries(m);
    let ghost cm = cont_contents(*m);
    let mut r: Vec<HotStoreAction> = Vec::new();
    let mut i: usize = 0;
    while i < entries.len()
        invariant
            i <= entries@.len(),
            r@.len() == i,
            cm == cont_entries_map(entries@),
            forall|a: int, b: int| 0 <= a < entries@.len() && 0 <= b < entries@.len() && a != b ==>
                #[trigger] entries@[a].0@ != #[trigger] entries@[b].0@,
            forall|j: int| 0 <= j < i ==> cont_action_for(#[trigger] r@[j], cm) && cont_action_key(r@[j]) == entries@[j].0@,
        decreases entries@.len() - i,
    {
        proof { lemma_cont_entry(entries@, i as int); }
        let k = copy_vec(&entries[i].0);
        let v = copy_vec(&entries[i].1);
        if v.len() == 0 {
            r.push(HotStoreAction::Delete(DeleteAction::DeleteContinuations(DeleteContinuations { channels: k })));
        } else {
            r.push(HotStoreAction::Insert(InsertAction::InsertContinuations(InsertContinuations { channels: k, continuations: v })));
        }
        i = i + 1;
    }
    proof {
        assert forall|k: Seq<u64>| cm.contains_key(k) implies exists|j: int| 0 <= j < r@.len() && #[trigger] cont_action_key(r@[j]) == k by {
            let j = choose|j: int| 0 <= j < entries@.len() && #[trigger] entries@[j].0@ == k;
            assert(cont_action_key(r@[j]) == k);
        }
        assert forall|a: int, b: int| 0 <= a < r@.len() && 0 <= b < r@.len() && a != b implies
            #[trigger] cont_action_key(r@[a]) != #[trigger] cont_action_key(r@[b]) by {
            assert(cont_action_key(r@[a]) == entries@[a].0@);
            assert(cont_action_key(r@[b]) == entries@[b].0@);
        }
    }
    r
}

/// The changes of a data map, one per entry.
fn data_changes(m: &DataMap) -> (r: Vec<HotStoreAction>)
    ensures
        describes_data(r@, data_contents(*m)),
{
    let entries = data_map_entries(m);
    let ghost dm = data_contents(*m);
    let mut r: Vec<HotStoreAction> = Vec::new();
    let mut i: usize = 0;
    while i < entries.len()
        invariant
            i <= entries@.len(),
            r@.len() == i,
            dm == data_entries_map(entries@),
            forall|a: int, b: int| 0 <= a < entries@.len() && 0 <= b < entries@.len() && a != b ==>
                #[trigger] entries@[a].0 != #[trigger] entries@[b].0,
            forall|j: int| 0 <= j < i ==> data_action_for(#[trigger] r@[j], dm) && data_action_key(r@[j]) == entries@[j].0,
        decreases entries@.len() - i,
    {
        proof { lemma_data_entry(entries@, i as int); }
        let k = entries[i].0;
        let v = copy_vec(&entries[i].1);
        if v.len() == 0 {
            r.push(HotStoreAction::Delete(DeleteAction::DeleteData(DeleteData { channel: k })));
        } else {
            r.push(HotStoreAction::Insert(InsertAction::InsertData(InsertData { channel: k, data: v })));
        }
        i = i + 1;
    }
    proof {
        assert forall|k: u64| dm.contains_key(k) implies exists|j: int| 0 <= j < r@.len() && #[trigger] data_action_key(r@[j]) == k by {
            let j = choose|j: int| 0 <= j < entries@.len() && #[trigger] entries@[j].0 == k;
            assert(data_action_key(r@[j]) == k);
        }
        assert forall|a: int, b: int| 0 <= a < r@.len() && 0 <= b < r@.len() && a != b implies
            #[trigger] data_action_key(r@[a]) != #[trigger] data_action_key(r@[b]) by {
            assert(data_action_key(r@[a]) == entries@[a].0);
            assert(data_action_key(r@[b]) == entries@[b].0);
        }
    }
    r
}

/// The changes of a join map, one per entry.
fn join_changes(m: &JoinMap) -> (r: Vec<HotStoreAction>)
    ensures
        describes_joins(r@, join_contents(*m)),
{
    let entries = join_map_entries(m);
    let ghost jm = join_contents(*m);
    let mut r: Vec<HotStoreAction> = Vec::new();
    let mut i: usize = 0;
    while i < entries.len()
        invariant
            i <= entries@.len(),
            r@.len() == i,
            jm == join_entries_map(entries@),
            forall|a: int, b: int| 0 <= a < entries@.len() && 0 <= b < entries@.len() && a != b ==>
                #[trigger] entries@[a].0 != #[trigger] entries@[b].0,
            forall|j: int| 0 <= j < i ==> join_action_for(#[trigger] r@[j], jm) && join_action_key(r@[j]) == entries@[j].0,
        decreases entries@.len() - i,
    {
        proof { lemma_join_entry(entries@, i as int); }
        let k = entries[i].0;
        let v = copy_nested(&entries[i].1);
        if v.len() == 0 {
            r.push(HotStoreAction::Delete(DeleteAction::DeleteJoins(DeleteJoins { channel: k })));
        } else {
            r.push(HotStoreAction::Insert(InsertAction::InsertJoins(InsertJoins { channel: k, joins: v })));
        }
        i = i + 1;
    }
    proof {
        assert forall|k: u64| jm.contains_key(k) implies exists|j: int| 0 <= j < r@.len() && #[trigger] join_action_key(r@[j]) == k by {
            let j = choose|j: int| 0 <= j < entries@.len() && #[trigger] entries@[j].0 == k;
            assert(join_action_key(r@[j]) == k);
        }
        assert forall|a: int, b: int| 0 <= a < r@.len() && 0 <= b < r@.len() && a != b implies
            #[trigger] join_action_key(r@[a]) != #[trigger] join_action_key(r@[b]) by {
            assert(join_action_key(r@[a]) == entries@[a].0);
            assert(join_action_key(r@[b]) == entries@[b].0);
        }
    }
    r
}

/// The joins left when `join` is removed from `current` (its first
/// occurrence), if removal is allowed and it occurs.
fn joins_after_removal(current: Vec<Vec<u64>>, allowed: bool, join: &Vec<u64>) -> (r: Vec<Vec<u64>>)
    ensures
        ({
            let idx = first_index_of(nested_view(current@), join@);
            nested_view(r@) == if allowed && idx is Some { nested_view(current@).remove(idx.unwrap()) } else { nested_view(current@) }
        }),
{
    if !allowed {
        return current;
    }
    match position_of_join(&current, join) {
        None => current,
        Some(i) => {
            let ghost sv = nested_view(current@);
            let mut new_joins = current;
            let ghost before = new_joins@;
            new_joins.remove(i);
            proof {
                assert(before.remove(i as int) == new_joins@);
                assert forall|k: int| 0 <= k < new_joins@.len() implies #[trigger] nested_view(new_joins@)[k] == sv.remove(i as int)[k] by {
                    if k < i {
                        assert(new_joins@[k] == before[k]);
                    } else {
                        assert(new_joins@[k] == before[k + 1]);
                    }
                }
                assert(nested_view(new_joins@) =~= sv.remove(i as int));
            }
            new_joins
        },
    }
}

/// `acts` lists the continuation changes of `st`, then its data changes,
/// then its join changes.
pub open spec fn describes_changes(acts: Seq<HotStoreAction>, st: HotStoreView) -> bool {
    exists|a: int, b: int| 0 <= a <= b <= acts.len() && {
        &&& describes_conts(acts.subrange(0, a), st.continuations)
        &&& describes_data(acts.subrange(a, b), st.data)
        &&& describes_joins(acts.subrange(b, acts.len() as int), st.joins)
    }
}

proof fn lemma_changes_insert(st: HotStoreView, acts: Seq<HotStoreAction>, i: int)
    requires
        0 <= i < acts.len(),
        acts[i] is Insert,
        describes_changes(acts, st),
    ensures
        !nothing_to_insert(st),
{
    let (a, b) = choose|a: int, b: int| 0 <= a <= b <= acts.len() && {
        &&& describes_conts(acts.subrange(0, a), st.continuations)
        &&& describes_data(acts.subrange(a, b), st.data)
        &&& describes_joins(acts.subrange(b, acts.len() as int), st.joins)
    };
    if i < a {
        let s = acts.subrange(0, a);
        assert(s[i] == acts[i]);
        assert(cont_action_for(s[i], st.continuations));
        if let HotStoreAction::Insert(InsertAction::InsertContinuations(ic)) = acts[i] {
            assert(st.continuations.contains_key(ic.channels@));
        }
    } else if i < b {
        let s = acts.subrange(a, b);
        assert(s[i - a] == acts[i]);
        assert(data_action_for(s[i - a], st.data));
        if let HotStoreAction::Insert(InsertAction::InsertData(d)) = acts[i] {
            assert(st.data.contains_key(d.channel));
        }
    } else {
        let s = acts.subrange(b, acts.len() as int);
        assert(s[i - b] == acts[i]);
        assert(join_action_for(s[i - b], st.joins));
        if let HotStoreAction::Insert(InsertAction::InsertJoins(j)) = acts[i] {
            assert(st.joins.contains_key(j.channel));
        }
    }
}

proof fn lemma_changes_all_delete(st: HotStoreView, acts: Seq<HotStoreAction>)
    requires
        forall|j: int| 0 <= j < acts.len() ==> (#[trigger] acts[j]) is Delete,
        describes_changes(acts, st),
    ensures
        nothing_to_insert(st),
{
    let (a, b) = choose|a: int, b: int| 0 <= a <= b <= acts.len() && {
        &&& describes_conts(acts.subrange(0, a), st.continuations)
        &&& describes_data(acts.subrange(a, b), st.data)
        &&& describes_joins(acts.subrange(b, acts.len() as int), st.joins)
    };
    let sc = acts.subrange(0, a);
    let sd = acts.subrange(a, b);
    let sj = acts.subrange(b, acts.len() as int);
    assert forall|k: Seq<u64>| #[trigger] st.continuations.contains_key(k) implies st.continuations[k].len() == 0 by {
        let i = choose|i: int| 0 <= i < sc.len() && #[trigger] cont_action_key(sc[i]) == k;
        assert(sc[i] == acts[i]);
        assert(cont_action_for(sc[i], st.continuations));
    }
    assert forall|k: u64| #[trigger] st.data.contains_key(k) implies st.data[k].len() == 0 by {
        let i = choose|i: int| 0 <= i < sd.len() && #[trigger] data_action_key(sd[i]) == k;
        assert(sd[i] == acts[a + i]);
        assert(data_action_for(sd[i], st.data));
    }
    assert forall|k: u64| #[trigger] st.joins.contains_key(k) implies st.joins[k].len() == 0 by {
        let i = choose|i: int| 0 <= i < sj.len() && #[trigger] join_action_key(sj[i]) == k;
        assert(sj[i] == acts[b + i]);
        assert(join_action_for(sj[i], st.joins));
    }
}

/// Whether `joins` holds `join`.
fn contains_join(joins: &Vec<Vec<u64>>, join: &Vec<u64>) -> (r: bool)
    ensures
        r == nested_view(joins@).contains(join@),
{
    match position_of_join(joins, join) {
        Some(i) => {
            proof { assert(nested_view(joins@)[i as int] == join@); }
            true
        },
        None => false,
    }
}

/// The first position of `join` in `joins`, if any.
fn position_of_join(joins: &Vec<Vec<u64>>, join: &Vec<u64>) -> (r: Option<usize>)
    ensures
        r matches Some(i) ==> i < joins@.len() && nested_view(joins@)[i as int] == join@
            && first_index_of(nested_view(joins@), join@) == Some(i as int),
        r is None ==> first_index_of(nested_view(joins@), join@) is None && !nested_view(joins@).contains(join@),
{
    let ghost s = nested_view(joins@);
    let mut i: usize = 0;
    while i < joins.len()
        invariant
            i <= joins@.len(),
            s == nested_view(joins@),
            forall|j: int| 0 <= j < i ==> s[j] != join@,
        decreases joins@.len() - i,
    {
        if vec_eq(&joins[i], join) {
            proof {
                assert(s[i as int] == join@);
                lemma_first_index_at(s, join@, i as int);
            }
            return Some(i);
        }
        i = i + 1;
    }
    proof {
        lemma_first_index_none(s, join@);
        assert forall|j: int| 0 <= j < s.len() implies s[j] != join@ by {}
        if s.contains(join@) {
            let k = choose|k: int| 0 <= k < s.len() && s[k] == join@;
            assert(s[k] != join@);
        }
    }
    None
}

} // verus!
