//! What holds of sequences of hot store operations, stated over the views
//! that the operations' own contracts use.
//!
//! In each law, a `fresh` value is what the history reader would return for
//! a key that the cache does not have yet; once read, the value stays in the
//! cache, so a later call of any operation on the same key sees the same
//! history.
use vstd::prelude::*;
use crate::hot_store::{cached, cont_action_for, data_action_for, describes_changes, describes_conts, describes_data,
    describes_joins, empty_hot_view, get_or, installed_list, join_action_for, nothing_to_insert, HotStoreAction,
    HotStoreView};

verus! {

/// The history is read at most once per key: after a first read has cached
/// `h` for `k`, a second read finds `h` whatever the reader would answer, and
/// leaves the cache as it was.
pub proof fn law_history_read_once<K, V>(cache: Map<K, V>, k: K, fresh1: V, fresh2: V)
    ensures
        ({
            let h = get_or(cache, k, fresh1);
            let after = cached(cache, k, h);
            &&& get_or(after, k, fresh2) == h
            &&& cached(after, k, get_or(after, k, fresh2)) == after
        }),
{
}

/// Reading back a write: after `put_datum(channel, d)`, `get_data(channel)`
/// gives `d` followed by the data that were there before.
pub proof fn law_get_data_after_put_datum(st: HotStoreView, cache: Map<u64, Seq<u64>>, fresh1: Seq<u64>,
    fresh2: Seq<u64>, channel: u64, d: u64)
    ensures
        ({
            let h1 = get_or(cache, channel, fresh1);
            let before = get_or(st.data, channel, h1);
            let after_put = HotStoreView { data: st.data.insert(channel, seq![d] + before), ..st };
            let h2 = get_or(cached(cache, channel, h1), channel, fresh2);
            get_or(after_put.data, channel, h2) == seq![d] + before
        }),
{
}

/// `remove_datum(channel, 0)` undoes `put_datum(channel, d)`: it succeeds, and
/// the data of the channel are those that were there before.
pub proof fn law_remove_datum_undoes_put_datum(st: HotStoreView, cache: Map<u64, Seq<u64>>,
    fresh1: Seq<u64>, fresh2: Seq<u64>, channel: u64, d: u64)
    ensures
        ({
            let h1 = get_or(cache, channel, fresh1);
            let before = get_or(st.data, channel, h1);
            let after_put = HotStoreView { data: st.data.insert(channel, seq![d] + before), ..st };
            let h2 = get_or(cached(cache, channel, h1), channel, fresh2);
            let current = get_or(after_put.data, channel, h2);
            let refused = 0 >= current.len();
            &&& !refused
            &&& after_put.data.insert(channel, current.remove(0)) == st.data.insert(channel, before)
        }),
{
    let h1 = get_or(cache, channel, fresh1);
    let before = get_or(st.data, channel, h1);
    assert((seq![d] + before).remove(0) =~= before);
    assert(st.data.insert(channel, seq![d] + before).insert(channel, before) =~= st.data.insert(channel, before));
}

/// Reading back a write: after `put_continuation(channels, wc)`,
/// `get_continuations(channels)` gives the installed continuation, if any,
/// then `wc`, then the continuations that were there before.
pub proof fn law_get_continuations_after_put(st: HotStoreView, cache: Map<Seq<u64>, Seq<u64>>,
    fresh1: Seq<u64>, fresh2: Seq<u64>, channels: Seq<u64>, wc: u64)
    ensures
        ({
            let h1 = get_or(cache, channels, fresh1);
            let before = get_or(st.continuations, channels, h1);
            let after_put = HotStoreView { continuations: st.continuations.insert(channels, seq![wc] + before), ..st };
            let h2 = get_or(cached(cache, channels, h1), channels, fresh2);
            installed_list(after_put.installed_continuations, channels) + get_or(after_put.continuations, channels, h2)
                == installed_list(st.installed_continuations, channels) + (seq![wc] + before)
        }),
{
}

/// `remove_continuation` at the position `put_continuation` gave `wc` (0, or 1
/// behind an installed continuation) undoes the put: it succeeds, and the
/// continuations of the channels are those that were there before.
pub proof fn law_remove_continuation_undoes_put(st: HotStoreView, cache: Map<Seq<u64>, Seq<u64>>,
    fresh1: Seq<u64>, fresh2: Seq<u64>, channels: Seq<u64>, wc: u64)
    ensures
        ({
            let h1 = get_or(cache, channels, fresh1);
            let before = get_or(st.continuations, channels, h1);
            let after_put = HotStoreView { continuations: st.continuations.insert(channels, seq![wc] + before), ..st };
            let h2 = get_or(cached(cache, channels, h1), channels, fresh2);
            let current = get_or(after_put.continuations, channels, h2);
            let installed = after_put.installed_continuations.contains_key(channels);
            let index: int = if installed { 1 } else { 0 };
            let removed_index: int = if installed { index - 1 } else { index };
            let refused = (installed && index == 0) || removed_index < 0 || removed_index >= current.len();
            &&& !refused
            &&& after_put.continuations.insert(channels, current.remove(removed_index))
                == st.continuations.insert(channels, before)
        }),
{
    let h1 = get_or(cache, channels, fresh1);
    let before = get_or(st.continuations, channels, h1);
    assert((seq![wc] + before).remove(0) =~= before);
    assert(st.continuations.insert(channels, seq![wc] + before).insert(channels, before)
        =~= st.continuations.insert(channels, before));
}

/// The installed continuation comes first: after
/// `install_continuation(channels, wc)`, `get_continuations(channels)` starts
/// with `wc`.
pub proof fn law_installed_continuation_first(st: HotStoreView, channels: Seq<u64>, wc: u64, base: Seq<u64>)
    ensures
        ({
            let after = HotStoreView { installed_continuations: st.installed_continuations.insert(channels, wc), ..st };
            let r = installed_list(after.installed_continuations, channels) + base;
            &&& r.len() == base.len() + 1
            &&& r[0] == wc
            &&& r.subrange(1, r.len() as int) == base
        }),
{
    let after = HotStoreView { installed_continuations: st.installed_continuations.insert(channels, wc), ..st };
    let r = installed_list(after.installed_continuations, channels) + base;
    assert(r.subrange(1, r.len() as int) =~= base);
}

/// Putting a join is idempotent: a second `put_join(channel, join)` (or
/// `install_join`) leaves the joins as the first left them.
pub proof fn law_put_join_idempotent(joins: Map<u64, Seq<Seq<u64>>>, cache: Map<u64, Seq<Seq<u64>>>,
    fresh1: Seq<Seq<u64>>, fresh2: Seq<Seq<u64>>, channel: u64, join: Seq<u64>)
    ensures
        ({
            let h1 = get_or(cache, channel, fresh1);
            let current1 = get_or(joins, channel, h1);
            let after1 = if current1.contains(join) { joins } else { joins.insert(channel, seq![join] + current1) };
            let h2 = get_or(cached(cache, channel, h1), channel, fresh2);
            let current2 = get_or(after1, channel, h2);
            let after2 = if current2.contains(join) { after1 } else { after1.insert(channel, seq![join] + current2) };
            after2 == after1
        }),
{
    let h1 = get_or(cache, channel, fresh1);
    let current1 = get_or(joins, channel, h1);
    if !current1.contains(join) {
        let s = seq![join] + current1;
        assert(s[0] == join);
        assert(s.contains(join));
    }
}

/// After `clear`, the hot store has nothing to write to the history
/// (`is_empty` holds) and `changes` lists nothing.
pub proof fn law_clear_then_empty(acts: Seq<HotStoreAction>)
    requires
        describes_changes(acts, empty_hot_view()),
    ensures
        nothing_to_insert(empty_hot_view()),
        acts.len() == 0,
{
    let st = empty_hot_view();
    let (a, b) = choose|a: int, b: int| 0 <= a <= b <= acts.len() && {
        &&& describes_conts(acts.subrange(0, a), st.continuations)
        &&& describes_data(acts.subrange(a, b), st.data)
        &&& describes_joins(acts.subrange(b, acts.len() as int), st.joins)
    };
    if acts.len() > 0 {
        if 0 < a {
            assert(cont_action_for(acts.subrange(0, a)[0], st.continuations));
        } else if 0 < b {
            assert(data_action_for(acts.subrange(a, b)[0], st.data));
        } else {
            assert(join_action_for(acts.subrange(b, acts.len() as int)[0], st.joins));
        }
    }
}

} // verus!
