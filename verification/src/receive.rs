//! The part of receive normalization that combines the patterns of the binds
//! of one `for`: their free variables are merged into one scope for the body,
//! and a variable may be bound by only one of the binds.
use vstd::prelude::*;
use crate::context::VarSort;
use crate::free_map::{is_shadow_list, FreeMap, FreeMapView};
use crate::normalize::InterpreterError;

verus! {

pub open spec fn empty_free_view() -> FreeMapView<VarSort> {
    FreeMapView { next: 0, bindings: Map::empty(), wildcards: Seq::empty(), connectives: Seq::empty() }
}

/// The free maps merged in order, starting from the empty map.
pub open spec fn merge_all(ms: Seq<FreeMapView<VarSort>>) -> FreeMapView<VarSort>
    decreases ms.len(),
{
    if ms.len() == 0 {
        empty_free_view()
    } else {
        merge_all(ms.drop_last()).merged(ms.last())
    }
}

pub open spec fn total_count(ms: Seq<FreeMapView<VarSort>>) -> nat
    decreases ms.len(),
{
    if ms.len() == 0 {
        0
    } else {
        total_count(ms.drop_last()) + ms.last().count()
    }
}

/// No variable is bound by two of the maps.
pub open spec fn pairwise_disjoint(ms: Seq<FreeMapView<VarSort>>) -> bool {
    forall|i: int, j: int, k: Seq<char>| 0 <= i < j < ms.len() ==>
        !(#[trigger] ms[i].bindings.contains_key(k) && #[trigger] ms[j].bindings.contains_key(k))
}

pub proof fn lemma_merge_all_facts(ms: Seq<FreeMapView<VarSort>>)
    ensures
        merge_all(ms).count() == total_count(ms),
        forall|k: Seq<char>| #[trigger] merge_all(ms).bindings.contains_key(k) <==>
            exists|i: int| 0 <= i < ms.len() && #[trigger] ms[i].bindings.contains_key(k),
    decreases ms.len(),
{
    if ms.len() > 0 {
        let prev = ms.drop_last();
        lemma_merge_all_facts(prev);
        assert forall|k: Seq<char>| #[trigger] merge_all(ms).bindings.contains_key(k) <==>
            exists|i: int| 0 <= i < ms.len() && #[trigger] ms[i].bindings.contains_key(k) by {
            if merge_all(ms).bindings.contains_key(k) {
                if ms.last().bindings.contains_key(k) {
                    assert(ms[ms.len() - 1].bindings.contains_key(k));
                } else {
                    assert(merge_all(prev).bindings.contains_key(k));
                    let i = choose|i: int| 0 <= i < prev.len() && #[trigger] prev[i].bindings.contains_key(k);
                    assert(ms[i] == prev[i]);
                }
            }
            if exists|i: int| 0 <= i < ms.len() && #[trigger] ms[i].bindings.contains_key(k) {
                let i = choose|i: int| 0 <= i < ms.len() && #[trigger] ms[i].bindings.contains_key(k);
                if i < ms.len() - 1 {
                    assert(prev[i] == ms[i]);
                    assert(merge_all(prev).bindings.contains_key(k));
                }
            }
        }
    }
}

pub proof fn lemma_total_count_prefix(ms: Seq<FreeMapView<VarSort>>, j: int)
    requires
        0 <= j <= ms.len(),
    ensures
        total_count(ms.subrange(0, j)) <= total_count(ms),
    decreases ms.len() - j,
{
    if j < ms.len() {
        lemma_total_count_prefix(ms, j + 1);
        assert(ms.subrange(0, j + 1).drop_last() =~= ms.subrange(0, j));
    } else {
        assert(ms.subrange(0, j) =~= ms);
    }
}

/// The error for maps that bind a variable twice: it names a variable bound
/// by one of the maps before the first map `j` that repeats one, and by `j`,
/// with the spans of both uses.
pub open spec fn merge_refusal(ms: Seq<FreeMapView<VarSort>>, e: InterpreterError) -> bool {
    exists|j: int| 0 < j < ms.len() && {
        &&& pairwise_disjoint(ms.subrange(0, j))
        &&& e matches InterpreterError::UnexpectedReuseOfNameContextFree { var_name, first_use, second_use }
        &&& merge_all(ms.subrange(0, j)).bindings.contains_key(var_name@)
        &&& ms[j].bindings.contains_key(var_name@)
        &&& first_use == merge_all(ms.subrange(0, j)).bindings[var_name@].source_span
        &&& second_use == ms[j].bindings[var_name@].source_span
    }
}

/// Merges the free maps of the patterns of a receive's binds, in order.
/// Succeeds exactly when no variable is bound by two binds; then the result
/// is the maps merged in order. Otherwise the error names a variable bound by
/// an earlier bind and by the first bind that repeats one, with the spans of
/// both uses.
pub fn merge_receive_bind_free_maps(maps: &Vec<FreeMap<VarSort>>) -> (r: Result<FreeMap<VarSort>, InterpreterError>)
    requires
        total_count(maps@.map_values(|m: FreeMap<VarSort>| m@)) <= usize::MAX,
    ensures
        ({
            let ms = maps@.map_values(|m: FreeMap<VarSort>| m@);
            &&& r is Ok <==> pairwise_disjoint(ms)
            &&& r matches Ok(f) ==> f@ == merge_all(ms)
            &&& r matches Err(e) ==> merge_refusal(ms, e)
        }),
{
    let ghost ms = maps@.map_values(|m: FreeMap<VarSort>| m@);
    let mut acc: FreeMap<VarSort> = FreeMap::new();
    let mut i: usize = 0;
    proof {
        assert(acc@ =~= merge_all(ms.subrange(0, 0)));
    }
    while i < maps.len()
        invariant
            i <= maps@.len(),
            ms == maps@.map_values(|m: FreeMap<VarSort>| m@),
            total_count(ms) <= usize::MAX,
            acc@ == merge_all(ms.subrange(0, i as int)),
            pairwise_disjoint(ms.subrange(0, i as int)),
        decreases maps@.len() - i,
    {
        let ghost prefix = ms.subrange(0, i as int);
        proof {
            assert(ms.subrange(0, i + 1).drop_last() =~= prefix);
            lemma_merge_all_facts(prefix);
            lemma_total_count_prefix(ms, i + 1);
            assert(ms[i as int] == maps@[i as int]@);
        }
        let (merged, conflicts) = acc.merge(maps[i].copy());
        if conflicts.len() == 0 {
            proof {
                let next = ms.subrange(0, i + 1);
                assert forall|a: int, b: int, k: Seq<char>| 0 <= a < b < next.len() implies
                    !(#[trigger] next[a].bindings.contains_key(k) && #[trigger] next[b].bindings.contains_key(k)) by {
                    if b < i {
                        assert(next[a] == prefix[a] && next[b] == prefix[b]);
                    } else {
                        assert(next[a] == prefix[a]);
                        if next[a].bindings.contains_key(k) && next[b].bindings.contains_key(k) {
                            assert(merge_all(prefix).bindings.contains_key(k));
                            assert(is_shadow_list(conflicts@, acc@.bindings, maps@[i as int]@.bindings));
                        }
                    }
                }
            }
            acc = merged;
        } else {
            let (name, second_span) = &conflicts[0];
            let first = acc.get(name);
            proof {
                assert(acc@.bindings.contains_key(name@));
                let k = name@;
                let a = choose|a: int| 0 <= a < prefix.len() && #[trigger] prefix[a].bindings.contains_key(k);
                assert(ms[a] == prefix[a]);
                assert(ms[i as int].bindings.contains_key(k));
                assert(!pairwise_disjoint(ms));
            }
            match first {
                Some(ctx) => {
                    return Err(InterpreterError::UnexpectedReuseOfNameContextFree {
                        var_name: name.clone(),
                        first_use: ctx.source_span,
                        second_use: *second_span,
                    });
                },
                None => {
                    proof { assert(false); }
                    return Err(InterpreterError::BugFoundError(String::new()));
                },
            }
        }
        i = i + 1;
    }
    proof {
        assert(ms.subrange(0, maps@.len() as int) =~= ms);
    }
    Ok(acc)
}

} // verus!
