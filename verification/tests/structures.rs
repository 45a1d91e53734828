use rholang::ast::{Id, Var};
use rholang::bound_map::{BoundMap, BoundMapChain};
use rholang::context::{ConnectiveInstance, VarSort};
use rholang::free_map::FreeMap;
use rholang::normalize::{collection_proc_visit_inputs_and_env, name_visit_inputs_and_env, proc_visit_inputs_with_updated_vec_bound_map_chain};
use rholang::span::{SourcePos, SourcePosition, SourceSpan, SpanContext};
use rholang::state_manager::{root_absent, root_present, RSpaceExporter, RSpaceImporter, RSpaceStateManager, RootError};
use rholang::sub_pars::{ParCount, ParParts, SubParsIterator};
use rholang::subset::{filter_and_adjust_bitset, mask_to_subsets, popcount, SubsetIterator};

fn pos(line: usize, col: usize) -> SourcePos {
    SourcePos { line, col }
}

fn span(l1: usize, c1: usize, l2: usize, c2: usize) -> SourceSpan {
    SourceSpan { start: pos(l1, c1), end: pos(l2, c2) }
}

// ---- spans ----

#[test]
fn zero_and_wildcard_spans_are_the_synthetic_origin() {
    assert_eq!(SpanContext::zero_span(), span(1, 1, 1, 1));
    assert_eq!(SpanContext::wildcard_span(), span(1, 1, 1, 1));
    assert_eq!(SpanContext::wildcard_span_with_context(span(3, 4, 5, 6)), span(3, 4, 3, 4));
}

#[test]
fn merge_spans_covers_all() {
    assert_eq!(SpanContext::merge_spans(&[]), span(1, 1, 1, 1));
    let spans = [span(2, 5, 2, 9), span(1, 7, 1, 8), span(3, 1, 4, 2)];
    assert_eq!(SpanContext::merge_spans(&spans), span(1, 7, 4, 2));
    assert_eq!(SpanContext::merge_two_spans(span(2, 5, 2, 9), span(2, 3, 2, 6)), span(2, 3, 2, 9));
    // merging is commutative
    assert_eq!(
        SpanContext::merge_two_spans(span(1, 1, 1, 2), span(5, 1, 5, 3)),
        SpanContext::merge_two_spans(span(5, 1, 5, 3), span(1, 1, 1, 2))
    );
    assert_eq!(SpanContext::send_span_from_binding(span(1, 1, 1, 2), span(1, 5, 1, 9)), span(1, 1, 1, 9));
}

#[test]
fn point_spans_and_positions() {
    assert_eq!(SpanContext::pos_to_span(pos(4, 2)), span(4, 2, 4, 2));
    assert_eq!(SpanContext::synthetic_span_at(pos(4, 2)), span(4, 2, 4, 2));
    assert_eq!(SpanContext::synthetic_span_from(span(1, 2, 3, 4)), span(1, 2, 3, 4));
    assert_eq!(SpanContext::span_start_pos(span(1, 2, 3, 4)), pos(1, 2));
    assert_eq!(SpanContext::span_end_pos(span(1, 2, 3, 4)), pos(3, 4));
    assert!(SpanContext::is_single_position(span(2, 2, 2, 2)));
    assert!(!SpanContext::is_single_position(span(2, 2, 2, 3)));
    assert_eq!(SpanContext::extract_pos(&Id { name: "a".to_string(), pos: pos(7, 8) }), pos(7, 8));
}

#[test]
fn legacy_positions_round_trip() {
    let legacy = SpanContext::to_legacy_source_position(span(3, 9, 4, 1));
    assert_eq!(legacy, SourcePosition { row: 3, column: 9 });
    assert_eq!(SpanContext::legacy_to_pos(legacy), pos(3, 9));
    assert_eq!(SpanContext::legacy_to_span(legacy), span(3, 9, 3, 9));
    assert_eq!(SpanContext::pos_to_legacy_source_position(pos(1, 2)), SourcePosition { row: 1, column: 2 });
}

#[test]
fn synthetic_offsets_saturate() {
    assert_eq!(SpanContext::variable_span_from_binding(span(2, 3, 2, 9), 4), span(2, 7, 2, 7));
    assert_eq!(SpanContext::synthetic_construct_span(span(2, 3, 5, 9), 2), span(2, 5, 2, 5));
    assert_eq!(
        SpanContext::variable_span_from_binding(span(2, usize::MAX - 1, 2, 9), 4),
        span(2, usize::MAX, 2, usize::MAX)
    );
}

#[test]
fn name_hints() {
    assert_eq!(SpanContext::extract_name_hint_from_var(&Var::Wildcard), "wildcard");
    let v = Var::Id(Id { name: "ack".to_string(), pos: pos(1, 1) });
    assert_eq!(SpanContext::extract_name_hint_from_var(&v), "ack");
}

// ---- free maps ----

#[test]
fn free_map_levels_follow_first_use() {
    let f = FreeMap::new()
        .put_pos(("a".to_string(), VarSort::ProcSort, pos(1, 1)))
        .put_span(("b".to_string(), VarSort::NameSort, span(1, 3, 1, 4)));
    assert_eq!(f.get(&"a".to_string()).unwrap().level, 0);
    assert_eq!(f.get(&"b".to_string()).unwrap().level, 1);
    assert_eq!(f.next_level(), 2);
    assert!(f.get(&"c".to_string()).is_none());
}

#[test]
fn free_map_counts_wildcards_and_connectives() {
    let f = FreeMap::new()
        .put_pos(("a".to_string(), VarSort::ProcSort, pos(1, 1)))
        .add_wildcard(span(1, 2, 1, 2))
        .add_connective(ConnectiveInstance::ConnNotBody, span(1, 4, 1, 6));
    assert_eq!(f.count(), 3);
    assert_eq!(f.count_no_wildcards(), 1);
    assert_eq!(f.connectives(), vec![(ConnectiveInstance::ConnNotBody, span(1, 4, 1, 6))]);
}

#[test]
fn free_map_merge_shifts_levels_and_reports_shadowing() {
    let a = FreeMap::new()
        .put_pos(("x".to_string(), VarSort::ProcSort, pos(1, 1)))
        .put_pos(("y".to_string(), VarSort::ProcSort, pos(1, 2)));
    let b = FreeMap::new()
        .put_pos(("z".to_string(), VarSort::NameSort, pos(2, 1)))
        .put_pos(("x".to_string(), VarSort::NameSort, pos(2, 5)));
    let (merged, shadowed) = a.merge(b);
    assert_eq!(merged.next_level(), 4);
    assert_eq!(merged.get(&"z".to_string()).unwrap().level, 2);
    let x = merged.get(&"x".to_string()).unwrap();
    assert_eq!(x.level, 3);
    assert_eq!(x.typ, VarSort::NameSort);
    assert_eq!(shadowed, vec![("x".to_string(), span(2, 5, 2, 5))]);
}

#[test]
fn free_map_put_all() {
    let f = FreeMap::new().put_all_pos(vec![
        ("a".to_string(), VarSort::ProcSort, pos(1, 1)),
        ("b".to_string(), VarSort::ProcSort, pos(1, 2)),
    ]);
    assert_eq!(f.count(), 2);
    let g = FreeMap::new().put_all_span(vec![("c".to_string(), VarSort::NameSort, span(1, 1, 1, 4))]);
    assert_eq!(g.get(&"c".to_string()).unwrap().source_span, span(1, 1, 1, 4));
    assert_eq!(g.level_bindings().len(), 1);
}

// ---- bound maps ----

#[test]
fn bound_map_indices_count_from_the_innermost_binder() {
    let m = BoundMap::new()
        .put_pos(("a".to_string(), VarSort::ProcSort, pos(1, 1)))
        .put_pos(("b".to_string(), VarSort::NameSort, pos(1, 2)));
    assert_eq!(m.get(&"b".to_string()).unwrap().index, 0);
    assert_eq!(m.get(&"a".to_string()).unwrap().index, 1);
    assert_eq!(m.get_count(), 2);
    // rebinding a name shadows the earlier binder
    let m2 = m.put_pos(("a".to_string(), VarSort::NameSort, pos(1, 3)));
    assert_eq!(m2.get(&"a".to_string()).unwrap().index, 0);
    assert_eq!(m2.get(&"a".to_string()).unwrap().typ, VarSort::NameSort);
}

#[test]
fn absorbing_free_variables_binds_them_in_level_order() {
    let free = FreeMap::new()
        .put_pos(("p".to_string(), VarSort::ProcSort, pos(1, 1)))
        .put_pos(("q".to_string(), VarSort::ProcSort, pos(1, 2)));
    let m = BoundMap::new().put_pos(("outer".to_string(), VarSort::NameSort, pos(0, 0))).absorb_free_span(&free);
    assert_eq!(m.get(&"q".to_string()).unwrap().index, 0);
    assert_eq!(m.get(&"p".to_string()).unwrap().index, 1);
    assert_eq!(m.get(&"outer".to_string()).unwrap().index, 2);
    assert_eq!(m.get_count(), 3);
}

#[test]
fn bound_map_chain_finds_through_scopes() {
    let chain = BoundMapChain::<VarSort>::new().put_pos(("x".to_string(), VarSort::ProcSort, pos(1, 1)));
    assert_eq!(chain.depth(), 0);
    let inner = chain.push().put_pos(("y".to_string(), VarSort::NameSort, pos(2, 1)));
    assert_eq!(inner.depth(), 1);
    let (x, dx) = inner.find(&"x".to_string()).unwrap();
    assert_eq!((x.index, dx), (0, 1));
    let (y, dy) = inner.find(&"y".to_string()).unwrap();
    assert_eq!((y.index, dy), (0, 0));
    assert!(inner.get(&"x".to_string()).is_none());
    assert!(inner.find(&"z".to_string()).is_none());
    assert_eq!(inner.get_count(), 1);
}

// ---- subsets ----

#[test]
fn popcount_counts_bits() {
    assert_eq!(popcount(0), 0);
    assert_eq!(popcount(0b1011), 3);
    assert_eq!(popcount(u64::MAX), 64);
}

#[test]
fn mask_selects_items_by_bit() {
    let items = [10u64, 20, 30, 40];
    let (sub, rest) = mask_to_subsets(&items, 0b0101);
    assert_eq!(sub, vec![10, 30]);
    assert_eq!(rest, vec![20, 40]);
}

#[test]
fn subset_iterator_respects_size_bounds() {
    let items = [1u64, 2, 3];
    let mut it = SubsetIterator::new(&items, 1, 1);
    let mut got = Vec::new();
    while let Some((sub, rest)) = it.next() {
        got.push((sub, rest));
    }
    assert_eq!(got, vec![(vec![1], vec![2, 3]), (vec![2], vec![1, 3]), (vec![3], vec![1, 2])]);
    assert!(it.next().is_none());
}

#[test]
fn subset_iterator_with_empty_bounds_gives_nothing() {
    let items = [1u64, 2];
    let mut it = SubsetIterator::new(&items, 2, 1);
    assert!(it.next().is_none());
    let mut it = SubsetIterator::new(&items, -3, -1);
    assert!(it.next().is_none());
    let mut all = SubsetIterator::new(&items, -5, 10);
    let mut n = 0;
    while all.next().is_some() {
        n += 1;
    }
    assert_eq!(n, 4);
}

#[test]
fn bitset_adjustment_drops_bound_positions() {
    // {0, 2, 3} without the first two positions is {0, 1}.
    assert_eq!(filter_and_adjust_bitset(vec![1, 0, 1, 1], 2), vec![1, 1]);
    // {1, 4} without the first two positions is {2}.
    assert_eq!(filter_and_adjust_bitset(vec![0, 1, 0, 0, 1], 2), vec![0, 0, 1]);
    assert_eq!(filter_and_adjust_bitset(vec![1, 1], 5), Vec::<u8>::new());
    assert_eq!(filter_and_adjust_bitset(vec![9, 0, 9], 0), vec![9, 0, 9]);
}

// ---- splits of a process ----

fn parts(sends: Vec<u64>, exprs: Vec<u64>) -> ParParts {
    ParParts {
        sends,
        receives: vec![],
        news: vec![],
        exprs,
        matches: vec![],
        unforgeables: vec![],
        bundles: vec![],
    }
}

fn count(n: usize) -> ParCount {
    ParCount { sends: n, receives: n, news: n, exprs: n, matches: n, unforgeables: n, bundles: n }
}

#[test]
fn sub_pars_enumerates_all_combinations() {
    let par = parts(vec![1, 2], vec![7]);
    let mut it = SubParsIterator::new(&par, &count(0), &count(10), &count(0), &count(10));
    let mut pairs = Vec::new();
    while let Some((a, b)) = it.next() {
        pairs.push((a.sends.clone(), a.exprs.clone(), b.sends.clone(), b.exprs.clone()));
    }
    // 4 splits of the sends times 2 of the expressions, the expressions fastest
    assert_eq!(pairs.len(), 8);
    assert_eq!(pairs[0], (vec![], vec![], vec![1, 2], vec![7]));
    assert_eq!(pairs[1], (vec![], vec![7], vec![1, 2], vec![]));
    assert_eq!(pairs[2], (vec![1], vec![], vec![2], vec![7]));
    assert_eq!(pairs[7], (vec![1, 2], vec![7], vec![], vec![]));
    assert!(it.next().is_none());
}

#[test]
fn sub_pars_respects_the_prune_bounds() {
    // the second part must keep at least one send: the first takes at most one
    let par = parts(vec![1, 2], vec![]);
    let min_prune = ParCount { sends: 1, ..count(0) };
    let mut it = SubParsIterator::new(&par, &count(0), &count(10), &min_prune, &count(10));
    let mut firsts = Vec::new();
    while let Some((a, b)) = it.next() {
        assert!(!b.sends.is_empty());
        firsts.push(a.sends);
    }
    assert_eq!(firsts, vec![vec![], vec![1], vec![2]]);
}

#[test]
fn sub_pars_with_no_admissible_split_is_empty() {
    let par = parts(vec![1], vec![]);
    let min = ParCount { sends: 2, ..count(0) };
    let mut it = SubParsIterator::new(&par, &min, &count(10), &count(0), &count(10));
    assert!(it.next().is_none());
}

// ---- state manager ----

struct Exporter(Result<Vec<u8>, RootError>);

impl RSpaceExporter for Exporter {
    fn get_root(&self) -> Result<Vec<u8>, RootError> {
        self.0.clone()
    }
}

struct Importer;

impl RSpaceImporter for Importer {}

#[test]
fn a_space_with_a_root_is_not_empty() {
    let m = RSpaceStateManager::new(Exporter(Ok(vec![1, 2, 3])), Importer);
    assert!(m.has_root());
    assert!(!m.is_empty());
}

#[test]
fn a_space_without_a_root_is_empty() {
    let m = RSpaceStateManager::new(Exporter(Err(RootError::UnknownRootError("none".to_string()))), Importer);
    assert!(!m.has_root());
    assert!(m.is_empty());
    let m = RSpaceStateManager::new(Exporter(Err(RootError::KvStoreError("io".to_string()))), Importer);
    assert!(!m.has_root());
    assert!(root_present(&Ok(vec![])));
    assert!(!root_absent(&Ok(vec![])));
    assert!(root_absent(&Err(RootError::KvStoreError("io".to_string()))));
}

#[test]
fn environment_helpers_bind_at_line_one() {
    let e = name_visit_inputs_and_env();
    assert_eq!(e.free_map.count(), 0);
    assert_eq!(e.bound_map_chain.depth(), 0);
    let c = collection_proc_visit_inputs_and_env();
    let p = c.bound_map_chain.get(&"P".to_string()).unwrap();
    assert_eq!((p.index, p.typ), (1, VarSort::ProcSort));
    let x = c.bound_map_chain.get(&"x".to_string()).unwrap();
    assert_eq!((x.index, x.typ, x.source_span), (0, VarSort::NameSort, span(1, 1, 1, 1)));
    let v = proc_visit_inputs_with_updated_vec_bound_map_chain(
        name_visit_inputs_and_env(),
        vec![("a".to_string(), VarSort::NameSort), ("b".to_string(), VarSort::ProcSort)],
    );
    assert_eq!(v.bound_map_chain.get(&"a".to_string()).unwrap().index, 1);
    assert_eq!(v.bound_map_chain.get_count(), 2);
}

#[test]
fn defaults_are_empty() {
    let f: FreeMap<VarSort> = Default::default();
    assert_eq!(f.count(), 0);
    let b: BoundMap<VarSort> = Default::default();
    assert_eq!(b.get_count(), 0);
    let c: BoundMapChain<VarSort> = Default::default();
    assert_eq!(c.depth(), 0);
}

#[test]
fn an_enumeration_yields_each_admissible_split_once() {
    // three items, subsets of one or two items: 3 + 3 splits, all different
    let items = [1u64, 2, 3];
    let mut it = SubsetIterator::new(&items, 1, 2);
    let mut seen: Vec<(Vec<u64>, Vec<u64>)> = Vec::new();
    while let Some(split) = it.next() {
        assert!(!seen.contains(&split));
        assert!(split.0.len() >= 1 && split.0.len() <= 2);
        assert_eq!(split.0.len() + split.1.len(), 3);
        seen.push(split);
    }
    assert_eq!(seen.len(), 6);
    assert!(it.next().is_none());
}
