use rholang::bound_map::BoundMapChain;
use rholang::compiler::Compiler;
use rholang::context::{ConnectiveInstance, VarSort};
use rholang::free_map::FreeMap;
use rholang::hot_store::{HistoryReaderBase, HotStoreInstances, HotStoreState};
use rholang::let_rewrite::{concurrent_let_decls, concurrent_send_spans, lhs_context_span, rhs_list_span, sequential_match_span};
use rholang::new_scope::new_scope;
use rholang::normalize::InterpreterError;
use rholang::span::{SourcePos, SourceSpan};

fn pos(line: usize, col: usize) -> SourcePos {
    SourcePos { line, col }
}

fn span(l1: usize, c1: usize, l2: usize, c2: usize) -> SourceSpan {
    SourceSpan { start: pos(l1, c1), end: pos(l2, c2) }
}

#[test]
fn a_program_without_free_terms_passes() {
    assert!(Compiler::check_top_level(&FreeMap::<VarSort>::new()).is_ok());
}

#[test]
fn top_level_connectives_are_refused_first() {
    let free = FreeMap::new()
        .put_pos(("x".to_string(), VarSort::ProcSort, pos(1, 1)))
        .add_wildcard(span(1, 3, 1, 3))
        .add_connective(ConnectiveInstance::ConnNotBody, span(1, 5, 1, 9));
    match Compiler::check_top_level(&free) {
        Err(InterpreterError::TopLevelLogicalConnectivesNotAllowedError(cs)) => {
            assert_eq!(cs, vec![(ConnectiveInstance::ConnNotBody, span(1, 5, 1, 9))]);
        },
        _ => panic!("expected connectives error"),
    }
}

#[test]
fn top_level_wildcards_are_refused_before_free_variables() {
    let free = FreeMap::new()
        .put_pos(("x".to_string(), VarSort::ProcSort, pos(1, 1)))
        .add_wildcard(span(1, 3, 1, 3));
    match Compiler::check_top_level(&free) {
        Err(InterpreterError::TopLevelWildcardsNotAllowedError(ws)) => assert_eq!(ws, vec![span(1, 3, 1, 3)]),
        _ => panic!("expected wildcards error"),
    }
}

#[test]
fn top_level_free_variables_are_refused() {
    let free = FreeMap::new()
        .put_pos(("x".to_string(), VarSort::ProcSort, pos(1, 1)))
        .put_pos(("y".to_string(), VarSort::NameSort, pos(2, 4)));
    match Compiler::check_top_level(&free) {
        Err(InterpreterError::TopLevelFreeVariablesNotAllowedError(vs)) => {
            assert_eq!(vs.len(), 2);
            assert!(vs.contains(&("x".to_string(), span(1, 1, 1, 1))));
            assert!(vs.contains(&("y".to_string(), span(2, 4, 2, 4))));
        },
        _ => panic!("expected free variables error"),
    }
}

#[test]
fn a_source_must_hold_one_process() {
    assert_eq!(Compiler::single_process(vec![7]).ok(), Some(7));
    assert!(matches!(Compiler::single_process(Vec::<u8>::new()), Err(InterpreterError::ExpectedSingleProcess(0))));
    assert!(matches!(Compiler::single_process(vec![1, 2]), Err(InterpreterError::ExpectedSingleProcess(2))));
}

#[test]
fn let_spans_cover_the_right_hand_sides() {
    let let_span = span(1, 1, 9, 9);
    assert_eq!(rhs_list_span(&[], let_span), let_span);
    assert_eq!(rhs_list_span(&[span(2, 3, 2, 4)], let_span), span(2, 3, 2, 4));
    assert_eq!(rhs_list_span(&[span(2, 3, 2, 4), span(2, 8, 2, 9), span(3, 1, 3, 2)], let_span), span(2, 3, 3, 2));
    assert_eq!(lhs_context_span(&[], let_span), let_span);
    assert_eq!(lhs_context_span(&[span(2, 3, 2, 4), span(5, 5, 5, 6)], let_span), span(2, 3, 2, 4));
    assert_eq!(concurrent_send_spans(2, span(4, 5, 4, 9)), (span(4, 7, 4, 7), span(4, 15, 4, 15)));
    assert_eq!(sequential_match_span(span(2, 3, 2, 4), span(3, 1, 6, 2)), span(2, 3, 6, 2));
}

#[test]
fn a_concurrent_let_declares_fresh_names() {
    let decls = concurrent_let_decls(3, span(5, 2, 8, 1));
    assert_eq!(decls.len(), 3);
    for (i, d) in decls.iter().enumerate() {
        assert!(d.uri.is_none());
        assert_eq!(d.id.pos, pos(5, 2 + i));
        assert_eq!(d.id.name.len(), 36);
    }
    assert_ne!(decls[0].id.name, decls[1].id.name);
    // a new over them binds all three names
    let scope = new_scope(&BoundMapChain::new(), &decls);
    assert_eq!(scope.bind_count, 3);
    assert!(scope.uris.is_empty());
    assert_eq!(scope.body_chain.get(&decls[0].id.name).unwrap().index, 2);
}

struct NoHistory;

impl HistoryReaderBase for NoHistory {
    fn get_continuations(&self, _channels: &Vec<u64>) -> Vec<u64> {
        vec![]
    }
    fn get_data(&self, _channel: u64) -> Vec<u64> {
        vec![]
    }
    fn get_joins(&self, _channel: u64) -> Vec<Vec<u64>> {
        vec![]
    }
}

#[test]
fn random_states_have_the_promised_shape() {
    for _ in 0..20 {
        let mut store = HotStoreInstances::create_from_hs_and_hr(HotStoreState::random_state(), NoHistory);
        let data = store.get_data(0);
        assert!(data.len() <= 10);
        assert!(data.iter().all(|d| *d == 0));
        let joins = store.get_joins(0);
        assert!(joins.len() <= 20);
        assert!(joins.iter().all(|j| j.is_empty()));
    }
}
