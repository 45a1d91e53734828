use rholang::ast::{BindKind, BundleType, GroundLiteral, Id, NameDecl, SimpleType, Var, VarRefKind};
use rholang::binders::{bundle_content, has_repeated_channel, normalize_names, pattern_scope, receive_scope, BundleContentError};
use rholang::bound_map::BoundMapChain;
use rholang::context::{ConnectiveInstance, VarRef, VarSort};
use rholang::free_map::FreeMap;
use rholang::new_scope::new_scope;
use rholang::normalize::{
    bundle_polarity, merge_bundle_polarities, normalize_ground, normalize_match_name, normalize_name_var,
    resolve_p_var, resolve_p_var_ref, normalize_remainder, normalize_simple_type, receive_bind_flags,
    send_persistent, fail_on_invalid_connective_span, name_visit_inputs_and_env,
    proc_visit_inputs_with_updated_bound_map_chain, GroundValue, InterpreterError, NameVisitInputs, VarInstance,
};
use rholang::receive::merge_receive_bind_free_maps;
use rholang::span::{SourcePos, SourceSpan};

fn pos(line: usize, col: usize) -> SourcePos {
    SourcePos { line, col }
}

fn span(l1: usize, c1: usize, l2: usize, c2: usize) -> SourceSpan {
    SourceSpan { start: pos(l1, c1), end: pos(l2, c2) }
}

fn id_var(name: &str) -> Var {
    Var::Id(Id { name: name.to_string(), pos: pos(1, 1) })
}

fn inputs() -> NameVisitInputs {
    NameVisitInputs { bound_map_chain: BoundMapChain::new(), free_map: FreeMap::new() }
}

// ---- receive binds: flags, scope ----

#[test]
fn receive_scope_binds_patterns_innermost_last() {
    // for ( x, y <<- @Nil ) { x!(*y) }
    let (persistent, peek) = receive_bind_flags(BindKind::Peek);
    assert!(peek);
    assert!(!persistent);

    // the patterns x, y are normalized one scope in, from an empty free map
    let input = inputs();
    let pattern_input = NameVisitInputs { bound_map_chain: input.bound_map_chain.push(), free_map: FreeMap::new() };
    let (vars, pattern_free) = normalize_names(&vec![id_var("x"), id_var("y")], &None, &pattern_input).unwrap();
    assert_eq!(vars, vec![VarInstance::FreeVar(0), VarInstance::FreeVar(1)]);
    let scope = receive_scope(&input.bound_map_chain, &vec![pattern_free], &vec![0], span(1, 1, 1, 30)).unwrap();
    assert_eq!(scope.bind_count, 2);
    // in the body, y is the innermost binder and x the one before it
    let y = scope.body_chain.get(&"y".to_string()).unwrap();
    let x = scope.body_chain.get(&"x".to_string()).unwrap();
    assert_eq!(y.index, 0);
    assert_eq!(x.index, 1);
    assert_eq!(x.typ, VarSort::NameSort);
}

#[test]
fn receive_bind_flags_follow_the_bind_kind() {
    assert_eq!(receive_bind_flags(BindKind::Linear), (false, false));
    assert_eq!(receive_bind_flags(BindKind::Repeated), (true, false));
    assert_eq!(receive_bind_flags(BindKind::Peek), (false, true));
}

fn bind_pattern(chain: &BoundMapChain<VarSort>, name: &str, quoted: &str) -> FreeMap<VarSort> {
    // the pattern `name, @quoted`, one pattern level in, from an empty free map
    let zero = span(0, 0, 0, 0);
    let first = normalize_name_var(
        &Var::Id(Id { name: name.to_string(), pos: pos(0, 0) }),
        &NameVisitInputs { bound_map_chain: chain.push(), free_map: FreeMap::new() },
    )
    .unwrap();
    let second = resolve_p_var(
        &Var::Id(Id { name: quoted.to_string(), pos: pos(0, 0) }),
        &NameVisitInputs { bound_map_chain: chain.push(), free_map: first.free_map },
        zero,
    )
    .unwrap();
    second.free_map
}

#[test]
fn receive_scope_refuses_a_variable_in_two_patterns() {
    // for ( (x1, @y1) <- @Nil & (x2, @y1) <- @1 ) { Nil }
    let chain = BoundMapChain::<VarSort>::new();
    let first = bind_pattern(&chain, "x1", "y1");
    let second = bind_pattern(&chain, "x2", "y1");
    let result = receive_scope(&chain, &vec![first, second], &vec![0, 1], span(0, 0, 0, 0));
    assert!(matches!(
        result,
        Err(InterpreterError::UnexpectedReuseOfNameContextFree { var_name, first_use: _, second_use: _ }) if var_name == "y1"
    ));
}

#[test]
fn receive_on_the_same_channel_twice_is_refused() {
    let chain = BoundMapChain::<VarSort>::new();
    let a = FreeMap::new().put_pos(("a".to_string(), VarSort::NameSort, pos(1, 5)));
    let b = FreeMap::new().put_pos(("b".to_string(), VarSort::NameSort, pos(1, 15)));
    let body = span(1, 30, 1, 40);
    let result = receive_scope(&chain, &vec![a, b], &vec![7, 7], body);
    assert!(matches!(result, Err(InterpreterError::ReceiveOnSameChannelsError { source_span }) if source_span == body));
}

#[test]
fn receive_scope_merges_binds_in_order() {
    let chain = BoundMapChain::<VarSort>::new().put_pos(("outer".to_string(), VarSort::ProcSort, pos(1, 1)));
    let a = FreeMap::new().put_pos(("a".to_string(), VarSort::NameSort, pos(2, 5)));
    let b = FreeMap::new()
        .put_pos(("b".to_string(), VarSort::NameSort, pos(2, 15)))
        .add_wildcard(span(2, 17, 2, 17));
    let scope = receive_scope(&chain, &vec![a, b], &vec![1, 2], span(2, 30, 2, 40)).unwrap();
    assert_eq!(scope.bind_count, 2);
    assert_eq!(scope.free_map.count(), 3);
    assert_eq!(scope.body_chain.get(&"b".to_string()).unwrap().index, 0);
    assert_eq!(scope.body_chain.get(&"a".to_string()).unwrap().index, 1);
    assert_eq!(scope.body_chain.get(&"outer".to_string()).unwrap().index, 2);
}

#[test]
fn repeated_channels_are_found() {
    assert!(!has_repeated_channel(&vec![]));
    assert!(!has_repeated_channel(&vec![1, 2, 3]));
    assert!(has_repeated_channel(&vec![1, 2, 1]));
    assert!(has_repeated_channel(&vec![5, 5]));
}

#[test]
fn merging_bind_free_maps_keeps_levels_in_order() {
    let a = FreeMap::new().put_pos(("a".to_string(), VarSort::NameSort, pos(1, 1)));
    let b = FreeMap::new().put_pos(("b".to_string(), VarSort::ProcSort, pos(1, 2)));
    let merged = merge_receive_bind_free_maps(&vec![a, b]).unwrap();
    assert_eq!(merged.get(&"a".to_string()).unwrap().level, 0);
    assert_eq!(merged.get(&"b".to_string()).unwrap().level, 1);
    assert_eq!(merged.count_no_wildcards(), 2);
}

// ---- contracts and other patterns ----

#[test]
fn contract_pattern_pieces_resolve_in_order() {
    // new add in { contract add(ret, @x, @y) = { ret!(x + y) } }
    let mut input = inputs();
    input.bound_map_chain = input.bound_map_chain.put_pos(("add".to_string(), VarSort::NameSort, pos(0, 0)));
    let zero = span(0, 0, 0, 0);
    let source = normalize_name_var(&Var::Id(Id { name: "add".to_string(), pos: pos(0, 0) }), &input).unwrap();
    assert_eq!(source.var, VarInstance::BoundVar(0));
    // the formals, one pattern level in, from an empty free map
    let ret = normalize_name_var(
        &Var::Id(Id { name: "ret".to_string(), pos: pos(0, 0) }),
        &NameVisitInputs { bound_map_chain: input.bound_map_chain.push(), free_map: FreeMap::new() },
    )
    .unwrap();
    let x = resolve_p_var(
        &Var::Id(Id { name: "x".to_string(), pos: pos(0, 0) }),
        &NameVisitInputs { bound_map_chain: input.bound_map_chain.push(), free_map: ret.free_map },
        zero,
    )
    .unwrap();
    let y = resolve_p_var(
        &Var::Id(Id { name: "y".to_string(), pos: pos(0, 0) }),
        &NameVisitInputs { bound_map_chain: input.bound_map_chain.push(), free_map: x.free_map },
        zero,
    )
    .unwrap();
    assert_eq!(ret.var, VarInstance::FreeVar(0));
    assert_eq!(x.var, VarInstance::FreeVar(1));
    assert_eq!(y.var, VarInstance::FreeVar(2));
    assert!(fail_on_invalid_connective_span(input.bound_map_chain.depth(), &y.free_map).is_ok());
    let (remainder, scope) = pattern_scope(&input.bound_map_chain, y.free_map, &None).unwrap();
    assert!(remainder.is_none());
    assert_eq!(scope.bind_count, 3);
    // in the body: ret!(x + y)
    let body = NameVisitInputs { bound_map_chain: scope.body_chain, free_map: source.free_map };
    let ret_in_body = normalize_name_var(&Var::Id(Id { name: "ret".to_string(), pos: pos(0, 0) }), &body).unwrap();
    let x_in_body = resolve_p_var(&Var::Id(Id { name: "x".to_string(), pos: pos(0, 0) }), &body, zero).unwrap();
    let y_in_body = resolve_p_var(&Var::Id(Id { name: "y".to_string(), pos: pos(0, 0) }), &body, zero).unwrap();
    assert_eq!(ret_in_body.var, VarInstance::BoundVar(2));
    assert_eq!(x_in_body.var, VarInstance::BoundVar(1));
    assert_eq!(y_in_body.var, VarInstance::BoundVar(0));
    assert_eq!(y_in_body.free_map.count(), 0);
}

#[test]
fn pattern_scope_with_a_remainder_binds_it_last() {
    let chain = BoundMapChain::<VarSort>::new();
    let free = FreeMap::new().put_pos(("a".to_string(), VarSort::NameSort, pos(1, 1)));
    let (remainder, scope) = pattern_scope(&chain, free, &Some(id_var("rest"))).unwrap();
    assert_eq!(remainder, Some(VarInstance::FreeVar(1)));
    assert_eq!(scope.bind_count, 2);
    let rest = scope.body_chain.get(&"rest".to_string()).unwrap();
    assert_eq!(rest.index, 0);
    assert_eq!(rest.typ, VarSort::ProcSort);
}

#[test]
fn pattern_scope_refuses_a_remainder_already_free() {
    let chain = BoundMapChain::<VarSort>::new();
    let free = FreeMap::new().put_pos(("rest".to_string(), VarSort::NameSort, pos(1, 1)));
    let result = pattern_scope(&chain, free, &Some(id_var("rest")));
    assert!(matches!(result, Err(InterpreterError::UnexpectedReuseOfProcContextFree { .. })));
}

// ---- process variables ----

#[test]
fn resolve_p_var_gives_a_bound_index() {
    let test_span = span(1, 1, 1, 2);
    let mut input = inputs();
    input.bound_map_chain = input.bound_map_chain.put_span(("x".to_string(), VarSort::ProcSort, test_span));
    let out = resolve_p_var(&id_var("x"), &input, test_span).unwrap();
    assert_eq!(out.var, VarInstance::BoundVar(0));
    assert_eq!(out.free_map.count(), 0);
}

#[test]
fn resolve_p_var_gives_a_free_level() {
    let test_span = span(1, 1, 1, 2);
    let out = resolve_p_var(&id_var("x"), &inputs(), test_span).unwrap();
    assert_eq!(out.var, VarInstance::FreeVar(0));
    let ctx = out.free_map.get(&"x".to_string()).unwrap();
    assert_eq!(ctx.level, 0);
    assert_eq!(ctx.typ, VarSort::ProcSort);
    assert_eq!(ctx.source_span, test_span);
    assert_eq!(out.free_map.count(), 1);
}

#[test]
fn resolve_p_var_refuses_a_name() {
    let bound_span = span(0, 0, 0, 1);
    let process_span = span(1, 1, 1, 2);
    let mut input = inputs();
    input.bound_map_chain = input.bound_map_chain.put_span(("x".to_string(), VarSort::NameSort, bound_span));
    match resolve_p_var(&id_var("x"), &input, process_span) {
        Err(InterpreterError::UnexpectedProcContext { var_name, name_var_source_span, process_source_span }) => {
            assert_eq!(var_name, "x");
            assert_eq!(name_var_source_span, bound_span);
            assert_eq!(process_source_span, process_span);
        },
        _ => panic!("expected UnexpectedProcContext"),
    }
}

#[test]
fn resolve_p_var_refuses_a_second_free_use() {
    let first_use_span = span(0, 0, 0, 1);
    let second_use_span = span(1, 1, 1, 2);
    let mut input = inputs();
    input.free_map = input.free_map.put_span(("x".to_string(), VarSort::ProcSort, first_use_span));
    match resolve_p_var(&id_var("x"), &input, second_use_span) {
        Err(InterpreterError::UnexpectedReuseOfProcContextFree { var_name, first_use, second_use }) => {
            assert_eq!(var_name, "x");
            assert_eq!(first_use, first_use_span);
            assert_eq!(second_use, second_use_span);
        },
        _ => panic!("expected UnexpectedReuseOfProcContextFree"),
    }
}

#[test]
fn resolve_p_var_gives_a_wildcard() {
    let out = resolve_p_var(&Var::Wildcard, &inputs(), span(1, 1, 1, 2)).unwrap();
    assert_eq!(out.var, VarInstance::Wildcard);
    assert_eq!(out.free_map.wildcards().len(), 1);
}




// ---- name variables ----

#[test]
fn name_wildcard_should_add_a_wildcard_count_to_known_free() {
    let out = normalize_name_var(&Var::Wildcard, &inputs()).unwrap();
    assert_eq!(out.var, VarInstance::Wildcard);
    assert_eq!(out.free_map.count(), 1);
}

#[test]
fn name_var_should_compile_as_bound_var_if_its_in_env() {
    let mut input = inputs();
    input.bound_map_chain = input.bound_map_chain.put_pos(("x".to_string(), VarSort::NameSort, pos(1, 1)));
    let out = normalize_name_var(&id_var("x"), &input).unwrap();
    assert_eq!(out.var, VarInstance::BoundVar(0));
    assert_eq!(out.free_map.count(), 0);
}

#[test]
fn name_var_should_compile_as_free_var_if_its_not_in_env() {
    let out = normalize_name_var(&id_var("x"), &inputs()).unwrap();
    assert_eq!(out.var, VarInstance::FreeVar(0));
    let ctx = out.free_map.get(&"x".to_string()).unwrap();
    assert_eq!(ctx.typ, VarSort::NameSort);
    assert_eq!(ctx.source_span, span(1, 1, 1, 1));
}

#[test]
fn name_var_should_not_compile_if_its_in_env_of_wrong_sort() {
    let mut input = inputs();
    input.bound_map_chain = input.bound_map_chain.put_pos(("x".to_string(), VarSort::ProcSort, pos(1, 1)));
    let result = normalize_name_var(&id_var("x"), &input);
    assert!(matches!(result, Err(InterpreterError::UnexpectedNameContext { .. })));
}

#[test]
fn name_var_should_not_compile_if_used_free_somewhere_else() {
    let mut input = inputs();
    input.free_map = input.free_map.put_pos(("x".to_string(), VarSort::NameSort, pos(1, 1)));
    let result = normalize_name_var(&id_var("x"), &input);
    assert!(matches!(result, Err(InterpreterError::UnexpectedReuseOfNameContextFree { .. })));
}

#[test]
fn normalize_names_single_var() {
    let mut input = inputs();
    input.bound_map_chain = input.bound_map_chain.put_pos(("x".to_string(), VarSort::NameSort, pos(1, 1)));
    let (vars, free) = normalize_names(&vec![id_var("x")], &None, &input).unwrap();
    assert_eq!(vars, vec![VarInstance::BoundVar(0)]);
    assert_eq!(free.count(), 0);
}

#[test]
fn normalize_names_multiple_vars() {
    let mut input = inputs();
    input.bound_map_chain = input
        .bound_map_chain
        .put_pos(("x".to_string(), VarSort::NameSort, pos(1, 1)))
        .put_pos(("y".to_string(), VarSort::NameSort, pos(1, 1)));
    let (vars, free) = normalize_names(&vec![id_var("x"), id_var("y")], &None, &input).unwrap();
    assert_eq!(vars, vec![VarInstance::BoundVar(1), VarInstance::BoundVar(0)]);
    assert_eq!(free.count(), input.free_map.count());
}

#[test]
fn normalize_names_with_remainder() {
    let mut input = inputs();
    input.bound_map_chain = input.bound_map_chain.put_pos(("x".to_string(), VarSort::NameSort, pos(1, 1)));
    let (vars, free) = normalize_names(&vec![id_var("x")], &Some(id_var("rest")), &input).unwrap();
    assert_eq!(vars, vec![VarInstance::FreeVar(0), VarInstance::BoundVar(0)]);
    assert!(free.get(&"rest".to_string()).is_some());
}

#[test]
fn normalize_names_wildcard_remainder() {
    let mut input = inputs();
    input.bound_map_chain = input.bound_map_chain.put_pos(("x".to_string(), VarSort::NameSort, pos(1, 1)));
    let (vars, free) = normalize_names(&vec![id_var("x")], &Some(Var::Wildcard), &input).unwrap();
    assert_eq!(vars, vec![VarInstance::Wildcard, VarInstance::BoundVar(0)]);
    assert!(!free.wildcards().is_empty());
}

#[test]
fn normalize_names_empty_list() {
    let (vars, free) = normalize_names(&vec![], &Some(id_var("rest")), &inputs()).unwrap();
    assert_eq!(vars, vec![VarInstance::FreeVar(0)]);
    assert!(free.get(&"rest".to_string()).is_some());
}

#[test]
fn normalize_names_stops_at_the_first_refused_name() {
    let mut input = inputs();
    input.bound_map_chain = input.bound_map_chain.put_pos(("p".to_string(), VarSort::ProcSort, pos(3, 4)));
    let result = normalize_names(&vec![id_var("a"), id_var("p"), id_var("a")], &None, &input);
    match result {
        Err(InterpreterError::UnexpectedNameContext { var_name, proc_var_source_span, .. }) => {
            assert_eq!(var_name, "p");
            assert_eq!(proc_var_source_span, span(3, 4, 3, 4));
        },
        _ => panic!("expected UnexpectedNameContext"),
    }
    let result = normalize_names(&vec![id_var("a"), id_var("a")], &None, &inputs());
    assert!(matches!(result, Err(InterpreterError::UnexpectedReuseOfNameContextFree { .. })));
}

// ---- remainders ----

#[test]
fn remainders_become_free_process_variables() {
    let (v, free) = normalize_remainder(&Some(id_var("r")), FreeMap::new()).unwrap();
    assert_eq!(v, Some(VarInstance::FreeVar(0)));
    assert_eq!(free.get(&"r".to_string()).unwrap().typ, VarSort::ProcSort);
    let (v, free) = normalize_match_name(&Some(Var::Wildcard), FreeMap::new()).unwrap();
    assert_eq!(v, Some(VarInstance::Wildcard));
    assert_eq!(free.wildcards().len(), 1);
    let (v, free) = normalize_match_name(&None, FreeMap::new()).unwrap();
    assert_eq!(v, None);
    assert_eq!(free.count(), 0);
}

// ---- variable references ----

#[test]
fn resolve_p_var_ref_looks_through_pattern_levels() {
    // x bound as a process; match 7 { =x => Nil }
    let input = proc_visit_inputs_with_updated_bound_map_chain(name_visit_inputs_and_env(), "x", VarSort::ProcSort);
    let pattern_input = NameVisitInputs { bound_map_chain: input.bound_map_chain.push(), free_map: FreeMap::new() };
    let r = resolve_p_var_ref(VarRefKind::Proc, &Id { name: "x".to_string(), pos: pos(0, 0) }, &pattern_input, span(0, 0, 0, 0));
    assert!(matches!(r, Ok(ConnectiveInstance::VarRefBody(VarRef { index: 0, depth: 1 }))));
    // the case binds nothing
    let (_, scope) = pattern_scope(&input.bound_map_chain, pattern_input.free_map, &None).unwrap();
    assert_eq!(scope.bind_count, 0);
}

#[test]
fn resolve_p_var_ref_looks_through_pattern_levels_for_names() {
    // x bound as a name; for (@=*x <- @Nil) { Nil }
    let input = proc_visit_inputs_with_updated_bound_map_chain(name_visit_inputs_and_env(), "x", VarSort::NameSort);
    let pattern_input = NameVisitInputs { bound_map_chain: input.bound_map_chain.push(), free_map: FreeMap::new() };
    let r = resolve_p_var_ref(VarRefKind::Name, &Id { name: "x".to_string(), pos: pos(0, 0) }, &pattern_input, span(0, 0, 0, 0));
    assert!(matches!(r, Ok(ConnectiveInstance::VarRefBody(VarRef { index: 0, depth: 1 }))));
    let scope = receive_scope(&input.bound_map_chain, &vec![pattern_input.free_map], &vec![0], span(0, 0, 0, 0)).unwrap();
    assert_eq!(scope.bind_count, 0);
}

#[test]
fn var_ref_to_an_unbound_variable_is_refused() {
    let r = resolve_p_var_ref(VarRefKind::Proc, &Id { name: "q".to_string(), pos: pos(2, 9) }, &inputs(), span(2, 8, 2, 10));
    assert!(matches!(r, Err(InterpreterError::UnboundVariableRef { .. })));
}

// ---- ground values and simple types ----

#[test]
fn bool_true_should_compile_as_gbool_true() {
    assert_eq!(normalize_ground(&GroundLiteral::BoolLiteral(true)), GroundValue::GBool(true));
}

#[test]
fn bool_false_should_compile_as_gbool_false() {
    assert_eq!(normalize_ground(&GroundLiteral::BoolLiteral(false)), GroundValue::GBool(false));
}

#[test]
fn ground_int_should_compile_as_gint() {
    assert_eq!(normalize_ground(&GroundLiteral::LongLiteral(7)), GroundValue::GInt(7));
}

#[test]
fn ground_string_should_compile_as_gstring() {
    assert_eq!(
        normalize_ground(&GroundLiteral::StringLiteral("String".to_string())),
        GroundValue::GString("String".to_string())
    );
}

#[test]
fn ground_uri_should_compile_as_guri() {
    assert_eq!(
        normalize_ground(&GroundLiteral::UriLiteral("rho:uri".to_string())),
        GroundValue::GUri("rho:uri".to_string())
    );
    assert_eq!(
        normalize_ground(&GroundLiteral::UriLiteral("`rho:uri`".to_string())),
        GroundValue::GUri("rho:uri".to_string())
    );
}

#[test]
fn new_ast_bool_true_should_compile_as_gbool_true() {
    assert_eq!(normalize_ground(&GroundLiteral::BoolLiteral(true)), GroundValue::GBool(true));
}

#[test]
fn new_ast_bool_false_should_compile_as_gbool_false() {
    assert_eq!(normalize_ground(&GroundLiteral::BoolLiteral(false)), GroundValue::GBool(false));
}

#[test]
fn new_ast_long_should_compile_as_gint() {
    assert_eq!(normalize_ground(&GroundLiteral::LongLiteral(42)), GroundValue::GInt(42));
}

#[test]
fn new_ast_string_should_compile_as_gstring() {
    assert_eq!(
        normalize_ground(&GroundLiteral::StringLiteral("hello".to_string())),
        GroundValue::GString("hello".to_string())
    );
}

#[test]
fn simple_type_should_result_in_correct_connectives() {
    assert_eq!(normalize_simple_type(SimpleType::Bool), ConnectiveInstance::ConnBool(true));
    assert_eq!(normalize_simple_type(SimpleType::Int), ConnectiveInstance::ConnInt(true));
    assert_eq!(normalize_simple_type(SimpleType::String), ConnectiveInstance::ConnString(true));
    assert_eq!(normalize_simple_type(SimpleType::Uri), ConnectiveInstance::ConnUri(true));
    assert_eq!(normalize_simple_type(SimpleType::ByteArray), ConnectiveInstance::ConnByteArray(true));
}

#[test]
fn sends_persist_only_with_double_bang() {
    assert!(!send_persistent(rholang::ast::SendType::Single));
    assert!(send_persistent(rholang::ast::SendType::Multiple));
}

// ---- connectives in receive patterns ----

#[test]
fn or_and_not_are_refused_at_the_top_level_of_a_receive_pattern() {
    let free = FreeMap::new()
        .add_connective(ConnectiveInstance::ConnAndBody, span(1, 1, 1, 5))
        .add_connective(ConnectiveInstance::ConnOrBody, span(1, 7, 1, 9));
    match fail_on_invalid_connective_span(0, &free) {
        Err(InterpreterError::PatternReceiveError { connective, source_span }) => {
            assert_eq!(connective, ConnectiveInstance::ConnOrBody);
            assert_eq!(source_span, span(1, 7, 1, 9));
        },
        _ => panic!("expected PatternReceiveError"),
    }
    assert!(fail_on_invalid_connective_span(1, &free).is_ok());
    let and_only = FreeMap::new().add_connective(ConnectiveInstance::ConnAndBody, span(1, 1, 1, 5));
    assert!(fail_on_invalid_connective_span(0, &and_only).is_ok());
}

// ---- bundles ----

#[test]
fn bundle_content_refuses_top_level_connectives_first() {
    let bundle_span = span(0, 0, 0, 0);
    let result = bundle_content(BundleType::BundleReadWrite, bundle_span, 1, &FreeMap::new(), None);
    assert!(matches!(result, Err(BundleContentError::TopLevelConnective { source_span }) if source_span == bundle_span));
    assert_eq!(bundle_content(BundleType::BundleRead, bundle_span, 0, &FreeMap::new(), Some((true, false))).ok(), Some((false, false)));
    assert_eq!(bundle_polarity(BundleType::BundleWrite), (true, false));
    assert_eq!(merge_bundle_polarities((true, true), (false, true)), (false, true));
}







// ---- new ----

fn decl(name: &str, uri: Option<&str>) -> NameDecl {
    NameDecl { id: Id { name: name.to_string(), pos: pos(0, 0) }, uri: uri.map(|u| u.to_string()) }
}

#[test]
fn new_scope_binds_declared_names_innermost_last() {
    let chain = BoundMapChain::<VarSort>::new();
    let scope = new_scope(&chain, &vec![decl("x", None), decl("y", None), decl("z", None)]);
    assert_eq!(scope.bind_count, 3);
    assert!(scope.uris.is_empty());
    assert_eq!(scope.body_chain.get(&"x".to_string()).unwrap().index, 2);
    assert_eq!(scope.body_chain.get(&"y".to_string()).unwrap().index, 1);
    assert_eq!(scope.body_chain.get(&"z".to_string()).unwrap().index, 0);
    assert_eq!(scope.body_chain.get(&"x".to_string()).unwrap().typ, VarSort::NameSort);
}

#[test]
fn new_scope_puts_uris_after_plain_names() {
    let chain = BoundMapChain::<VarSort>::new();
    let decls = vec![
        decl("x", None),
        decl("y", None),
        decl("r", Some("rho:registry")),
        decl("out", Some("rho:stdout")),
        decl("z", None),
    ];
    let scope = new_scope(&chain, &decls);
    assert_eq!(scope.bind_count, 5);
    assert_eq!(scope.uris, vec!["rho:registry".to_string(), "rho:stdout".to_string()]);
    let index = |n: &str| scope.body_chain.get(&n.to_string()).unwrap().index;
    assert_eq!(index("x"), 4);
    assert_eq!(index("y"), 3);
    assert_eq!(index("z"), 2);
    assert_eq!(index("r"), 1);
    assert_eq!(index("out"), 0);
}

#[test]
fn new_orders_uris_lexicographically_and_keeps_equal_ones_in_order() {
    let chain = BoundMapChain::<VarSort>::new();
    let decls = vec![
        decl("b", Some("rho:b")),
        decl("a2", Some("rho:a")),
        decl("plain", None),
        decl("a1", Some("rho:a")),
        decl("ab", Some("rho:ab")),
    ];
    let scope = new_scope(&chain, &decls);
    assert_eq!(
        scope.uris,
        vec!["rho:a".to_string(), "rho:a".to_string(), "rho:ab".to_string(), "rho:b".to_string()]
    );
    let index = |n: &str| scope.body_chain.get(&n.to_string()).unwrap().index;
    assert_eq!(index("plain"), 4);
    assert_eq!(index("a2"), 3);
    assert_eq!(index("a1"), 2);
    assert_eq!(index("ab"), 1);
    assert_eq!(index("b"), 0);
}

#[test]
fn var_ref_of_the_wrong_sort_is_refused() {
    let chain = BoundMapChain::<VarSort>::new().put_pos(("p".to_string(), VarSort::ProcSort, pos(1, 5)));
    let input = NameVisitInputs { bound_map_chain: chain, free_map: FreeMap::new() };
    let r = resolve_p_var_ref(VarRefKind::Name, &Id { name: "p".to_string(), pos: pos(2, 9) }, &input, span(2, 8, 2, 10));
    match r {
        Err(InterpreterError::UnexpectedProcContext { var_name, name_var_source_span, process_source_span }) => {
            assert_eq!(var_name, "p");
            assert_eq!(name_var_source_span, span(1, 5, 1, 5));
            assert_eq!(process_source_span, span(2, 8, 2, 10));
        },
        _ => panic!("expected UnexpectedProcContext"),
    }
    let chain = BoundMapChain::<VarSort>::new().put_pos(("n".to_string(), VarSort::NameSort, pos(1, 5)));
    let input = NameVisitInputs { bound_map_chain: chain, free_map: FreeMap::new() };
    let r = resolve_p_var_ref(VarRefKind::Proc, &Id { name: "n".to_string(), pos: pos(2, 9) }, &input, span(2, 8, 2, 10));
    assert!(matches!(r, Err(InterpreterError::UnexpectedNameContext { .. })));
}
