use rholang::ast::{VarRefKind, BindKind, BundleType, GroundLiteral, Id, NameDecl, SendType, SimpleType, Var};
use rholang::binders::BundleContentError;
use rholang::bound_map::BoundMapChain;
use rholang::context::{ConnectiveInstance, VarSort};
use rholang::env::Env;
use rholang::free_map::FreeMap;
use rholang::normalize::{InterpreterError, NameVisitInputs, VarInstance};
use rholang::normalizer::{
    normalize_ann_proc, normalize_name, normalize_p_bundle, normalize_p_eval, normalize_p_if, normalize_p_match,
    normalize_p_contr, normalize_p_input, normalize_p_let, normalize_p_new, normalize_p_par, normalize_p_send, normalize_p_var, normalize_p_var_ref, ProcVisitInputs, ProcVisitOutputs,
};
use rholang::concurrent_let::{normalize_p_let_concurrent, normalize_p_let_concurrent_with_names};
use rholang::send_sync::{normalize_p_send_sync, normalize_p_send_sync_with_reply};
use rholang::span::{SourcePos, SourceSpan};
use rholang::subset::filter_and_adjust_bitset;
use rholang::syntax::{AnnProc, Bind, Case, LetBinding, LetChain, Name, Names, Proc};
use rholang::term::{
    append, drop_bound_indices, empty_par, prepend_bundle, prepend_connective, prepend_expr, union_indices, BinaryOp,
    Bundle, Expr, Indices, List, Match, MatchCase, Node, Par, Receive, ReceiveBind, Send, UnaryOp,
};

fn sp() -> SourceSpan {
    SourceSpan { start: SourcePos { line: 0, col: 0 }, end: SourcePos { line: 0, col: 0 } }
}

fn list<T>(items: Vec<T>) -> List<T> {
    let mut acc: List<T> = None;
    for x in items.into_iter().rev() {
        acc = Some(Box::new(Node { head: x, tail: acc }));
    }
    acc
}

fn idx(v: Vec<usize>) -> Indices {
    let mut acc = Indices::Nil;
    for x in v.into_iter().rev() {
        acc = Indices::Cons(x, Box::new(acc));
    }
    acc
}

fn par_of(exprs: Vec<Expr>, locally_free: Vec<usize>, connective_used: bool) -> Par {
    Par {
        sends: None,
        receives: None,
        news: None,
        exprs: list(exprs),
        matches: None,
        bundles: None,
        connectives: None,
        locally_free: idx(locally_free),
        connective_used,
    }
}

fn ann(p: Proc) -> AnnProc {
    AnnProc { proc: p, span: sp() }
}

fn var(name: &str) -> Var {
    Var::Id(Id { name: name.to_string(), pos: SourcePos { line: 0, col: 0 } })
}

fn long(n: i64) -> Proc {
    Proc::Ground(GroundLiteral::LongLiteral(n))
}

fn input() -> ProcVisitInputs {
    ProcVisitInputs { par: empty_par(), bound_map_chain: BoundMapChain::new(), free_map: FreeMap::new() }
}

fn input_with(name: &str, sort: VarSort) -> ProcVisitInputs {
    let mut i = input();
    i.bound_map_chain = i.bound_map_chain.put_pos((name.to_string(), sort, SourcePos { line: 0, col: 0 }));
    i
}

fn ok(r: Result<ProcVisitOutputs, InterpreterError>) -> ProcVisitOutputs {
    match r {
        Ok(o) => o,
        Err(e) => panic!("unexpected error {:?}", e),
    }
}

// ---- par ----

#[test]
fn p_par_should_compile_both_branches_into_a_par_object() {
    let out = ok(normalize_p_par(&ann(long(7)), &ann(long(8)), input(), &Env::new()));
    assert_eq!(out.par, par_of(vec![Expr::GInt(8), Expr::GInt(7)], vec![], false));
    assert_eq!(out.free_map.count(), 0);
}

#[test]
fn p_par_should_compile_both_branches_with_the_same_environment() {
    let out = ok(normalize_p_par(&ann(Proc::ProcVar(var("x"))), &ann(Proc::ProcVar(var("x"))), input_with("x", VarSort::ProcSort), &Env::new()));
    assert_eq!(
        out.par,
        par_of(vec![Expr::EVar(VarInstance::BoundVar(0)), Expr::EVar(VarInstance::BoundVar(0))], vec![0], false)
    );
    assert_eq!(out.free_map.count(), 0);
}

#[test]
fn p_par_should_not_compile_if_both_branches_use_the_same_free_variable() {
    let r = normalize_p_par(&ann(Proc::ProcVar(var("x"))), &ann(Proc::ProcVar(var("x"))), input(), &Env::new());
    assert!(matches!(r, Err(InterpreterError::UnexpectedReuseOfProcContextFree { var_name, .. }) if var_name == "x"));
}

#[test]
fn p_par_should_accumulate_free_counts_from_both_branches() {
    let out = ok(normalize_p_par(&ann(Proc::ProcVar(var("x"))), &ann(Proc::ProcVar(var("y"))), input(), &Env::new()));
    assert_eq!(
        out.par,
        par_of(vec![Expr::EVar(VarInstance::FreeVar(1)), Expr::EVar(VarInstance::FreeVar(0))], vec![], true)
    );
    assert_eq!(out.free_map.count(), 2);
    assert_eq!(out.free_map.get(&"x".to_string()).unwrap().level, 0);
    assert_eq!(out.free_map.get(&"y".to_string()).unwrap().level, 1);
}

// ---- eval and quote ----

#[test]
fn p_eval_should_handle_a_bound_name_variable() {
    let out = ok(normalize_p_eval(&Name::ProcVar(var("x")), input_with("x", VarSort::NameSort), &Env::new()));
    assert_eq!(out.par, par_of(vec![Expr::EVar(VarInstance::BoundVar(0))], vec![0], false));
}

#[test]
fn p_eval_should_collapse_a_simple_quote() {
    // *@(x | x) with x a bound process
    let quoted = Proc::Par(Box::new(ann(Proc::ProcVar(var("x")))), Box::new(ann(Proc::ProcVar(var("x")))));
    let out = ok(normalize_p_eval(&Name::Quote(Box::new(quoted)), input_with("x", VarSort::ProcSort), &Env::new()));
    assert_eq!(
        out.par,
        par_of(vec![Expr::EVar(VarInstance::BoundVar(0)), Expr::EVar(VarInstance::BoundVar(0))], vec![0], false)
    );
}

fn name_inputs(i: ProcVisitInputs) -> NameVisitInputs {
    NameVisitInputs { bound_map_chain: i.bound_map_chain, free_map: i.free_map }
}

#[test]
fn name_quote_should_compile_to_a_ground() {
    let out = normalize_name(&Name::Quote(Box::new(long(7))), name_inputs(input()), &Env::new()).unwrap();
    assert_eq!(out.par, par_of(vec![Expr::GInt(7)], vec![], false));
}

#[test]
fn name_quote_should_compile_to_bound_var() {
    let out = normalize_name(&Name::Quote(Box::new(Proc::ProcVar(var("x")))), name_inputs(input_with("x", VarSort::ProcSort)), &Env::new())
        .unwrap();
    assert_eq!(out.par, par_of(vec![Expr::EVar(VarInstance::BoundVar(0))], vec![0], false));
}

#[test]
fn name_quote_should_return_a_free_use_if_the_quoted_proc_has_a_free_var() {
    let out = normalize_name(&Name::Quote(Box::new(Proc::ProcVar(var("x")))), name_inputs(input()), &Env::new()).unwrap();
    assert_eq!(out.par, par_of(vec![Expr::EVar(VarInstance::FreeVar(0))], vec![], true));
    assert_eq!(out.free_map.get(&"x".to_string()).unwrap().typ, VarSort::ProcSort);
}

#[test]
fn name_quote_should_collapse_an_eval() {
    // @*x with x a bound name
    let out = normalize_name(&Name::Quote(Box::new(Proc::Eval(Name::ProcVar(var("x"))))), name_inputs(input_with("x", VarSort::NameSort)), &Env::new())
        .unwrap();
    assert_eq!(out.par, par_of(vec![Expr::EVar(VarInstance::BoundVar(0))], vec![0], false));
}

#[test]
fn name_quote_should_not_collapse_an_eval_eval() {
    // @(*x | *x) with x a bound name
    let evals = Proc::Par(
        Box::new(ann(Proc::Eval(Name::ProcVar(var("x"))))),
        Box::new(ann(Proc::Eval(Name::ProcVar(var("x"))))),
    );
    let out = normalize_name(&Name::Quote(Box::new(evals)), name_inputs(input_with("x", VarSort::NameSort)), &Env::new()).unwrap();
    assert_eq!(
        out.par,
        par_of(vec![Expr::EVar(VarInstance::BoundVar(0)), Expr::EVar(VarInstance::BoundVar(0))], vec![0], false)
    );
}

// ---- send ----

#[test]
fn new_ast_p_send_should_handle_a_basic_send() {
    // @Nil!(7, 8)
    let out = ok(normalize_p_send(
        &Name::Quote(Box::new(Proc::Nil)),
        SendType::Single,
        &list(vec![ann(long(7)), ann(long(8))]),
        input(), &Env::new()
    ));
    let send = Send {
        chan: Some(Box::new(empty_par())),
        data: list(vec![par_of(vec![Expr::GInt(7)], vec![], false), par_of(vec![Expr::GInt(8)], vec![], false)]),
        persistent: false,
        locally_free: Indices::Nil,
        connective_used: false,
    };
    let expected = Par { sends: list(vec![send]), ..empty_par() };
    assert_eq!(out.par, expected);
    assert_eq!(out.free_map.count(), 0);
}

#[test]
fn new_ast_p_send_should_handle_a_name_var() {
    // x!(7, 8) with x a bound name
    let out = ok(normalize_p_send(
        &Name::ProcVar(var("x")),
        SendType::Single,
        &list(vec![ann(long(7)), ann(long(8))]),
        input_with("x", VarSort::NameSort), &Env::new()
    ));
    let send = Send {
        chan: Some(Box::new(par_of(vec![Expr::EVar(VarInstance::BoundVar(0))], vec![0], false))),
        data: list(vec![par_of(vec![Expr::GInt(7)], vec![], false), par_of(vec![Expr::GInt(8)], vec![], false)]),
        persistent: false,
        locally_free: idx(vec![0]),
        connective_used: false,
    };
    assert_eq!(out.par, Par { sends: list(vec![send]), locally_free: idx(vec![0]), ..empty_par() });
}

#[test]
fn new_ast_p_send_should_propagate_known_free() {
    // @x!(7, x): x is free in the channel, then used free again in the data
    let r = normalize_p_send(
        &Name::Quote(Box::new(Proc::ProcVar(var("x")))),
        SendType::Single,
        &list(vec![ann(long(7)), ann(Proc::ProcVar(var("x")))]),
        input(), &Env::new()
    );
    assert!(matches!(r, Err(InterpreterError::UnexpectedReuseOfProcContextFree { var_name, .. }) if var_name == "x"));
}

#[test]
fn a_persistent_send_is_marked_persistent() {
    let out = ok(normalize_p_send(&Name::Quote(Box::new(Proc::Nil)), SendType::Multiple, &None, input(), &Env::new()));
    match out.par.sends {
        Some(n) => assert!(n.head.persistent),
        None => panic!("expected a send"),
    }
}

// ---- bundles ----

fn bundle_of(body: Par, write_flag: bool, read_flag: bool) -> Par {
    let lf = match &body.locally_free {
        Indices::Nil => Indices::Nil,
        _ => union_indices(&body.locally_free, &Indices::Nil),
    };
    Par { bundles: list(vec![Bundle { body: Some(Box::new(body)), write_flag, read_flag }]), locally_free: lf, ..empty_par() }
}

#[test]
fn p_bundle_should_normalize_terms_inside() {
    // bundle+ { x } with x a bound process
    let out = ok(normalize_p_bundle(BundleType::BundleWrite, &ann(Proc::ProcVar(var("x"))), input_with("x", VarSort::ProcSort), sp(), &Env::new()));
    let body = par_of(vec![Expr::EVar(VarInstance::BoundVar(0))], vec![0], false);
    assert_eq!(out.par, bundle_of(body, true, false));
}

#[test]
fn p_bundle_should_interpret_bundle_polarization() {
    let cases = vec![
        (BundleType::BundleReadWrite, (true, true)),
        (BundleType::BundleRead, (false, true)),
        (BundleType::BundleWrite, (true, false)),
        (BundleType::BundleEquiv, (false, false)),
    ];
    for (t, (w, r)) in cases {
        let out = ok(normalize_p_bundle(t, &ann(Proc::ProcVar(var("x"))), input_with("x", VarSort::ProcSort), sp(), &Env::new()));
        let body = par_of(vec![Expr::EVar(VarInstance::BoundVar(0))], vec![0], false);
        assert_eq!(out.par, bundle_of(body, w, r));
    }
}

#[test]
fn p_bundle_should_collapse_nested_bundles_merging_their_polarizations() {
    // bundle { bundle- { x } }: one read-only bundle around x
    let inner = Proc::Bundle { bundle_type: BundleType::BundleRead, proc: Box::new(ann(Proc::ProcVar(var("x")))) };
    let out = ok(normalize_p_bundle(BundleType::BundleReadWrite, &ann(inner), input_with("x", VarSort::ProcSort), sp(), &Env::new()));
    let body = par_of(vec![Expr::EVar(VarInstance::BoundVar(0))], vec![0], false);
    assert_eq!(out.par, bundle_of(body, false, true));
}

#[test]
fn p_bundle_should_throw_an_error_when_wildcard_or_free_variable_is_found_inside_body_of_bundle() {
    // bundle { _ | x }
    let body = Proc::Par(Box::new(ann(Proc::ProcVar(Var::Wildcard))), Box::new(ann(Proc::ProcVar(var("x")))));
    match normalize_p_bundle(BundleType::BundleReadWrite, &ann(body), input(), sp(), &Env::new()) {
        Err(InterpreterError::UnexpectedBundleContent(BundleContentError::FreeVariables { wildcards, free_variables })) => {
            assert_eq!(wildcards.len(), 1);
            assert_eq!(free_variables.len(), 1);
            assert_eq!(free_variables[0].0, "x");
        },
        _ => panic!("expected a refused bundle body"),
    }
}

#[test]
fn p_bundle_should_throw_an_error_when_connective_is_used_at_top_level_of_body_of_bundle() {
    // bundle { Uri }
    let bundle_span = SourceSpan { start: SourcePos { line: 2, col: 3 }, end: SourcePos { line: 2, col: 9 } };
    let r = normalize_p_bundle(BundleType::BundleReadWrite, &ann(Proc::SimpleType(SimpleType::Uri)), input(), bundle_span, &Env::new());
    assert!(matches!(r,
        Err(InterpreterError::UnexpectedBundleContent(BundleContentError::TopLevelConnective { source_span })) if source_span == bundle_span));
}

#[test]
fn p_bundle_should_not_throw_an_error_when_connective_is_used_outside_of_top_level_of_body_of_bundle() {
    // bundle { @Nil!(Uri) }
    let send = Proc::Send { channel: Name::Quote(Box::new(Proc::Nil)), send_type: SendType::Single, inputs: list(vec![ann(Proc::SimpleType(SimpleType::Uri))]) };
    let out = ok(normalize_p_bundle(BundleType::BundleReadWrite, &ann(send), input(), sp(), &Env::new()));
    assert!(out.par.bundles.is_some());
}

// ---- if ----

fn bool_par(b: bool) -> Par {
    par_of(vec![Expr::GBool(b)], vec![], false)
}

fn send_nil(n: i64) -> Proc {
    Proc::Send { channel: Name::Quote(Box::new(Proc::Nil)), send_type: SendType::Single, inputs: list(vec![ann(long(n))]) }
}

fn send_nil_par(n: i64) -> Par {
    let send = Send {
        chan: Some(Box::new(empty_par())),
        data: list(vec![par_of(vec![Expr::GInt(n)], vec![], false)]),
        persistent: false,
        locally_free: Indices::Nil,
        connective_used: false,
    };
    Par { sends: list(vec![send]), ..empty_par() }
}

fn if_match(target: Par, t: Par, f: Par) -> Match {
    Match {
        target: Some(Box::new(target)),
        cases: list(vec![
            MatchCase { pattern: Some(Box::new(bool_par(true))), source: Some(Box::new(t)), free_count: 0 },
            MatchCase { pattern: Some(Box::new(bool_par(false))), source: Some(Box::new(f)), free_count: 0 },
        ]),
        locally_free: Indices::Nil,
        connective_used: false,
    }
}

#[test]
fn p_if_else_should_desugar_to_match_with_true_false_cases() {
    // if (true) { @Nil!(47) }
    let out = ok(normalize_p_if(&ann(Proc::Ground(GroundLiteral::BoolLiteral(true))), &ann(send_nil(47)), &None, input(), &Env::new()));
    let m = if_match(bool_par(true), send_nil_par(47), empty_par());
    assert_eq!(out.par, Par { matches: list(vec![m]), ..empty_par() });
}

#[test]
fn p_if_else_should_not_mix_par_from_the_input_with_normalized_one() {
    // if (true) { @Nil!(10) } added to a process that holds 7
    let mut i = input();
    i.par = par_of(vec![Expr::GInt(7)], vec![], false);
    let out = ok(normalize_p_if(&ann(Proc::Ground(GroundLiteral::BoolLiteral(true))), &ann(send_nil(10)), &None, i, &Env::new()));
    let m = if_match(bool_par(true), send_nil_par(10), empty_par());
    assert_eq!(out.par, Par { matches: list(vec![m]), ..par_of(vec![Expr::GInt(7)], vec![], false) });
}

#[test]
fn an_if_with_an_else_runs_the_else_branch_on_false() {
    // if (1 == 1) { @Nil!(1) } else { @Nil!(2) }
    let cond = Proc::Binary(BinaryOp::Eq, Box::new(ann(long(1))), Box::new(ann(long(1))));
    let out = ok(normalize_p_if(&ann(cond), &ann(send_nil(1)), &Some(Box::new(ann(send_nil(2)))), input(), &Env::new()));
    let target = par_of(vec![Expr::EBinary(BinaryOp::Eq, Box::new(par_of(vec![Expr::GInt(1)], vec![], false)),
        Box::new(par_of(vec![Expr::GInt(1)], vec![], false)))], vec![], false);
    let m = if_match(target, send_nil_par(1), send_nil_par(2));
    assert_eq!(out.par, Par { matches: list(vec![m]), ..empty_par() });
}

// ---- match ----

#[test]
fn p_match_should_fail_if_a_free_variable_is_used_twice_in_the_target() {
    // match 47 { case (y | y) => Nil }
    let pattern = Proc::Par(Box::new(ann(Proc::ProcVar(var("y")))), Box::new(ann(Proc::ProcVar(var("y")))));
    let cases = list(vec![Case { pattern: ann(pattern), proc: ann(Proc::Nil) }]);
    let r = normalize_p_match(&ann(long(47)), &cases, input(), &Env::new());
    assert!(matches!(r, Err(InterpreterError::UnexpectedReuseOfProcContextFree { var_name, .. }) if var_name == "y"));
}

#[test]
fn p_match_should_have_a_free_count_of_1_if_the_case_contains_a_wildcard_and_a_free_variable() {
    // match 47 { case (y | _) => y }
    let pattern = Proc::Par(Box::new(ann(Proc::ProcVar(var("y")))), Box::new(ann(Proc::ProcVar(Var::Wildcard))));
    let cases = list(vec![Case { pattern: ann(pattern), proc: ann(Proc::ProcVar(var("y"))) }]);
    let out = ok(normalize_p_match(&ann(long(47)), &cases, input(), &Env::new()));
    let m = match out.par.matches {
        Some(n) => n.head,
        None => panic!("expected a match"),
    };
    let case = match m.cases {
        Some(n) => n.head,
        None => panic!("expected a case"),
    };
    assert_eq!(case.free_count, 1);
    assert_eq!(*case.pattern.unwrap(),
        par_of(vec![Expr::EVar(VarInstance::Wildcard), Expr::EVar(VarInstance::FreeVar(0))], vec![], true));
    // the body sees y as the innermost binder; outside the case nothing is free
    assert_eq!(*case.source.unwrap(), par_of(vec![Expr::EVar(VarInstance::BoundVar(0))], vec![0], false));
    assert_eq!(m.locally_free, Indices::Nil);
    assert_eq!(out.free_map.count(), 0);
}

#[test]
fn a_match_body_leaves_outer_variables_free_shifted_past_its_binders() {
    // with x bound: match 1 { case y => x | y }: x is index 1 in the body, 0 outside
    let body = Proc::Par(Box::new(ann(Proc::ProcVar(var("x")))), Box::new(ann(Proc::ProcVar(var("y")))));
    let cases = list(vec![Case { pattern: ann(Proc::ProcVar(var("y"))), proc: ann(body) }]);
    let out = ok(normalize_p_match(&ann(long(1)), &cases, input_with("x", VarSort::ProcSort), &Env::new()));
    let m = out.par.matches.unwrap().head;
    assert_eq!(m.locally_free, idx(vec![0]));
    assert_eq!(out.par.locally_free, idx(vec![0]));
}

// ---- whole processes ----

#[test]
fn unary_and_binary_expressions_wrap_their_operands() {
    // -(7) and 1 + x with x bound
    let out = ok(normalize_ann_proc(&ann(Proc::Unary(UnaryOp::Neg, Box::new(long(7)))), input(), &Env::new()));
    assert_eq!(out.par, par_of(vec![Expr::EUnary(UnaryOp::Neg, Box::new(par_of(vec![Expr::GInt(7)], vec![], false)))], vec![], false));
    let plus = Proc::Binary(BinaryOp::Plus, Box::new(ann(long(1))), Box::new(ann(Proc::ProcVar(var("x")))));
    let out = ok(normalize_ann_proc(&ann(plus), input_with("x", VarSort::ProcSort), &Env::new()));
    assert_eq!(out.par.locally_free, idx(vec![0]));
}

#[test]
fn simple_types_and_var_refs_become_connectives() {
    let out = ok(normalize_ann_proc(&ann(Proc::SimpleType(SimpleType::Int)), input(), &Env::new()));
    assert_eq!(out.par, prepend_connective(empty_par(), ConnectiveInstance::ConnInt(true), 0));
    assert!(out.par.connective_used);
    let r = normalize_ann_proc(&ann(Proc::VarRef(rholang::ast::VarRefKind::Proc, Id { name: "z".to_string(), pos: SourcePos { line: 0, col: 0 } })), input(), &Env::new());
    assert!(matches!(r, Err(InterpreterError::UnboundVariableRef { .. })));
}

#[test]
fn index_sets_merge_in_order_and_drop_bound_indices() {
    assert_eq!(union_indices(&idx(vec![0, 2, 5]), &idx(vec![1, 2, 7])), idx(vec![0, 1, 2, 5, 7]));
    assert_eq!(drop_bound_indices(&idx(vec![0, 1, 3]), 1), idx(vec![0, 2]));
    let p = prepend_expr(empty_par(), Expr::EVar(VarInstance::BoundVar(3)), 0);
    assert_eq!(p.locally_free, idx(vec![3]));
    let p = prepend_expr(empty_par(), Expr::EVar(VarInstance::BoundVar(3)), 1);
    assert_eq!(p.locally_free, Indices::Nil);
    let q = append(par_of(vec![Expr::GInt(1)], vec![], false), par_of(vec![Expr::GInt(2)], vec![4], false));
    assert_eq!(q, par_of(vec![Expr::GInt(2), Expr::GInt(1)], vec![4], false));
    let b = prepend_bundle(empty_par(), Bundle { body: Some(Box::new(par_of(vec![], vec![2], false))), write_flag: true, read_flag: true });
    assert_eq!(b.locally_free, idx(vec![2]));
    assert_eq!(filter_and_adjust_bitset(vec![0, 0, 1], 1), vec![0, 1]);
}

// ---- new ----

fn decl(name: &str, uri: Option<&str>) -> NameDecl {
    NameDecl { id: Id { name: name.to_string(), pos: SourcePos { line: 0, col: 0 } }, uri: uri.map(|u| u.to_string()) }
}

fn send_on(name: &str, n: i64) -> AnnProc {
    ann(Proc::Send { channel: Name::ProcVar(var(name)), send_type: SendType::Single, inputs: list(vec![ann(long(n))]) })
}

#[test]
fn p_new_should_bind_new_variables() {
    // new x, y, z in { x!(7) | y!(8) | z!(9) }
    let body = Proc::Par(
        Box::new(ann(Proc::Par(Box::new(send_on("x", 7)), Box::new(send_on("y", 8))))),
        Box::new(send_on("z", 9)),
    );
    let decls = vec![decl("x", None), decl("y", None), decl("z", None)];
    let out = ok(normalize_p_new(&decls, &ann(body), input(), &Env::new()));
    let n = out.par.news.unwrap().head;
    assert_eq!(n.bind_count, 3);
    assert_eq!(n.uri, None);
    assert_eq!(n.injections, None);
    assert_eq!(n.locally_free, Indices::Nil);
    let body = n.p.unwrap();
    assert_eq!(body.locally_free, idx(vec![0, 1, 2]));
    // the last send, on z, comes first; z is the innermost name
    let first = body.sends.unwrap().head;
    assert_eq!(*first.chan.unwrap(), par_of(vec![Expr::EVar(VarInstance::BoundVar(0))], vec![0], false));
    assert_eq!(out.par.locally_free, Indices::Nil);
}

#[test]
fn p_new_should_sort_uris_and_place_them_at_the_end() {
    // new x, y, r(`rho:registry`), out(`rho:stdout`), z in { x!(7) | r!(8) }
    let decls = vec![
        decl("x", None),
        decl("y", None),
        decl("r", Some("rho:registry")),
        decl("out", Some("rho:stdout")),
        decl("z", None),
    ];
    let body = Proc::Par(Box::new(send_on("x", 7)), Box::new(send_on("r", 8)));
    let out = ok(normalize_p_new(&decls, &ann(body), input(), &Env::new()));
    let n = out.par.news.unwrap().head;
    assert_eq!(n.bind_count, 5);
    assert_eq!(n.uri, list(vec!["rho:registry".to_string(), "rho:stdout".to_string()]));
    // x is bound first (index 4), r fourth (index 1)
    let sends = n.p.unwrap().sends.unwrap();
    assert_eq!(*sends.head.chan.unwrap(), par_of(vec![Expr::EVar(VarInstance::BoundVar(1))], vec![1], false));
    assert_eq!(*sends.tail.unwrap().head.chan.unwrap(), par_of(vec![Expr::EVar(VarInstance::BoundVar(4))], vec![4], false));
}

#[test]
fn a_new_leaves_outer_variables_free_outside_its_names() {
    // with w bound: new x in { w!(1) | x!(2) }: w is index 1 inside, 0 outside
    let body = Proc::Par(Box::new(send_on("w", 1)), Box::new(send_on("x", 2)));
    let out = ok(normalize_p_new(&vec![decl("x", None)], &ann(body), input_with("w", VarSort::NameSort), &Env::new()));
    let n = out.par.news.unwrap().head;
    assert_eq!(n.locally_free, idx(vec![0]));
    assert_eq!(n.p.unwrap().locally_free, idx(vec![0, 1]));
}

// ---- contracts ----

fn send_par(chan: Par, data: Vec<Par>, locally_free: Vec<usize>) -> Send {
    Send { chan: Some(Box::new(chan)), data: list(data), persistent: false, locally_free: idx(locally_free), connective_used: false }
}

#[test]
fn new_ast_p_contr_should_handle_a_basic_contract() {
    // new add in { contract add(ret, @x, @y) = { ret!(x + y) } }
    let formals = Names {
        names: list(vec![
            Name::ProcVar(var("ret")),
            Name::Quote(Box::new(Proc::ProcVar(var("x")))),
            Name::Quote(Box::new(Proc::ProcVar(var("y")))),
        ]),
        remainder: None,
    };
    let sum = Proc::Binary(BinaryOp::Plus, Box::new(ann(Proc::ProcVar(var("x")))), Box::new(ann(Proc::ProcVar(var("y")))));
    let body = Proc::Send { channel: Name::ProcVar(var("ret")), send_type: SendType::Single, inputs: list(vec![ann(sum)]) };
    let out = ok(normalize_p_contr(&Name::ProcVar(var("add")), &formals, &ann(body), input_with("add", VarSort::NameSort), &Env::new()));
    let plus = par_of(vec![Expr::EBinary(BinaryOp::Plus,
        Box::new(par_of(vec![Expr::EVar(VarInstance::BoundVar(1))], vec![1], false)),
        Box::new(par_of(vec![Expr::EVar(VarInstance::BoundVar(0))], vec![0], false)))], vec![0, 1], false);
    let body_send = send_par(par_of(vec![Expr::EVar(VarInstance::BoundVar(2))], vec![2], false), vec![plus], vec![0, 1, 2]);
    let receive = Receive {
        binds: list(vec![ReceiveBind {
            patterns: list(vec![
                par_of(vec![Expr::EVar(VarInstance::FreeVar(0))], vec![], true),
                par_of(vec![Expr::EVar(VarInstance::FreeVar(1))], vec![], true),
                par_of(vec![Expr::EVar(VarInstance::FreeVar(2))], vec![], true),
            ]),
            source: Some(Box::new(par_of(vec![Expr::EVar(VarInstance::BoundVar(0))], vec![0], false))),
            remainder: None,
            free_count: 3,
        }]),
        body: Some(Box::new(Par { sends: list(vec![body_send]), locally_free: idx(vec![0, 1, 2]), ..empty_par() })),
        persistent: true,
        peek: false,
        bind_count: 3,
        locally_free: idx(vec![0]),
        connective_used: false,
    };
    assert_eq!(out.par, Par { receives: list(vec![receive]), locally_free: idx(vec![0]), ..empty_par() });
    assert_eq!(out.free_map.count(), 0);
}

#[test]
fn new_ast_p_contr_should_not_count_ground_values_in_the_formals_towards_the_bind_count() {
    // new ret5 in { contract ret5(ret, @5) = { ret!(5) } }
    let formals = Names { names: list(vec![Name::ProcVar(var("ret")), Name::Quote(Box::new(long(5)))]), remainder: None };
    let body = Proc::Send { channel: Name::ProcVar(var("ret")), send_type: SendType::Single, inputs: list(vec![ann(long(5))]) };
    let out = ok(normalize_p_contr(&Name::ProcVar(var("ret5")), &formals, &ann(body), input_with("ret5", VarSort::NameSort), &Env::new()));
    let body_send = send_par(par_of(vec![Expr::EVar(VarInstance::BoundVar(0))], vec![0], false),
        vec![par_of(vec![Expr::GInt(5)], vec![], false)], vec![0]);
    let receive = Receive {
        binds: list(vec![ReceiveBind {
            patterns: list(vec![
                par_of(vec![Expr::EVar(VarInstance::FreeVar(0))], vec![], true),
                par_of(vec![Expr::GInt(5)], vec![], false),
            ]),
            source: Some(Box::new(par_of(vec![Expr::EVar(VarInstance::BoundVar(0))], vec![0], false))),
            remainder: None,
            free_count: 1,
        }]),
        body: Some(Box::new(Par { sends: list(vec![body_send]), locally_free: idx(vec![0]), ..empty_par() })),
        persistent: true,
        peek: false,
        bind_count: 1,
        locally_free: idx(vec![0]),
        connective_used: false,
    };
    assert_eq!(out.par, Par { receives: list(vec![receive]), locally_free: idx(vec![0]), ..empty_par() });
}

#[test]
fn a_contract_with_a_remainder_binds_it_after_the_names() {
    // contract c(x ...rest) = { Nil } with c bound
    let formals = Names { names: list(vec![Name::ProcVar(var("x"))]), remainder: Some(var("rest")) };
    let out = ok(normalize_p_contr(&Name::ProcVar(var("c")), &formals, &ann(Proc::Nil), input_with("c", VarSort::NameSort), &Env::new()));
    let r = out.par.receives.unwrap().head;
    assert_eq!(r.bind_count, 2);
    assert_eq!(r.binds.unwrap().head.remainder, Some(VarInstance::FreeVar(1)));
    // a name used twice in the formals is refused
    let twice = Names { names: list(vec![Name::ProcVar(var("x")), Name::ProcVar(var("x"))]), remainder: None };
    let r = normalize_p_contr(&Name::ProcVar(var("c")), &twice, &ann(Proc::Nil), input_with("c", VarSort::NameSort), &Env::new());
    assert!(matches!(r, Err(InterpreterError::UnexpectedReuseOfNameContextFree { var_name, .. }) if var_name == "x"));
}

// ---- receives ----

fn bind(kind: BindKind, names: Vec<Name>, rhs: Name) -> Bind {
    Bind { kind, lhs: Names { names: list(names), remainder: None }, rhs }
}

fn x_send_eval_y() -> AnnProc {
    // x!(*y)
    ann(Proc::Send {
        channel: Name::ProcVar(var("x")),
        send_type: SendType::Single,
        inputs: list(vec![ann(Proc::Eval(Name::ProcVar(var("y"))))]),
    })
}

#[test]
fn new_ast_p_input_should_handle_a_simple_receive() {
    // for ( x, y <- @Nil ) { x!(*y) }
    let receipts = list(vec![list(vec![bind(BindKind::Linear, vec![Name::ProcVar(var("x")), Name::ProcVar(var("y"))],
        Name::Quote(Box::new(Proc::Nil)))])]);
    let out = ok(normalize_p_input(&receipts, &x_send_eval_y(), input(), &Env::new()));
    let body_send = send_par(par_of(vec![Expr::EVar(VarInstance::BoundVar(1))], vec![1], false),
        vec![par_of(vec![Expr::EVar(VarInstance::BoundVar(0))], vec![0], false)], vec![0, 1]);
    let receive = Receive {
        binds: list(vec![ReceiveBind {
            patterns: list(vec![
                par_of(vec![Expr::EVar(VarInstance::FreeVar(0))], vec![], true),
                par_of(vec![Expr::EVar(VarInstance::FreeVar(1))], vec![], true),
            ]),
            source: Some(Box::new(empty_par())),
            remainder: None,
            free_count: 2,
        }]),
        body: Some(Box::new(Par { sends: list(vec![body_send]), locally_free: idx(vec![0, 1]), ..empty_par() })),
        persistent: false,
        peek: false,
        bind_count: 2,
        locally_free: Indices::Nil,
        connective_used: false,
    };
    assert_eq!(out.par, Par { receives: list(vec![receive]), ..empty_par() });
    assert_eq!(out.free_map.count(), 0);
}

#[test]
fn new_ast_p_input_should_handle_peek() {
    // for ( x, y <<- @Nil ) { x!(*y) }
    let receipts = list(vec![list(vec![bind(BindKind::Peek, vec![Name::ProcVar(var("x")), Name::ProcVar(var("y"))],
        Name::Quote(Box::new(Proc::Nil)))])]);
    let out = ok(normalize_p_input(&receipts, &x_send_eval_y(), input(), &Env::new()));
    let receives = out.par.receives;
    assert!(receives.is_some(), "Should have at least one receive");
    let r = receives.unwrap().head;
    assert_eq!(r.peek, true, "Peek should be true for <<- operator");
    assert!(!r.persistent);
}

#[test]
fn new_ast_p_input_should_fail_if_a_free_variable_is_used_in_two_different_receives() {
    // for ( x1, @y1 <- @Nil & x2, @y1 <- @1 ) { Nil }
    let receipts = list(vec![list(vec![
        bind(BindKind::Linear, vec![Name::ProcVar(var("x1")), Name::Quote(Box::new(Proc::ProcVar(var("y1"))))], Name::Quote(Box::new(Proc::Nil))),
        bind(BindKind::Linear, vec![Name::ProcVar(var("x2")), Name::Quote(Box::new(Proc::ProcVar(var("y1"))))], Name::Quote(Box::new(long(1)))),
    ])]);
    let r = normalize_p_input(&receipts, &ann(Proc::Nil), input(), &Env::new());
    assert!(matches!(r, Err(InterpreterError::UnexpectedReuseOfNameContextFree { var_name, .. }) if var_name == "y1"));
}

#[test]
fn a_for_without_binds_is_refused_as_a_bug() {
    let r = normalize_p_input(&None, &ann(Proc::Nil), input(), &Env::new());
    assert!(matches!(r, Err(InterpreterError::BugFoundError(m)) if m == "Expected at least one receipt"));
    let r = normalize_p_input(&list(vec![None]), &ann(Proc::Nil), input(), &Env::new());
    assert!(matches!(r, Err(InterpreterError::BugFoundError(m)) if m == "Expected at least one receipt"));
}

#[test]
fn a_for_on_the_same_channel_twice_is_refused_at_the_body() {
    // for ( x <- @Nil & y <- @{Nil | Nil} ) { Nil }: both channels are the empty process
    let body = AnnProc { proc: Proc::Nil, span: SourceSpan { start: SourcePos { line: 3, col: 4 }, end: SourcePos { line: 3, col: 9 } } };
    let nil_par_nil = Proc::Par(Box::new(ann(Proc::Nil)), Box::new(ann(Proc::Nil)));
    let receipts = list(vec![list(vec![
        bind(BindKind::Linear, vec![Name::ProcVar(var("x"))], Name::Quote(Box::new(Proc::Nil))),
        bind(BindKind::Linear, vec![Name::ProcVar(var("y"))], Name::Quote(Box::new(nil_par_nil))),
    ])]);
    let r = normalize_p_input(&receipts, &body, input(), &Env::new());
    assert!(matches!(r, Err(InterpreterError::ReceiveOnSameChannelsError { source_span }) if source_span == body.span));
}

#[test]
fn a_repeated_receive_persists_and_binds_groups_in_order() {
    // for ( x <= @1 ; y <- @2 ) { *x }: the first bind decides; x is bound before y
    let receipts = list(vec![
        list(vec![bind(BindKind::Repeated, vec![Name::ProcVar(var("x"))], Name::Quote(Box::new(long(1))))]),
        list(vec![bind(BindKind::Linear, vec![Name::ProcVar(var("y"))], Name::Quote(Box::new(long(2))))]),
    ]);
    let out = ok(normalize_p_input(&receipts, &ann(Proc::Eval(Name::ProcVar(var("x")))), input(), &Env::new()));
    let r = out.par.receives.unwrap().head;
    assert!(r.persistent);
    assert!(!r.peek);
    assert_eq!(r.bind_count, 2);
    assert_eq!(*r.body.unwrap(), par_of(vec![Expr::EVar(VarInstance::BoundVar(1))], vec![1], false));
}

// ---- lists and let ----

#[test]
fn a_list_holds_its_items_and_what_they_leave_free() {
    // [7, x] with x bound
    let out = ok(normalize_ann_proc(&ann(Proc::ListLiteral(list(vec![ann(long(7)), ann(Proc::ProcVar(var("x")))]))), input_with("x", VarSort::ProcSort), &Env::new()));
    let l = Expr::EList {
        ps: list(vec![par_of(vec![Expr::GInt(7)], vec![], false), par_of(vec![Expr::EVar(VarInstance::BoundVar(0))], vec![0], false)]),
        locally_free: idx(vec![0]),
        connective_used: false,
    };
    assert_eq!(out.par, par_of(vec![l], vec![0], false));
}

#[test]
fn a_let_binding_becomes_a_match_of_lists() {
    // let x <- 5 in { *x }
    let chain = LetChain::Bind(
        LetBinding::Single { lhs: Name::ProcVar(var("x")), rhs: Box::new(ann(long(5))) },
        Box::new(LetChain::Body(Box::new(ann(Proc::Eval(Name::ProcVar(var("x"))))))),
    );
    let out = ok(normalize_p_let(&chain, input(), &Env::new()));
    let m = out.par.matches.unwrap().head;
    let five = par_of(vec![Expr::GInt(5)], vec![], false);
    let target = par_of(vec![Expr::EList { ps: list(vec![five]), locally_free: Indices::Nil, connective_used: false }], vec![], false);
    assert_eq!(*m.target.unwrap(), target);
    let case = m.cases.unwrap().head;
    assert_eq!(case.free_count, 1);
    let x_pattern = par_of(vec![Expr::EVar(VarInstance::FreeVar(0))], vec![], true);
    let pattern = par_of(vec![Expr::EList { ps: list(vec![x_pattern]), locally_free: Indices::Nil, connective_used: true }], vec![], true);
    assert_eq!(*case.pattern.unwrap(), pattern);
    assert_eq!(*case.source.unwrap(), par_of(vec![Expr::EVar(VarInstance::BoundVar(0))], vec![0], false));
    assert_eq!(m.locally_free, Indices::Nil);
}

#[test]
fn a_let_of_several_values_matches_the_rest_with_wildcards() {
    // let x <- (1, 2, 3) in { *x }
    let chain = LetChain::Bind(
        LetBinding::Multiple { lhs: var("x"), rhs: list(vec![ann(long(1)), ann(long(2)), ann(long(3))]) },
        Box::new(LetChain::Body(Box::new(ann(Proc::Eval(Name::ProcVar(var("x"))))))),
    );
    let out = ok(normalize_p_let(&chain, input(), &Env::new()));
    let m = out.par.matches.unwrap().head;
    let case = m.cases.unwrap().head;
    assert_eq!(case.free_count, 1);
    let wild = par_of(vec![Expr::EVar(VarInstance::Wildcard)], vec![], true);
    let x_pattern = par_of(vec![Expr::EVar(VarInstance::FreeVar(0))], vec![], true);
    let pattern = par_of(vec![Expr::EList { ps: list(vec![x_pattern, wild, par_of(vec![Expr::EVar(VarInstance::Wildcard)], vec![], true)]),
        locally_free: Indices::Nil, connective_used: true }], vec![], true);
    assert_eq!(*case.pattern.unwrap(), pattern);
    // a second binding sees the first: let x <- 1 ; y <- *x in { *y }
    let chain = LetChain::Bind(
        LetBinding::Single { lhs: Name::ProcVar(var("x")), rhs: Box::new(ann(long(1))) },
        Box::new(LetChain::Bind(
            LetBinding::Single { lhs: Name::ProcVar(var("y")), rhs: Box::new(ann(Proc::Eval(Name::ProcVar(var("x"))))) },
            Box::new(LetChain::Body(Box::new(ann(Proc::Eval(Name::ProcVar(var("y"))))))),
        )),
    );
    let out = ok(normalize_p_let(&chain, input(), &Env::new()));
    assert_eq!(out.par.locally_free, Indices::Nil);
    let inner = out.par.matches.unwrap().head.cases.unwrap().head.source.unwrap();
    let inner_match = inner.matches.unwrap().head;
    // the value *x of the second binding leaves x (index 0) free
    assert_eq!(inner_match.locally_free, idx(vec![0]));
}

// ---- process variables and references ----

#[test]
fn p_var_should_compile_as_bound_var_if_its_in_env() {
    let out = ok(normalize_p_var(&var("x"), input_with("x", VarSort::ProcSort), sp()));
    assert_eq!(out.par, par_of(vec![Expr::EVar(VarInstance::BoundVar(0))], vec![0], false));
    assert_eq!(out.free_map.count(), 0);
}

#[test]
fn p_var_should_compile_as_free_var_if_its_not_in_env() {
    let test_span = SourceSpan { start: SourcePos { line: 1, col: 1 }, end: SourcePos { line: 1, col: 2 } };
    let out = ok(normalize_p_var(&var("x"), input(), test_span));
    assert_eq!(out.par, par_of(vec![Expr::EVar(VarInstance::FreeVar(0))], vec![], true));
    let ctx = out.free_map.get(&"x".to_string()).unwrap();
    assert_eq!((ctx.level, ctx.typ, ctx.source_span), (0, VarSort::ProcSort, test_span));
}

#[test]
fn new_ast_p_var_should_not_compile_if_its_in_env_of_the_wrong_sort() {
    let r = normalize_p_var(&var("x"), input_with("x", VarSort::NameSort), sp());
    assert!(matches!(r, Err(InterpreterError::UnexpectedProcContext { var_name, .. }) if var_name == "x"));
}

#[test]
fn new_ast_p_var_should_not_compile_if_its_used_free_somewhere_else() {
    let mut i = input();
    i.free_map = i.free_map.put_span(("x".to_string(), VarSort::ProcSort, sp()));
    let r = normalize_p_var(&var("x"), i, sp());
    assert!(matches!(r, Err(InterpreterError::UnexpectedReuseOfProcContextFree { var_name, .. }) if var_name == "x"));
}

#[test]
fn new_ast_p_var_should_handle_wildcard() {
    let out = ok(normalize_p_var(&Var::Wildcard, input(), sp()));
    assert_eq!(out.par, par_of(vec![Expr::EVar(VarInstance::Wildcard)], vec![], true));
    assert_eq!(out.free_map.wildcards().len(), 1);
}

#[test]
fn p_var_ref_should_do_deep_lookup_in_match_case() {
    // x bound as a process; match 7 { =x => Nil }
    let x_id = Id { name: "x".to_string(), pos: SourcePos { line: 0, col: 0 } };
    let cases = list(vec![Case { pattern: ann(Proc::VarRef(VarRefKind::Proc, x_id)), proc: ann(Proc::Nil) }]);
    let out = ok(normalize_p_match(&ann(long(7)), &cases, input_with("x", VarSort::ProcSort), &Env::new()));
    let m = out.par.matches.unwrap().head;
    let case = m.cases.unwrap().head;
    assert_eq!(case.free_count, 0);
    let pattern = Par {
        connectives: list(vec![ConnectiveInstance::VarRefBody(rholang::context::VarRef { index: 0, depth: 1 })]),
        locally_free: idx(vec![0]),
        ..empty_par()
    };
    assert_eq!(*case.pattern.unwrap(), pattern);
    assert_eq!(m.locally_free, idx(vec![0]));
    assert!(!m.connective_used);
    assert_eq!(out.par.locally_free, idx(vec![0]));
}

#[test]
fn p_var_ref_should_do_deep_lookup_in_receive_case() {
    // x bound as a name; for (@=*x <- @Nil) { Nil }
    let x_id = Id { name: "x".to_string(), pos: SourcePos { line: 0, col: 0 } };
    let receipts = list(vec![list(vec![bind(BindKind::Linear,
        vec![Name::Quote(Box::new(Proc::VarRef(VarRefKind::Name, x_id)))], Name::Quote(Box::new(Proc::Nil)))])]);
    let out = ok(normalize_p_input(&receipts, &ann(Proc::Nil), input_with("x", VarSort::NameSort), &Env::new()));
    let r = out.par.receives.unwrap().head;
    assert_eq!(r.bind_count, 0);
    let pattern = r.binds.unwrap().head.patterns.unwrap().head;
    assert_eq!(pattern.connectives, list(vec![ConnectiveInstance::VarRefBody(rholang::context::VarRef { index: 0, depth: 1 })]));
    assert_eq!(r.locally_free, idx(vec![0]));
}

#[test]
fn a_var_ref_leaves_the_free_map_alone() {
    let x_id = Id { name: "x".to_string(), pos: SourcePos { line: 0, col: 0 } };
    let out = ok(normalize_p_var_ref(VarRefKind::Proc, &x_id, input_with("x", VarSort::ProcSort), sp()));
    assert_eq!(out.par.connectives, list(vec![ConnectiveInstance::VarRefBody(rholang::context::VarRef { index: 0, depth: 0 })]));
    assert_eq!(out.par.locally_free, idx(vec![0]));
    assert_eq!(out.free_map.count(), 0);
}

#[test]
fn eval_of_a_quote_gives_the_process_back() {
    // *@(7 | x) and 7 | x, with x bound
    let p = || Proc::Par(Box::new(ann(long(7))), Box::new(ann(Proc::ProcVar(var("x")))));
    let a = ok(normalize_ann_proc(&ann(Proc::Eval(Name::Quote(Box::new(p())))), input_with("x", VarSort::ProcSort), &Env::new()));
    let b = ok(normalize_ann_proc(&ann(p()), input_with("x", VarSort::ProcSort), &Env::new()));
    assert_eq!(a.par, b.par);
}

#[test]
fn a_new_carries_the_environment_as_injections_in_name_order() {
    // new x in { x!(7) }, with rho:b bound to 2 and rho:a bound to 1
    let mut env = Env::new();
    env.insert("rho:b".to_string(), par_of(vec![Expr::GInt(2)], vec![], false));
    env.insert("rho:a".to_string(), par_of(vec![Expr::GInt(1)], vec![], false));
    env.insert("rho:b".to_string(), par_of(vec![Expr::GInt(3)], vec![], false));
    let out = ok(normalize_p_new(&vec![decl("x", None)], &send_on("x", 7), input(), &env));
    let n = out.par.news.unwrap().head;
    assert_eq!(
        n.injections,
        list(vec![
            ("rho:a".to_string(), par_of(vec![Expr::GInt(1)], vec![], false)),
            ("rho:b".to_string(), par_of(vec![Expr::GInt(3)], vec![], false)),
        ])
    );
}

#[test]
fn new_ast_p_nil_should_compile_as_no_modification() {
    // Nil added to a process that holds 7, with the free variable y
    let mut inputs = input_with("x", VarSort::ProcSort);
    inputs.par = par_of(vec![Expr::GInt(7)], vec![], false);
    inputs.free_map = inputs.free_map.put_pos(("y".to_string(), VarSort::NameSort, SourcePos { line: 1, col: 2 }));
    let out = ok(normalize_ann_proc(&ann(Proc::Nil), inputs, &Env::new()));
    assert_eq!(out.par, par_of(vec![Expr::GInt(7)], vec![], false));
    assert_eq!(out.free_map.count(), 1);
    assert!(out.free_map.get(&"y".to_string()).is_some());
}

fn send_stdout_hello() -> Proc {
    Proc::Send {
        channel: Name::Quote(Box::new(Proc::Ground(GroundLiteral::StringLiteral("stdout".to_string())))),
        send_type: SendType::Single,
        inputs: list(vec![ann(Proc::Ground(GroundLiteral::StringLiteral("hello".to_string())))]),
    }
}

#[test]
fn test_handle_empty_bindings() {
    // let in { @"stdout"!("hello") }
    let chain = LetChain::Body(Box::new(ann(send_stdout_hello())));
    let out = ok(normalize_p_let(&chain, input(), &Env::new()));
    assert!(out.par.sends.is_some());
    let direct = ok(normalize_ann_proc(&ann(send_stdout_hello()), input(), &Env::new()));
    assert_eq!(out.par, direct.par);
    assert_eq!(out.free_map.count(), direct.free_map.count());
}

fn new_send_47() -> Par {
    let send = Send {
        chan: Some(Box::new(par_of(vec![Expr::EVar(VarInstance::BoundVar(0))], vec![0], false))),
        data: list(vec![par_of(vec![Expr::GInt(47)], vec![], false)]),
        persistent: false,
        locally_free: idx(vec![0]),
        connective_used: false,
    };
    let body = Par { sends: list(vec![send]), locally_free: idx(vec![0]), ..empty_par() };
    let n = rholang::term::New { bind_count: 1, p: Some(Box::new(body)), uri: None, injections: None, locally_free: Indices::Nil };
    Par { news: list(vec![n]), ..empty_par() }
}

#[test]
fn p_if_else_should_handle_a_more_complicated_if_statement_with_an_else_clause() {
    // if (47 == 47) { new x in { x!(47) } } else { new y in { y!(47) } }
    let cond = Proc::Binary(BinaryOp::Eq, Box::new(ann(long(47))), Box::new(ann(long(47))));
    let if_true = Proc::New { decls: vec![decl("x", None)], proc: Box::new(send_on("x", 47)) };
    let if_false = Proc::New { decls: vec![decl("y", None)], proc: Box::new(send_on("y", 47)) };
    let ite = Proc::IfThenElse { condition: Box::new(ann(cond)), if_true: Box::new(ann(if_true)), if_false: Some(Box::new(ann(if_false))) };
    let out = ok(normalize_ann_proc(&ann(ite), input(), &Env::new()));
    let target = par_of(vec![Expr::EBinary(BinaryOp::Eq, Box::new(par_of(vec![Expr::GInt(47)], vec![], false)),
        Box::new(par_of(vec![Expr::GInt(47)], vec![], false)))], vec![], false);
    let m = if_match(target, new_send_47(), new_send_47());
    assert_eq!(out.par, Par { matches: list(vec![m]), ..empty_par() });
    assert_eq!(out.free_map.count(), 0);
}

// ---- synchronous send ----

#[test]
fn p_send_sync_should_normalize_a_basic_send_sync() {
    // _!?() at line 3, column 3
    let span = SourceSpan { start: SourcePos { line: 3, col: 3 }, end: SourcePos { line: 3, col: 3 } };
    let result = normalize_p_send_sync(Name::ProcVar(Var::Wildcard), None, None, span, input(), &Env::new());
    assert!(result.is_ok());
    let out = result.unwrap();
    let n = out.par.news.unwrap().head;
    assert_eq!(n.bind_count, 1);
    let body = n.p.unwrap();
    assert!(body.sends.is_some() && body.sends.unwrap().tail.is_none());
    assert!(body.receives.is_some() && body.receives.unwrap().tail.is_none());
}

fn reply_process(reply: &str) -> Proc {
    // new reply in { @Nil!(*reply, 5) | for (_ <- reply) { @Nil!(1) } }
    let at = SourcePos { line: 0, col: 0 };
    let send = Proc::Send {
        channel: Name::Quote(Box::new(Proc::Nil)),
        send_type: SendType::Single,
        inputs: list(vec![ann(Proc::Eval(Name::ProcVar(var(reply)))), ann(long(5))]),
    };
    let receive = Proc::ForComprehension {
        receipts: list(vec![list(vec![bind(BindKind::Linear, vec![Name::ProcVar(Var::Wildcard)], Name::ProcVar(var(reply)))])]),
        body: Box::new(ann(send_nil(1))),
    };
    Proc::New {
        decls: vec![NameDecl { id: Id { name: reply.to_string(), pos: at }, uri: None }],
        proc: Box::new(ann(Proc::Par(Box::new(ann(send)), Box::new(ann(receive))))),
    }
}

#[test]
fn a_send_sync_is_a_new_reply_channel_with_a_send_and_a_receive() {
    // @Nil!?(5); @Nil!(1), with the reply channel r
    let out = ok(normalize_p_send_sync_with_reply(
        "r".to_string(),
        Name::Quote(Box::new(Proc::Nil)),
        list(vec![ann(long(5))]),
        Some(Box::new(ann(send_nil(1)))),
        sp(),
        input(),
        &Env::new(),
    ));
    let expected = ok(normalize_ann_proc(&ann(reply_process("r")), input(), &Env::new()));
    assert_eq!(out.par, expected.par);
    let n = out.par.news.unwrap().head;
    assert_eq!(n.bind_count, 1);
    let body = n.p.unwrap();
    let s = body.sends.unwrap().head;
    assert_eq!(s.data, list(vec![par_of(vec![Expr::EVar(VarInstance::BoundVar(0))], vec![0], false), par_of(vec![Expr::GInt(5)], vec![], false)]));
}

// ---- concurrent let ----

fn x_send_eval_y_proc() -> Proc {
    Proc::Send { channel: Name::ProcVar(var("x")), send_type: SendType::Single, inputs: list(vec![ann(Proc::Eval(Name::ProcVar(var("y"))))]) }
}

fn single(name: &str, n: i64) -> LetBinding {
    LetBinding::Single { lhs: Name::ProcVar(var(name)), rhs: Box::new(ann(long(n))) }
}

#[test]
fn test_translate_concurrent_declarations_into_comm() {
    // let x <- 1, y <- 2 in { x!(*y) } (concurrent)
    let result = normalize_p_let_concurrent(vec![single("x", 1), single("y", 2)], ann(x_send_eval_y_proc()), sp(), input(), &Env::new());
    assert!(result.is_ok());
    let normalized = result.unwrap();
    assert!(normalized.par.news.is_some());
}

#[test]
fn a_concurrent_let_sends_each_value_and_receives_them_all() {
    // let x <- 1, y <- 2 in { x!(*y) }, with the channels a and b:
    // new a, b in { a!(1) | b!(2) | for (x <- a & y <- b) { x!(*y) } }
    let out = ok(normalize_p_let_concurrent_with_names(
        vec!["a".to_string(), "b".to_string()],
        vec![single("x", 1), single("y", 2)],
        ann(x_send_eval_y_proc()),
        sp(),
        input(),
        &Env::new(),
    ));
    let send = |c: &str, n: i64| ann(Proc::Send { channel: Name::ProcVar(var(c)), send_type: SendType::Single, inputs: list(vec![ann(long(n))]) });
    let receive = Proc::ForComprehension {
        receipts: list(vec![
            list(vec![bind(BindKind::Linear, vec![Name::ProcVar(var("x"))], Name::ProcVar(var("a")))]),
            list(vec![bind(BindKind::Linear, vec![Name::ProcVar(var("y"))], Name::ProcVar(var("b")))]),
        ]),
        body: Box::new(ann(x_send_eval_y_proc())),
    };
    let par = Proc::Par(Box::new(ann(Proc::Par(Box::new(send("a", 1)), Box::new(send("b", 2))))), Box::new(ann(receive)));
    let expected = Proc::New { decls: vec![decl("a", None), decl("b", None)], proc: Box::new(ann(par)) };
    let direct = ok(normalize_ann_proc(&ann(expected), input(), &Env::new()));
    assert_eq!(out.par, direct.par);
    let n = out.par.news.unwrap().head;
    assert_eq!(n.bind_count, 2);
    let body = n.p.unwrap();
    assert_eq!(list_len(&body.sends), 2);
    assert_eq!(list_len(&body.receives), 1);
}

#[test]
fn a_concurrent_let_of_several_values_receives_them_with_wildcards() {
    // let x <- (1, 2, 3) in { x!(0) } (concurrent), with the channel a
    let binding = LetBinding::Multiple { lhs: var("x"), rhs: list(vec![ann(long(1)), ann(long(2)), ann(long(3))]) };
    let body = ann(Proc::Send { channel: Name::ProcVar(var("x")), send_type: SendType::Single, inputs: list(vec![ann(long(0))]) });
    let out = ok(normalize_p_let_concurrent_with_names(vec!["a".to_string()], vec![binding], body, sp(), input(), &Env::new()));
    let n = out.par.news.unwrap().head;
    assert_eq!(n.bind_count, 1);
    let inner = n.p.unwrap();
    let s = inner.sends.unwrap().head;
    assert_eq!(list_len(&s.data), 3);
    let r = inner.receives.unwrap().head;
    let b = r.binds.unwrap().head;
    assert_eq!(list_len(&b.patterns), 3);
    assert_eq!(r.bind_count, 1);
}

fn list_len<T>(l: &List<T>) -> usize {
    match l {
        None => 0,
        Some(n) => 1 + list_len(&n.tail),
    }
}
