//! The normalizer: from a parsed process to its normalized term, with
//! variables turned into de Bruijn indices or pattern levels, and with the
//! free map of the pattern being read.
use vstd::prelude::*;
use crate::ast::{BindKind, BundleType, GroundLiteral, SendType, Var, VarRefKind};
use crate::binders::{bundle_content, name_refusal, BundleContentError};
use crate::bound_map::{chain_find, empty_bound_view, BoundMapChain, BoundMapView};
use crate::context::{ConnectiveInstance, VarRef, VarSort};
use crate::free_map::{FreeMap, FreeMapView};
use crate::normalize::{receive_bind_flags, receive_flags, fail_on_invalid_connective_span, is_forbidden_in_receive, normalize_match_name, bundle_flags, normalize_name_var, resolve_p_var, resolve_p_var_ref, normalize_simple_type,
    resolve_name_var, resolve_proc_var, simple_type_connective, with_wildcard, InterpreterError, NameVisitInputs,
    VarInstance};
use crate::receive::{empty_free_view, merge_all, merge_receive_bind_free_maps, merge_refusal, pairwise_disjoint, total_count,
    lemma_merge_all_facts};
use crate::term_eq::{par_eq, same_par};
use crate::env::Env;
use crate::new_scope::{NewScope, bind_names, decl_keys, lemma_bind_names_next, new_scope, ordered_names, ordered_uri_strings, stable_order,
    law_stable_order_unique};
use crate::span::{point_span, synthetic_origin, SourceSpan, SpanContext};
use crate::syntax::{binding_size, LetBinding, LetChain, let_size, list_count, Bind, bind_size, binds_size, receipts_size, names_size, Names, lemma_proc_size_pos, cases_size, list_size, name_size, proc_size, AnnProc, Case, Name, Proc};
use crate::term::{list_items, append, append_spec, cons, empty_par, nil_par, prepend_bundle, prepend_bundle_spec, prepend_connective,
    prepend_connective_spec, prepend_expr, prepend_expr_spec, prepend_match, prepend_match_spec, prepend_send,
    prepend_send_spec, push_front, prepend_receive, prepend_receive_spec, Receive, ReceiveBind, prepend_new, prepend_new_spec, seq_to_list, vec_to_list, New, drop_bound, drop_bound_indices, single_bundle_spec, union, union_indices, Bundle, Expr, Indices, List, Match,
    MatchCase, Node, Par, Send};

verus! {

/// What the normalizer reads: the process built so far, which the next
/// process is added to, and the environments.
pub struct ProcVisitInputs {
    pub par: Par,
    pub bound_map_chain: BoundMapChain<VarSort>,
    pub free_map: FreeMap<VarSort>,
}

/// What the normalizer gives back: the process built, and the free map after
/// it.
pub struct ProcVisitOutputs {
    pub par: Par,
    pub free_map: FreeMap<VarSort>,
}

/// A normalized name and the free map after it.
pub struct NameVisitOutputs {
    pub par: Par,
    pub free_map: FreeMap<VarSort>,
}

/// Whether the counters of the environments have room for a process of
/// `n` nodes: its free variables, its nested scopes and its binders.
pub open spec fn fits(chain: Seq<BoundMapView<VarSort>>, free: FreeMapView<VarSort>, n: nat) -> bool {
    &&& free.count() + n <= usize::MAX
    &&& chain.len() + n <= usize::MAX
    &&& chain[0].next + n <= usize::MAX
}

/// A normalized result, or what the error is known to be.
pub type Outcome = Result<(Par, FreeMapView<VarSort>), spec_fn(InterpreterError) -> bool>;

/// The term of a literal.
pub open spec fn ground_term(g: GroundLiteral) -> Expr {
    match g {
        GroundLiteral::BoolLiteral(b) => Expr::GBool(b),
        GroundLiteral::LongLiteral(n) => Expr::GInt(n),
        GroundLiteral::StringLiteral(s) => Expr::GString(s),
        GroundLiteral::UriLiteral(u) => Expr::GUri(u),
    }
}

/// The process that is the boolean `b` alone.
pub open spec fn bool_par(b: bool) -> Par {
    Par { exprs: cons(Expr::GBool(b), None), ..nil_par() }
}

/// The error for process variable `name` at `span`, refused as `o` says
/// (see `resolve_proc_var`) in scope `bound`.
pub open spec fn proc_var_refusal(bound: BoundMapView<VarSort>, name: Seq<char>, span: SourceSpan, o: Option<SourceSpan>,
    e: InterpreterError) -> bool {
    match o {
        None => e matches InterpreterError::UnexpectedProcContext { var_name, name_var_source_span, process_source_span }
            && var_name@ == name && name_var_source_span == bound.lookup(name).unwrap().source_span
            && process_source_span == span,
        Some(first) => e matches InterpreterError::UnexpectedReuseOfProcContextFree { var_name, first_use, second_use }
            && var_name@ == name && first_use == first && second_use == span,
    }
}

/// The error for a reference to `name` at `span`, of the wrong sort or
/// unbound, as `found` says.
pub open spec fn var_ref_refusal(found: Option<(crate::context::BoundContext<VarSort>, usize)>, name: Seq<char>,
    span: SourceSpan, e: InterpreterError) -> bool {
    match found {
        Some((ctx, _)) => if ctx.typ == VarSort::ProcSort {
            e matches InterpreterError::UnexpectedProcContext { var_name, name_var_source_span, process_source_span }
                && var_name@ == name && name_var_source_span == ctx.source_span && process_source_span == span
        } else {
            e matches InterpreterError::UnexpectedNameContext { var_name, proc_var_source_span, name_source_span }
                && var_name@ == name && proc_var_source_span == ctx.source_span && name_source_span == span
        },
        None => e matches InterpreterError::UnboundVariableRef { var_name, source_span }
            && var_name@ == name && source_span == span,
    }
}

/// Whether a free map holds a free variable or a wildcard.
pub open spec fn has_free_or_wildcard(f: FreeMapView<VarSort>) -> bool {
    f.wildcards.len() > 0 || exists|k: Seq<char>| f.bindings.contains_key(k)
}

/// The error for a bundle body that holds free variables or wildcards, as
/// its free map `f` records them.
pub open spec fn bundle_free_refusal(f: FreeMapView<VarSort>, e: InterpreterError) -> bool {
    e matches InterpreterError::UnexpectedBundleContent(BundleContentError::FreeVariables { wildcards, free_variables })
        && wildcards@ == f.wildcards
        && crate::assoc::keys_unique(free_variables@)
        && crate::assoc::assoc_map(free_variables@) == f.bindings
}

/// The bundle of polarity `t` around the normalized body `body`: a body that
/// is a single bundle merges into it, keeping its body and the flags both
/// allow.
pub open spec fn bundle_term(t: BundleType, body: Par) -> Bundle {
    if single_bundle_spec(body) {
        let inner = body.bundles.unwrap().head;
        Bundle {
            body: inner.body,
            write_flag: bundle_flags(t).0 && inner.write_flag,
            read_flag: bundle_flags(t).1 && inner.read_flag,
        }
    } else {
        Bundle { body: Some(Box::new(body)), write_flag: bundle_flags(t).0, read_flag: bundle_flags(t).1 }
    }
}

/// The match an `if` becomes: the condition against `true`, then `false`.
pub open spec fn if_match(target: Par, if_true: Par, if_false: Par) -> Match {
    Match {
        target: Some(Box::new(target)),
        cases: cons(
            MatchCase { pattern: Some(Box::new(bool_par(true))), source: Some(Box::new(if_true)), free_count: 0 },
            cons(MatchCase { pattern: Some(Box::new(bool_par(false))), source: Some(Box::new(if_false)), free_count: 0 }, None),
        ),
        locally_free: union(union(target.locally_free, if_true.locally_free), if_false.locally_free),
        connective_used: target.connective_used || if_true.connective_used || if_false.connective_used,
    }
}

/// What normalizing process `p`, parsed at `span`, gives when it is added to
/// `par`, in the scopes `chain` (innermost first) with free map `free`.
pub open spec fn norm_proc(p: Proc, span: SourceSpan, par: Par, chain: Seq<BoundMapView<VarSort>>,
    free: FreeMapView<VarSort>, env: Env) -> Outcome
    decreases p,
{
    let depth = (chain.len() - 1) as usize;
    match p {
        Proc::Nil => Ok((par, free)),
        Proc::Ground(g) => Ok((prepend_expr_spec(par, ground_term(g), depth), free)),
        Proc::SimpleType(t) => Ok((prepend_connective_spec(par, simple_type_connective(t), depth), free)),
        Proc::ProcVar(v) => match v {
            Var::Wildcard => Ok((prepend_expr_spec(par, Expr::EVar(VarInstance::Wildcard), depth), with_wildcard(free))),
            Var::Id(id) => match resolve_proc_var(chain[0], free, id.name@, span) {
                Ok((vi, f)) => Ok((prepend_expr_spec(par, Expr::EVar(vi), depth), f)),
                Err(o) => Err(|e: InterpreterError| proc_var_refusal(chain[0], id.name@, span, o, e)),
            },
        },
        Proc::VarRef(kind, id) => match chain_find(chain, id.name@) {
            Some((ctx, d)) => if (ctx.typ == VarSort::ProcSort) == (kind == VarRefKind::Proc) {
                Ok((prepend_connective_spec(par, ConnectiveInstance::VarRefBody(VarRef { index: ctx.index, depth: d }), depth), free))
            } else {
                Err(|e: InterpreterError| var_ref_refusal(Some((ctx, d)), id.name@, span, e))
            },
            None => Err(|e: InterpreterError| var_ref_refusal(None, id.name@, span, e)),
        },
        Proc::Par(l, r) => match norm_proc(l.proc, l.span, par, chain, free, env) {
            Ok((p1, f1)) => norm_proc(r.proc, r.span, p1, chain, f1, env),
            Err(e) => Err(e),
        },
        Proc::Eval(n) => match norm_name(n, chain, free, env) {
            Ok((q, f)) => Ok((append_spec(par, q), f)),
            Err(e) => Err(e),
        },
        Proc::Unary(op, a) => match norm_proc(*a, span, nil_par(), chain, free, env) {
            Ok((q, f)) => Ok((prepend_expr_spec(par, Expr::EUnary(op, Box::new(q)), depth), f)),
            Err(e) => Err(e),
        },
        Proc::Binary(op, l, r) => match norm_proc(l.proc, l.span, nil_par(), chain, free, env) {
            Ok((ql, f1)) => match norm_proc(r.proc, r.span, nil_par(), chain, f1, env) {
                Ok((qr, f2)) => Ok((prepend_expr_spec(par, Expr::EBinary(op, Box::new(ql), Box::new(qr)), depth), f2)),
                Err(e) => Err(e),
            },
            Err(e) => Err(e),
        },
        Proc::Send { channel, send_type, inputs } => match norm_name(channel, chain, free, env) {
            Ok((c, f1)) => match norm_list(inputs, chain, f1, env) {
                Ok((data, lf, used, f2)) => Ok((prepend_send_spec(par, Send {
                    chan: Some(Box::new(c)),
                    data,
                    persistent: send_type == SendType::Multiple,
                    locally_free: union(c.locally_free, lf),
                    connective_used: c.connective_used || used,
                }), f2)),
                Err(e) => Err(e),
            },
            Err(e) => Err(e),
        },
        Proc::Bundle { bundle_type, proc } => match norm_proc(proc.proc, proc.span, nil_par(), chain, free, env) {
            Ok((body, fb)) => if body.connectives is Some {
                Err(|e: InterpreterError| e == InterpreterError::UnexpectedBundleContent(
                    BundleContentError::TopLevelConnective { source_span: span }))
            } else if has_free_or_wildcard(fb) {
                Err(|e: InterpreterError| bundle_free_refusal(fb, e))
            } else {
                Ok((prepend_bundle_spec(par, bundle_term(bundle_type, body)), free))
            },
            Err(e) => Err(e),
        },
        Proc::IfThenElse { condition, if_true, if_false } => match norm_proc(condition.proc, condition.span, nil_par(), chain, free, env) {
            Ok((t, f1)) => match norm_proc(if_true.proc, if_true.span, nil_par(), chain, f1, env) {
                Ok((tb, f2)) => match if_false {
                    Some(fp) => match norm_proc(fp.proc, fp.span, nil_par(), chain, f2, env) {
                        Ok((fb, f3)) => Ok((prepend_match_spec(par, if_match(t, tb, fb)), f3)),
                        Err(e) => Err(e),
                    },
                    None => Ok((prepend_match_spec(par, if_match(t, tb, nil_par())), f2)),
                },
                Err(e) => Err(e),
            },
            Err(e) => Err(e),
        },
        Proc::ListLiteral(es) => match norm_list(es, chain, free, env) {
            Ok((qs, lf, used, f)) => Ok((prepend_expr_spec(par, Expr::EList { ps: qs, locally_free: lf, connective_used: used }, depth), f)),
            Err(e) => Err(e),
        },
        Proc::Let(c) => norm_let(c, par, chain, free, env),
        Proc::ForComprehension { receipts, body } => match first_bind(receipts) {
            None => Err(|e: InterpreterError| e matches InterpreterError::BugFoundError(m) && m@ == "Expected at least one receipt"@),
            Some(kind) => match norm_patterns(receipts, chain, env) {
                Ok((ps, fs, plf)) => match norm_sources(receipts, chain, free, env) {
                    Ok((cs, fsrc, slf, sused)) => if repeats_channel(cs) {
                        Err(|e: InterpreterError| e == InterpreterError::ReceiveOnSameChannelsError { source_span: body.span })
                    } else if !pairwise_disjoint(fs) {
                        Err(|e: InterpreterError| merge_refusal(fs, e))
                    } else {
                        let merged = merge_all(fs);
                        match norm_proc(body.proc, body.span, nil_par(), chain.update(0, chain[0].absorb(merged)), fsrc, env) {
                            Ok((bp, f2)) => Ok((prepend_receive_spec(par, Receive {
                                binds: zip_binds(ps, cs),
                                body: Some(Box::new(bp)),
                                persistent: receive_flags(kind).0,
                                peek: receive_flags(kind).1,
                                bind_count: merged.next as usize,
                                locally_free: union(slf, union(plf, drop_bound(bp.locally_free, merged.next as usize))),
                                connective_used: sused || bp.connective_used,
                            }), f2)),
                            Err(e) => Err(e),
                        }
                    },
                    Err(e) => Err(e),
                },
                Err(e) => Err(e),
            },
        },
        Proc::Contract { name, formals, body } => match norm_name(name, chain, free, env) {
            Ok((np, fname)) => match norm_formals(formals.names, chain, empty_free_view(), env) {
                Ok((pats, pats_lf, facc)) => match norm_remainder(formals.remainder, facc) {
                    Ok((rem, frem)) => match norm_proc(body.proc, body.span, nil_par(), chain.update(0, chain[0].absorb(frem)), fname, env) {
                        Ok((bp, f2)) => Ok((prepend_receive_spec(par, Receive {
                            binds: cons(ReceiveBind { patterns: pats, source: Some(Box::new(np)), remainder: rem, free_count: frem.next as usize }, None),
                            body: Some(Box::new(bp)),
                            persistent: true,
                            peek: false,
                            bind_count: frem.next as usize,
                            locally_free: union(np.locally_free, union(pats_lf, drop_bound(bp.locally_free, frem.next as usize))),
                            connective_used: np.connective_used || bp.connective_used,
                        }), f2)),
                        Err(e) => Err(e),
                    },
                    Err(e) => Err(e),
                },
                Err(e) => Err(e),
            },
            Err(e) => Err(e),
        },
        Proc::New { decls, proc } => {
            let ord = new_order(decls@);
            match norm_proc(proc.proc, proc.span, nil_par(), chain.update(0, bind_names(chain[0], ordered_names(decls@, ord))), free, env) {
                Ok((b, f)) => Ok((prepend_new_spec(par, New {
                    bind_count: decls@.len() as usize,
                    p: Some(Box::new(b)),
                    uri: seq_to_list(ordered_uri_strings(decls@, ord)),
                    injections: seq_to_list(env.entries()),
                    locally_free: drop_bound(b.locally_free, decls@.len() as usize),
                }), f)),
                Err(e) => Err(e),
            }
        },
        Proc::Match { expression, cases } => match norm_proc(expression.proc, expression.span, nil_par(), chain, free, env) {
            Ok((t, f1)) => match norm_cases(cases, chain, f1, env) {
                Ok((cs, lf, used, f2)) => Ok((prepend_match_spec(par, Match {
                    target: Some(Box::new(t)),
                    cases: cs,
                    locally_free: union(lf, t.locally_free),
                    connective_used: used || t.connective_used,
                }), f2)),
                Err(e) => Err(e),
            },
            Err(e) => Err(e),
        },
    }
}

/// Whether the free map of a receive pattern, normalized at bound depth
/// `depth`, may stand: patterns nested in other patterns always may; at the
/// top no `\/` or `~` may occur.
pub open spec fn connectives_allowed(depth: usize, f: FreeMapView<VarSort>) -> bool {
    depth != 0 || forall|i: int| 0 <= i < f.connectives.len() ==> !is_forbidden_in_receive(#[trigger] f.connectives[i].0)
}

/// The error for the first forbidden connective of `f`.
pub open spec fn first_forbidden_error(f: FreeMapView<VarSort>, e: InterpreterError) -> bool {
    exists|i: int| 0 <= i < f.connectives.len()
        && is_forbidden_in_receive(#[trigger] f.connectives[i].0)
        && (forall|j: int| 0 <= j < i ==> !is_forbidden_in_receive(#[trigger] f.connectives[j].0))
        && e == (InterpreterError::PatternReceiveError { connective: f.connectives[i].0, source_span: f.connectives[i].1 })
}

/// What normalizing the formal names `ns` of a receive pattern gives, each
/// in a new innermost scope over `chain`, with the free map `acc` of the
/// pattern threaded through; each name's free map is checked for forbidden
/// connectives at the depth of `chain`. The results: the names' terms in
/// order, the union of what they leave free, and the pattern's free map.
pub open spec fn norm_formals(ns: List<Name>, chain: Seq<BoundMapView<VarSort>>, acc: FreeMapView<VarSort>, env: Env)
    -> Result<(List<Par>, Indices, FreeMapView<VarSort>), spec_fn(InterpreterError) -> bool>
    decreases ns,
{
    match ns {
        None => Ok((None, Indices::Nil, acc)),
        Some(n) => match norm_name(n.head, seq![empty_bound_view::<VarSort>()] + chain, acc, env) {
            Ok((p, f1)) => if connectives_allowed((chain.len() - 1) as usize, f1) {
                match norm_formals(n.tail, chain, f1, env) {
                    Ok((ps, lf, f2)) => Ok((cons(p, ps), union(p.locally_free, lf), f2)),
                    Err(e) => Err(e),
                }
            } else {
                Err(|e: InterpreterError| first_forbidden_error(f1, e))
            },
            Err(e) => Err(e),
        },
    }
}

/// What the remainder `...r` of a pattern gives (see `normalize_match_name`).
pub open spec fn norm_remainder(r: Option<Var>, free: FreeMapView<VarSort>)
    -> Result<(Option<VarInstance>, FreeMapView<VarSort>), spec_fn(InterpreterError) -> bool> {
    match r {
        None => Ok((None, free)),
        Some(Var::Wildcard) => Ok((Some(VarInstance::Wildcard), with_wildcard(free))),
        Some(Var::Id(id)) => if free.bindings.contains_key(id.name@) {
            Err(|e: InterpreterError| e matches InterpreterError::UnexpectedReuseOfProcContextFree { var_name, first_use, second_use }
                && var_name@ == id.name@ && first_use == free.bindings[id.name@].source_span && second_use == point_span(id.pos))
        } else {
            Ok((Some(VarInstance::FreeVar(free.next as usize)), free.put(id.name@, VarSort::ProcSort, point_span(id.pos))))
        },
    }
}

/// The process that is the list `qs` alone, which leaves `lf` free and uses
/// a connective when `used` says so, at pattern depth `depth`.
pub open spec fn list_par(qs: List<Par>, lf: Indices, used: bool, depth: usize) -> Par {
    prepend_expr_spec(nil_par(), Expr::EList { ps: qs, locally_free: lf, connective_used: used }, depth)
}

/// `k` wildcard patterns, each alone in a process, at pattern depth `depth`.
pub open spec fn wildcard_pars(k: nat, depth: usize) -> List<Par>
    decreases k,
{
    if k == 0 {
        None
    } else {
        cons(prepend_expr_spec(nil_par(), Expr::EVar(VarInstance::Wildcard), depth), wildcard_pars((k - 1) as nat, depth))
    }
}

/// `f` with `k` more wildcards.
pub open spec fn add_wildcards(f: FreeMapView<VarSort>, k: nat) -> FreeMapView<VarSort>
    decreases k,
{
    if k == 0 { f } else { with_wildcard(add_wildcards(f, (k - 1) as nat)) }
}

/// What the name variable `v` gives as the first pattern of a list, in a new
/// innermost scope at pattern depth `depth` and from an empty free map.
pub open spec fn name_var_pattern(v: Var, depth: usize) -> Outcome {
    match v {
        Var::Wildcard => Ok((prepend_expr_spec(nil_par(), Expr::EVar(VarInstance::Wildcard), depth), with_wildcard(empty_free_view()))),
        Var::Id(id) => match resolve_name_var(empty_bound_view::<VarSort>(), empty_free_view(), id.name@, point_span(id.pos)) {
            Ok((vi, f)) => Ok((prepend_expr_spec(nil_par(), Expr::EVar(vi), depth), f)),
            Err(o) => Err(|e: InterpreterError| name_refusal(empty_bound_view::<VarSort>(), v, o, e)),
        },
    }
}

/// The number of further values of a binding `x <- (p, q, ...)`: one
/// wildcard for each value after the first.
pub open spec fn further_values(rhs: List<AnnProc>) -> nat {
    if crate::syntax::list_count(rhs) > 0 { (crate::syntax::list_count(rhs) - 1) as nat } else { 0 }
}

/// The list of values and the list pattern a binding of a `let` becomes,
/// normalized: the values in the scopes `chain` with the free map `free`,
/// the pattern in a new innermost scope from an empty free map; with the
/// free map after each.
pub open spec fn norm_let_sides(binding: LetBinding, chain: Seq<BoundMapView<VarSort>>, free: FreeMapView<VarSort>, env: Env)
    -> Result<(Par, FreeMapView<VarSort>, Par, FreeMapView<VarSort>), spec_fn(InterpreterError) -> bool>
    decreases binding,
{
    let depth = (chain.len() - 1) as usize;
    let pdepth = chain.len() as usize;
    match binding {
        LetBinding::Single { lhs, rhs } => match norm_proc(rhs.proc, rhs.span, nil_par(), chain, free, env) {
            Ok((t, f1)) => match norm_name(lhs, seq![empty_bound_view::<VarSort>()] + chain, empty_free_view(), env) {
                Ok((q, pf)) => {
                    let pel = append_spec(nil_par(), q);
                    Ok((list_par(cons(t, None), union(t.locally_free, Indices::Nil), t.connective_used, depth), f1,
                        list_par(cons(pel, None), union(pel.locally_free, Indices::Nil), pel.connective_used, pdepth), pf))
                },
                Err(e) => Err(e),
            },
            Err(e) => Err(e),
        },
        LetBinding::Multiple { lhs, rhs } => match norm_list(rhs, chain, free, env) {
            Ok((qs, lf, used, f1)) => match name_var_pattern(lhs, pdepth) {
                Ok((q, f0)) => {
                    let pel = append_spec(nil_par(), q);
                    let k = further_values(rhs);
                    Ok((list_par(qs, lf, used, depth), f1,
                        list_par(cons(pel, wildcard_pars(k, pdepth)), union(pel.locally_free, Indices::Nil),
                            pel.connective_used || k > 0, pdepth),
                        add_wildcards(f0, k)))
                },
                Err(e) => Err(e),
            },
            Err(e) => Err(e),
        },
    }
}

/// The match a binding of a `let` becomes: the values against the pattern,
/// whose `bound` free variables the body sees.
pub open spec fn let_match(target: Par, pattern: Par, bound: usize, body: Par) -> Match {
    Match {
        target: Some(Box::new(target)),
        cases: cons(MatchCase { pattern: Some(Box::new(pattern)), source: Some(Box::new(body)), free_count: bound }, None),
        locally_free: union(union(union(pattern.locally_free, drop_bound(body.locally_free, bound)), Indices::Nil),
            target.locally_free),
        connective_used: body.connective_used || target.connective_used,
    }
}

/// What a sequential `let` gives, added to `par`: each binding becomes a
/// match of the list of its values against the list of its pattern, whose
/// one case runs the rest of the bindings and at the end the body. A binding
/// `name <- p` matches `[p]` against `[*name]`; a binding `x <- (p, q, ...)`
/// matches `[p, q, ...]` against `[*x, _, ...]`.
pub open spec fn norm_let(c: LetChain, par: Par, chain: Seq<BoundMapView<VarSort>>, free: FreeMapView<VarSort>, env: Env) -> Outcome
    decreases c,
{
    match c {
        LetChain::Body(b) => norm_proc(b.proc, b.span, par, chain, free, env),
        LetChain::Bind(binding, rest) => {
            match norm_let_sides(binding, chain, free, env) {
                Ok((target, f1, pattern, pf)) => match norm_let(*rest, nil_par(), chain.update(0, chain[0].absorb(pf)), f1, env) {
                    Ok((bp, f2)) => Ok((prepend_match_spec(par, let_match(target, pattern, pf.next as usize, bp)), f2)),
                    Err(e) => Err(e),
                },
                Err(e) => Err(e),
            }
        },
    }
}

/// The kind of the first bind of the receipts of a `for`, if it has one.
pub open spec fn first_bind(rs: List<List<Bind>>) -> Option<BindKind> {
    match rs {
        Some(g) => match g.head {
            Some(b) => Some(b.head.kind),
            None => None,
        },
        None => None,
    }
}

/// What normalizing the patterns of a group of binds gives, each pattern on
/// its own (see `norm_formals`), in a new innermost scope over `chain` and
/// with a free map of its own: for each bind its patterns, its remainder and
/// the number of free variables it binds; the free map of each pattern; and
/// the union of what the patterns leave free.
pub open spec fn norm_group_patterns(bs: List<Bind>, chain: Seq<BoundMapView<VarSort>>, env: Env)
    -> Result<(Seq<(List<Par>, Option<VarInstance>, usize)>, Seq<FreeMapView<VarSort>>, Indices), spec_fn(InterpreterError) -> bool>
    decreases bs,
{
    match bs {
        None => Ok((Seq::empty(), Seq::empty(), Indices::Nil)),
        Some(n) => match norm_formals(n.head.lhs.names, chain, empty_free_view(), env) {
            Ok((pats, plf, facc)) => match norm_remainder(n.head.lhs.remainder, facc) {
                Ok((rem, frem)) => match norm_group_patterns(n.tail, chain, env) {
                    Ok((ps, fs, lf)) => Ok((seq![(pats, rem, frem.next as usize)] + ps, seq![frem] + fs, union(plf, lf))),
                    Err(e) => Err(e),
                },
                Err(e) => Err(e),
            },
            Err(e) => Err(e),
        },
    }
}

/// As `norm_group_patterns`, for all the groups of a `for`, in order.
pub open spec fn norm_patterns(rs: List<List<Bind>>, chain: Seq<BoundMapView<VarSort>>, env: Env)
    -> Result<(Seq<(List<Par>, Option<VarInstance>, usize)>, Seq<FreeMapView<VarSort>>, Indices), spec_fn(InterpreterError) -> bool>
    decreases rs,
{
    match rs {
        None => Ok((Seq::empty(), Seq::empty(), Indices::Nil)),
        Some(n) => match norm_group_patterns(n.head, chain, env) {
            Ok((p1, f1, l1)) => match norm_patterns(n.tail, chain, env) {
                Ok((p2, f2, l2)) => Ok((p1 + p2, f1 + f2, union(l1, l2))),
                Err(e) => Err(e),
            },
            Err(e) => Err(e),
        },
    }
}

/// What normalizing the channels of a group of binds gives, one after the
/// other in the scopes `chain` with the free map threaded through: the
/// channels, the free map after them, the union of what they leave free, and
/// whether one uses a connective.
pub open spec fn norm_group_sources(bs: List<Bind>, chain: Seq<BoundMapView<VarSort>>, free: FreeMapView<VarSort>, env: Env)
    -> Result<(Seq<Par>, FreeMapView<VarSort>, Indices, bool), spec_fn(InterpreterError) -> bool>
    decreases bs,
{
    match bs {
        None => Ok((Seq::empty(), free, Indices::Nil, false)),
        Some(n) => match norm_name(n.head.rhs, chain, free, env) {
            Ok((c, f1)) => match norm_group_sources(n.tail, chain, f1, env) {
                Ok((cs, f2, lf, used)) => Ok((seq![c] + cs, f2, union(c.locally_free, lf), c.connective_used || used)),
                Err(e) => Err(e),
            },
            Err(e) => Err(e),
        },
    }
}

/// As `norm_group_sources`, for all the groups of a `for`, in order.
pub open spec fn norm_sources(rs: List<List<Bind>>, chain: Seq<BoundMapView<VarSort>>, free: FreeMapView<VarSort>, env: Env)
    -> Result<(Seq<Par>, FreeMapView<VarSort>, Indices, bool), spec_fn(InterpreterError) -> bool>
    decreases rs,
{
    match rs {
        None => Ok((Seq::empty(), free, Indices::Nil, false)),
        Some(n) => match norm_group_sources(n.head, chain, free, env) {
            Ok((c1, f1, l1, u1)) => match norm_sources(n.tail, chain, f1, env) {
                Ok((c2, f2, l2, u2)) => Ok((c1 + c2, f2, union(l1, l2), u1 || u2)),
                Err(e) => Err(e),
            },
            Err(e) => Err(e),
        },
    }
}

/// Whether two of the channels are the same.
pub open spec fn repeats_channel(cs: Seq<Par>) -> bool {
    exists|i: int, j: int| 0 <= i < j < cs.len() && same_par(cs[i], cs[j])
}

/// The binds of a receive: each bind's patterns and remainder with its
/// channel, in order.
pub open spec fn zip_binds(ps: Seq<(List<Par>, Option<VarInstance>, usize)>, cs: Seq<Par>) -> List<ReceiveBind>
    decreases ps.len(),
{
    if ps.len() == 0 || cs.len() == 0 {
        None
    } else {
        cons(ReceiveBind { patterns: ps[0].0, source: Some(Box::new(cs[0])), remainder: ps[0].1, free_count: ps[0].2 },
            zip_binds(ps.drop_first(), cs.drop_first()))
    }
}

/// The order in which a `new` binds its declarations (see `stable_order`).
pub open spec fn new_order(decls: Seq<crate::ast::NameDecl>) -> Seq<usize> {
    choose|ord: Seq<usize>| stable_order(decl_keys(decls), ord)
}

/// What normalizing the cases `cs` of a match gives, in the scopes `chain`
/// of the match, with the free map `free` threaded through the bodies. Each
/// pattern is normalized on its own, in a new innermost scope and with an
/// empty free map; its free variables become bound in the innermost scope of
/// `chain` for the body. The results: the cases in order, the union of what
/// each pattern leaves free and what each body leaves free outside the
/// pattern's binders, whether a body uses a connective, and the free map
/// after the last body.
pub open spec fn norm_cases(cs: List<Case>, chain: Seq<BoundMapView<VarSort>>, free: FreeMapView<VarSort>, env: Env)
    -> Result<(List<MatchCase>, Indices, bool, FreeMapView<VarSort>), spec_fn(InterpreterError) -> bool>
    decreases cs,
{
    match cs {
        None => Ok((None, Indices::Nil, false, free)),
        Some(n) => match norm_proc(n.head.pattern.proc, n.head.pattern.span, nil_par(), seq![empty_bound_view::<VarSort>()] + chain,
            empty_free_view(), env) {
            Ok((pp, pf)) => match norm_proc(n.head.proc.proc, n.head.proc.span, nil_par(), chain.update(0, chain[0].absorb(pf)), free, env) {
                Ok((bp, f1)) => match norm_cases(n.tail, chain, f1, env) {
                    Ok((rest, lf, used, f2)) => Ok((
                        cons(MatchCase { pattern: Some(Box::new(pp)), source: Some(Box::new(bp)), free_count: pf.next as usize }, rest),
                        union(union(pp.locally_free, drop_bound(bp.locally_free, pf.next as usize)), lf),
                        bp.connective_used || used,
                        f2,
                    )),
                    Err(e) => Err(e),
                },
                Err(e) => Err(e),
            },
            Err(e) => Err(e),
        },
    }
}

/// What normalizing name `n` gives, in scopes `chain` with free map `free`.
/// A quoted process is normalized on its own, at the synthetic span.
pub open spec fn norm_name(n: Name, chain: Seq<BoundMapView<VarSort>>, free: FreeMapView<VarSort>, env: Env) -> Outcome
    decreases n,
{
    let depth = (chain.len() - 1) as usize;
    match n {
        Name::ProcVar(v) => match v {
            Var::Wildcard => Ok((prepend_expr_spec(nil_par(), Expr::EVar(VarInstance::Wildcard), depth), with_wildcard(free))),
            Var::Id(id) => match resolve_name_var(chain[0], free, id.name@, point_span(id.pos)) {
                Ok((vi, f)) => Ok((prepend_expr_spec(nil_par(), Expr::EVar(vi), depth), f)),
                Err(o) => Err(|e: InterpreterError| name_refusal(chain[0], v, o, e)),
            },
        },
        Name::Quote(q) => norm_proc(*q, synthetic_origin(), nil_par(), chain, free, env),
    }
}

/// What normalizing the processes `ps` one after the other gives: their
/// terms in order, the union of what they leave free, whether any uses a
/// connective, and the free map after the last.
pub open spec fn norm_list(ps: List<crate::syntax::AnnProc>, chain: Seq<BoundMapView<VarSort>>, free: FreeMapView<VarSort>, env: Env)
    -> Result<(List<Par>, Indices, bool, FreeMapView<VarSort>), spec_fn(InterpreterError) -> bool>
    decreases ps,
{
    match ps {
        None => Ok((None, Indices::Nil, false, free)),
        Some(n) => match norm_proc(n.head.proc, n.head.span, nil_par(), chain, free, env) {
            Ok((q, f1)) => match norm_list(n.tail, chain, f1, env) {
                Ok((qs, lf, used, f2)) => Ok((cons(q, qs), union(q.locally_free, lf), q.connective_used || used, f2)),
                Err(e) => Err(e),
            },
            Err(e) => Err(e),
        },
    }
}

/// `Nil` adds nothing: normalizing it gives back the process and the free

/// The term the pattern of case `c` normalizes to, on its own in a new
/// pattern scope inside `chain` (nothing when it is refused).
pub open spec fn case_pattern_term(c: Case, chain: Seq<BoundMapView<VarSort>>, env: Env) -> Par {
    match norm_proc(c.pattern.proc, c.pattern.span, nil_par(), seq![empty_bound_view::<VarSort>()] + chain, empty_free_view(), env) {
        Ok((pp, _)) => pp,
        Err(_) => nil_par(),
    }
}

/// How many free variables the pattern of case `c` binds, normalized on its
/// own in a new pattern scope inside `chain` (none when it is refused).
pub open spec fn case_pattern_binds(c: Case, chain: Seq<BoundMapView<VarSort>>, env: Env) -> usize {
    match norm_proc(c.pattern.proc, c.pattern.span, nil_par(), seq![empty_bound_view::<VarSort>()] + chain, empty_free_view(), env) {
        Ok((_, pf)) => pf.next as usize,
        Err(_) => 0,
    }
}

proof fn lemma_cases_kept(cs: List<Case>, chain: Seq<BoundMapView<VarSort>>, free: FreeMapView<VarSort>, env: Env)
    ensures
        norm_cases(cs, chain, free, env) matches Ok((mcs, _, _, _)) ==> {
            &&& list_items(mcs).len() == list_items(cs).len()
            &&& forall|i: int| 0 <= i < list_items(cs).len() ==>
                (#[trigger] list_items(mcs)[i]).pattern == Some(Box::new(case_pattern_term(list_items(cs)[i], chain, env)))
                && list_items(mcs)[i].free_count == case_pattern_binds(list_items(cs)[i], chain, env)
        },
    decreases cs,
{
    if let Some(n) = cs {
        match norm_proc(n.head.pattern.proc, n.head.pattern.span, nil_par(), seq![empty_bound_view::<VarSort>()] + chain,
            empty_free_view(), env) {
            Ok((pp, pf)) => match norm_proc(n.head.proc.proc, n.head.proc.span, nil_par(), chain.update(0, chain[0].absorb(pf)), free, env) {
                Ok((bp, f1)) => {
                    lemma_cases_kept(n.tail, chain, f1, env);
                    if let Ok((mcs, _, _, _)) = norm_cases(cs, chain, free, env) {
                        let rest = mcs.unwrap().tail;
                        assert(list_items(mcs) == seq![mcs.unwrap().head] + list_items(rest));
                        assert(list_items(cs) == seq![n.head] + list_items(n.tail));
                        assert forall|i: int| 0 <= i < list_items(cs).len() implies
                            (#[trigger] list_items(mcs)[i]).pattern == Some(Box::new(case_pattern_term(list_items(cs)[i], chain, env)))
                            && list_items(mcs)[i].free_count == case_pattern_binds(list_items(cs)[i], chain, env) by {
                            if i > 0 {
                                assert(list_items(mcs)[i] == list_items(rest)[i - 1]);
                                assert(list_items(cs)[i] == list_items(n.tail)[i - 1]);
                            }
                        }
                    }
                },
                Err(_) => {},
            },
            Err(_) => {},
        }
    }
}

/// A match keeps every case of its source: the normalized match holds one
/// case for each source case, in the same order, the pattern of case `i`
/// being what the pattern of source case `i` normalizes to, and its count of
/// free variables the number that pattern binds.
pub proof fn law_match_keeps_every_case(expression: Box<AnnProc>, cases: List<Case>, span: SourceSpan, par: Par,
    chain: Seq<BoundMapView<VarSort>>, free: FreeMapView<VarSort>, env: Env)
    ensures
        norm_proc(Proc::Match { expression, cases }, span, par, chain, free, env) matches Ok((p, _)) ==> {
            &&& p.matches is Some
            &&& list_items(p.matches.unwrap().head.cases).len() == list_items(cases).len()
            &&& forall|i: int| 0 <= i < list_items(cases).len() ==>
                (#[trigger] list_items(p.matches.unwrap().head.cases)[i]).pattern
                    == Some(Box::new(case_pattern_term(list_items(cases)[i], chain, env)))
                && list_items(p.matches.unwrap().head.cases)[i].free_count == case_pattern_binds(list_items(cases)[i], chain, env)
        },
{
    if let Ok((t, f1)) = norm_proc(expression.proc, expression.span, nil_par(), chain, free, env) {
        lemma_cases_kept(cases, chain, f1, env);
    }
}

/// A literal normalizes to the term of its own kind carrying its value, put
/// in front of the expressions of the process it is added to: a boolean to a
/// boolean term, an integer to an integer term, a string to a string term and
/// a URI to a URI term. The free map does not change.
pub proof fn law_literal_terms(g: GroundLiteral, span: SourceSpan, par: Par, chain: Seq<BoundMapView<VarSort>>,
    free: FreeMapView<VarSort>, env: Env)
    ensures
        ({
            let o = norm_proc(Proc::Ground(g), span, par, chain, free, env);
            &&& o is Ok
            &&& o->Ok_0.1 == free
            &&& o->Ok_0.0.exprs is Some
            &&& o->Ok_0.0.exprs.unwrap().tail == par.exprs
            &&& o->Ok_0.0.exprs.unwrap().head == match g {
                GroundLiteral::BoolLiteral(b) => Expr::GBool(b),
                GroundLiteral::LongLiteral(v) => Expr::GInt(v),
                GroundLiteral::StringLiteral(s) => Expr::GString(s),
                GroundLiteral::UriLiteral(u) => Expr::GUri(u),
            }
        }),
{
}

/// A URI and a string with the same text are different terms: added to the
/// same process, they give different processes.
pub proof fn law_uri_is_not_a_string(text: String, span: SourceSpan, par: Par, chain: Seq<BoundMapView<VarSort>>,
    free: FreeMapView<VarSort>, env: Env)
    ensures
        norm_proc(Proc::Ground(GroundLiteral::UriLiteral(text)), span, par, chain, free, env)
            != norm_proc(Proc::Ground(GroundLiteral::StringLiteral(text)), span, par, chain, free, env),
{
    let depth = (chain.len() - 1) as usize;
    let a = prepend_expr_spec(par, Expr::GUri(text), depth);
    let b = prepend_expr_spec(par, Expr::GString(text), depth);
    assert(a.exprs.unwrap().head != b.exprs.unwrap().head);
}

/// map it was given, in any scopes.
pub proof fn law_nil_adds_nothing(span: SourceSpan, par: Par, chain: Seq<BoundMapView<VarSort>>, free: FreeMapView<VarSort>, env: Env)
    ensures
        norm_proc(Proc::Nil, span, par, chain, free, env) == Outcome::Ok((par, free)),
{
}

/// A `let` without bindings is its body: it normalizes as the body does,
/// added to the same process in the same scopes.
pub proof fn law_empty_let_is_its_body(body: AnnProc, span: SourceSpan, par: Par, chain: Seq<BoundMapView<VarSort>>,
    free: FreeMapView<VarSort>, env: Env)
    ensures
        norm_proc(Proc::Let(LetChain::Body(Box::new(body))), span, par, chain, free, env)
            == norm_proc(body.proc, body.span, par, chain, free, env),
{
    assert(norm_let(LetChain::Body(Box::new(body)), par, chain, free, env) == norm_proc(body.proc, body.span, par, chain, free, env));
}

/// Evaluating a quoted process gives the process back: on its own, `*@P`
/// normalizes to what `P` normalizes to, and is refused when `P` is.
pub proof fn law_eval_of_quote(p: Proc, span: SourceSpan, chain: Seq<BoundMapView<VarSort>>, free: FreeMapView<VarSort>, env: Env)
    ensures
        norm_proc(Proc::Eval(Name::Quote(Box::new(p))), span, nil_par(), chain, free, env)
            == norm_proc(p, synthetic_origin(), nil_par(), chain, free, env),
{
    let n = Name::Quote(Box::new(p));
    assert(norm_name(n, chain, free, env) == norm_proc(p, synthetic_origin(), nil_par(), chain, free, env));
    match norm_proc(p, synthetic_origin(), nil_par(), chain, free, env) {
        Ok((q, f)) => {
            crate::term::lemma_append_to_nil(q);
            assert(norm_proc(Proc::Eval(n), span, nil_par(), chain, free, env) == Outcome::Ok((append_spec(nil_par(), q), f)));
        },
        Err(e) => {
            assert(norm_proc(Proc::Eval(n), span, nil_par(), chain, free, env) == Outcome::Err(e));
        },
    }
}

/// Whether `r` is what `spec` says: the same term and free map, or an error
/// of the kind it describes.
pub open spec fn proc_outcome(spec: Outcome, r: Result<ProcVisitOutputs, InterpreterError>) -> bool {
    match spec {
        Ok((par, f)) => r matches Ok(o) && o.par == par && o.free_map@ == f,
        Err(pred) => r matches Err(e) && pred(e),
    }
}

/// As `proc_outcome`, for a name.
pub open spec fn name_outcome(spec: Outcome, r: Result<NameVisitOutputs, InterpreterError>) -> bool {
    match spec {
        Ok((par, f)) => r matches Ok(o) && o.par == par && o.free_map@ == f,
        Err(pred) => r matches Err(e) && pred(e),
    }
}

/// The term of a literal.
fn ground_expr(g: &GroundLiteral) -> (r: Expr)
    ensures
        r == ground_term(*g),
{
    match g {
        GroundLiteral::BoolLiteral(b) => Expr::GBool(*b),
        GroundLiteral::LongLiteral(n) => Expr::GInt(*n),
        GroundLiteral::StringLiteral(s) => Expr::GString(s.clone()),
        GroundLiteral::UriLiteral(u) => Expr::GUri(u.clone()),
    }
}

/// The process that is the boolean `b` alone.
fn bool_par_exec(b: bool) -> (r: Par)
    ensures
        r == bool_par(b),
{
    Par {
        sends: None,
        receives: None,
        news: None,
        exprs: push_front(Expr::GBool(b), None),
        matches: None,
        bundles: None,
        connectives: None,
        locally_free: Indices::Nil,
        connective_used: false,
    }
}

/// The flags of the bundle `p` consists of, when it consists of one bundle.
fn single_bundle_flags(p: &Par) -> (r: Option<(bool, bool)>)
    ensures
        single_bundle_spec(*p) ==> r == Some((p.bundles.unwrap().head.write_flag, p.bundles.unwrap().head.read_flag)),
        !single_bundle_spec(*p) ==> r is None,
{
    if p.sends.is_none() && p.receives.is_none() && p.news.is_none() && p.exprs.is_none() && p.matches.is_none() && p.connectives.is_none() {
        match &p.bundles {
            Some(n) => if n.tail.is_none() { Some((n.head.write_flag, n.head.read_flag)) } else { None },
            None => None,
        }
    } else {
        None
    }
}

/// The bundle with flags `write_flag` and `read_flag` around `body`; a body
/// that is a single bundle gives up its own body to it.
fn make_bundle(body: Par, write_flag: bool, read_flag: bool) -> (r: Bundle)
    ensures
        single_bundle_spec(body) ==> r == (Bundle { body: body.bundles.unwrap().head.body, write_flag, read_flag }),
        !single_bundle_spec(body) ==> r == (Bundle { body: Some(Box::new(body)), write_flag, read_flag }),
{
    let single = single_bundle_flags(&body).is_some();
    if single {
        let ghost whole = body;
        let Par { bundles, .. } = body;
        match bundles {
            Some(n) => {
                let node = *n;
                Bundle { body: node.head.body, write_flag, read_flag }
            },
            None => {
                proof { assert(false); }
                Bundle { body: None, write_flag, read_flag }
            },
        }
    } else {
        Bundle { body: Some(Box::new(body)), write_flag, read_flag }
    }
}

/// Normalizes the process `p`, parsed at `span`, and adds it to
/// `input.par`.
fn normalize_proc(p: &Proc, span: SourceSpan, input: ProcVisitInputs, env: &Env) -> (r: Result<ProcVisitOutputs, InterpreterError>)
    requires
        fits(input.bound_map_chain@, input.free_map@, proc_size(*p)),
    ensures
        proc_outcome(norm_proc(*p, span, input.par, input.bound_map_chain@, input.free_map@, *env), r),
        r matches Ok(o) ==> o.free_map@.count() <= input.free_map@.count() + proc_size(*p),
    decreases proc_size(*p), 1nat,
{
    let ghost chain = input.bound_map_chain@;
    let ghost free = input.free_map@;
    let ghost par0 = input.par;
    match p {
        Proc::Nil => Ok(ProcVisitOutputs { par: input.par, free_map: input.free_map }),
        Proc::Ground(g) => {
            let ProcVisitInputs { par, bound_map_chain, free_map } = input;
            let depth = bound_map_chain.depth();
            let e = ground_expr(g);
            Ok(ProcVisitOutputs { par: prepend_expr(par, e, depth), free_map })
        },
        Proc::SimpleType(t) => {
            let ProcVisitInputs { par, bound_map_chain, free_map } = input;
            let depth = bound_map_chain.depth();
            let c = normalize_simple_type(*t);
            Ok(ProcVisitOutputs { par: prepend_connective(par, c, depth), free_map })
        },
        Proc::ProcVar(v) => normalize_p_var(v, input, span),
        Proc::VarRef(kind, id) => normalize_p_var_ref(*kind, id, input, span),
        Proc::Par(l, r) => normalize_p_par(l, r, input, env),
        Proc::Eval(n) => normalize_p_eval(n, input, env),
        Proc::Unary(op, a) => {
            let ProcVisitInputs { par, bound_map_chain, free_map } = input;
            let depth = bound_map_chain.depth();
            match normalize_proc(a, span, ProcVisitInputs { par: empty_par(), bound_map_chain, free_map }, env) {
                Ok(o) => Ok(ProcVisitOutputs { par: prepend_expr(par, Expr::EUnary(*op, Box::new(o.par)), depth), free_map: o.free_map }),
                Err(e) => Err(e),
            }
        },
        Proc::Binary(op, l, r) => {
            let ProcVisitInputs { par, bound_map_chain, free_map } = input;
            let depth = bound_map_chain.depth();
            let chain2 = bound_map_chain.copy();
            match normalize_proc(&l.proc, l.span, ProcVisitInputs { par: empty_par(), bound_map_chain, free_map }, env) {
                Ok(ol) => match normalize_proc(&r.proc, r.span, ProcVisitInputs { par: empty_par(), bound_map_chain: chain2, free_map: ol.free_map }, env) {
                    Ok(or) => Ok(ProcVisitOutputs {
                        par: prepend_expr(par, Expr::EBinary(*op, Box::new(ol.par), Box::new(or.par)), depth),
                        free_map: or.free_map,
                    }),
                    Err(e) => Err(e),
                },
                Err(e) => Err(e),
            }
        },
        Proc::Send { channel, send_type, inputs } => normalize_p_send(channel, *send_type, inputs, input, env),
        Proc::Bundle { bundle_type, proc } => normalize_p_bundle(*bundle_type, proc, input, span, env),
        Proc::IfThenElse { condition, if_true, if_false } => normalize_p_if(condition, if_true, if_false, input, env),
        Proc::Match { expression, cases } => normalize_p_match(expression, cases, input, env),
        Proc::New { decls, proc } => normalize_p_new(decls, proc, input, env),
        Proc::Contract { name, formals, body } => normalize_p_contr(name, formals, body, input, env),
        Proc::ForComprehension { receipts, body } => normalize_p_input(receipts, body, input, env),
        Proc::Let(c) => normalize_p_let(c, input, env),
        Proc::ListLiteral(es) => {
            let ProcVisitInputs { par, bound_map_chain, free_map } = input;
            let depth = bound_map_chain.depth();
            match normalize_list(es, &bound_map_chain, free_map, env) {
                Ok((qs, lf, used, f)) => Ok(ProcVisitOutputs {
                    par: prepend_expr(par, Expr::EList { ps: qs, locally_free: lf, connective_used: used }, depth),
                    free_map: f,
                }),
                Err(e) => Err(e),
            }
        },
    }
}

/// Normalizes a process variable `x` or `_` at `var_span` and adds it to the
/// expressions of `input.par`: a bound process variable as its de Bruijn
/// index, an unbound one as the next free variable of the pattern, `_` as a
/// wildcard (see `resolve_p_var`, which also says when it is refused).
pub fn normalize_p_var(var: &Var, input: ProcVisitInputs, var_span: SourceSpan) -> (r: Result<ProcVisitOutputs, InterpreterError>)
    requires
        fits(input.bound_map_chain@, input.free_map@, proc_size(Proc::ProcVar(*var))),
    ensures
        forall|env: Env| proc_outcome(#[trigger] norm_proc(Proc::ProcVar(*var), var_span, input.par, input.bound_map_chain@, input.free_map@, env), r),
        r matches Ok(o) ==> o.free_map@.count() <= input.free_map@.count() + proc_size(Proc::ProcVar(*var)),
{
    let ProcVisitInputs { par, bound_map_chain, free_map } = input;
    let depth = bound_map_chain.depth();
    let names = NameVisitInputs { bound_map_chain, free_map };
    match resolve_p_var(var, &names, var_span) {
        Ok(out) => Ok(ProcVisitOutputs { par: prepend_expr(par, Expr::EVar(out.var), depth), free_map: out.free_map }),
        Err(e) => Err(e),
    }
}

/// Normalizes a variable reference `=x` or `=*x` at `var_ref_span` and adds
/// its connective to `input.par` (see `resolve_p_var_ref`, which also says
/// when it is refused); the free map does not change.
pub fn normalize_p_var_ref(var_ref_kind: VarRefKind, var_id: &crate::ast::Id, input: ProcVisitInputs, var_ref_span: SourceSpan)
    -> (r: Result<ProcVisitOutputs, InterpreterError>)
    ensures
        forall|env: Env| proc_outcome(#[trigger] norm_proc(Proc::VarRef(var_ref_kind, *var_id), var_ref_span, input.par,
            input.bound_map_chain@, input.free_map@, env), r),
        r matches Ok(o) ==> o.free_map@ == input.free_map@,
{
    let ProcVisitInputs { par, bound_map_chain, free_map } = input;
    let depth = bound_map_chain.depth();
    let names = NameVisitInputs { bound_map_chain, free_map };
    match resolve_p_var_ref(var_ref_kind, var_id, &names, var_ref_span) {
        Ok(c) => Ok(ProcVisitOutputs { par: prepend_connective(par, c, depth), free_map: names.free_map }),
        Err(e) => Err(e),
    }
}

/// Normalizes the parsed process `proc` and adds it to `input.par`: the term
/// and free map `norm_proc` gives, or an error of the kind it describes.
pub fn normalize_ann_proc(proc: &AnnProc, input: ProcVisitInputs, env: &Env) -> (r: Result<ProcVisitOutputs, InterpreterError>)
    requires
        fits(input.bound_map_chain@, input.free_map@, proc_size(proc.proc)),
    ensures
        proc_outcome(norm_proc(proc.proc, proc.span, input.par, input.bound_map_chain@, input.free_map@, *env), r),
        r matches Ok(o) ==> o.free_map@.count() <= input.free_map@.count() + proc_size(proc.proc),
{
    normalize_proc(&proc.proc, proc.span, input, env)
}

/// Normalizes `left | right`: `left` is added to `input.par`, then `right`
/// to the result, with the free map threaded through.
pub fn normalize_p_par(left: &AnnProc, right: &AnnProc, input: ProcVisitInputs, env: &Env) -> (r: Result<ProcVisitOutputs, InterpreterError>)
    requires
        fits(input.bound_map_chain@, input.free_map@, proc_size(Proc::Par(Box::new(*left), Box::new(*right)))),
    ensures
        proc_outcome(norm_proc(Proc::Par(Box::new(*left), Box::new(*right)), synthetic_origin(), input.par,
            input.bound_map_chain@, input.free_map@, *env), r),
        r matches Ok(o) ==> o.free_map@.count() <= input.free_map@.count() + proc_size(Proc::Par(Box::new(*left), Box::new(*right))),
    decreases proc_size(Proc::Par(Box::new(*left), Box::new(*right))), 0nat,
{
    let ProcVisitInputs { par, bound_map_chain, free_map } = input;
    let chain2 = bound_map_chain.copy();
    match normalize_proc(&left.proc, left.span, ProcVisitInputs { par, bound_map_chain, free_map }, env) {
        Ok(o1) => normalize_proc(&right.proc, right.span, ProcVisitInputs { par: o1.par, bound_map_chain: chain2, free_map: o1.free_map }, env),
        Err(e) => Err(e),
    }
}

/// Normalizes `*name`: the normalized name runs in parallel with
/// `input.par`.
pub fn normalize_p_eval(name: &Name, input: ProcVisitInputs, env: &Env) -> (r: Result<ProcVisitOutputs, InterpreterError>)
    requires
        fits(input.bound_map_chain@, input.free_map@, proc_size(Proc::Eval(*name))),
    ensures
        proc_outcome(norm_proc(Proc::Eval(*name), synthetic_origin(), input.par, input.bound_map_chain@, input.free_map@, *env), r),
        r matches Ok(o) ==> o.free_map@.count() <= input.free_map@.count() + proc_size(Proc::Eval(*name)),
    decreases proc_size(Proc::Eval(*name)), 0nat,
{
    let ProcVisitInputs { par, bound_map_chain, free_map } = input;
    match normalize_name(name, NameVisitInputs { bound_map_chain, free_map }, env) {
        Ok(o) => Ok(ProcVisitOutputs { par: append(par, o.par), free_map: o.free_map }),
        Err(e) => Err(e),
    }
}

/// Normalizes a name: a variable becomes a process holding the variable
/// alone (see `normalize_name_var`); a quoted process is normalized on its
/// own.
pub fn normalize_name(name: &Name, input: NameVisitInputs, env: &Env) -> (r: Result<NameVisitOutputs, InterpreterError>)
    requires
        fits(input.bound_map_chain@, input.free_map@, name_size(*name)),
    ensures
        name_outcome(norm_name(*name, input.bound_map_chain@, input.free_map@, *env), r),
        r matches Ok(o) ==> o.free_map@.count() <= input.free_map@.count() + name_size(*name),
    decreases name_size(*name), 1nat,
{
    match name {
        Name::ProcVar(v) => {
            let depth = input.bound_map_chain.depth();
            match normalize_name_var(v, &input) {
                Ok(out) => Ok(NameVisitOutputs { par: prepend_expr(empty_par(), Expr::EVar(out.var), depth), free_map: out.free_map }),
                Err(e) => Err(e),
            }
        },
        Name::Quote(q) => {
            let NameVisitInputs { bound_map_chain, free_map } = input;
            match normalize_proc(q, SpanContext::wildcard_span(), ProcVisitInputs { par: empty_par(), bound_map_chain, free_map }, env) {
                Ok(o) => Ok(NameVisitOutputs { par: o.par, free_map: o.free_map }),
                Err(e) => Err(e),
            }
        },
    }
}

/// Normalizes the processes `ps` one after the other, each on its own, as
/// `norm_list` says.
fn normalize_list(ps: &List<AnnProc>, chain: &BoundMapChain<VarSort>, free: FreeMap<VarSort>, env: &Env)
    -> (r: Result<(List<Par>, Indices, bool, FreeMap<VarSort>), InterpreterError>)
    requires
        fits(chain@, free@, list_size(*ps)),
    ensures
        match norm_list(*ps, chain@, free@, *env) {
            Ok((qs, lf, used, f)) => r matches Ok((a, b, c, d)) && a == qs && b == lf && c == used && d@ == f,
            Err(pred) => r matches Err(e) && pred(e),
        },
        r matches Ok((a, b, c, d)) ==> d@.count() <= free@.count() + list_size(*ps),
    decreases list_size(*ps), 2nat,
{
    match ps {
        None => Ok((None, Indices::Nil, false, free)),
        Some(n) => {
            match normalize_proc(&n.head.proc, n.head.span, ProcVisitInputs { par: empty_par(), bound_map_chain: chain.copy(), free_map: free }, env) {
                Ok(o) => match normalize_list(&n.tail, chain, o.free_map, env) {
                    Ok((qs, lf, used, f2)) => {
                        let lf2 = union_indices(&o.par.locally_free, &lf);
                        let u = o.par.connective_used || used;
                        Ok((push_front(o.par, qs), lf2, u, f2))
                    },
                    Err(e) => Err(e),
                },
                Err(e) => Err(e),
            }
        },
    }
}

/// Normalizes `channel!(inputs)` (or `!!` when `send_type` is `Multiple`):
/// the channel, then each input on its own, make a send, which goes in front
/// of the sends of `input.par`.
pub fn normalize_p_send(channel: &Name, send_type: SendType, inputs: &List<AnnProc>, input: ProcVisitInputs, env: &Env)
    -> (r: Result<ProcVisitOutputs, InterpreterError>)
    requires
        fits(input.bound_map_chain@, input.free_map@, proc_size(Proc::Send { channel: *channel, send_type, inputs: *inputs })),
    ensures
        proc_outcome(norm_proc(Proc::Send { channel: *channel, send_type, inputs: *inputs }, synthetic_origin(), input.par,
            input.bound_map_chain@, input.free_map@, *env), r),
        r matches Ok(o) ==> o.free_map@.count() <= input.free_map@.count()
            + proc_size(Proc::Send { channel: *channel, send_type, inputs: *inputs }),
    decreases proc_size(Proc::Send { channel: *channel, send_type, inputs: *inputs }), 0nat,
{
    let ProcVisitInputs { par, bound_map_chain, free_map } = input;
    match normalize_name(channel, NameVisitInputs { bound_map_chain: bound_map_chain.copy(), free_map }, env) {
        Ok(c) => match normalize_list(inputs, &bound_map_chain, c.free_map, env) {
            Ok((data, lf, used, f2)) => {
                let locally_free = union_indices(&c.par.locally_free, &lf);
                let connective_used = c.par.connective_used || used;
                let persistent = crate::normalize::send_persistent(send_type);
                let s = Send { chan: Some(Box::new(c.par)), data, persistent, locally_free, connective_used };
                Ok(ProcVisitOutputs { par: prepend_send(par, s), free_map: f2 })
            },
            Err(e) => Err(e),
        },
        Err(e) => Err(e),
    }
}

/// Normalizes `bundle { proc }` of polarity `bundle_type`, written at
/// `span`. The body is normalized on its own; a top-level connective in it
/// is refused at `span`, then free variables or wildcards in the free map
/// after it. Otherwise the bundle goes in front of the bundles of
/// `input.par`, and the free map stays as it was.
pub fn normalize_p_bundle(bundle_type: BundleType, proc: &AnnProc, input: ProcVisitInputs, span: SourceSpan, env: &Env)
    -> (r: Result<ProcVisitOutputs, InterpreterError>)
    requires
        fits(input.bound_map_chain@, input.free_map@, proc_size(Proc::Bundle { bundle_type, proc: Box::new(*proc) })),
    ensures
        proc_outcome(norm_proc(Proc::Bundle { bundle_type, proc: Box::new(*proc) }, span, input.par,
            input.bound_map_chain@, input.free_map@, *env), r),
        r matches Ok(o) ==> o.free_map@.count() <= input.free_map@.count() + proc_size(Proc::Bundle { bundle_type, proc: Box::new(*proc) }),
    decreases proc_size(Proc::Bundle { bundle_type, proc: Box::new(*proc) }), 0nat,
{
    let ProcVisitInputs { par, bound_map_chain, free_map } = input;
    let keep = free_map.copy();
    match normalize_proc(&proc.proc, proc.span, ProcVisitInputs { par: empty_par(), bound_map_chain, free_map }, env) {
        Ok(o) => {
            let connectives: usize = if o.par.connectives.is_some() { 1 } else { 0 };
            let single = single_bundle_flags(&o.par);
            match bundle_content(bundle_type, span, connectives, &o.free_map, single) {
                Ok((write_flag, read_flag)) => {
                    let b = make_bundle(o.par, write_flag, read_flag);
                    Ok(ProcVisitOutputs { par: prepend_bundle(par, b), free_map: keep })
                },
                Err(be) => Err(InterpreterError::UnexpectedBundleContent(be)),
            }
        },
        Err(e) => Err(e),
    }
}

/// Normalizes `if (condition) if_true else if_false` into a match of the
/// condition against `true` and `false`; no `else` branch runs `Nil`. The
/// condition and the branches are normalized on their own, in that order,
/// with the free map threaded through; the match goes in front of the
/// matches of `input.par`.
pub fn normalize_p_if(condition: &AnnProc, if_true: &AnnProc, if_false: &Option<Box<AnnProc>>, input: ProcVisitInputs, env: &Env)
    -> (r: Result<ProcVisitOutputs, InterpreterError>)
    requires
        fits(input.bound_map_chain@, input.free_map@, proc_size(Proc::IfThenElse { condition: Box::new(*condition), if_true: Box::new(*if_true),
            if_false: *if_false })),
    ensures
        proc_outcome(norm_proc(Proc::IfThenElse { condition: Box::new(*condition), if_true: Box::new(*if_true), if_false: *if_false },
            synthetic_origin(), input.par, input.bound_map_chain@, input.free_map@, *env), r),
        r matches Ok(o) ==> o.free_map@.count() <= input.free_map@.count() + proc_size(Proc::IfThenElse {
            condition: Box::new(*condition), if_true: Box::new(*if_true), if_false: *if_false }),
    decreases proc_size(Proc::IfThenElse { condition: Box::new(*condition), if_true: Box::new(*if_true), if_false: *if_false }), 0nat,
{
    let ProcVisitInputs { par, bound_map_chain, free_map } = input;
    let chain2 = bound_map_chain.copy();
    let chain3 = bound_map_chain.copy();
    match normalize_proc(&condition.proc, condition.span, ProcVisitInputs { par: empty_par(), bound_map_chain, free_map }, env) {
        Ok(t) => match normalize_proc(&if_true.proc, if_true.span, ProcVisitInputs { par: empty_par(), bound_map_chain: chain2, free_map: t.free_map }, env) {
            Ok(tb) => {
                let fb = match if_false {
                    Some(fp) => normalize_proc(&fp.proc, fp.span, ProcVisitInputs { par: empty_par(), bound_map_chain: chain3, free_map: tb.free_map }, env),
                    None => Ok(ProcVisitOutputs { par: empty_par(), free_map: tb.free_map }),
                };
                match fb {
                    Ok(fb) => {
                        let locally_free = union_indices(&union_indices(&t.par.locally_free, &tb.par.locally_free), &fb.par.locally_free);
                        let connective_used = t.par.connective_used || tb.par.connective_used || fb.par.connective_used;
                        let false_case = MatchCase { pattern: Some(Box::new(bool_par_exec(false))), source: Some(Box::new(fb.par)), free_count: 0 };
                        let true_case = MatchCase { pattern: Some(Box::new(bool_par_exec(true))), source: Some(Box::new(tb.par)), free_count: 0 };
                        let cases = push_front(true_case, push_front(false_case, None));
                        let m = Match { target: Some(Box::new(t.par)), cases, locally_free, connective_used };
                        Ok(ProcVisitOutputs { par: prepend_match(par, m), free_map: fb.free_map })
                    },
                    Err(e) => Err(e),
                }
            },
            Err(e) => Err(e),
        },
        Err(e) => Err(e),
    }
}

/// Normalizes the cases `cs` of a match as `norm_cases` says.
fn normalize_cases(cs: &List<Case>, chain: &BoundMapChain<VarSort>, free: FreeMap<VarSort>, env: &Env)
    -> (r: Result<(List<MatchCase>, Indices, bool, FreeMap<VarSort>), InterpreterError>)
    requires
        fits(chain@, free@, cases_size(*cs)),
    ensures
        match norm_cases(*cs, chain@, free@, *env) {
            Ok((qs, lf, used, f)) => r matches Ok((a, b, c, d)) && a == qs && b == lf && c == used && d@ == f,
            Err(pred) => r matches Err(e) && pred(e),
        },
        r matches Ok((a, b, c, d)) ==> d@.count() <= free@.count() + cases_size(*cs),
    decreases cases_size(*cs), 2nat,
{
    match cs {
        None => Ok((None, Indices::Nil, false, free)),
        Some(n) => {
            proof {
                crate::syntax::lemma_proc_size_pos(n.head.pattern.proc);
                crate::syntax::lemma_proc_size_pos(n.head.proc.proc);
            }
            let pattern_chain = chain.push();
            let empty = FreeMap::new();
            proof {
                assert(empty@ == empty_free_view());
                assert((seq![empty_bound_view::<VarSort>()] + chain@)[0] == empty_bound_view::<VarSort>());
            }
            match normalize_proc(&n.head.pattern.proc, n.head.pattern.span,
                ProcVisitInputs { par: empty_par(), bound_map_chain: pattern_chain, free_map: empty }, env) {
                Ok(pat) => {
                    let bound_count = pat.free_map.count_no_wildcards();
                    let _depth = chain.depth();
                    let case_chain = chain.absorb_free_span(&pat.free_map);
                    proof {
                        assert(pat.free_map@.next <= pat.free_map@.count());
                        assert(case_chain@.len() == chain@.len());
                        assert(case_chain@[0].next == chain@[0].next + pat.free_map@.next);
                    }
                    match normalize_proc(&n.head.proc.proc, n.head.proc.span,
                        ProcVisitInputs { par: empty_par(), bound_map_chain: case_chain, free_map: free }, env) {
                        Ok(body) => match normalize_cases(&n.tail, chain, body.free_map, env) {
                            Ok((rest, lf, used, f2)) => {
                                let body_free = drop_bound_indices(&body.par.locally_free, bound_count);
                                let lf2 = union_indices(&union_indices(&pat.par.locally_free, &body_free), &lf);
                                let u = body.par.connective_used || used;
                                let case = MatchCase { pattern: Some(Box::new(pat.par)), source: Some(Box::new(body.par)), free_count: bound_count };
                                Ok((push_front(case, rest), lf2, u, f2))
                            },
                            Err(e) => Err(e),
                        },
                        Err(e) => Err(e),
                    }
                },
                Err(e) => Err(e),
            }
        },
    }
}

/// Normalizes `match expression { cases }`: the expression on its own, then
/// the cases as `norm_cases` says; the match goes in front of the matches of
/// `input.par`.
pub fn normalize_p_match(expression: &AnnProc, cases: &List<Case>, input: ProcVisitInputs, env: &Env)
    -> (r: Result<ProcVisitOutputs, InterpreterError>)
    requires
        fits(input.bound_map_chain@, input.free_map@, proc_size(Proc::Match { expression: Box::new(*expression), cases: *cases })),
    ensures
        proc_outcome(norm_proc(Proc::Match { expression: Box::new(*expression), cases: *cases }, synthetic_origin(), input.par,
            input.bound_map_chain@, input.free_map@, *env), r),
        r matches Ok(o) ==> o.free_map@.count() <= input.free_map@.count()
            + proc_size(Proc::Match { expression: Box::new(*expression), cases: *cases }),
    decreases proc_size(Proc::Match { expression: Box::new(*expression), cases: *cases }), 0nat,
{
    let ProcVisitInputs { par, bound_map_chain, free_map } = input;
    let chain2 = bound_map_chain.copy();
    match normalize_proc(&expression.proc, expression.span, ProcVisitInputs { par: empty_par(), bound_map_chain, free_map }, env) {
        Ok(t) => match normalize_cases(cases, &chain2, t.free_map, env) {
            Ok((cs, lf, used, f2)) => {
                let locally_free = union_indices(&lf, &t.par.locally_free);
                let connective_used = used || t.par.connective_used;
                let m = Match { target: Some(Box::new(t.par)), cases: cs, locally_free, connective_used };
                Ok(ProcVisitOutputs { par: prepend_match(par, m), free_map: f2 })
            },
            Err(e) => Err(e),
        },
        Err(e) => Err(e),
    }
}

/// Normalizes `new decls in { proc }`: the declarations are bound as names
/// in the innermost scope, in the order of their URIs (see `new_scope`), and
/// the body is normalized there; the `new` goes in front of the news of
/// `input.par`.
pub fn normalize_p_new(decls: &Vec<crate::ast::NameDecl>, proc: &AnnProc, input: ProcVisitInputs, env: &Env)
    -> (r: Result<ProcVisitOutputs, InterpreterError>)
    requires
        fits(input.bound_map_chain@, input.free_map@, proc_size(Proc::New { decls: *decls, proc: Box::new(*proc) })),
    ensures
        proc_outcome(norm_proc(Proc::New { decls: *decls, proc: Box::new(*proc) }, synthetic_origin(), input.par,
            input.bound_map_chain@, input.free_map@, *env), r),
        r matches Ok(o) ==> o.free_map@.count() <= input.free_map@.count()
            + proc_size(Proc::New { decls: *decls, proc: Box::new(*proc) }),
    decreases proc_size(Proc::New { decls: *decls, proc: Box::new(*proc) }), 0nat,
{
    let ProcVisitInputs { par, bound_map_chain, free_map } = input;
    let _depth = bound_map_chain.depth();
    let scope = new_scope(&bound_map_chain, decls);
    let ghost ord = new_order(decls@);
    proof {
        let w = choose|w: Seq<usize>| {
            &&& stable_order(decl_keys(decls@), w)
            &&& scope.body_chain@ == bound_map_chain@.update(0, bind_names(bound_map_chain@[0], ordered_names(decls@, w)))
            &&& scope.uris@ == ordered_uri_strings(decls@, w)
        };
        law_stable_order_unique(decl_keys(decls@), w, ord);
        lemma_bind_names_next(bound_map_chain@[0], ordered_names(decls@, ord));
        assert(scope.body_chain@.len() == bound_map_chain@.len());
        assert(scope.body_chain@[0].next == bound_map_chain@[0].next + decls@.len());
    }
    let NewScope { body_chain, bind_count, uris } = scope;
    match normalize_proc(&proc.proc, proc.span, ProcVisitInputs { par: empty_par(), bound_map_chain: body_chain, free_map }, env) {
        Ok(body) => {
            let locally_free = drop_bound_indices(&body.par.locally_free, bind_count);
            let n = New { bind_count, p: Some(Box::new(body.par)), uri: vec_to_list(uris), injections: env.injections(), locally_free };
            Ok(ProcVisitOutputs { par: prepend_new(par, n), free_map: body.free_map })
        },
        Err(e) => Err(e),
    }
}

/// Normalizes the formal names `ns` of a receive pattern as `norm_formals`
/// says.
fn normalize_formals(ns: &List<Name>, chain: &BoundMapChain<VarSort>, acc: FreeMap<VarSort>, env: &Env)
    -> (r: Result<(List<Par>, Indices, FreeMap<VarSort>), InterpreterError>)
    requires
        fits(seq![empty_bound_view::<VarSort>()] + chain@, acc@, names_size(*ns)),
    ensures
        match norm_formals(*ns, chain@, acc@, *env) {
            Ok((ps, lf, f)) => r matches Ok((a, b, c)) && a == ps && b == lf && c@ == f,
            Err(pred) => r matches Err(e) && pred(e),
        },
        r matches Ok((a, b, c)) ==> c@.count() <= acc@.count() + names_size(*ns),
    decreases names_size(*ns), 2nat,
{
    match ns {
        None => Ok((None, Indices::Nil, acc)),
        Some(n) => {
            let depth = chain.depth();
            let pattern_chain = chain.push();
            match normalize_name(&n.head, NameVisitInputs { bound_map_chain: pattern_chain, free_map: acc }, env) {
                Ok(o) => match fail_on_invalid_connective_span(depth, &o.free_map) {
                    Ok(()) => match normalize_formals(&n.tail, chain, o.free_map, env) {
                        Ok((ps, lf, f2)) => {
                            let lf2 = union_indices(&o.par.locally_free, &lf);
                            Ok((push_front(o.par, ps), lf2, f2))
                        },
                        Err(e) => Err(e),
                    },
                    Err(e) => Err(e),
                },
                Err(e) => Err(e),
            }
        },
    }
}

/// Normalizes `contract name(formals) = { body }`: the name in the current
/// scopes; the formals as a pattern, each name in a new innermost scope with
/// a free map of its own, then the remainder; the body with the pattern's
/// free variables bound in the innermost scope and the free map after the
/// name. The result is a persistent receive with one bind, in front of the
/// receives of `input.par`.
pub fn normalize_p_contr(name: &Name, formals: &Names, body: &AnnProc, input: ProcVisitInputs, env: &Env)
    -> (r: Result<ProcVisitOutputs, InterpreterError>)
    requires
        fits(input.bound_map_chain@, input.free_map@,
            proc_size(Proc::Contract { name: *name, formals: *formals, body: Box::new(*body) })),
    ensures
        proc_outcome(norm_proc(Proc::Contract { name: *name, formals: *formals, body: Box::new(*body) }, synthetic_origin(),
            input.par, input.bound_map_chain@, input.free_map@, *env), r),
        r matches Ok(o) ==> o.free_map@.count() <= input.free_map@.count()
            + proc_size(Proc::Contract { name: *name, formals: *formals, body: Box::new(*body) }),
    decreases proc_size(Proc::Contract { name: *name, formals: *formals, body: Box::new(*body) }), 0nat,
{
    let ProcVisitInputs { par, bound_map_chain, free_map } = input;
    let _depth = bound_map_chain.depth();
    proof {
        lemma_proc_size_pos(body.proc);
        assert((seq![empty_bound_view::<VarSort>()] + bound_map_chain@)[0] == empty_bound_view::<VarSort>());
    }
    match normalize_name(name, NameVisitInputs { bound_map_chain: bound_map_chain.copy(), free_map }, env) {
        Ok(np) => {
            let empty = FreeMap::new();
            proof { assert(empty@ == empty_free_view()); }
            match normalize_formals(&formals.names, &bound_map_chain, empty, env) {
                Ok((pats, pats_lf, facc)) => match normalize_match_name(&formals.remainder, facc) {
                    Ok((rem, frem)) => {
                        let bound_count = frem.count_no_wildcards();
                        proof {
                            assert(frem@.next <= frem@.count());
                        }
                        let body_chain = bound_map_chain.absorb_free_span(&frem);
                        proof {
                            assert(body_chain@.len() == bound_map_chain@.len());
                            assert(body_chain@[0].next == bound_map_chain@[0].next + frem@.next);
                        }
                        match normalize_proc(&body.proc, body.span, ProcVisitInputs { par: empty_par(), bound_map_chain: body_chain, free_map: np.free_map }, env) {
                            Ok(bp) => {
                                let body_free = drop_bound_indices(&bp.par.locally_free, bound_count);
                                let locally_free = union_indices(&np.par.locally_free, &union_indices(&pats_lf, &body_free));
                                let connective_used = np.par.connective_used || bp.par.connective_used;
                                let bind = ReceiveBind { patterns: pats, source: Some(Box::new(np.par)), remainder: rem, free_count: bound_count };
                                let receive = Receive {
                                    binds: push_front(bind, None),
                                    body: Some(Box::new(bp.par)),
                                    persistent: true,
                                    peek: false,
                                    bind_count: bound_count,
                                    locally_free,
                                    connective_used,
                                };
                                Ok(ProcVisitOutputs { par: prepend_receive(par, receive), free_map: bp.free_map })
                            },
                            Err(e) => Err(e),
                        }
                    },
                    Err(e) => Err(e),
                },
                Err(e) => Err(e),
            }
        },
        Err(e) => Err(e),
    }
}

/// The number of binds of a group.
pub open spec fn binds_count(bs: List<Bind>) -> nat
    decreases bs,
{
    match bs {
        None => 0,
        Some(n) => 1 + binds_count(n.tail),
    }
}

/// The number of binds of all the groups of a `for`.
pub open spec fn receipts_count(rs: List<List<Bind>>) -> nat
    decreases rs,
{
    match rs {
        None => 0,
        Some(n) => binds_count(n.head) + receipts_count(n.tail),
    }
}

proof fn lemma_total_count_concat(a: Seq<FreeMapView<VarSort>>, b: Seq<FreeMapView<VarSort>>)
    ensures
        total_count(a + b) == total_count(a) + total_count(b),
    decreases b.len(),
{
    if b.len() == 0 {
        assert(a + b =~= a);
    } else {
        lemma_total_count_concat(a, b.drop_last());
        assert((a + b).drop_last() =~= a + b.drop_last());
        assert((a + b).last() == b.last());
    }
}

/// Normalizes the patterns of a group of binds as `norm_group_patterns`
/// says.
fn normalize_group_patterns(bs: &List<Bind>, chain: &BoundMapChain<VarSort>, env: &Env)
    -> (r: Result<(Vec<(List<Par>, Option<VarInstance>, usize)>, Vec<FreeMap<VarSort>>, Indices), InterpreterError>)
    requires
        fits(seq![empty_bound_view::<VarSort>()] + chain@, empty_free_view(), binds_size(*bs)),
    ensures
        match norm_group_patterns(*bs, chain@, *env) {
            Ok((ps, fs, lf)) => r matches Ok((a, b, c)) && a@ == ps && b@.map_values(|m: FreeMap<VarSort>| m@) == fs && c == lf
                && total_count(fs) <= binds_size(*bs) && ps.len() == binds_count(*bs),
            Err(pred) => r matches Err(e) && pred(e),
        },
    decreases binds_size(*bs), 3nat,
{
    match bs {
        None => {
            let ps: Vec<(List<Par>, Option<VarInstance>, usize)> = Vec::new();
            let fs: Vec<FreeMap<VarSort>> = Vec::new();
            proof { assert(fs@.map_values(|m: FreeMap<VarSort>| m@) =~= Seq::<FreeMapView<VarSort>>::empty()); }
            Ok((ps, fs, Indices::Nil))
        },
        Some(n) => {
            let empty = FreeMap::new();
            proof {
                assert(empty@ == empty_free_view());
                assert(bind_size(n.head) == names_size(n.head.lhs.names) + 1 + name_size(n.head.rhs));
            }
            match normalize_formals(&n.head.lhs.names, chain, empty, env) {
                Ok((pats, plf, facc)) => match normalize_match_name(&n.head.lhs.remainder, facc) {
                    Ok((rem, frem)) => match normalize_group_patterns(&n.tail, chain, env) {
                        Ok((ps, fs, lf)) => {
                            let ghost old_fs = fs@.map_values(|m: FreeMap<VarSort>| m@);
                            let count = frem.count_no_wildcards();
                            let lf2 = union_indices(&plf, &lf);
                            let mut ps = ps;
                            let mut fs = fs;
                            ps.insert(0, (pats, rem, count));
                            let ghost fv = frem@;
                            fs.insert(0, frem);
                            proof {
                                assert(fs@.map_values(|m: FreeMap<VarSort>| m@) =~= seq![fv] + old_fs);
                                lemma_total_count_concat(seq![fv], old_fs);
                                assert(seq![fv].drop_last() =~= Seq::<FreeMapView<VarSort>>::empty());
                                assert(total_count(Seq::<FreeMapView<VarSort>>::empty()) == 0);
                                assert(seq![fv].last() == fv);
                                assert(total_count(seq![fv]) == total_count(seq![fv].drop_last()) + fv.count());
                                assert(total_count(seq![fv]) == fv.count());
                            }
                            Ok((ps, fs, lf2))
                        },
                        Err(e) => Err(e),
                    },
                    Err(e) => Err(e),
                },
                Err(e) => Err(e),
            }
        },
    }
}

/// Normalizes the patterns of all the groups of a `for` as `norm_patterns`
/// says.
fn normalize_patterns(rs: &List<List<Bind>>, chain: &BoundMapChain<VarSort>, env: &Env)
    -> (r: Result<(Vec<(List<Par>, Option<VarInstance>, usize)>, Vec<FreeMap<VarSort>>, Indices), InterpreterError>)
    requires
        fits(seq![empty_bound_view::<VarSort>()] + chain@, empty_free_view(), receipts_size(*rs)),
    ensures
        match norm_patterns(*rs, chain@, *env) {
            Ok((ps, fs, lf)) => r matches Ok((a, b, c)) && a@ == ps && b@.map_values(|m: FreeMap<VarSort>| m@) == fs && c == lf
                && total_count(fs) <= receipts_size(*rs) && ps.len() == receipts_count(*rs),
            Err(pred) => r matches Err(e) && pred(e),
        },
    decreases receipts_size(*rs), 3nat,
{
    match rs {
        None => {
            let ps: Vec<(List<Par>, Option<VarInstance>, usize)> = Vec::new();
            let fs: Vec<FreeMap<VarSort>> = Vec::new();
            proof { assert(fs@.map_values(|m: FreeMap<VarSort>| m@) =~= Seq::<FreeMapView<VarSort>>::empty()); }
            Ok((ps, fs, Indices::Nil))
        },
        Some(n) => match normalize_group_patterns(&n.head, chain, env) {
            Ok((p1, f1, l1)) => match normalize_patterns(&n.tail, chain, env) {
                Ok((p2, f2, l2)) => {
                    let ghost v1 = f1@.map_values(|m: FreeMap<VarSort>| m@);
                    let ghost v2 = f2@.map_values(|m: FreeMap<VarSort>| m@);
                    let l = union_indices(&l1, &l2);
                    let mut p1 = p1;
                    let mut p2 = p2;
                    let mut f1 = f1;
                    let mut f2 = f2;
                    p1.append(&mut p2);
                    f1.append(&mut f2);
                    proof {
                        assert(f1@.map_values(|m: FreeMap<VarSort>| m@) =~= v1 + v2);
                        lemma_total_count_concat(v1, v2);
                    }
                    Ok((p1, f1, l))
                },
                Err(e) => Err(e),
            },
            Err(e) => Err(e),
        },
    }
}

/// Normalizes the channels of a group of binds as `norm_group_sources`
/// says.
fn normalize_group_sources(bs: &List<Bind>, chain: &BoundMapChain<VarSort>, free: FreeMap<VarSort>, env: &Env)
    -> (r: Result<(Vec<Par>, FreeMap<VarSort>, Indices, bool), InterpreterError>)
    requires
        fits(chain@, free@, binds_size(*bs)),
    ensures
        match norm_group_sources(*bs, chain@, free@, *env) {
            Ok((cs, f, lf, used)) => r matches Ok((a, b, c, d)) && a@ == cs && b@ == f && c == lf && d == used
                && f.count() <= free@.count() + binds_size(*bs) && cs.len() == binds_count(*bs),
            Err(pred) => r matches Err(e) && pred(e),
        },
    decreases binds_size(*bs), 3nat,
{
    match bs {
        None => Ok((Vec::new(), free, Indices::Nil, false)),
        Some(n) => match {
            proof { assert(bind_size(n.head) == names_size(n.head.lhs.names) + 1 + name_size(n.head.rhs)); }
            normalize_name(&n.head.rhs, NameVisitInputs { bound_map_chain: chain.copy(), free_map: free }, env)
        } {
            Ok(c) => match normalize_group_sources(&n.tail, chain, c.free_map, env) {
                Ok((cs, f2, lf, used)) => {
                    let lf2 = union_indices(&c.par.locally_free, &lf);
                    let u = c.par.connective_used || used;
                    let mut cs = cs;
                    cs.insert(0, c.par);
                    Ok((cs, f2, lf2, u))
                },
                Err(e) => Err(e),
            },
            Err(e) => Err(e),
        },
    }
}

/// Normalizes the channels of all the groups of a `for` as `norm_sources`
/// says.
fn normalize_sources(rs: &List<List<Bind>>, chain: &BoundMapChain<VarSort>, free: FreeMap<VarSort>, env: &Env)
    -> (r: Result<(Vec<Par>, FreeMap<VarSort>, Indices, bool), InterpreterError>)
    requires
        fits(chain@, free@, receipts_size(*rs)),
    ensures
        match norm_sources(*rs, chain@, free@, *env) {
            Ok((cs, f, lf, used)) => r matches Ok((a, b, c, d)) && a@ == cs && b@ == f && c == lf && d == used
                && f.count() <= free@.count() + receipts_size(*rs) && cs.len() == receipts_count(*rs),
            Err(pred) => r matches Err(e) && pred(e),
        },
    decreases receipts_size(*rs), 3nat,
{
    match rs {
        None => Ok((Vec::new(), free, Indices::Nil, false)),
        Some(n) => match normalize_group_sources(&n.head, chain, free, env) {
            Ok((c1, f1, l1, u1)) => match normalize_sources(&n.tail, chain, f1, env) {
                Ok((c2, f2, l2, u2)) => {
                    let l = union_indices(&l1, &l2);
                    let mut c1 = c1;
                    let mut c2 = c2;
                    c1.append(&mut c2);
                    Ok((c1, f2, l, u1 || u2))
                },
                Err(e) => Err(e),
            },
            Err(e) => Err(e),
        },
    }
}

/// Whether two of the channels are the same.
fn repeats_channel_exec(cs: &Vec<Par>) -> (r: bool)
    ensures
        r == repeats_channel(cs@),
{
    let mut i: usize = 0;
    while i < cs.len()
        invariant
            i <= cs@.len(),
            forall|a: int, b: int| 0 <= a < b < cs@.len() && a < i ==> !same_par(cs@[a], cs@[b]),
        decreases cs@.len() - i,
    {
        let mut j: usize = i + 1;
        while j < cs.len()
            invariant
                i < cs@.len(),
                i + 1 <= j <= cs@.len(),
                forall|a: int, b: int| 0 <= a < b < cs@.len() && a < i ==> !same_par(cs@[a], cs@[b]),
                forall|b: int| i < b < j ==> !same_par(cs@[i as int], cs@[b]),
            decreases cs@.len() - j,
        {
            if par_eq(&cs[i], &cs[j]) {
                proof { assert(0 <= i < j < cs@.len() && same_par(cs@[i as int], cs@[j as int])); }
                return true;
            }
            j = j + 1;
        }
        i = i + 1;
    }
    false
}

/// The binds of a receive, from each bind's patterns and its channel.
fn zip_binds_exec(ps: Vec<(List<Par>, Option<VarInstance>, usize)>, cs: Vec<Par>) -> (r: List<ReceiveBind>)
    requires
        ps@.len() == cs@.len(),
    ensures
        r == zip_binds(ps@, cs@),
{
    let ghost pa = ps@;
    let ghost ca = cs@;
    let mut ps = ps;
    let mut cs = cs;
    let mut acc: List<ReceiveBind> = None;
    while ps.len() > 0
        invariant
            ps@.len() == cs@.len(),
            pa.len() == ca.len(),
            ps@.len() <= pa.len(),
            ps@ == pa.subrange(0, ps@.len() as int),
            cs@ == ca.subrange(0, cs@.len() as int),
            acc == zip_binds(pa.subrange(ps@.len() as int, pa.len() as int), ca.subrange(cs@.len() as int, ca.len() as int)),
        decreases ps@.len(),
    {
        let ghost i = ps@.len() as int;
        let (pats, rem, count) = ps.pop().unwrap();
        let c = cs.pop().unwrap();
        proof {
            assert(pa.subrange(i - 1, pa.len() as int).drop_first() =~= pa.subrange(i, pa.len() as int));
            assert(ca.subrange(i - 1, ca.len() as int).drop_first() =~= ca.subrange(i, ca.len() as int));
            assert(pa.subrange(i - 1, pa.len() as int)[0] == (pats, rem, count));
            assert(ca.subrange(i - 1, ca.len() as int)[0] == c);
            assert(ps@ =~= pa.subrange(0, i - 1));
            assert(cs@ =~= ca.subrange(0, i - 1));
        }
        acc = push_front(ReceiveBind { patterns: pats, source: Some(Box::new(c)), remainder: rem, free_count: count }, acc);
    }
    proof {
        assert(pa.subrange(0, pa.len() as int) =~= pa);
        assert(ca.subrange(0, ca.len() as int) =~= ca);
    }
    acc
}

/// Normalizes `for (receipts) { body }` into a receive. A `for` without a
/// bind is refused as a bug. Otherwise the patterns of all the binds are
/// normalized first, each on its own (see `norm_patterns`), then their
/// channels in the current scopes; two binds on the same channel are
/// refused at the span of the body, and so is a variable bound by two
/// patterns. The body is normalized with the patterns' free variables bound
/// in the innermost scope, in the order of the binds, and the free map
/// after the channels. The kind of the first bind decides whether the
/// receive persists or peeks. The binds keep the order in which they are
/// written.
pub fn normalize_p_input(receipts: &List<List<Bind>>, body: &AnnProc, input: ProcVisitInputs, env: &Env)
    -> (r: Result<ProcVisitOutputs, InterpreterError>)
    requires
        fits(input.bound_map_chain@, input.free_map@,
            proc_size(Proc::ForComprehension { receipts: *receipts, body: Box::new(*body) })),
    ensures
        proc_outcome(norm_proc(Proc::ForComprehension { receipts: *receipts, body: Box::new(*body) }, synthetic_origin(),
            input.par, input.bound_map_chain@, input.free_map@, *env), r),
        r matches Ok(o) ==> o.free_map@.count() <= input.free_map@.count()
            + proc_size(Proc::ForComprehension { receipts: *receipts, body: Box::new(*body) }),
    decreases proc_size(Proc::ForComprehension { receipts: *receipts, body: Box::new(*body) }), 0nat,
{
    let kind = match receipts {
        None => { return Err(InterpreterError::BugFoundError("Expected at least one receipt".to_string())); },
        Some(g) => match &g.head {
            None => { return Err(InterpreterError::BugFoundError("Expected at least one receipt".to_string())); },
            Some(b) => b.head.kind,
        },
    };
    let ProcVisitInputs { par, bound_map_chain, free_map } = input;
    let _depth = bound_map_chain.depth();
    proof {
        assert((seq![empty_bound_view::<VarSort>()] + bound_map_chain@)[0] == empty_bound_view::<VarSort>());
    }
    match normalize_patterns(receipts, &bound_map_chain, env) {
        Ok((ps, fs, plf)) => match normalize_sources(receipts, &bound_map_chain, free_map, env) {
            Ok((cs, fsrc, slf, sused)) => {
                if repeats_channel_exec(&cs) {
                    return Err(InterpreterError::ReceiveOnSameChannelsError { source_span: body.span });
                }
                let ghost ms = fs@.map_values(|m: FreeMap<VarSort>| m@);
                match merge_receive_bind_free_maps(&fs) {
                    Ok(merged) => {
                        proof {
                            lemma_merge_all_facts(ms);
                            assert(merged@.next <= merged@.count());
                        }
                        let bind_count = merged.count_no_wildcards();
                        let body_chain = bound_map_chain.absorb_free_span(&merged);
                        proof {
                            assert(body_chain@.len() == bound_map_chain@.len());
                            assert(body_chain@[0].next == bound_map_chain@[0].next + merged@.next);
                        }
                        match normalize_proc(&body.proc, body.span, ProcVisitInputs { par: empty_par(), bound_map_chain: body_chain, free_map: fsrc }, env) {
                            Ok(bp) => {
                                let body_free = drop_bound_indices(&bp.par.locally_free, bind_count);
                                let locally_free = union_indices(&slf, &union_indices(&plf, &body_free));
                                let connective_used = sused || bp.par.connective_used;
                                let (persistent, peek) = receive_bind_flags(kind);
                                let binds = zip_binds_exec(ps, cs);
                                let receive = Receive {
                                    binds,
                                    body: Some(Box::new(bp.par)),
                                    persistent,
                                    peek,
                                    bind_count,
                                    locally_free,
                                    connective_used,
                                };
                                Ok(ProcVisitOutputs { par: prepend_receive(par, receive), free_map: bp.free_map })
                            },
                            Err(e) => Err(e),
                        }
                    },
                    Err(e) => Err(e),
                }
            },
            Err(e) => Err(e),
        },
        Err(e) => Err(e),
    }
}

/// A copy of a variable.
fn copy_var(v: &Var) -> (r: Var)
    ensures
        r == *v,
{
    match v {
        Var::Wildcard => Var::Wildcard,
        Var::Id(id) => Var::Id(crate::ast::Id { name: id.name.clone(), pos: id.pos }),
    }
}

/// The number of items of a list of processes.
fn list_len(ps: &List<AnnProc>) -> (r: usize)
    requires
        list_count(*ps) <= usize::MAX,
    ensures
        r == list_count(*ps),
    decreases ps,
{
    match ps {
        None => 0,
        Some(n) => 1 + list_len(&n.tail),
    }
}

/// `k` wildcard patterns at pattern depth `pdepth`, and `f` with `k` more
/// wildcards.
fn wildcard_patterns(k: usize, pdepth: usize, f: FreeMap<VarSort>) -> (r: (List<Par>, FreeMap<VarSort>))
    requires
        f@.count() + k < usize::MAX,
    ensures
        r.0 == wildcard_pars(k as nat, pdepth),
        r.1@ == add_wildcards(f@, k as nat),
        r.1@.count() == f@.count() + k,
{
    let mut ws: List<Par> = None;
    let ghost f0 = f@;
    let mut pf = f;
    let mut i: usize = 0;
    while i < k
        invariant
            i <= k,
            f0.count() + k < usize::MAX,
            ws == wildcard_pars(i as nat, pdepth),
            pf@ == add_wildcards(f0, i as nat),
            pf@.count() == f0.count() + i,
        decreases k - i,
    {
        let w = prepend_expr(empty_par(), Expr::EVar(VarInstance::Wildcard), pdepth);
        ws = push_front(w, ws);
        pf = pf.add_wildcard(SpanContext::wildcard_span());
        i = i + 1;
    }
    (ws, pf)
}

/// Normalizes the two sides of a binding of a `let` as `norm_let_sides`
/// says.
fn normalize_let_sides(binding: &LetBinding, chain: &BoundMapChain<VarSort>, free: FreeMap<VarSort>, env: &Env)
    -> (r: Result<(Par, FreeMap<VarSort>, Par, FreeMap<VarSort>), InterpreterError>)
    requires
        fits(chain@, free@, binding_size(*binding)),
    ensures
        match norm_let_sides(*binding, chain@, free@, *env) {
            Ok((t, f1, pat, pf)) => r matches Ok((a, b, c, d)) && a == t && b@ == f1 && c == pat && d@ == pf
                && f1.count() <= free@.count() + binding_size(*binding) && pf.count() <= binding_size(*binding),
            Err(pred) => r matches Err(e) && pred(e),
        },
    decreases binding_size(*binding), 2nat,
{
    let depth = chain.depth();
    let pdepth = depth + 1;
    let pattern_chain = chain.push();
    let empty = FreeMap::new();
    proof {
        assert(empty@ == empty_free_view());
        assert((seq![empty_bound_view::<VarSort>()] + chain@)[0] == empty_bound_view::<VarSort>());
    }
    match binding {
        LetBinding::Single { lhs, rhs } => {
            match normalize_proc(&rhs.proc, rhs.span, ProcVisitInputs { par: empty_par(), bound_map_chain: chain.copy(), free_map: free }, env) {
                Ok(t) => match normalize_name(lhs, NameVisitInputs { bound_map_chain: pattern_chain, free_map: empty }, env) {
                    Ok(q) => {
                        let pel = append(empty_par(), q.par);
                        let tlf = union_indices(&t.par.locally_free, &Indices::Nil);
                        let tcu = t.par.connective_used;
                        let target = prepend_expr(empty_par(), Expr::EList { ps: push_front(t.par, None), locally_free: tlf, connective_used: tcu }, depth);
                        let plf = union_indices(&pel.locally_free, &Indices::Nil);
                        let pcu = pel.connective_used;
                        let pattern = prepend_expr(empty_par(), Expr::EList { ps: push_front(pel, None), locally_free: plf, connective_used: pcu }, pdepth);
                        Ok((target, t.free_map, pattern, q.free_map))
                    },
                    Err(e) => Err(e),
                },
                Err(e) => Err(e),
            }
        },
        LetBinding::Multiple { lhs, rhs } => {
            match normalize_list(rhs, chain, free, env) {
                Ok((qs, lf, used, f1)) => {
                    let first = Name::ProcVar(copy_var(lhs));
                    match normalize_name(&first, NameVisitInputs { bound_map_chain: pattern_chain, free_map: empty }, env) {
                        Ok(q) => {
                            let pel = append(empty_par(), q.par);
                            let count = list_len(rhs);
                            let k: usize = if count > 0 { count - 1 } else { 0 };
                            let (ws, pf) = wildcard_patterns(k, pdepth, q.free_map);
                            let plf = union_indices(&pel.locally_free, &Indices::Nil);
                            let pcu = pel.connective_used || k > 0;
                            let target = prepend_expr(empty_par(), Expr::EList { ps: qs, locally_free: lf, connective_used: used }, depth);
                            let pattern = prepend_expr(empty_par(), Expr::EList { ps: push_front(pel, ws), locally_free: plf, connective_used: pcu }, pdepth);
                            Ok((target, f1, pattern, pf))
                        },
                        Err(e) => Err(e),
                    }
                },
                Err(e) => Err(e),
            }
        },
    }
}

/// The match a binding of a `let` becomes (see `let_match`).
fn make_let_match(target: Par, pattern: Par, bound: usize, body: Par) -> (r: Match)
    ensures
        r == let_match(target, pattern, bound, body),
{
    let body_free = drop_bound_indices(&body.locally_free, bound);
    let locally_free = union_indices(&union_indices(&union_indices(&pattern.locally_free, &body_free), &Indices::Nil), &target.locally_free);
    let connective_used = body.connective_used || target.connective_used;
    let case = MatchCase { pattern: Some(Box::new(pattern)), source: Some(Box::new(body)), free_count: bound };
    Match { target: Some(Box::new(target)), cases: push_front(case, None), locally_free, connective_used }
}

/// Normalizes the binding `binding` of a sequential `let`, followed by the
/// bindings and body `rest`, as `norm_let` says.
#[verifier::spinoff_prover]
fn normalize_let_bind(binding: &LetBinding, rest: &LetChain, input: ProcVisitInputs, env: &Env) -> (r: Result<ProcVisitOutputs, InterpreterError>)
    requires
        fits(input.bound_map_chain@, input.free_map@, 1 + binding_size(*binding) + let_size(*rest)),
    ensures
        proc_outcome(norm_let(LetChain::Bind(*binding, Box::new(*rest)), input.par, input.bound_map_chain@, input.free_map@, *env), r),
        r matches Ok(o) ==> o.free_map@.count() <= input.free_map@.count() + 1 + binding_size(*binding) + let_size(*rest),
    decreases 1 + binding_size(*binding) + let_size(*rest), 0nat,
{
    let ProcVisitInputs { par, bound_map_chain, free_map } = input;
    let _depth = bound_map_chain.depth();
    let sides = normalize_let_sides(binding, &bound_map_chain, free_map, env);
    match sides {
        Ok((target, f1, pattern, pf)) => {
            let bound_count = pf.count_no_wildcards();
            let body_chain = bound_map_chain.absorb_free_span(&pf);
            proof {
                assert(body_chain@.len() == bound_map_chain@.len());
                assert(body_chain@[0].next == bound_map_chain@[0].next + pf@.next);
            }
            let body = normalize_p_let(rest, ProcVisitInputs { par: empty_par(), bound_map_chain: body_chain, free_map: f1 }, env);
            match body {
                Ok(bp) => {
                    let m = make_let_match(target, pattern, bound_count, bp.par);
                    Ok(ProcVisitOutputs { par: prepend_match(par, m), free_map: bp.free_map })
                },
                Err(e) => Err(e),
            }
        },
        Err(e) => Err(e),
    }
}

/// Normalizes a sequential `let` as `norm_let` says, adding it to
/// `input.par`.
pub fn normalize_p_let(c: &LetChain, input: ProcVisitInputs, env: &Env) -> (r: Result<ProcVisitOutputs, InterpreterError>)
    requires
        fits(input.bound_map_chain@, input.free_map@, let_size(*c)),
    ensures
        proc_outcome(norm_let(*c, input.par, input.bound_map_chain@, input.free_map@, *env), r),
        r matches Ok(o) ==> o.free_map@.count() <= input.free_map@.count() + let_size(*c),
    decreases let_size(*c), 2nat,
{
    match c {
        LetChain::Body(b) => normalize_proc(&b.proc, b.span, input, env),
        LetChain::Bind(binding, rest) => normalize_let_bind(binding, rest, input, env),
    }
}

} // verus!
