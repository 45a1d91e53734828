//! The concurrent `let x0 <- v0, x1 <- v1, ... in { body }`: each value is
//! sent on a fresh channel, and one receive takes them all before the body
//! runs, under a `new` of the channels:
//! `new c0, c1, ... in { c0!(v0) | c1!(v1) | ... | for (x0 <- c0 & x1 <- c1 & ...) { body } }`.
use vstd::prelude::*;
use crate::ast::{BindKind, Id, NameDecl, SendType, Var};
use crate::env::Env;
use crate::let_rewrite::fresh_identifier;
use crate::normalizer::{fits, norm_proc, normalize_ann_proc, proc_outcome, ProcVisitInputs, ProcVisitOutputs};
use crate::normalize::InterpreterError;
use crate::span::{point_span, sat_add, spec_merge_two, SourcePos, SourceSpan, SpanContext};
use crate::syntax::{bind_size, binds_size, list_size, name_size, names_size, proc_size, receipts_size, AnnProc, Bind,
    LetBinding, Name, Names, Proc};
use crate::term::{list_items, cons, seq_to_list, vec_to_list, List, Node};

verus! {

/// The position `i` columns into `span` (saturating).
pub open spec fn point_in(span: SourceSpan, i: nat) -> SourcePos {
    SourcePos { line: span.start.line, col: sat_add(span.start.col, i as usize) }
}

/// The span of the last of `first` and the processes of `rest`.
pub open spec fn last_span(first: SourceSpan, rest: List<AnnProc>) -> SourceSpan
    decreases rest,
{
    match rest {
        None => first,
        Some(n) => last_span(n.head.span, n.tail),
    }
}

/// The span of the values of a binding: from the first to the last, the one
/// when there is one, the whole `let` when there are none.
pub open spec fn values_span(rhs: List<AnnProc>, let_span: SourceSpan) -> SourceSpan {
    match rhs {
        None => let_span,
        Some(n) => match n.tail {
            None => n.head.span,
            Some(_) => spec_merge_two(n.head.span, last_span(n.head.span, n.tail)),
        },
    }
}

/// One wildcard name per process of `l`.
pub open spec fn wildcards_for(l: List<AnnProc>) -> List<Name>
    decreases l,
{
    match l {
        None => None,
        Some(n) => cons(Name::ProcVar(Var::Wildcard), wildcards_for(n.tail)),
    }
}

/// The channel variable `name` at `pos`.
pub open spec fn carrier(name: String, pos: SourcePos) -> Name {
    Name::ProcVar(Var::Id(Id { name, pos }))
}

/// The span standing for the left side of a binding: a single name takes
/// that of its value (the bindings here carry no span of their own left
/// side); several values take the first value's, or the whole `let`'s.
pub open spec fn lhs_span(b: LetBinding, let_span: SourceSpan) -> SourceSpan {
    match b {
        LetBinding::Single { rhs, .. } => rhs.span,
        LetBinding::Multiple { rhs, .. } => match rhs {
            Some(n) => n.head.span,
            None => let_span,
        },
    }
}

/// The span of the values of a binding.
pub open spec fn rhs_span(b: LetBinding, let_span: SourceSpan) -> SourceSpan {
    match b {
        LetBinding::Single { rhs, .. } => rhs.span,
        LetBinding::Multiple { rhs, .. } => values_span(rhs, let_span),
    }
}

/// The send that carries the values of binding `i`, `b`, on channel `name`.
pub open spec fn binding_send(b: LetBinding, name: String, i: nat, let_span: SourceSpan) -> AnnProc {
    let rs = rhs_span(b, let_span);
    AnnProc {
        proc: Proc::Send {
            channel: carrier(name, point_in(rs, i)),
            send_type: SendType::Single,
            inputs: match b {
                LetBinding::Single { rhs, .. } => cons(*rhs, None),
                LetBinding::Multiple { rhs, .. } => rhs,
            },
        },
        span: point_span(point_in(rs, 10)),
    }
}

/// The names the receive binds for `b`: the name, or the variable followed
/// by a wildcard for each further value.
pub open spec fn pattern_names(b: LetBinding) -> List<Name> {
    match b {
        LetBinding::Single { lhs, .. } => cons(lhs, None),
        LetBinding::Multiple { lhs, rhs } => cons(Name::ProcVar(lhs), match rhs {
            Some(n) => wildcards_for(n.tail),
            None => None,
        }),
    }
}

/// The group of one bind that receives the values of binding `i`, `b`, on
/// channel `name`.
pub open spec fn binding_group(b: LetBinding, name: String, i: nat, let_span: SourceSpan) -> List<Bind> {
    cons(Bind {
        kind: BindKind::Linear,
        lhs: Names { names: pattern_names(b), remainder: None },
        rhs: carrier(name, point_in(lhs_span(b, let_span), i)),
    }, None)
}

/// The sends of the bindings `bs`, the first numbered `i`, on the channels `names`.
pub open spec fn let_sends(bs: Seq<LetBinding>, names: Seq<String>, i: nat, let_span: SourceSpan) -> Seq<AnnProc>
    decreases bs.len(),
{
    if bs.len() == 0 {
        Seq::empty()
    } else {
        seq![binding_send(bs[0], names[0], i, let_span)] + let_sends(bs.drop_first(), names.drop_first(), i + 1, let_span)
    }
}

/// The bind groups of the bindings `bs`, the first numbered `i`, on the channels `names`.
pub open spec fn let_groups(bs: Seq<LetBinding>, names: Seq<String>, i: nat, let_span: SourceSpan) -> Seq<List<Bind>>
    decreases bs.len(),
{
    if bs.len() == 0 {
        Seq::empty()
    } else {
        seq![binding_group(bs[0], names[0], i, let_span)] + let_groups(bs.drop_first(), names.drop_first(), i + 1, let_span)
    }
}

/// The declarations of the channels: channel `i` sits `i` columns into the `let`.
pub open spec fn let_decls(names: Seq<String>, let_span: SourceSpan) -> Seq<NameDecl> {
    Seq::new(names.len(), |i: int| NameDecl { id: Id { name: names[i], pos: point_in(let_span, i as nat) }, uri: None })
}

/// The processes of `ps` in parallel, grouped from the left, each
/// composition spanning its two sides.
pub open spec fn par_fold(ps: Seq<AnnProc>) -> AnnProc
    decreases ps.len(),
{
    if ps.len() <= 1 {
        ps[0]
    } else {
        let l = par_fold(ps.drop_last());
        AnnProc { proc: Proc::Par(Box::new(l), Box::new(ps.last())), span: spec_merge_two(l.span, ps.last().span) }
    }
}

/// The receive that takes all values and runs `body`.
pub open spec fn let_receive(bs: Seq<LetBinding>, names: Seq<String>, body: AnnProc, let_span: SourceSpan) -> AnnProc {
    AnnProc {
        proc: Proc::ForComprehension { receipts: seq_to_list(let_groups(bs, names, 0, let_span)), body: Box::new(body) },
        span: body.span,
    }
}

/// Whether `p` is the process the concurrent `let` of `bs` in `body` stands
/// for, with `names` as its channels.
pub open spec fn is_concurrent_let_process(p: Proc, names: Seq<String>, bs: Seq<LetBinding>, body: AnnProc,
    let_span: SourceSpan) -> bool
{
    &&& p matches Proc::New { decls, proc }
    &&& decls@ == let_decls(names, let_span)
    &&& *proc == par_fold(let_sends(bs, names, 0, let_span).push(let_receive(bs, names, body, let_span)))
}

/// The nodes binding `b` adds: its channel, its composition, its send and
/// its bind group.
pub open spec fn binding_cost(b: LetBinding) -> nat {
    2 + (2 + match b {
        LetBinding::Single { rhs, .. } => proc_size(rhs.proc),
        LetBinding::Multiple { rhs, .. } => list_size(rhs),
    }) + (3 + names_size(pattern_names(b)))
}

pub open spec fn bindings_cost(bs: Seq<LetBinding>) -> nat
    decreases bs.len(),
{
    if bs.len() == 0 { 0 } else { binding_cost(bs[0]) + bindings_cost(bs.drop_first()) }
}

/// The number of nodes of the process a concurrent `let` stands for,
/// whatever its channels.
pub open spec fn concurrent_let_size(bs: Seq<LetBinding>, body: AnnProc) -> nat {
    2 + proc_size(body.proc) + bindings_cost(bs)
}

/// The sum of the node counts of `ps`.
pub open spec fn procs_size(ps: Seq<AnnProc>) -> nat
    decreases ps.len(),
{
    if ps.len() == 0 { 0 } else { procs_size(ps.drop_last()) + proc_size(ps.last().proc) }
}

proof fn lemma_procs_size_prepend(a: AnnProc, s: Seq<AnnProc>)
    ensures
        procs_size(seq![a] + s) == proc_size(a.proc) + procs_size(s),
    decreases s.len(),
{
    if s.len() > 0 {
        assert((seq![a] + s).drop_last() =~= seq![a] + s.drop_last());
        assert((seq![a] + s).last() == s.last());
        lemma_procs_size_prepend(a, s.drop_last());
    } else {
        assert((seq![a] + s).drop_last() =~= Seq::<AnnProc>::empty());
        assert((seq![a] + s).last() == a);
        assert(procs_size(Seq::<AnnProc>::empty()) == 0);
    }
}

proof fn lemma_fold_size(ps: Seq<AnnProc>)
    requires
        ps.len() >= 1,
    ensures
        proc_size(par_fold(ps).proc) == ps.len() - 1 + procs_size(ps),
    decreases ps.len(),
{
    if ps.len() > 1 {
        lemma_fold_size(ps.drop_last());
        let l = par_fold(ps.drop_last());
        assert(par_fold(ps).proc == Proc::Par(Box::new(l), Box::new(ps.last())));
        assert(proc_size(par_fold(ps).proc) == 1 + proc_size(l.proc) + proc_size(ps.last().proc));
    } else {
        assert(ps.drop_last() =~= Seq::<AnnProc>::empty());
        assert(procs_size(Seq::<AnnProc>::empty()) == 0);
        assert(ps.last() == ps[0]);
    }
}

proof fn lemma_wildcards_size(l: List<AnnProc>)
    ensures
        names_size(wildcards_for(l)) == crate::syntax::list_count(l),
    decreases l,
{
    if let Some(n) = l {
        lemma_wildcards_size(n.tail);
        assert(name_size(Name::ProcVar(Var::Wildcard)) == 1);
    }
}

proof fn lemma_binding_parts_size(b: LetBinding, name: String, i: nat, let_span: SourceSpan)
    ensures
        proc_size(binding_send(b, name, i, let_span).proc) + receipts_size(cons(binding_group(b, name, i, let_span), None)) + 2
            == binding_cost(b),
{
    let rs = rhs_span(b, let_span);
    assert(name_size(carrier(name, point_in(rs, i))) == 1);
    assert(name_size(carrier(name, point_in(lhs_span(b, let_span), i))) == 1);
    if let LetBinding::Single { rhs, .. } = b {
        assert(list_size(cons(*rhs, None)) == proc_size(rhs.proc) + list_size(None));
    }
    let g = binding_group(b, name, i, let_span);
    assert(binds_size(None) == 0);
    assert(receipts_size(None) == 0);
    assert(binds_size(g) == bind_size(g.unwrap().head));
}

proof fn lemma_let_sizes(bs: Seq<LetBinding>, names: Seq<String>, i: nat, let_span: SourceSpan)
    requires
        names.len() == bs.len(),
    ensures
        let_sends(bs, names, i, let_span).len() == bs.len(),
        let_groups(bs, names, i, let_span).len() == bs.len(),
        procs_size(let_sends(bs, names, i, let_span)) + receipts_size(seq_to_list(let_groups(bs, names, i, let_span)))
            + 2 * bs.len() == bindings_cost(bs),
    decreases bs.len(),
{
    if bs.len() > 0 {
        lemma_let_sizes(bs.drop_first(), names.drop_first(), i + 1, let_span);
        let sends = let_sends(bs, names, i, let_span);
        let groups = let_groups(bs, names, i, let_span);
        let s0 = binding_send(bs[0], names[0], i, let_span);
        let g0 = binding_group(bs[0], names[0], i, let_span);
        lemma_procs_size_prepend(s0, let_sends(bs.drop_first(), names.drop_first(), i + 1, let_span));
        assert(groups.drop_first() =~= let_groups(bs.drop_first(), names.drop_first(), i + 1, let_span));
        assert(seq_to_list(groups) == cons(g0, seq_to_list(groups.drop_first())));
        lemma_binding_parts_size(bs[0], names[0], i, let_span);
        assert(receipts_size(None) == 0);
        assert(receipts_size(cons(g0, None)) == 1 + binds_size(g0));
    }
}

proof fn lemma_concurrent_let_size(p: Proc, names: Seq<String>, bs: Seq<LetBinding>, body: AnnProc, let_span: SourceSpan)
    requires
        names.len() == bs.len(),
        is_concurrent_let_process(p, names, bs, body, let_span),
    ensures
        proc_size(p) == concurrent_let_size(bs, body),
{
    lemma_let_sizes(bs, names, 0, let_span);
    let sends = let_sends(bs, names, 0, let_span);
    let all = sends.push(let_receive(bs, names, body, let_span));
    assert(all.drop_last() =~= sends);
    lemma_fold_size(all);
    if let Proc::New { decls, proc } = p {
        assert(decls@.len() == bs.len());
    }
}

/// The variable a binding gives its value to: its name, or its variable.
pub open spec fn bound_name(b: LetBinding) -> Name {
    match b {
        LetBinding::Single { lhs, .. } => lhs,
        LetBinding::Multiple { lhs, .. } => Name::ProcVar(lhs),
    }
}

/// How many values a binding sends.
pub open spec fn value_count(b: LetBinding) -> nat {
    match b {
        LetBinding::Single { .. } => 1,
        LetBinding::Multiple { rhs, .. } => crate::syntax::list_count(rhs),
    }
}

proof fn lemma_wildcards_items(l: List<AnnProc>)
    ensures
        list_items(wildcards_for(l)).len() == crate::syntax::list_count(l),
        forall|j: int| 0 <= j < list_items(wildcards_for(l)).len() ==>
            #[trigger] list_items(wildcards_for(l))[j] == Name::ProcVar(Var::Wildcard),
    decreases l,
{
    if let Some(n) = l {
        lemma_wildcards_items(n.tail);
        let w = list_items(wildcards_for(l));
        assert(w == seq![Name::ProcVar(Var::Wildcard)] + list_items(wildcards_for(n.tail)));
        assert forall|j: int| 0 <= j < w.len() implies #[trigger] w[j] == Name::ProcVar(Var::Wildcard) by {
            if j > 0 {
                assert(w[j] == list_items(wildcards_for(n.tail))[j - 1]);
            }
        }
    }
}

proof fn lemma_groups_at(bs: Seq<LetBinding>, names: Seq<String>, i: nat, let_span: SourceSpan, j: int)
    requires
        names.len() == bs.len(),
        0 <= j < bs.len(),
    ensures
        let_groups(bs, names, i, let_span).len() == bs.len(),
        let_groups(bs, names, i, let_span)[j] == binding_group(bs[j], names[j], (i + j) as nat, let_span),
    decreases bs.len(),
{
    lemma_let_sizes(bs, names, i, let_span);
    if j > 0 {
        lemma_groups_at(bs.drop_first(), names.drop_first(), i + 1, let_span, j - 1);
    }
}

/// In the receive a concurrent `let` becomes, binding `j` is received by a
/// single bind on its own channel, whose pattern puts the binding's variable
/// first, followed by a wildcard for each further value: as many names as
/// the binding has values (one at least), with no remainder. So the variable
/// takes the first value.
pub proof fn law_concurrent_let_binds_first_value(bs: Seq<LetBinding>, names: Seq<String>, let_span: SourceSpan, j: int)
    requires
        names.len() == bs.len(),
        0 <= j < bs.len(),
    ensures
        ({
            let g = list_items(let_groups(bs, names, 0, let_span)[j]);
            let pattern = list_items(g[0].lhs.names);
            &&& g.len() == 1
            &&& g[0].kind == BindKind::Linear
            &&& g[0].lhs.remainder is None
            &&& g[0].rhs matches Name::ProcVar(Var::Id(id)) && id.name == names[j]
            &&& pattern.len() == if value_count(bs[j]) == 0 { 1 } else { value_count(bs[j]) }
            &&& pattern[0] == bound_name(bs[j])
            &&& forall|m: int| 1 <= m < pattern.len() ==> #[trigger] pattern[m] == Name::ProcVar(Var::Wildcard)
        }),
{
    lemma_groups_at(bs, names, 0, let_span, j);
    let b = bs[j];
    let grp = binding_group(b, names[j], j as nat, let_span);
    assert(list_items(grp) == seq![grp.unwrap().head] + list_items(None::<Box<Node<Bind>>>));
    let pn = pattern_names(b);
    match b {
        LetBinding::Single { lhs, .. } => {
            assert(list_items(pn) == seq![lhs] + list_items(None::<Box<Node<Name>>>));
        },
        LetBinding::Multiple { lhs, rhs } => {
            match rhs {
                Some(n) => {
                    lemma_wildcards_items(n.tail);
                    let w = list_items(wildcards_for(n.tail));
                    assert(list_items(pn) == seq![Name::ProcVar(lhs)] + w);
                    assert(crate::syntax::list_count(rhs) == 1 + crate::syntax::list_count(n.tail));
                    assert forall|m: int| 1 <= m < list_items(pn).len() implies
                        #[trigger] list_items(pn)[m] == Name::ProcVar(Var::Wildcard) by {
                        assert(list_items(pn)[m] == w[m - 1]);
                    }
                },
                None => {
                    assert(list_items(pn) == seq![Name::ProcVar(lhs)] + list_items(None::<Box<Node<Name>>>));
                },
            }
        },
    }
}

fn last_span_exec(first: SourceSpan, rest: &List<AnnProc>) -> (r: SourceSpan)
    ensures
        r == last_span(first, *rest),
    decreases rest,
{
    match rest {
        None => first,
        Some(n) => last_span_exec(n.head.span, &n.tail),
    }
}

fn wildcards_exec(l: &List<AnnProc>) -> (r: List<Name>)
    ensures
        r == wildcards_for(*l),
    decreases l,
{
    match l {
        None => None,
        Some(n) => Some(Box::new(Node { head: Name::ProcVar(Var::Wildcard), tail: wildcards_exec(&n.tail) })),
    }
}

/// The send and the bind group of binding `i`, `b`, on channel `name`.
fn binding_parts(b: LetBinding, name: String, i: usize, let_span: SourceSpan) -> (r: (AnnProc, List<Bind>))
    ensures
        r.0 == binding_send(b, name, i as nat, let_span),
        r.1 == binding_group(b, name, i as nat, let_span),
{
    let ghost gb = b;
    match b {
        LetBinding::Single { lhs, rhs } => {
            let rs = rhs.span;
            let send_pos = SpanContext::variable_span_from_binding(rs, i).start;
            let send_span = SpanContext::synthetic_construct_span(rs, 10);
            let send = AnnProc {
                proc: Proc::Send {
                    channel: Name::ProcVar(Var::Id(Id { name: name.clone(), pos: send_pos })),
                    send_type: SendType::Single,
                    inputs: Some(Box::new(Node { head: *rhs, tail: None })),
                },
                span: send_span,
            };
            let bind = Bind {
                kind: BindKind::Linear,
                lhs: Names { names: Some(Box::new(Node { head: lhs, tail: None })), remainder: None },
                rhs: Name::ProcVar(Var::Id(Id { name, pos: send_pos })),
            };
            (send, Some(Box::new(Node { head: bind, tail: None })))
        },
        LetBinding::Multiple { lhs, rhs } => {
            let rs = match &rhs {
                None => let_span,
                Some(n) => match &n.tail {
                    None => n.head.span,
                    Some(_) => SpanContext::merge_two_spans(n.head.span, last_span_exec(n.head.span, &n.tail)),
                },
            };
            let ls = match &rhs {
                Some(n) => n.head.span,
                None => let_span,
            };
            let more = match &rhs {
                Some(n) => wildcards_exec(&n.tail),
                None => None,
            };
            let send_span = SpanContext::synthetic_construct_span(rs, 10);
            let send = AnnProc {
                proc: Proc::Send {
                    channel: Name::ProcVar(Var::Id(Id { name: name.clone(), pos: SpanContext::variable_span_from_binding(rs, i).start })),
                    send_type: SendType::Single,
                    inputs: rhs,
                },
                span: send_span,
            };
            let bind = Bind {
                kind: BindKind::Linear,
                lhs: Names { names: Some(Box::new(Node { head: Name::ProcVar(lhs), tail: more })), remainder: None },
                rhs: Name::ProcVar(Var::Id(Id { name, pos: SpanContext::variable_span_from_binding(ls, i).start })),
            };
            (send, Some(Box::new(Node { head: bind, tail: None })))
        },
    }
}

/// Normalizes the concurrent `let` of `bindings` in `body` at `let_span`,
/// with `names` as the channels that carry the values: the process
/// `new names in { sends | for (binds) { body } }` normalized and added to
/// `input.par`.
pub fn normalize_p_let_concurrent_with_names(names: Vec<String>, bindings: Vec<LetBinding>, body: AnnProc,
    let_span: SourceSpan, input: ProcVisitInputs, env: &Env) -> (r: Result<ProcVisitOutputs, InterpreterError>)
    requires
        names@.len() == bindings@.len(),
        fits(input.bound_map_chain@, input.free_map@, concurrent_let_size(bindings@, body)),
    ensures
        forall|p: Proc| #[trigger] is_concurrent_let_process(p, names@, bindings@, body, let_span)
            ==> proc_outcome(norm_proc(p, let_span, input.par, input.bound_map_chain@, input.free_map@, *env), r),
{
    let ghost ns = names@;
    let ghost bs = bindings@;
    let ghost gbody = body;
    let mut names = names;
    let mut bindings = bindings;
    let mut sends: Vec<AnnProc> = Vec::new();
    let mut groups: Vec<List<Bind>> = Vec::new();
    let mut decls: Vec<NameDecl> = Vec::new();
    let mut i: usize = 0;
    let count: usize = bindings.len();
    proof {
        assert(bs.len() == count);
        assert(bs.skip(0) =~= bs);
        assert(ns.skip(0) =~= ns);
    }
    while bindings.len() > 0
        invariant
            names@.len() == bindings@.len(),
            ns.len() == bs.len(),
            bs.len() <= usize::MAX,
            i + bindings@.len() == bs.len(),
            bindings@ == bs.skip(i as int),
            names@ == ns.skip(i as int),
            sends@ + let_sends(bindings@, names@, i as nat, let_span) == let_sends(bs, ns, 0, let_span),
            groups@ + let_groups(bindings@, names@, i as nat, let_span) == let_groups(bs, ns, 0, let_span),
            decls@ == let_decls(ns, let_span).take(i as int),
        decreases bindings.len(),
    {
        let ghost (rb, rn) = (bindings@, names@);
        let b = bindings.remove(0);
        let name = names.remove(0);
        let ghost gname = name;
        let pos = SpanContext::variable_span_from_binding(let_span, i).start;
        decls.push(NameDecl { id: Id { name: name.clone(), pos }, uri: None });
        let (send, group) = binding_parts(b, name, i, let_span);
        proof {
            assert(rb.drop_first() =~= bindings@);
            assert(rn.drop_first() =~= names@);
            assert(bindings@ =~= bs.skip(i + 1));
            assert(names@ =~= ns.skip(i + 1));
            assert(rn[0] == ns[i as int]);
            assert(sends@.push(send) + let_sends(bindings@, names@, (i + 1) as nat, let_span)
                =~= sends@ + let_sends(rb, rn, i as nat, let_span));
            assert(groups@.push(group) + let_groups(bindings@, names@, (i + 1) as nat, let_span)
                =~= groups@ + let_groups(rb, rn, i as nat, let_span));
            assert(decls@ =~= let_decls(ns, let_span).take(i + 1));
        }
        sends.push(send);
        groups.push(group);
        i = i + 1;
    }
    proof {
        assert(sends@ + let_sends(bindings@, names@, i as nat, let_span) =~= sends@);
        assert(groups@ + let_groups(bindings@, names@, i as nat, let_span) =~= groups@);
        assert(let_decls(ns, let_span).take(i as int) =~= let_decls(ns, let_span));
    }
    let body_span = body.span;
    let receive = AnnProc {
        proc: Proc::ForComprehension { receipts: vec_to_list(groups), body: Box::new(body) },
        span: body_span,
    };
    sends.push(receive);
    let total: usize = sends.len();
    let ghost all = sends@;
    assert(all.len() == total);
    let mut rest = sends;
    let mut acc = rest.remove(0);
    let mut k: usize = 1;
    proof {
        assert(all.take(1) =~= seq![all[0]]);
        assert(rest@ =~= all.skip(1));
    }
    while rest.len() > 0
        invariant
            1 <= k <= all.len(),
            all.len() <= usize::MAX,
            k + rest@.len() == all.len(),
            rest@ == all.skip(k as int),
            acc == par_fold(all.take(k as int)),
        decreases rest.len(),
    {
        let ghost r0 = rest@;
        let next = rest.remove(0);
        let span = SpanContext::merge_two_spans(acc.span, next.span);
        acc = AnnProc { proc: Proc::Par(Box::new(acc), Box::new(next)), span };
        proof {
            assert(all.take(k + 1).drop_last() =~= all.take(k as int));
            assert(rest@ =~= all.skip(k + 1));
        }
        k = k + 1;
    }
    proof {
        assert(all.take(k as int) =~= all);
    }
    let p = AnnProc { proc: Proc::New { decls, proc: Box::new(acc) }, span: let_span };
    proof {
        assert(is_concurrent_let_process(p.proc, ns, bs, gbody, let_span));
        lemma_concurrent_let_size(p.proc, ns, bs, gbody, let_span);
    }
    let r = normalize_ann_proc(&p, input, env);
    proof {
        assert forall|q: Proc| #[trigger] is_concurrent_let_process(q, ns, bs, gbody, let_span) implies
            norm_proc(q, let_span, input.par, input.bound_map_chain@, input.free_map@, *env)
                == norm_proc(p.proc, let_span, input.par, input.bound_map_chain@, input.free_map@, *env) by {
        }
    }
    r
}

/// `count` identifiers of 36 characters each.
pub open spec fn drawn_identifiers(names: Seq<String>, count: nat) -> bool {
    &&& names.len() == count
    &&& forall|j: int| 0 <= j < names.len() ==> (#[trigger] names[j])@.len() == 36
}

/// Normalizes the concurrent `let` of `bindings` in `body` at `let_span`,
/// with fresh random identifiers as the channels that carry the values (see
/// `normalize_p_let_concurrent_with_names`). Which identifiers are drawn is
/// not stated: they are random, 36 characters long each.
pub fn normalize_p_let_concurrent(bindings: Vec<LetBinding>, body: AnnProc, let_span: SourceSpan, input: ProcVisitInputs,
    env: &Env) -> (r: Result<ProcVisitOutputs, InterpreterError>)
    requires
        fits(input.bound_map_chain@, input.free_map@, concurrent_let_size(bindings@, body)),
    ensures
        exists|names: Seq<String>| {
            &&& #[trigger] drawn_identifiers(names, bindings@.len())
            &&& forall|p: Proc| #[trigger] is_concurrent_let_process(p, names, bindings@, body, let_span)
                ==> proc_outcome(norm_proc(p, let_span, input.par, input.bound_map_chain@, input.free_map@, *env), r)
        },
{
    let mut names: Vec<String> = Vec::new();
    while names.len() < bindings.len()
        invariant
            names@.len() <= bindings@.len(),
            forall|j: int| 0 <= j < names@.len() ==> (#[trigger] names@[j])@.len() == 36,
        decreases bindings@.len() - names@.len(),
    {
        names.push(fresh_identifier());
    }
    let ghost ns = names@;
    assert(drawn_identifiers(ns, bindings@.len()));
    normalize_p_let_concurrent_with_names(names, bindings, body, let_span, input, env)
}

} // verus!
