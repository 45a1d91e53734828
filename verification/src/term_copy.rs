//! Copies of normalized terms, equal to the originals.
use vstd::prelude::*;
use crate::context::ConnectiveInstance;
use crate::term::{copy_indices, Bundle, Expr, List, Match, MatchCase, New, Node, Par, Receive, ReceiveBind, Send};

verus! {

/// A copy of a process.
pub fn copy_par(p: &Par) -> (r: Par)
    ensures
        r == *p,
    decreases p,
{
    Par {
        sends: copy_sends(&p.sends),
        receives: copy_receives(&p.receives),
        news: copy_news(&p.news),
        exprs: copy_exprs(&p.exprs),
        matches: copy_matches(&p.matches),
        bundles: copy_bundles(&p.bundles),
        connectives: copy_connectives(&p.connectives),
        locally_free: copy_indices(&p.locally_free),
        connective_used: p.connective_used,
    }
}

fn copy_opt_par(p: &Option<Box<Par>>) -> (r: Option<Box<Par>>)
    ensures
        r == *p,
    decreases p,
{
    match p {
        None => None,
        Some(b) => Some(Box::new(copy_par(b))),
    }
}

fn copy_send(s: &Send) -> (r: Send)
    ensures
        r == *s,
    decreases s,
{
    Send {
        chan: copy_opt_par(&s.chan),
        data: copy_pars(&s.data),
        persistent: s.persistent,
        locally_free: copy_indices(&s.locally_free),
        connective_used: s.connective_used,
    }
}

fn copy_receive(x: &Receive) -> (r: Receive)
    ensures
        r == *x,
    decreases x,
{
    Receive {
        binds: copy_binds(&x.binds),
        body: copy_opt_par(&x.body),
        persistent: x.persistent,
        peek: x.peek,
        bind_count: x.bind_count,
        locally_free: copy_indices(&x.locally_free),
        connective_used: x.connective_used,
    }
}

fn copy_bind(x: &ReceiveBind) -> (r: ReceiveBind)
    ensures
        r == *x,
    decreases x,
{
    ReceiveBind {
        patterns: copy_pars(&x.patterns),
        source: copy_opt_par(&x.source),
        remainder: x.remainder,
        free_count: x.free_count,
    }
}

fn copy_new(x: &New) -> (r: New)
    ensures
        r == *x,
    decreases x,
{
    New {
        bind_count: x.bind_count,
        p: copy_opt_par(&x.p),
        uri: copy_texts(&x.uri),
        injections: copy_injections(&x.injections),
        locally_free: copy_indices(&x.locally_free),
    }
}

fn copy_expr(x: &Expr) -> (r: Expr)
    ensures
        r == *x,
    decreases x,
{
    match x {
        Expr::GBool(b) => Expr::GBool(*b),
        Expr::GInt(n) => Expr::GInt(*n),
        Expr::GString(s) => Expr::GString(s.clone()),
        Expr::GUri(s) => Expr::GUri(s.clone()),
        Expr::EVar(v) => Expr::EVar(*v),
        Expr::EUnary(op, p) => Expr::EUnary(*op, Box::new(copy_par(p))),
        Expr::EBinary(op, l, r) => Expr::EBinary(*op, Box::new(copy_par(l)), Box::new(copy_par(r))),
        Expr::EList { ps, locally_free, connective_used } =>
            Expr::EList { ps: copy_pars(ps), locally_free: copy_indices(locally_free), connective_used: *connective_used },
    }
}

fn copy_match(x: &Match) -> (r: Match)
    ensures
        r == *x,
    decreases x,
{
    Match {
        target: copy_opt_par(&x.target),
        cases: copy_cases(&x.cases),
        locally_free: copy_indices(&x.locally_free),
        connective_used: x.connective_used,
    }
}

fn copy_case(x: &MatchCase) -> (r: MatchCase)
    ensures
        r == *x,
    decreases x,
{
    MatchCase { pattern: copy_opt_par(&x.pattern), source: copy_opt_par(&x.source), free_count: x.free_count }
}

fn copy_bundle(x: &Bundle) -> (r: Bundle)
    ensures
        r == *x,
    decreases x,
{
    Bundle { body: copy_opt_par(&x.body), write_flag: x.write_flag, read_flag: x.read_flag }
}

pub fn copy_injection(x: &(String, Par)) -> (r: (String, Par))
    ensures
        r == *x,
    decreases x,
{
    (x.0.clone(), copy_par(&x.1))
}

fn copy_text(x: &String) -> (r: String)
    ensures
        r == *x,
{
    x.clone()
}

fn copy_connective(x: &ConnectiveInstance) -> (r: ConnectiveInstance)
    ensures
        r == *x,
{
    *x
}

fn copy_pars(l: &List<Par>) -> (r: List<Par>)
    ensures
        r == *l,
    decreases l,
{
    match l {
        None => None,
        Some(n) => Some(Box::new(Node { head: copy_par(&n.head), tail: copy_pars(&n.tail) })),
    }
}

fn copy_sends(l: &List<Send>) -> (r: List<Send>)
    ensures
        r == *l,
    decreases l,
{
    match l {
        None => None,
        Some(n) => Some(Box::new(Node { head: copy_send(&n.head), tail: copy_sends(&n.tail) })),
    }
}

fn copy_receives(l: &List<Receive>) -> (r: List<Receive>)
    ensures
        r == *l,
    decreases l,
{
    match l {
        None => None,
        Some(n) => Some(Box::new(Node { head: copy_receive(&n.head), tail: copy_receives(&n.tail) })),
    }
}

fn copy_binds(l: &List<ReceiveBind>) -> (r: List<ReceiveBind>)
    ensures
        r == *l,
    decreases l,
{
    match l {
        None => None,
        Some(n) => Some(Box::new(Node { head: copy_bind(&n.head), tail: copy_binds(&n.tail) })),
    }
}

fn copy_news(l: &List<New>) -> (r: List<New>)
    ensures
        r == *l,
    decreases l,
{
    match l {
        None => None,
        Some(n) => Some(Box::new(Node { head: copy_new(&n.head), tail: copy_news(&n.tail) })),
    }
}

fn copy_exprs(l: &List<Expr>) -> (r: List<Expr>)
    ensures
        r == *l,
    decreases l,
{
    match l {
        None => None,
        Some(n) => Some(Box::new(Node { head: copy_expr(&n.head), tail: copy_exprs(&n.tail) })),
    }
}

fn copy_matches(l: &List<Match>) -> (r: List<Match>)
    ensures
        r == *l,
    decreases l,
{
    match l {
        None => None,
        Some(n) => Some(Box::new(Node { head: copy_match(&n.head), tail: copy_matches(&n.tail) })),
    }
}

fn copy_cases(l: &List<MatchCase>) -> (r: List<MatchCase>)
    ensures
        r == *l,
    decreases l,
{
    match l {
        None => None,
        Some(n) => Some(Box::new(Node { head: copy_case(&n.head), tail: copy_cases(&n.tail) })),
    }
}

fn copy_bundles(l: &List<Bundle>) -> (r: List<Bundle>)
    ensures
        r == *l,
    decreases l,
{
    match l {
        None => None,
        Some(n) => Some(Box::new(Node { head: copy_bundle(&n.head), tail: copy_bundles(&n.tail) })),
    }
}

pub fn copy_injections(l: &List<(String, Par)>) -> (r: List<(String, Par)>)
    ensures
        r == *l,
    decreases l,
{
    match l {
        None => None,
        Some(n) => Some(Box::new(Node { head: copy_injection(&n.head), tail: copy_injections(&n.tail) })),
    }
}

fn copy_texts(l: &List<String>) -> (r: List<String>)
    ensures
        r == *l,
    decreases l,
{
    match l {
        None => None,
        Some(n) => Some(Box::new(Node { head: copy_text(&n.head), tail: copy_texts(&n.tail) })),
    }
}

fn copy_connectives(l: &List<ConnectiveInstance>) -> (r: List<ConnectiveInstance>)
    ensures
        r == *l,
    decreases l,
{
    match l {
        None => None,
        Some(n) => Some(Box::new(Node { head: copy_connective(&n.head), tail: copy_connectives(&n.tail) })),
    }
}

} // verus!
