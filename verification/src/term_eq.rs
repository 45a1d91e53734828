//! When two normalized terms are the same: equal in every part, with texts
//! compared by their characters.
use vstd::prelude::*;
use crate::context::ConnectiveInstance;
use crate::term::{Bundle, Expr, Indices, List, Match, MatchCase, New, Par, Receive, ReceiveBind, Send};

verus! {

/// Whether two processes are the same.
pub open spec fn same_par(a: Par, b: Par) -> bool
    decreases a,
{
    &&& same_sends(a.sends, b.sends)
    &&& same_receives(a.receives, b.receives)
    &&& same_news(a.news, b.news)
    &&& same_exprs(a.exprs, b.exprs)
    &&& same_matches(a.matches, b.matches)
    &&& same_bundles(a.bundles, b.bundles)
    &&& a.connectives == b.connectives
    &&& a.locally_free == b.locally_free
    &&& a.connective_used == b.connective_used
}

/// Whether two optional processes are the same.
pub open spec fn same_opt_par(a: Option<Box<Par>>, b: Option<Box<Par>>) -> bool
    decreases a,
{
    match a {
        None => b is None,
        Some(x) => match b {
            Some(y) => same_par(*x, *y),
            None => false,
        },
    }
}

pub open spec fn same_send(a: Send, b: Send) -> bool
    decreases a,
{
    &&& same_opt_par(a.chan, b.chan)
    &&& same_pars(a.data, b.data)
    &&& a.persistent == b.persistent
    &&& a.locally_free == b.locally_free
    &&& a.connective_used == b.connective_used
}

pub open spec fn same_receive(a: Receive, b: Receive) -> bool
    decreases a,
{
    &&& same_binds(a.binds, b.binds)
    &&& same_opt_par(a.body, b.body)
    &&& a.persistent == b.persistent
    &&& a.peek == b.peek
    &&& a.bind_count == b.bind_count
    &&& a.locally_free == b.locally_free
    &&& a.connective_used == b.connective_used
}

pub open spec fn same_bind(a: ReceiveBind, b: ReceiveBind) -> bool
    decreases a,
{
    &&& same_pars(a.patterns, b.patterns)
    &&& same_opt_par(a.source, b.source)
    &&& a.remainder == b.remainder
    &&& a.free_count == b.free_count
}

pub open spec fn same_new(a: New, b: New) -> bool
    decreases a,
{
    &&& a.bind_count == b.bind_count
    &&& same_opt_par(a.p, b.p)
    &&& same_texts(a.uri, b.uri)
    &&& same_injections(a.injections, b.injections)
    &&& a.locally_free == b.locally_free
}

/// Whether two lists of named processes hold the same names and processes.
pub open spec fn same_injections(a: List<(String, Par)>, b: List<(String, Par)>) -> bool
    decreases a,
{
    match a {
        None => b is None,
        Some(x) => match b {
            Some(y) => x.head.0@ == y.head.0@ && same_par(x.head.1, y.head.1) && same_injections(x.tail, y.tail),
            None => false,
        },
    }
}

pub open spec fn same_expr(a: Expr, b: Expr) -> bool
    decreases a,
{
    match a {
        Expr::GBool(x) => match b { Expr::GBool(y) => x == y, _ => false },
        Expr::GInt(x) => match b { Expr::GInt(y) => x == y, _ => false },
        Expr::GString(x) => match b { Expr::GString(y) => x@ == y@, _ => false },
        Expr::GUri(x) => match b { Expr::GUri(y) => x@ == y@, _ => false },
        Expr::EVar(x) => match b { Expr::EVar(y) => x == y, _ => false },
        Expr::EUnary(op, p) => match b {
            Expr::EUnary(op2, q) => op == op2 && same_par(*p, *q),
            _ => false,
        },
        Expr::EBinary(op, l, r) => match b {
            Expr::EBinary(op2, l2, r2) => op == op2 && same_par(*l, *l2) && same_par(*r, *r2),
            _ => false,
        },
        Expr::EList { ps, locally_free, connective_used } => match b {
            Expr::EList { ps: ps2, locally_free: lf2, connective_used: cu2 } =>
                same_pars(ps, ps2) && locally_free == lf2 && connective_used == cu2,
            _ => false,
        },
    }
}

pub open spec fn same_match(a: Match, b: Match) -> bool
    decreases a,
{
    &&& same_opt_par(a.target, b.target)
    &&& same_cases(a.cases, b.cases)
    &&& a.locally_free == b.locally_free
    &&& a.connective_used == b.connective_used
}

pub open spec fn same_case(a: MatchCase, b: MatchCase) -> bool
    decreases a,
{
    &&& same_opt_par(a.pattern, b.pattern)
    &&& same_opt_par(a.source, b.source)
    &&& a.free_count == b.free_count
}

pub open spec fn same_bundle(a: Bundle, b: Bundle) -> bool
    decreases a,
{
    &&& same_opt_par(a.body, b.body)
    &&& a.write_flag == b.write_flag
    &&& a.read_flag == b.read_flag
}

/// Whether two lists of texts hold the same texts.
pub open spec fn same_texts(a: List<String>, b: List<String>) -> bool
    decreases a,
{
    match a {
        None => b is None,
        Some(x) => match b {
            Some(y) => x.head@ == y.head@ && same_texts(x.tail, y.tail),
            None => false,
        },
    }
}

pub open spec fn same_pars(a: List<Par>, b: List<Par>) -> bool
    decreases a,
{
    match a {
        None => b is None,
        Some(x) => match b {
            Some(y) => same_par(x.head, y.head) && same_pars(x.tail, y.tail),
            None => false,
        },
    }
}

pub open spec fn same_sends(a: List<Send>, b: List<Send>) -> bool
    decreases a,
{
    match a {
        None => b is None,
        Some(x) => match b {
            Some(y) => same_send(x.head, y.head) && same_sends(x.tail, y.tail),
            None => false,
        },
    }
}

pub open spec fn same_receives(a: List<Receive>, b: List<Receive>) -> bool
    decreases a,
{
    match a {
        None => b is None,
        Some(x) => match b {
            Some(y) => same_receive(x.head, y.head) && same_receives(x.tail, y.tail),
            None => false,
        },
    }
}

pub open spec fn same_binds(a: List<ReceiveBind>, b: List<ReceiveBind>) -> bool
    decreases a,
{
    match a {
        None => b is None,
        Some(x) => match b {
            Some(y) => same_bind(x.head, y.head) && same_binds(x.tail, y.tail),
            None => false,
        },
    }
}

pub open spec fn same_news(a: List<New>, b: List<New>) -> bool
    decreases a,
{
    match a {
        None => b is None,
        Some(x) => match b {
            Some(y) => same_new(x.head, y.head) && same_news(x.tail, y.tail),
            None => false,
        },
    }
}

pub open spec fn same_exprs(a: List<Expr>, b: List<Expr>) -> bool
    decreases a,
{
    match a {
        None => b is None,
        Some(x) => match b {
            Some(y) => same_expr(x.head, y.head) && same_exprs(x.tail, y.tail),
            None => false,
        },
    }
}

pub open spec fn same_matches(a: List<Match>, b: List<Match>) -> bool
    decreases a,
{
    match a {
        None => b is None,
        Some(x) => match b {
            Some(y) => same_match(x.head, y.head) && same_matches(x.tail, y.tail),
            None => false,
        },
    }
}

pub open spec fn same_cases(a: List<MatchCase>, b: List<MatchCase>) -> bool
    decreases a,
{
    match a {
        None => b is None,
        Some(x) => match b {
            Some(y) => same_case(x.head, y.head) && same_cases(x.tail, y.tail),
            None => false,
        },
    }
}

pub open spec fn same_bundles(a: List<Bundle>, b: List<Bundle>) -> bool
    decreases a,
{
    match a {
        None => b is None,
        Some(x) => match b {
            Some(y) => same_bundle(x.head, y.head) && same_bundles(x.tail, y.tail),
            None => false,
        },
    }
}

/// Whether two processes are the same.
pub fn par_eq(a: &Par, b: &Par) -> (r: bool)
    ensures
        r == same_par(*a, *b),
    decreases a,
{
    sends_eq(&a.sends, &b.sends) && receives_eq(&a.receives, &b.receives) && news_eq(&a.news, &b.news)
        && exprs_eq(&a.exprs, &b.exprs) && matches_eq(&a.matches, &b.matches) && bundles_eq(&a.bundles, &b.bundles)
        && connectives_eq(&a.connectives, &b.connectives) && indices_eq(&a.locally_free, &b.locally_free)
        && a.connective_used == b.connective_used
}

fn opt_par_eq(a: &Option<Box<Par>>, b: &Option<Box<Par>>) -> (r: bool)
    ensures
        r == same_opt_par(*a, *b),
    decreases a,
{
    match a {
        None => b.is_none(),
        Some(x) => match b {
            Some(y) => par_eq(x, y),
            None => false,
        },
    }
}

fn send_eq(a: &Send, b: &Send) -> (r: bool)
    ensures
        r == same_send(*a, *b),
    decreases a,
{
    opt_par_eq(&a.chan, &b.chan) && pars_eq(&a.data, &b.data) && a.persistent == b.persistent
        && indices_eq(&a.locally_free, &b.locally_free) && a.connective_used == b.connective_used
}

fn receive_eq(a: &Receive, b: &Receive) -> (r: bool)
    ensures
        r == same_receive(*a, *b),
    decreases a,
{
    binds_eq(&a.binds, &b.binds) && opt_par_eq(&a.body, &b.body) && a.persistent == b.persistent && a.peek == b.peek
        && a.bind_count == b.bind_count && indices_eq(&a.locally_free, &b.locally_free)
        && a.connective_used == b.connective_used
}

fn bind_eq(a: &ReceiveBind, b: &ReceiveBind) -> (r: bool)
    ensures
        r == same_bind(*a, *b),
    decreases a,
{
    pars_eq(&a.patterns, &b.patterns) && opt_par_eq(&a.source, &b.source) && a.remainder == b.remainder
        && a.free_count == b.free_count
}

fn new_eq(a: &New, b: &New) -> (r: bool)
    ensures
        r == same_new(*a, *b),
    decreases a,
{
    a.bind_count == b.bind_count && opt_par_eq(&a.p, &b.p) && texts_eq(&a.uri, &b.uri)
        && injections_eq(&a.injections, &b.injections) && indices_eq(&a.locally_free, &b.locally_free)
}

fn expr_eq(a: &Expr, b: &Expr) -> (r: bool)
    ensures
        r == same_expr(*a, *b),
    decreases a,
{
    match a {
        Expr::GBool(x) => match b {
            Expr::GBool(y) => *x == *y,
            _ => false,
        },
        Expr::GInt(x) => match b { Expr::GInt(y) => *x == *y, _ => false },
        Expr::GString(x) => match b { Expr::GString(y) => x.eq(y), _ => false },
        Expr::GUri(x) => match b { Expr::GUri(y) => x.eq(y), _ => false },
        Expr::EVar(x) => match b { Expr::EVar(y) => *x == *y, _ => false },
        Expr::EUnary(op, p) => match b {
            Expr::EUnary(op2, q) => *op == *op2 && par_eq(p, q),
            _ => false,
        },
        Expr::EBinary(op, l, r) => match b {
            Expr::EBinary(op2, l2, r2) => *op == *op2 && par_eq(l, l2) && par_eq(r, r2),
            _ => false,
        },
        Expr::EList { ps, locally_free, connective_used } => match b {
            Expr::EList { ps: ps2, locally_free: lf2, connective_used: cu2 } =>
                pars_eq(ps, ps2) && indices_eq(locally_free, lf2) && *connective_used == *cu2,
            _ => false,
        },
    }
}

fn match_eq(a: &Match, b: &Match) -> (r: bool)
    ensures
        r == same_match(*a, *b),
    decreases a,
{
    opt_par_eq(&a.target, &b.target) && cases_eq(&a.cases, &b.cases) && indices_eq(&a.locally_free, &b.locally_free)
        && a.connective_used == b.connective_used
}

fn case_eq(a: &MatchCase, b: &MatchCase) -> (r: bool)
    ensures
        r == same_case(*a, *b),
    decreases a,
{
    opt_par_eq(&a.pattern, &b.pattern) && opt_par_eq(&a.source, &b.source) && a.free_count == b.free_count
}

fn bundle_eq(a: &Bundle, b: &Bundle) -> (r: bool)
    ensures
        r == same_bundle(*a, *b),
    decreases a,
{
    opt_par_eq(&a.body, &b.body) && a.write_flag == b.write_flag && a.read_flag == b.read_flag
}

fn injections_eq(a: &List<(String, Par)>, b: &List<(String, Par)>) -> (r: bool)
    ensures
        r == same_injections(*a, *b),
    decreases a,
{
    match a {
        None => b.is_none(),
        Some(x) => match b {
            Some(y) => x.head.0.eq(&y.head.0) && par_eq(&x.head.1, &y.head.1) && injections_eq(&x.tail, &y.tail),
            None => false,
        },
    }
}

fn texts_eq(a: &List<String>, b: &List<String>) -> (r: bool)
    ensures
        r == same_texts(*a, *b),
    decreases a,
{
    match a {
        None => b.is_none(),
        Some(x) => match b {
            Some(y) => x.head.eq(&y.head) && texts_eq(&x.tail, &y.tail),
            None => false,
        },
    }
}

fn connectives_eq(a: &List<ConnectiveInstance>, b: &List<ConnectiveInstance>) -> (r: bool)
    ensures
        r == (*a == *b),
    decreases a,
{
    match a {
        None => b.is_none(),
        Some(x) => match b {
            Some(y) => x.head == y.head && connectives_eq(&x.tail, &y.tail),
            None => false,
        },
    }
}

fn indices_eq(a: &Indices, b: &Indices) -> (r: bool)
    ensures
        r == (*a == *b),
    decreases a,
{
    match a {
        Indices::Nil => match b { Indices::Nil => true, _ => false },
        Indices::Cons(x, rest) => match b {
            Indices::Cons(y, rest2) => *x == *y && indices_eq(rest, rest2),
            _ => false,
        },
    }
}

fn pars_eq(a: &List<Par>, b: &List<Par>) -> (r: bool)
    ensures
        r == same_pars(*a, *b),
    decreases a,
{
    match a {
        None => b.is_none(),
        Some(x) => match b {
            Some(y) => par_eq(&x.head, &y.head) && pars_eq(&x.tail, &y.tail),
            None => false,
        },
    }
}

fn sends_eq(a: &List<Send>, b: &List<Send>) -> (r: bool)
    ensures
        r == same_sends(*a, *b),
    decreases a,
{
    match a {
        None => b.is_none(),
        Some(x) => match b {
            Some(y) => send_eq(&x.head, &y.head) && sends_eq(&x.tail, &y.tail),
            None => false,
        },
    }
}

fn receives_eq(a: &List<Receive>, b: &List<Receive>) -> (r: bool)
    ensures
        r == same_receives(*a, *b),
    decreases a,
{
    match a {
        None => b.is_none(),
        Some(x) => match b {
            Some(y) => receive_eq(&x.head, &y.head) && receives_eq(&x.tail, &y.tail),
            None => false,
        },
    }
}

fn binds_eq(a: &List<ReceiveBind>, b: &List<ReceiveBind>) -> (r: bool)
    ensures
        r == same_binds(*a, *b),
    decreases a,
{
    match a {
        None => b.is_none(),
        Some(x) => match b {
            Some(y) => bind_eq(&x.head, &y.head) && binds_eq(&x.tail, &y.tail),
            None => false,
        },
    }
}

fn news_eq(a: &List<New>, b: &List<New>) -> (r: bool)
    ensures
        r == same_news(*a, *b),
    decreases a,
{
    match a {
        None => b.is_none(),
        Some(x) => match b {
            Some(y) => new_eq(&x.head, &y.head) && news_eq(&x.tail, &y.tail),
            None => false,
        },
    }
}

fn exprs_eq(a: &List<Expr>, b: &List<Expr>) -> (r: bool)
    ensures
        r == same_exprs(*a, *b),
    decreases a,
{
    match a {
        None => b.is_none(),
        Some(x) => match b {
            Some(y) => expr_eq(&x.head, &y.head) && exprs_eq(&x.tail, &y.tail),
            None => false,
        },
    }
}

fn matches_eq(a: &List<Match>, b: &List<Match>) -> (r: bool)
    ensures
        r == same_matches(*a, *b),
    decreases a,
{
    match a {
        None => b.is_none(),
        Some(x) => match b {
            Some(y) => match_eq(&x.head, &y.head) && matches_eq(&x.tail, &y.tail),
            None => false,
        },
    }
}

fn cases_eq(a: &List<MatchCase>, b: &List<MatchCase>) -> (r: bool)
    ensures
        r == same_cases(*a, *b),
    decreases a,
{
    match a {
        None => b.is_none(),
        Some(x) => match b {
            Some(y) => case_eq(&x.head, &y.head) && cases_eq(&x.tail, &y.tail),
            None => false,
        },
    }
}

fn bundles_eq(a: &List<Bundle>, b: &List<Bundle>) -> (r: bool)
    ensures
        r == same_bundles(*a, *b),
    decreases a,
{
    match a {
        None => b.is_none(),
        Some(x) => match b {
            Some(y) => bundle_eq(&x.head, &y.head) && bundles_eq(&x.tail, &y.tail),
            None => false,
        },
    }
}

} // verus!
