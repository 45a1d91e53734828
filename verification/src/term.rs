//! Normalized processes: the terms the normalizer builds, with the set of
//! bound variables each term leaves free (its locally free indices) and
//! whether it uses a logical connective or a pattern variable.
use vstd::prelude::*;
use crate::context::ConnectiveInstance;
use crate::normalize::VarInstance;

verus! {

/// One cell of a list: an item and the rest.
#[derive(Debug, PartialEq, Eq)]
pub struct Node<T> {
    pub head: T,
    pub tail: List<T>,
}

/// A list built from the front: `None` is empty.
pub type List<T> = Option<Box<Node<T>>>;

/// The list `l` with `x` in front.
pub open spec fn cons<T>(x: T, l: List<T>) -> List<T> {
    Some(Box::new(Node { head: x, tail: l }))
}

/// The items of `l`, first to last.
pub open spec fn list_items<T>(l: List<T>) -> Seq<T>
    decreases l,
{
    match l {
        None => Seq::empty(),
        Some(n) => seq![n.head] + list_items(n.tail),
    }
}

/// The list `l` with `x` in front.
pub fn push_front<T>(x: T, l: List<T>) -> (r: List<T>)
    ensures
        r == cons(x, l),
{
    Some(Box::new(Node { head: x, tail: l }))
}

/// The binary operators of expressions.
#[derive(Clone, Copy, Debug, PartialEq, Eq, Structural)]
pub enum BinaryOp {
    Plus,
    Minus,
    Mult,
    Div,
    Mod,
    Eq,
    Neq,
    Lt,
    Lte,
    Gt,
    Gte,
    PlusPlus,
    MinusMinus,
    Or,
    And,
    PercentPercent,
}

/// The unary operators of expressions: `not` and `-`.
#[derive(Clone, Copy, Debug, PartialEq, Eq, Structural)]
pub enum UnaryOp {
    Not,
    Neg,
}

/// An expression.
#[derive(Debug, PartialEq, Eq)]
pub enum Expr {
    GBool(bool),
    GInt(i64),
    GString(String),
    GUri(String),
    EVar(VarInstance),
    EUnary(UnaryOp, Box<Par>),
    EBinary(BinaryOp, Box<Par>, Box<Par>),
    /// A list of processes, with what they leave free and whether one uses
    /// a connective.
    EList { ps: List<Par>, locally_free: Indices, connective_used: bool },
}

/// A send of `data` on `chan`; `persistent` for `!!`.
#[derive(Debug, PartialEq, Eq)]
pub struct Send {
    pub chan: Option<Box<Par>>,
    pub data: List<Par>,
    pub persistent: bool,
    pub locally_free: Indices,
    pub connective_used: bool,
}

/// A bundle around `body`, with what it lets through.
#[derive(Debug, PartialEq, Eq)]
pub struct Bundle {
    pub body: Option<Box<Par>>,
    pub write_flag: bool,
    pub read_flag: bool,
}

/// One case of a match: its pattern, its body, and the number of free
/// variables its pattern binds.
#[derive(Debug, PartialEq, Eq)]
pub struct MatchCase {
    pub pattern: Option<Box<Par>>,
    pub source: Option<Box<Par>>,
    pub free_count: usize,
}

/// A match of `target` against `cases`, tried in order.
#[derive(Debug, PartialEq, Eq)]
pub struct Match {
    pub target: Option<Box<Par>>,
    pub cases: List<MatchCase>,
    pub locally_free: Indices,
    pub connective_used: bool,
}

/// One bind of a receive: the patterns of the names it binds, the channel,
/// the remainder variable, and the number of free variables its patterns
/// bind.
#[derive(Debug, PartialEq, Eq)]
pub struct ReceiveBind {
    pub patterns: List<Par>,
    pub source: Option<Box<Par>>,
    pub remainder: Option<VarInstance>,
    pub free_count: usize,
}

/// A receive: its binds, its body, whether it persists or only peeks, the
/// number of variables its binds bind, what it leaves free, and whether it
/// uses a connective.
#[derive(Debug, PartialEq, Eq)]
pub struct Receive {
    pub binds: List<ReceiveBind>,
    pub body: Option<Box<Par>>,
    pub persistent: bool,
    pub peek: bool,
    pub bind_count: usize,
    pub locally_free: Indices,
    pub connective_used: bool,
}

/// `new` names `in` a body: the number of names it binds, the body, the
/// URIs of its system names in binding order, the processes the environment
/// of the normalizer binds to names (by name, in increasing order), and what
/// the body leaves free outside the new names.
#[derive(Debug, PartialEq, Eq)]
pub struct New {
    pub bind_count: usize,
    pub p: Option<Box<Par>>,
    pub uri: List<String>,
    pub injections: List<(String, Par)>,
    pub locally_free: Indices,
}

/// A process: everything that runs in parallel in it, by kind, newest first,
/// with the indices it leaves free (in increasing order) and whether a
/// connective or pattern variable occurs in it.
#[derive(Debug, PartialEq, Eq)]
pub struct Par {
    pub sends: List<Send>,
    pub receives: List<Receive>,
    pub news: List<New>,
    pub exprs: List<Expr>,
    pub matches: List<Match>,
    pub bundles: List<Bundle>,
    pub connectives: List<ConnectiveInstance>,
    pub locally_free: Indices,
    pub connective_used: bool,
}

/// A set of indices, as a list in increasing order.
#[derive(Debug, PartialEq, Eq)]
pub enum Indices {
    Nil,
    Cons(usize, Box<Indices>),
}

/// The process that does nothing.
pub open spec fn nil_par() -> Par {
    Par {
        sends: None,
        receives: None,
        news: None,
        exprs: None,
        matches: None,
        bundles: None,
        connectives: None,
        locally_free: Indices::Nil,
        connective_used: false,
    }
}

/// The process that does nothing.
pub fn empty_par() -> (r: Par)
    ensures
        r == nil_par(),
{
    Par {
        sends: None,
        receives: None,
        news: None,
        exprs: None,
        matches: None,
        bundles: None,
        connectives: None,
        locally_free: Indices::Nil,
        connective_used: false,
    }
}

// ---- sets of indices, as increasing lists ----

/// The members of an index list.
pub open spec fn members(l: Indices) -> Set<int>
    decreases l,
{
    match l {
        Indices::Nil => Set::empty(),
        Indices::Cons(x, rest) => members(*rest).insert(x as int),
    }
}

/// The members of `l` from `k` on, each moved down by `k`, in order: what
/// a term leaves free outside the `k` binders of its pattern.
pub open spec fn drop_bound(l: Indices, k: usize) -> Indices
    decreases l,
{
    match l {
        Indices::Nil => Indices::Nil,
        Indices::Cons(x, rest) => if x >= k {
            Indices::Cons((x - k) as usize, Box::new(drop_bound(*rest, k)))
        } else {
            drop_bound(*rest, k)
        },
    }
}

/// Dropping the bound indices keeps exactly the members from `k` on, moved
/// down by `k`.
pub proof fn lemma_drop_bound_members(l: Indices, k: usize)
    ensures
        members(drop_bound(l, k)) == crate::subset::shifted_down(members(l), k as int),
    decreases l,
{
    match l {
        Indices::Nil => {
            assert(members(drop_bound(l, k)) =~= crate::subset::shifted_down(members(l), k as int));
        },
        Indices::Cons(x, rest) => {
            lemma_drop_bound_members(*rest, k);
            assert(members(drop_bound(l, k)) =~= crate::subset::shifted_down(members(l), k as int));
        },
    }
}

/// The members of `l` from `k` on, each moved down by `k`, in order.
pub fn drop_bound_indices(l: &Indices, k: usize) -> (r: Indices)
    ensures
        r == drop_bound(*l, k),
    decreases l,
{
    match l {
        Indices::Nil => Indices::Nil,
        Indices::Cons(x, rest) => if *x >= k {
            Indices::Cons(*x - k, Box::new(drop_bound_indices(rest, k)))
        } else {
            drop_bound_indices(rest, k)
        },
    }
}

/// Whether an index list is strictly increasing.
pub open spec fn increasing(l: Indices) -> bool
    decreases l,
{
    match l {
        Indices::Nil => true,
        Indices::Cons(x, rest) => increasing(*rest) && match *rest {
            Indices::Nil => true,
            Indices::Cons(y, _) => x < y,
        },
    }
}

/// Whether every member of `l` is above `x`.
pub open spec fn all_above(l: Indices, x: usize) -> bool {
    forall|y: int| #[trigger] members(l).contains(y) ==> x < y
}

/// The union of two increasing index lists, merged in increasing order.
pub open spec fn union(a: Indices, b: Indices) -> Indices
    decreases a, b,
{
    match a {
        Indices::Nil => b,
        Indices::Cons(x, ta) => match b {
            Indices::Nil => a,
            Indices::Cons(y, tb) => if x < y {
                Indices::Cons(x, Box::new(union(*ta, b)))
            } else if y < x {
                Indices::Cons(y, Box::new(union(a, *tb)))
            } else {
                Indices::Cons(x, Box::new(union(*ta, *tb)))
            },
        },
    }
}

/// The union of two index lists holds the members of both.
pub proof fn lemma_union_members(a: Indices, b: Indices)
    ensures
        members(union(a, b)) == members(a).union(members(b)),
    decreases a, b,
{
    match a {
        Indices::Nil => {
            assert(members(union(a, b)) =~= members(a).union(members(b)));
        },
        Indices::Cons(x, ta) => match b {
            Indices::Nil => {
                assert(members(union(a, b)) =~= members(a).union(members(b)));
            },
            Indices::Cons(y, tb) => {
                if x < y {
                    lemma_union_members(*ta, b);
                } else if y < x {
                    lemma_union_members(a, *tb);
                } else {
                    lemma_union_members(*ta, *tb);
                }
                assert(members(union(a, b)) =~= members(a).union(members(b)));
            },
        },
    }
}

proof fn lemma_all_above_of_increasing(l: Indices, x: usize)
    requires
        increasing(Indices::Cons(x, Box::new(l))),
    ensures
        all_above(l, x),
    decreases l,
{
    match l {
        Indices::Nil => {},
        Indices::Cons(y, rest) => {
            match *rest {
                Indices::Nil => {},
                Indices::Cons(z, _) => {
                    lemma_all_above_of_increasing(*rest, y);
                },
            }
            assert forall|w: int| #[trigger] members(l).contains(w) implies x < w by {
                if w != y as int {
                    assert(members(*rest).contains(w));
                    match *rest {
                        Indices::Nil => {},
                        Indices::Cons(z, _) => {
                            lemma_all_above_of_increasing(*rest, y);
                        },
                    }
                }
            }
        },
    }
}

proof fn lemma_cons_increasing(l: Indices, x: usize)
    requires
        increasing(l),
        all_above(l, x),
    ensures
        increasing(Indices::Cons(x, Box::new(l))),
{
    match l {
        Indices::Nil => {},
        Indices::Cons(y, _) => {
            assert(members(l).contains(y as int));
        },
    }
}

/// The union of two increasing index lists is increasing.
pub proof fn lemma_union_increasing(a: Indices, b: Indices)
    requires
        increasing(a),
        increasing(b),
    ensures
        increasing(union(a, b)),
    decreases a, b,
{
    match a {
        Indices::Nil => {},
        Indices::Cons(x, ta) => match b {
            Indices::Nil => {},
            Indices::Cons(y, tb) => {
                lemma_all_above_of_increasing(*ta, x);
                lemma_all_above_of_increasing(*tb, y);
                if x < y {
                    lemma_union_increasing(*ta, b);
                    lemma_union_members(*ta, b);
                    assert forall|w: int| #[trigger] members(union(*ta, b)).contains(w) implies x < w by {
                        if members(b).contains(w) && w != y as int {
                            assert(members(*tb).contains(w));
                        }
                    }
                    lemma_cons_increasing(union(*ta, b), x);
                } else if y < x {
                    lemma_union_increasing(a, *tb);
                    lemma_union_members(a, *tb);
                    assert forall|w: int| #[trigger] members(union(a, *tb)).contains(w) implies y < w by {
                        if members(a).contains(w) && w != x as int {
                            assert(members(*ta).contains(w));
                        }
                    }
                    lemma_cons_increasing(union(a, *tb), y);
                } else {
                    lemma_union_increasing(*ta, *tb);
                    lemma_union_members(*ta, *tb);
                    lemma_cons_increasing(union(*ta, *tb), x);
                }
            },
        },
    }
}

/// The union of two index lists, merged in increasing order.
pub fn union_indices(a: &Indices, b: &Indices) -> (r: Indices)
    ensures
        r == union(*a, *b),
    decreases a, b,
{
    match a {
        Indices::Nil => copy_indices(b),
        Indices::Cons(x, ta) => match b {
            Indices::Nil => copy_indices(a),
            Indices::Cons(y, tb) => if *x < *y {
                Indices::Cons(*x, Box::new(union_indices(ta, b)))
            } else if *y < *x {
                Indices::Cons(*y, Box::new(union_indices(a, tb)))
            } else {
                Indices::Cons(*x, Box::new(union_indices(ta, tb)))
            },
        },
    }
}

/// A copy of an index list.
pub fn copy_indices(l: &Indices) -> (r: Indices)
    ensures
        r == *l,
    decreases l,
{
    match l {
        Indices::Nil => Indices::Nil,
        Indices::Cons(x, rest) => Indices::Cons(*x, Box::new(copy_indices(rest))),
    }
}

// ---- what a term leaves free, and whether it uses connectives ----

/// The indices a variable leaves free at pattern depth `depth`: a bound
/// variable outside any pattern leaves its own index free; nothing else does.
pub open spec fn var_locally_free(v: VarInstance, depth: usize) -> Indices {
    match v {
        VarInstance::BoundVar(i) => if depth == 0 { Indices::Cons(i, Box::new(Indices::Nil)) } else { Indices::Nil },
        _ => Indices::Nil,
    }
}

/// The indices an expression leaves free at pattern depth `depth`.
pub open spec fn expr_locally_free(e: Expr, depth: usize) -> Indices {
    match e {
        Expr::EVar(v) => var_locally_free(v, depth),
        Expr::EUnary(_, p) => p.locally_free,
        Expr::EBinary(_, l, r) => union(l.locally_free, r.locally_free),
        Expr::EList { locally_free, .. } => locally_free,
        _ => Indices::Nil,
    }
}

/// Whether an expression uses a pattern variable or a connective: a free
/// variable or a wildcard does, and so does an operator on a term that does.
pub open spec fn expr_connective_used(e: Expr) -> bool {
    match e {
        Expr::EVar(v) => !(v is BoundVar),
        Expr::EUnary(_, p) => p.connective_used,
        Expr::EBinary(_, l, r) => l.connective_used || r.connective_used,
        Expr::EList { connective_used, .. } => connective_used,
        _ => false,
    }
}

/// The indices a connective leaves free at pattern depth `depth`: a
/// reference `=x` to a variable of the current pattern level leaves its index
/// free; nothing else does.
pub open spec fn connective_locally_free(c: ConnectiveInstance, depth: usize) -> Indices {
    match c {
        ConnectiveInstance::VarRefBody(r) => if r.depth == depth { Indices::Cons(r.index, Box::new(Indices::Nil)) } else { Indices::Nil },
        _ => Indices::Nil,
    }
}

/// Whether a connective counts as a use of connectives: every one does but a
/// variable reference.
pub open spec fn connective_is_used(c: ConnectiveInstance) -> bool {
    !(c is VarRefBody)
}

// ---- adding a part to a process ----

/// `p` with the expression `e` in front of its expressions.
pub open spec fn prepend_expr_spec(p: Par, e: Expr, depth: usize) -> Par {
    Par {
        exprs: cons(e, p.exprs),
        locally_free: union(p.locally_free, expr_locally_free(e, depth)),
        connective_used: p.connective_used || expr_connective_used(e),
        ..p
    }
}

/// `p` with the connective `c` in front of its connectives.
pub open spec fn prepend_connective_spec(p: Par, c: ConnectiveInstance, depth: usize) -> Par {
    Par {
        connectives: cons(c, p.connectives),
        locally_free: union(p.locally_free, connective_locally_free(c, depth)),
        connective_used: p.connective_used || connective_is_used(c),
        ..p
    }
}

/// `p` with the send `s` in front of its sends.
pub open spec fn prepend_send_spec(p: Par, s: Send) -> Par {
    Par {
        locally_free: union(p.locally_free, s.locally_free),
        connective_used: p.connective_used || s.connective_used,
        sends: cons(s, p.sends),
        ..p
    }
}

/// `p` with the match `m` in front of its matches.
pub open spec fn prepend_match_spec(p: Par, m: Match) -> Par {
    Par {
        locally_free: union(p.locally_free, m.locally_free),
        connective_used: p.connective_used || m.connective_used,
        matches: cons(m, p.matches),
        ..p
    }
}

/// The indices the body of a bundle leaves free.
pub open spec fn body_locally_free(b: Bundle) -> Indices {
    match b.body {
        Some(body) => body.locally_free,
        None => Indices::Nil,
    }
}

/// `p` with the bundle `b` in front of its bundles; a bundle leaves free what
/// its body leaves free.
pub open spec fn prepend_bundle_spec(p: Par, b: Bundle) -> Par {
    Par {
        locally_free: union(p.locally_free, body_locally_free(b)),
        bundles: cons(b, p.bundles),
        ..p
    }
}

/// `p` with the `new` `n` in front of its news; a `new` uses a connective
/// when its body does.
pub open spec fn prepend_new_spec(p: Par, n: New) -> Par {
    Par {
        locally_free: union(p.locally_free, n.locally_free),
        connective_used: p.connective_used || (n.p matches Some(b) && b.connective_used),
        news: cons(n, p.news),
        ..p
    }
}

/// `p` with the receive `r` in front of its receives.
pub open spec fn prepend_receive_spec(p: Par, r: Receive) -> Par {
    Par {
        locally_free: union(p.locally_free, r.locally_free),
        connective_used: p.connective_used || r.connective_used,
        receives: cons(r, p.receives),
        ..p
    }
}

/// `p` with the receive `r` in front of its receives.
pub fn prepend_receive(p: Par, r: Receive) -> (res: Par)
    ensures
        res == prepend_receive_spec(p, r),
{
    let locally_free = union_indices(&p.locally_free, &r.locally_free);
    let used = p.connective_used || r.connective_used;
    Par {
        sends: p.sends,
        receives: push_front(r, p.receives),
        news: p.news,
        exprs: p.exprs,
        matches: p.matches,
        bundles: p.bundles,
        connectives: p.connectives,
        locally_free,
        connective_used: used,
    }
}

/// The items of `s`, first to last, as a list.
pub open spec fn seq_to_list<T>(s: Seq<T>) -> List<T>
    decreases s.len(),
{
    if s.len() == 0 {
        None
    } else {
        cons(s[0], seq_to_list(s.drop_first()))
    }
}

/// The items of `v`, first to last, as a list.
pub fn vec_to_list<T>(v: Vec<T>) -> (r: List<T>)
    ensures
        r == seq_to_list(v@),
{
    let ghost all = v@;
    let mut v = v;
    let mut acc: List<T> = None;
    proof {
        assert(all.subrange(all.len() as int, all.len() as int).len() == 0);
    }
    while v.len() > 0
        invariant
            v@ == all.subrange(0, v@.len() as int),
            v@.len() <= all.len(),
            acc == seq_to_list(all.subrange(v@.len() as int, all.len() as int)),
        decreases v@.len(),
    {
        let ghost i = v@.len() as int;
        let x = v.pop().unwrap();
        proof {
            assert(all.subrange(i - 1, all.len() as int).drop_first() =~= all.subrange(i, all.len() as int));
            assert(all.subrange(i - 1, all.len() as int)[0] == x);
            assert(v@ =~= all.subrange(0, i - 1));
        }
        acc = push_front(x, acc);
    }
    proof {
        assert(all.subrange(0, all.len() as int) =~= all);
    }
    acc
}

/// `p` with the `new` `n` in front of its news.
pub fn prepend_new(p: Par, n: New) -> (r: Par)
    ensures
        r == prepend_new_spec(p, n),
{
    let locally_free = union_indices(&p.locally_free, &n.locally_free);
    let body_used = match &n.p {
        Some(b) => b.connective_used,
        None => false,
    };
    Par {
        sends: p.sends,
        receives: p.receives,
        news: push_front(n, p.news),
        exprs: p.exprs,
        matches: p.matches,
        bundles: p.bundles,
        connectives: p.connectives,
        locally_free,
        connective_used: p.connective_used || body_used,
    }
}

/// The list `a` followed by the list `b`.
pub open spec fn concat<T>(a: List<T>, b: List<T>) -> List<T>
    decreases a,
{
    match a {
        None => b,
        Some(n) => cons(n.head, concat(n.tail, b)),
    }
}

/// A list followed by nothing is the list itself.
pub proof fn lemma_concat_nil<T>(a: List<T>)
    ensures
        concat(a, None) == a,
    decreases a,
{
    match a {
        None => {},
        Some(n) => {
            lemma_concat_nil(n.tail);
        },
    }
}

/// A process run in parallel with nothing is itself.
pub proof fn lemma_append_to_nil(q: Par)
    ensures
        append_spec(nil_par(), q) == q,
{
    lemma_concat_nil(q.sends);
    lemma_concat_nil(q.receives);
    lemma_concat_nil(q.news);
    lemma_concat_nil(q.exprs);
    lemma_concat_nil(q.matches);
    lemma_concat_nil(q.bundles);
    lemma_concat_nil(q.connectives);
    assert(union(q.locally_free, Indices::Nil) == q.locally_free);
}

/// `p` and `q` run in parallel: the parts of `q` come first, then those of
/// `p`, each kind on its own.
pub open spec fn append_spec(p: Par, q: Par) -> Par {
    Par {
        sends: concat(q.sends, p.sends),
        receives: concat(q.receives, p.receives),
        news: concat(q.news, p.news),
        exprs: concat(q.exprs, p.exprs),
        matches: concat(q.matches, p.matches),
        bundles: concat(q.bundles, p.bundles),
        connectives: concat(q.connectives, p.connectives),
        locally_free: union(q.locally_free, p.locally_free),
        connective_used: q.connective_used || p.connective_used,
    }
}

fn concat_lists<T>(a: List<T>, b: List<T>) -> (r: List<T>)
    ensures
        r == concat(a, b),
    decreases a,
{
    match a {
        None => b,
        Some(n) => {
            let node = *n;
            Some(Box::new(Node { head: node.head, tail: concat_lists(node.tail, b) }))
        },
    }
}

/// The indices an expression leaves free at pattern depth `depth`.
fn expr_locally_free_exec(e: &Expr, depth: usize) -> (r: Indices)
    ensures
        r == expr_locally_free(*e, depth),
{
    match e {
        Expr::EVar(VarInstance::BoundVar(i)) => if depth == 0 { Indices::Cons(*i, Box::new(Indices::Nil)) } else { Indices::Nil },
        Expr::EUnary(_, p) => copy_indices(&p.locally_free),
        Expr::EBinary(_, l, r) => union_indices(&l.locally_free, &r.locally_free),
        Expr::EList { locally_free, .. } => copy_indices(locally_free),
        _ => Indices::Nil,
    }
}

/// `p` with the expression `e` in front of its expressions, at pattern
/// depth `depth`.
pub fn prepend_expr(p: Par, e: Expr, depth: usize) -> (r: Par)
    ensures
        r == prepend_expr_spec(p, e, depth),
{
    let lf = expr_locally_free_exec(&e, depth);
    let used = match &e {
        Expr::EVar(VarInstance::BoundVar(_)) => false,
        Expr::EVar(_) => true,
        Expr::EUnary(_, q) => q.connective_used,
        Expr::EBinary(_, l, r) => l.connective_used || r.connective_used,
        Expr::EList { connective_used, .. } => *connective_used,
        _ => false,
    };
    let locally_free = union_indices(&p.locally_free, &lf);
    Par {
        sends: p.sends,
        receives: p.receives,
        news: p.news,
        exprs: push_front(e, p.exprs),
        matches: p.matches,
        bundles: p.bundles,
        connectives: p.connectives,
        locally_free,
        connective_used: p.connective_used || used,
    }
}

/// `p` with the connective `c` in front of its connectives, at pattern
/// depth `depth`.
pub fn prepend_connective(p: Par, c: ConnectiveInstance, depth: usize) -> (r: Par)
    ensures
        r == prepend_connective_spec(p, c, depth),
{
    let (lf, used) = match c {
        ConnectiveInstance::VarRefBody(v) => (
            if v.depth == depth { Indices::Cons(v.index, Box::new(Indices::Nil)) } else { Indices::Nil },
            false,
        ),
        _ => (Indices::Nil, true),
    };
    let locally_free = union_indices(&p.locally_free, &lf);
    Par {
        sends: p.sends,
        receives: p.receives,
        news: p.news,
        exprs: p.exprs,
        matches: p.matches,
        bundles: p.bundles,
        connectives: push_front(c, p.connectives),
        locally_free,
        connective_used: p.connective_used || used,
    }
}

/// `p` with the send `s` in front of its sends.
pub fn prepend_send(p: Par, s: Send) -> (r: Par)
    ensures
        r == prepend_send_spec(p, s),
{
    let locally_free = union_indices(&p.locally_free, &s.locally_free);
    let used = p.connective_used || s.connective_used;
    Par {
        sends: push_front(s, p.sends),
        receives: p.receives,
        news: p.news,
        exprs: p.exprs,
        matches: p.matches,
        bundles: p.bundles,
        connectives: p.connectives,
        locally_free,
        connective_used: used,
    }
}

/// `p` with the match `m` in front of its matches.
pub fn prepend_match(p: Par, m: Match) -> (r: Par)
    ensures
        r == prepend_match_spec(p, m),
{
    let locally_free = union_indices(&p.locally_free, &m.locally_free);
    let used = p.connective_used || m.connective_used;
    Par {
        sends: p.sends,
        receives: p.receives,
        news: p.news,
        exprs: p.exprs,
        matches: push_front(m, p.matches),
        bundles: p.bundles,
        connectives: p.connectives,
        locally_free,
        connective_used: used,
    }
}

/// `p` with the bundle `b` in front of its bundles.
pub fn prepend_bundle(p: Par, b: Bundle) -> (r: Par)
    ensures
        r == prepend_bundle_spec(p, b),
{
    let locally_free = match &b.body {
        Some(body) => union_indices(&p.locally_free, &body.locally_free),
        None => union_indices(&p.locally_free, &Indices::Nil),
    };
    Par {
        sends: p.sends,
        receives: p.receives,
        news: p.news,
        exprs: p.exprs,
        matches: p.matches,
        bundles: push_front(b, p.bundles),
        connectives: p.connectives,
        locally_free,
        connective_used: p.connective_used,
    }
}

/// `p` and `q` in parallel: the parts of `q` first, then those of `p`.
pub fn append(p: Par, q: Par) -> (r: Par)
    ensures
        r == append_spec(p, q),
{
    let locally_free = union_indices(&q.locally_free, &p.locally_free);
    let used = q.connective_used || p.connective_used;
    Par {
        sends: concat_lists(q.sends, p.sends),
        receives: concat_lists(q.receives, p.receives),
        news: concat_lists(q.news, p.news),
        exprs: concat_lists(q.exprs, p.exprs),
        matches: concat_lists(q.matches, p.matches),
        bundles: concat_lists(q.bundles, p.bundles),
        connectives: concat_lists(q.connectives, p.connectives),
        locally_free,
        connective_used: used,
    }
}

/// Whether `p` consists of one bundle and nothing else.
pub open spec fn single_bundle_spec(p: Par) -> bool {
    &&& p.sends is None && p.receives is None && p.news is None && p.exprs is None && p.matches is None && p.connectives is None
    &&& p.bundles matches Some(n) && n.tail is None
}

} // verus!
