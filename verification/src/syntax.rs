//! The parsed form of a Rholang process, as the normalizer reads it.
use vstd::prelude::*;
use crate::ast::{BindKind, BundleType, GroundLiteral, Id, NameDecl, SendType, SimpleType, Var, VarRefKind};
use crate::span::SourceSpan;
use crate::term::{BinaryOp, List, UnaryOp};

verus! {

/// A process with the span of source text it was parsed from.
#[derive(Debug, PartialEq, Eq)]
pub struct AnnProc {
    pub proc: Proc,
    pub span: SourceSpan,
}

/// A process. A URI literal holds its text without the surrounding
/// backticks, as the parser hands it over.
#[derive(Debug, PartialEq, Eq)]
pub enum Proc {
    /// `Nil`.
    Nil,
    /// A literal.
    Ground(GroundLiteral),
    /// A simple type in a pattern: `Bool`, `Int`, ...
    SimpleType(SimpleType),
    /// A process variable `x` or `_`.
    ProcVar(Var),
    /// A variable reference `=x` or `=*x`.
    VarRef(VarRefKind, Id),
    /// `left | right`.
    Par(Box<AnnProc>, Box<AnnProc>),
    /// `*name`.
    Eval(Name),
    /// `not p` or `-p`; the operand carries the span of the whole.
    Unary(UnaryOp, Box<Proc>),
    /// `left op right`.
    Binary(BinaryOp, Box<AnnProc>, Box<AnnProc>),
    /// `channel!(inputs)` or `channel!!(inputs)`.
    Send { channel: Name, send_type: SendType, inputs: List<AnnProc> },
    /// `bundle+ { proc }` and the other polarities.
    Bundle { bundle_type: BundleType, proc: Box<AnnProc> },
    /// `if (condition) if_true else if_false`; no `else` runs `Nil`.
    IfThenElse { condition: Box<AnnProc>, if_true: Box<AnnProc>, if_false: Option<Box<AnnProc>> },
    /// `for (receipts) { body }`: groups of binds, each `names <- channel`,
    /// `names <= channel` or `names <<- channel`.
    ForComprehension { receipts: List<List<Bind>>, body: Box<AnnProc> },
    /// `contract name(formals) = { body }`.
    Contract { name: Name, formals: Names, body: Box<AnnProc> },
    /// `new decls in { proc }`.
    New { decls: Vec<NameDecl>, proc: Box<AnnProc> },
    /// `[p, q, ...]`.
    ListLiteral(List<AnnProc>),
    /// `let bindings in { body }`, the bindings taken one after the other.
    Let(LetChain),
    /// `match expression { pattern => proc ... }`.
    Match { expression: Box<AnnProc>, cases: List<Case> },
}

/// One case of a match: `pattern => proc`.
#[derive(Debug, PartialEq, Eq)]
pub struct Case {
    pub pattern: AnnProc,
    pub proc: AnnProc,
}

/// One binding of a `let`: `name <- process` or `x <- (p, q, ...)`.
#[derive(Debug, PartialEq, Eq)]
pub enum LetBinding {
    Single { lhs: Name, rhs: Box<AnnProc> },
    Multiple { lhs: Var, rhs: List<AnnProc> },
}

/// The bindings of a sequential `let`, each scoping over the rest, and at
/// the end the body.
#[derive(Debug, PartialEq, Eq)]
pub enum LetChain {
    Body(Box<AnnProc>),
    Bind(LetBinding, Box<LetChain>),
}

/// One bind of a `for`: the pattern `lhs`, the kind of arrow, and the
/// channel `rhs`.
#[derive(Debug, PartialEq, Eq)]
pub struct Bind {
    pub kind: BindKind,
    pub lhs: Names,
    pub rhs: Name,
}

/// The names a pattern binds, `x, y, ..` with an optional remainder
/// `...rest`.
#[derive(Debug, PartialEq, Eq)]
pub struct Names {
    pub names: List<Name>,
    pub remainder: Option<Var>,
}

/// A name: a variable or `_`, or a quoted process `@p`.
#[derive(Debug, PartialEq, Eq)]
pub enum Name {
    ProcVar(Var),
    Quote(Box<Proc>),
}

/// The number of nodes of a process: a bound on how many variables,
/// wildcards and connectives it can add to a free map.
pub open spec fn proc_size(p: Proc) -> nat
    decreases p,
{
    match p {
        Proc::Par(l, r) => 1 + proc_size(l.proc) + proc_size(r.proc),
        Proc::Eval(n) => 1 + name_size(n),
        Proc::Unary(_, a) => 1 + proc_size(*a),
        Proc::Binary(_, l, r) => 1 + proc_size(l.proc) + proc_size(r.proc),
        Proc::Send { channel, inputs, .. } => 1 + name_size(channel) + list_size(inputs),
        Proc::Bundle { proc, .. } => 1 + proc_size(proc.proc),
        Proc::IfThenElse { condition, if_true, if_false } => 1 + proc_size(condition.proc) + proc_size(if_true.proc)
            + match if_false {
                Some(f) => proc_size(f.proc),
                None => 0,
            },
        Proc::Match { expression, cases } => 1 + proc_size(expression.proc) + cases_size(cases),
        Proc::New { decls, proc } => 1 + decls@.len() + proc_size(proc.proc),
        Proc::ListLiteral(es) => 1 + list_size(es),
        Proc::Let(c) => 1 + let_size(c),
        Proc::ForComprehension { receipts, body } => 1 + receipts_size(receipts) + proc_size(body.proc),
        Proc::Contract { name, formals, body } => 2 + name_size(name) + names_size(formals.names) + proc_size(body.proc),
        _ => 1,
    }
}

/// Every process has at least one node.
pub proof fn lemma_proc_size_pos(p: Proc)
    ensures
        proc_size(p) >= 1,
{
}

/// The number of nodes of the cases of a match.
pub open spec fn cases_size(cs: List<Case>) -> nat
    decreases cs,
{
    match cs {
        None => 0,
        Some(n) => proc_size(n.head.pattern.proc) + proc_size(n.head.proc.proc) + cases_size(n.tail),
    }
}

/// The number of nodes of a name.
pub open spec fn name_size(n: Name) -> nat
    decreases n,
{
    match n {
        Name::ProcVar(_) => 1,
        Name::Quote(p) => 1 + proc_size(*p),
    }
}

/// The number of items of a list of processes.
pub open spec fn list_count(ps: List<AnnProc>) -> nat
    decreases ps,
{
    match ps {
        None => 0,
        Some(n) => 1 + list_count(n.tail),
    }
}

/// The number of nodes of the bindings and body of a `let`: each binding
/// counts its two sides, the list and the pattern it becomes, and a
/// wildcard for each further value.
pub open spec fn let_size(c: LetChain) -> nat
    decreases c,
{
    match c {
        LetChain::Body(b) => proc_size(b.proc),
        LetChain::Bind(b, rest) => 1 + binding_size(b) + let_size(*rest),
    }
}

/// The number of nodes of one binding of a `let`: its two sides, the list
/// and the pattern it becomes, and a wildcard for each further value.
pub open spec fn binding_size(b: LetBinding) -> nat
    decreases b,
{
    match b {
        LetBinding::Single { lhs, rhs } => 2 + name_size(lhs) + proc_size(rhs.proc),
        LetBinding::Multiple { lhs, rhs } => 2 + list_size(rhs) + list_count(rhs),
    }
}

/// The number of nodes of a bind: its names, its remainder and its channel.
pub open spec fn bind_size(b: Bind) -> nat
    decreases b,
{
    names_size(b.lhs.names) + 1 + name_size(b.rhs)
}

/// The number of nodes of a group of binds.
pub open spec fn binds_size(bs: List<Bind>) -> nat
    decreases bs,
{
    match bs {
        None => 0,
        Some(n) => bind_size(n.head) + binds_size(n.tail),
    }
}

/// The number of nodes of the receipts of a `for`, counting each group.
pub open spec fn receipts_size(rs: List<List<Bind>>) -> nat
    decreases rs,
{
    match rs {
        None => 0,
        Some(n) => 1 + binds_size(n.head) + receipts_size(n.tail),
    }
}

/// The number of nodes of a list of names.
pub open spec fn names_size(ns: List<Name>) -> nat
    decreases ns,
{
    match ns {
        None => 0,
        Some(n) => name_size(n.head) + names_size(n.tail),
    }
}

/// The number of nodes of a list of processes.
pub open spec fn list_size(ps: List<AnnProc>) -> nat
    decreases ps,
{
    match ps {
        None => 0,
        Some(n) => proc_size(n.head.proc) + list_size(n.tail),
    }
}

} // verus!
