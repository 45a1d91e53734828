//! Variable resolution in the normalizer: how process variables, name
//! variables, pattern remainders and variable references turn into de Bruijn
//! indices, free-variable levels or wildcards, and when they are refused.
use vstd::prelude::*;
use crate::ast::{BindKind, BundleType, GroundLiteral, Id, SimpleType, Var, VarRefKind};
use crate::bound_map::{chain_find, BoundMapChain};
use crate::context::{ConnectiveInstance, IdContextPos, VarRef, VarSort};
use crate::free_map::{FreeMap, FreeMapView};
use crate::span::{point_span, synthetic_origin, SourcePos, SourceSpan, SpanContext};

verus! {

/// Errors of the normalizer.
#[derive(Debug)]
pub enum InterpreterError {
    BugFoundError(String),
    /// A process variable used where a name is expected.
    UnexpectedNameContext { var_name: String, proc_var_source_span: SourceSpan, name_source_span: SourceSpan },
    /// A name variable used where a process is expected.
    UnexpectedProcContext { var_name: String, name_var_source_span: SourceSpan, process_source_span: SourceSpan },
    /// A free name variable used twice in one pattern.
    UnexpectedReuseOfNameContextFree { var_name: String, first_use: SourceSpan, second_use: SourceSpan },
    /// A free process variable used twice in one pattern.
    UnexpectedReuseOfProcContextFree { var_name: String, first_use: SourceSpan, second_use: SourceSpan },
    /// A variable reference to a variable that is not bound.
    UnboundVariableRef { var_name: String, source_span: SourceSpan },
    /// A logical connective that a receive pattern may not hold.
    PatternReceiveError { connective: ConnectiveInstance, source_span: SourceSpan },
    /// Two binds of one receive listen on the same channel.
    ReceiveOnSameChannelsError { source_span: SourceSpan },
    /// Logical connectives at the top level of a program, with their spans.
    TopLevelLogicalConnectivesNotAllowedError(Vec<(ConnectiveInstance, SourceSpan)>),
    /// Wildcards at the top level of a program, with their spans.
    TopLevelWildcardsNotAllowedError(Vec<SourceSpan>),
    /// Free variables at the top level of a program, with their spans.
    TopLevelFreeVariablesNotAllowedError(Vec<(String, SourceSpan)>),
    /// A source that does not hold exactly one process; how many it holds.
    ExpectedSingleProcess(usize),
    /// The body of a bundle that a bundle may not hold.
    UnexpectedBundleContent(crate::binders::BundleContentError),
}

/// What a variable becomes in a normalized term.
#[derive(Clone, Copy, Debug, PartialEq, Eq, Structural)]
pub enum VarInstance {
    /// A bound variable, by de Bruijn index.
    BoundVar(usize),
    /// A free variable of the enclosing pattern, by level.
    FreeVar(usize),
    Wildcard,
}

/// A literal value in a normalized term.
#[derive(Clone, Debug, PartialEq, Eq)]
pub enum GroundValue {
    GBool(bool),
    GInt(i64),
    GString(String),
    GUri(String),
}

/// The environments a variable is resolved in: the bound variables around it
/// and the free variables of the pattern met so far.
pub struct NameVisitInputs {
    pub bound_map_chain: BoundMapChain<VarSort>,
    pub free_map: FreeMap<VarSort>,
}

/// Empty environments: no variable bound, none free. (The map from names to
/// normalized terms that the normalizer also receives is not part of this
/// library.)
pub fn name_visit_inputs_and_env() -> (r: NameVisitInputs)
    ensures
        r.bound_map_chain@ == seq![crate::bound_map::empty_bound_view::<VarSort>()],
        r.free_map@ == crate::receive::empty_free_view(),
{
    let r = NameVisitInputs { bound_map_chain: BoundMapChain::new(), free_map: FreeMap::new() };
    assert(r.free_map@ == crate::receive::empty_free_view());
    r
}

/// The environments of `input` with `name` bound, as a variable of sort
/// `sort`, at line 1, column 1 in the innermost scope.
pub fn proc_visit_inputs_with_updated_bound_map_chain(input: NameVisitInputs, name: &str, sort: VarSort) -> (r: NameVisitInputs)
    requires
        input.bound_map_chain@[0].next < usize::MAX,
    ensures
        r.bound_map_chain@ == input.bound_map_chain@.update(0,
            input.bound_map_chain@[0].put(name@, sort, point_span(SourcePos { line: 1, col: 1 }))),
        r.free_map@ == input.free_map@,
{
    let bound_map_chain = input.bound_map_chain.put_pos((name.to_string(), sort, SourcePos { line: 1, col: 1 }));
    NameVisitInputs { bound_map_chain, free_map: input.free_map }
}

/// The environments of `input` with each of `new_bindings` bound in turn at
/// line 1, column 1 in the innermost scope.
pub fn proc_visit_inputs_with_updated_vec_bound_map_chain(input: NameVisitInputs, new_bindings: Vec<(String, VarSort)>)
    -> (r: NameVisitInputs)
    requires
        input.bound_map_chain@[0].next + new_bindings@.len() <= usize::MAX,
    ensures
        r.bound_map_chain@ == input.bound_map_chain@.update(0, input.bound_map_chain@[0].put_all(
            new_bindings@.map_values(|b: (String, VarSort)| (b.0, b.1, point_span(SourcePos { line: 1, col: 1 }))))),
        r.free_map@ == input.free_map@,
{
    let mut bindings: Vec<IdContextPos<VarSort>> = Vec::new();
    let mut i: usize = 0;
    let ghost nb = new_bindings@;
    while i < new_bindings.len()
        invariant
            i <= nb.len(),
            nb == new_bindings@,
            bindings@.len() == i,
            forall|j: int| 0 <= j < i ==> #[trigger] bindings@[j] == (nb[j].0, nb[j].1, SourcePos { line: 1, col: 1 }),
        decreases nb.len() - i,
    {
        let (name, sort) = &new_bindings[i];
        bindings.push((name.clone(), *sort, SourcePos { line: 1, col: 1 }));
        i = i + 1;
    }
    proof {
        assert(bindings@.map_values(|b: IdContextPos<VarSort>| (b.0, b.1, point_span(b.2)))
            =~= nb.map_values(|b: (String, VarSort)| (b.0, b.1, point_span(SourcePos { line: 1, col: 1 }))));
    }
    let bound_map_chain = input.bound_map_chain.put_all_pos(bindings);
    NameVisitInputs { bound_map_chain, free_map: input.free_map }
}

/// The environments in which the collection normalizer is tried: `P` bound
/// as a process and `x` as a name, both at line 1, column 1.
pub fn collection_proc_visit_inputs_and_env() -> (r: NameVisitInputs)
    ensures
        r.bound_map_chain@ == seq![crate::bound_map::empty_bound_view::<VarSort>()
            .put("P"@, VarSort::ProcSort, point_span(SourcePos { line: 1, col: 1 }))
            .put("x"@, VarSort::NameSort, point_span(SourcePos { line: 1, col: 1 }))],
        r.free_map@ == crate::receive::empty_free_view(),
{
    let mut bindings: Vec<IdContextPos<VarSort>> = Vec::new();
    bindings.push(("P".to_string(), VarSort::ProcSort, SourcePos { line: 1, col: 1 }));
    bindings.push(("x".to_string(), VarSort::NameSort, SourcePos { line: 1, col: 1 }));
    let bound_map_chain = BoundMapChain::new().put_all_pos(bindings);
    let r = NameVisitInputs { bound_map_chain, free_map: FreeMap::new() };
    proof {
        let bs = bindings@.map_values(|b: IdContextPos<VarSort>| (b.0, b.1, point_span(b.2)));
        let e = crate::bound_map::empty_bound_view::<VarSort>();
        let sp = point_span(SourcePos { line: 1, col: 1 });
        assert(bs.drop_last().drop_last() =~= Seq::<crate::context::IdContextSpan<VarSort>>::empty());
        assert(bs[0].0@ == "P"@);
        assert(bs[1].0@ == "x"@);
        assert(e.put_all(bs.drop_last().drop_last()) == e);
        assert(e.put_all(bs.drop_last()) == e.put("P"@, VarSort::ProcSort, sp));
        assert(e.put_all(bs) == e.put("P"@, VarSort::ProcSort, sp).put("x"@, VarSort::NameSort, sp));
        assert(r.bound_map_chain@ =~= seq![crate::bound_map::empty_bound_view::<VarSort>()
            .put("P"@, VarSort::ProcSort, point_span(SourcePos { line: 1, col: 1 }))
            .put("x"@, VarSort::NameSort, point_span(SourcePos { line: 1, col: 1 }))]);
        assert(r.free_map@ == crate::receive::empty_free_view());
    }
    r
}

/// A resolved variable and the free map after it.
pub struct VarVisitOutputs {
    pub var: VarInstance,
    pub free_map: FreeMap<VarSort>,
}

/// The free map after a wildcard: one more wildcard, at the synthetic span.
pub open spec fn with_wildcard(f: FreeMapView<VarSort>) -> FreeMapView<VarSort> {
    FreeMapView { wildcards: f.wildcards.push(synthetic_origin()), ..f }
}

/// How a variable in process position resolves. `Ok` carries the variable
/// and the free map after it; `Err(None)` stands for a name variable used as
/// a process, `Err(Some(span))` for a free variable used a second time (with
/// the span of its first use).
pub open spec fn resolve_proc_var(
    bound: crate::bound_map::BoundMapView<VarSort>,
    free: FreeMapView<VarSort>,
    name: Seq<char>,
    span: SourceSpan,
) -> Result<(VarInstance, FreeMapView<VarSort>), Option<SourceSpan>> {
    match bound.lookup(name) {
        Some(ctx) => match ctx.typ {
            VarSort::ProcSort => Ok((VarInstance::BoundVar(ctx.index), free)),
            VarSort::NameSort => Err(None),
        },
        None => if free.bindings.contains_key(name) {
            Err(Some(free.bindings[name].source_span))
        } else {
            Ok((VarInstance::FreeVar(free.next as usize), free.put(name, VarSort::ProcSort, span)))
        },
    }
}

/// How a variable in name position resolves; as `resolve_proc_var` with the
/// sorts swapped. A free name variable is recorded at the single-point span of
/// its position.
pub open spec fn resolve_name_var(
    bound: crate::bound_map::BoundMapView<VarSort>,
    free: FreeMapView<VarSort>,
    name: Seq<char>,
    span: SourceSpan,
) -> Result<(VarInstance, FreeMapView<VarSort>), Option<SourceSpan>> {
    match bound.lookup(name) {
        Some(ctx) => match ctx.typ {
            VarSort::NameSort => Ok((VarInstance::BoundVar(ctx.index), free)),
            VarSort::ProcSort => Err(None),
        },
        None => if free.bindings.contains_key(name) {
            Err(Some(free.bindings[name].source_span))
        } else {
            Ok((VarInstance::FreeVar(free.next as usize), free.put(name, VarSort::NameSort, span)))
        },
    }
}

/// Resolves a process variable `x` or `_` at `var_span`. A bound process
/// variable becomes its de Bruijn index; an unbound one becomes the next free
/// variable of the pattern; `_` becomes a wildcard. A bound name variable is
/// refused, and so is a second free use of a variable.
pub fn resolve_p_var(var: &Var, input: &NameVisitInputs, var_span: SourceSpan) -> (r: Result<VarVisitOutputs, InterpreterError>)
    requires
        input.free_map@.count() < usize::MAX,
    ensures
        match var {
            Var::Wildcard => r matches Ok(out) && out.var == VarInstance::Wildcard
                && out.free_map@ == with_wildcard(input.free_map@),
            Var::Id(id) => match resolve_proc_var(input.bound_map_chain@[0], input.free_map@, id.name@, var_span) {
                Ok((v, f)) => r matches Ok(out) && out.var == v && out.free_map@ == f,
                Err(None) => r matches Err(InterpreterError::UnexpectedProcContext { var_name, name_var_source_span, process_source_span })
                    && var_name@ == id.name@
                    && name_var_source_span == input.bound_map_chain@[0].lookup(id.name@).unwrap().source_span
                    && process_source_span == var_span,
                Err(Some(first)) => r matches Err(InterpreterError::UnexpectedReuseOfProcContextFree { var_name, first_use, second_use })
                    && var_name@ == id.name@ && first_use == first && second_use == var_span,
            },
        },
{
    match var {
        Var::Id(id) => {
            match input.bound_map_chain.get(&id.name) {
                Some(ctx) => match ctx.typ {
                    VarSort::ProcSort => Ok(VarVisitOutputs { var: VarInstance::BoundVar(ctx.index), free_map: input.free_map.copy() }),
                    VarSort::NameSort => Err(InterpreterError::UnexpectedProcContext {
                        var_name: id.name.clone(),
                        name_var_source_span: ctx.source_span,
                        process_source_span: var_span,
                    }),
                },
                None => match input.free_map.get(&id.name) {
                    Some(ctx) => Err(InterpreterError::UnexpectedReuseOfProcContextFree {
                        var_name: id.name.clone(),
                        first_use: ctx.source_span,
                        second_use: var_span,
                    }),
                    None => {
                        let level = input.free_map.next_level();
                        let free_map = input.free_map.put_span((id.name.clone(), VarSort::ProcSort, var_span));
                        Ok(VarVisitOutputs { var: VarInstance::FreeVar(level), free_map })
                    },
                },
            }
        },
        Var::Wildcard => {
            let free_map = input.free_map.add_wildcard(SpanContext::wildcard_span());
            Ok(VarVisitOutputs { var: VarInstance::Wildcard, free_map })
        },
    }
}

/// Normalizes a variable in name position (`x` in `x!(..)`, `for (.. <- x)`,
/// a pattern, ...). A bound name variable becomes its de Bruijn index; an
/// unbound one becomes the next free variable (recorded at the single-point
/// span of its position); `_` becomes a wildcard. A bound process variable is
/// refused, and so is a second free use.
pub fn normalize_name_var(var: &Var, input: &NameVisitInputs) -> (r: Result<VarVisitOutputs, InterpreterError>)
    requires
        input.free_map@.count() < usize::MAX,
    ensures
        match var {
            Var::Wildcard => r matches Ok(out) && out.var == VarInstance::Wildcard
                && out.free_map@ == with_wildcard(input.free_map@),
            Var::Id(id) => match resolve_name_var(input.bound_map_chain@[0], input.free_map@, id.name@, point_span(id.pos)) {
                Ok((v, f)) => r matches Ok(out) && out.var == v && out.free_map@ == f,
                Err(None) => r matches Err(InterpreterError::UnexpectedNameContext { var_name, proc_var_source_span, name_source_span })
                    && var_name@ == id.name@
                    && proc_var_source_span == input.bound_map_chain@[0].lookup(id.name@).unwrap().source_span
                    && name_source_span == point_span(id.pos),
                Err(Some(first)) => r matches Err(InterpreterError::UnexpectedReuseOfNameContextFree { var_name, first_use, second_use })
                    && var_name@ == id.name@ && first_use == first && second_use == point_span(id.pos),
            },
        },
{
    match var {
        Var::Wildcard => {
            let free_map = input.free_map.add_wildcard(SpanContext::wildcard_span());
            Ok(VarVisitOutputs { var: VarInstance::Wildcard, free_map })
        },
        Var::Id(id) => {
            let pos_span = SpanContext::pos_to_span(id.pos);
            match input.bound_map_chain.get(&id.name) {
                Some(ctx) => match ctx.typ {
                    VarSort::NameSort => Ok(VarVisitOutputs { var: VarInstance::BoundVar(ctx.index), free_map: input.free_map.copy() }),
                    VarSort::ProcSort => Err(InterpreterError::UnexpectedNameContext {
                        var_name: id.name.clone(),
                        proc_var_source_span: ctx.source_span,
                        name_source_span: pos_span,
                    }),
                },
                None => match input.free_map.get(&id.name) {
                    None => {
                        let level = input.free_map.next_level();
                        let free_map = input.free_map.put_pos((id.name.clone(), VarSort::NameSort, id.pos));
                        Ok(VarVisitOutputs { var: VarInstance::FreeVar(level), free_map })
                    },
                    Some(ctx) => Err(InterpreterError::UnexpectedReuseOfNameContextFree {
                        var_name: id.name.clone(),
                        first_use: ctx.source_span,
                        second_use: pos_span,
                    }),
                },
            }
        },
    }
}

/// The remainder variable `...x` of a pattern (`[a, b ...x]`, `for (a ...x <- c)`).
/// A named remainder becomes the next free variable, as a process variable
/// at the single-point span of its position; `_` becomes a wildcard; a second
/// use of a free variable is refused.
fn handle_var(var: &Var, known_free: FreeMap<VarSort>) -> (r: Result<(Option<VarInstance>, FreeMap<VarSort>), InterpreterError>)
    requires
        known_free@.count() < usize::MAX,
    ensures
        remainder_outcome(var, known_free@, r),
{
    match var {
        Var::Wildcard => {
            let free_map = known_free.add_wildcard(SpanContext::wildcard_span());
            Ok((Some(VarInstance::Wildcard), free_map))
        },
        Var::Id(id) => {
            let source_span = SpanContext::pos_to_span(id.pos);
            match known_free.get(&id.name) {
                None => {
                    let level = known_free.next_level();
                    let free_map = known_free.put_pos((id.name.clone(), VarSort::ProcSort, id.pos));
                    Ok((Some(VarInstance::FreeVar(level)), free_map))
                },
                Some(ctx) => Err(InterpreterError::UnexpectedReuseOfProcContextFree {
                    var_name: id.name.clone(),
                    first_use: ctx.source_span,
                    second_use: source_span,
                }),
            }
        },
    }
}

/// What handling a remainder variable gives.
pub open spec fn remainder_outcome(
    var: &Var,
    free: FreeMapView<VarSort>,
    r: Result<(Option<VarInstance>, FreeMap<VarSort>), InterpreterError>,
) -> bool {
    match var {
        Var::Wildcard => r matches Ok((v, f)) && v == Some(VarInstance::Wildcard) && f@ == with_wildcard(free),
        Var::Id(id) => if free.bindings.contains_key(id.name@) {
            r matches Err(InterpreterError::UnexpectedReuseOfProcContextFree { var_name, first_use, second_use })
                && var_name@ == id.name@ && first_use == free.bindings[id.name@].source_span
                && second_use == point_span(id.pos)
        } else {
            r matches Ok((v, f)) && v == Some(VarInstance::FreeVar(free.next as usize))
                && f@ == free.put(id.name@, VarSort::ProcSort, point_span(id.pos))
        },
    }
}

/// Normalizes the optional remainder of a list or map pattern; no remainder
/// leaves the free map as it is.
pub fn normalize_remainder(r: &Option<Var>, known_free: FreeMap<VarSort>) -> (res: Result<(Option<VarInstance>, FreeMap<VarSort>), InterpreterError>)
    requires
        known_free@.count() < usize::MAX,
    ensures
        match r {
            Some(var) => remainder_outcome(var, known_free@, res),
            None => res matches Ok((v, f)) && v is None && f@ == known_free@,
        },
{
    match r {
        Some(var) => handle_var(var, known_free),
        None => Ok((None, known_free)),
    }
}

/// Normalizes the optional remainder of the names a receive or contract binds.
pub fn normalize_match_name(nr: &Option<Var>, known_free: FreeMap<VarSort>) -> (res: Result<(Option<VarInstance>, FreeMap<VarSort>), InterpreterError>)
    requires
        known_free@.count() < usize::MAX,
    ensures
        match nr {
            Some(var) => remainder_outcome(var, known_free@, res),
            None => res matches Ok((v, f)) && v is None && f@ == known_free@,
        },
{
    match nr {
        Some(var) => handle_var(var, known_free),
        None => Ok((None, known_free)),
    }
}

/// Resolves a variable reference `=x` (kind `Proc`) or `=*x` (kind `Name`)
/// at `var_ref_span` into a `VarRef` connective. The variable is looked up
/// through all enclosing pattern scopes; its sort must match the kind. A
/// process variable under `=*` is reported as `UnexpectedProcContext` and a
/// name variable under `=` as `UnexpectedNameContext`, each with the span of
/// the binding and of the reference.
pub fn resolve_p_var_ref(var_ref_kind: VarRefKind, var_id: &Id, input: &NameVisitInputs, var_ref_span: SourceSpan)
    -> (r: Result<ConnectiveInstance, InterpreterError>)
    ensures
        match chain_find(input.bound_map_chain@, var_id.name@) {
            Some((ctx, depth)) =>
                if (ctx.typ == VarSort::ProcSort) == (var_ref_kind == VarRefKind::Proc) {
                    r == Ok::<ConnectiveInstance, InterpreterError>(ConnectiveInstance::VarRefBody(VarRef { index: ctx.index, depth }))
                } else if ctx.typ == VarSort::ProcSort {
                    r matches Err(InterpreterError::UnexpectedProcContext { var_name, name_var_source_span, process_source_span })
                        && var_name@ == var_id.name@ && name_var_source_span == ctx.source_span
                        && process_source_span == var_ref_span
                } else {
                    r matches Err(InterpreterError::UnexpectedNameContext { var_name, proc_var_source_span, name_source_span })
                        && var_name@ == var_id.name@ && proc_var_source_span == ctx.source_span
                        && name_source_span == var_ref_span
                },
            None => r matches Err(InterpreterError::UnboundVariableRef { var_name, source_span })
                && var_name@ == var_id.name@ && source_span == var_ref_span,
        },
{
    match input.bound_map_chain.find(&var_id.name) {
        Some((ctx, depth)) => match ctx.typ {
            VarSort::ProcSort => match var_ref_kind {
                VarRefKind::Proc => Ok(ConnectiveInstance::VarRefBody(VarRef { index: ctx.index, depth })),
                VarRefKind::Name => Err(InterpreterError::UnexpectedProcContext {
                    var_name: var_id.name.clone(),
                    name_var_source_span: ctx.source_span,
                    process_source_span: var_ref_span,
                }),
            },
            VarSort::NameSort => match var_ref_kind {
                VarRefKind::Name => Ok(ConnectiveInstance::VarRefBody(VarRef { index: ctx.index, depth })),
                VarRefKind::Proc => Err(InterpreterError::UnexpectedNameContext {
                    var_name: var_id.name.clone(),
                    proc_var_source_span: ctx.source_span,
                    name_source_span: var_ref_span,
                }),
            },
        },
        None => Err(InterpreterError::UnboundVariableRef { var_name: var_id.name.clone(), source_span: var_ref_span }),
    }
}

/// The connectives a receive pattern may not hold at the top level: `\/` and `~`.
pub open spec fn is_forbidden_in_receive(c: ConnectiveInstance) -> bool {
    c is ConnOrBody || c is ConnNotBody
}

/// Checks the free map of a receive pattern, normalized at bound depth
/// `depth`: at depth 0 the first `\/` or `~` among its connectives is refused
/// with its span; otherwise, and at other depths, the pattern passes.
pub fn fail_on_invalid_connective_span(depth: usize, free_map: &FreeMap<VarSort>) -> (r: Result<(), InterpreterError>)
    ensures
        depth != 0 ==> r is Ok,
        depth == 0 ==> match r {
            Ok(()) => forall|i: int| 0 <= i < free_map@.connectives.len() ==> !is_forbidden_in_receive(#[trigger] free_map@.connectives[i].0),
            Err(e) => exists|i: int| 0 <= i < free_map@.connectives.len()
                && is_forbidden_in_receive(#[trigger] free_map@.connectives[i].0)
                && (forall|j: int| 0 <= j < i ==> !is_forbidden_in_receive(#[trigger] free_map@.connectives[j].0))
                && e == (InterpreterError::PatternReceiveError {
                    connective: free_map@.connectives[i].0,
                    source_span: free_map@.connectives[i].1,
                }),
        },
{
    if depth != 0 {
        return Ok(());
    }
    let connectives = free_map.connectives();
    let mut i: usize = 0;
    while i < connectives.len()
        invariant
            i <= connectives@.len(),
            connectives@ == free_map@.connectives,
            depth == 0,
            forall|j: int| 0 <= j < i ==> !is_forbidden_in_receive(#[trigger] connectives@[j].0),
        decreases connectives@.len() - i,
    {
        let (c, span) = connectives[i];
        match c {
            ConnectiveInstance::ConnOrBody | ConnectiveInstance::ConnNotBody => {
                return Err(InterpreterError::PatternReceiveError { connective: c, source_span: span });
            },
            _ => {},
        }
        i = i + 1;
    }
    Ok(())
}

/// The connective a simple type pattern (`Bool`, `Int`, ...) stands for.
pub open spec fn simple_type_connective(t: SimpleType) -> ConnectiveInstance {
    match t {
        SimpleType::Bool => ConnectiveInstance::ConnBool(true),
        SimpleType::Int => ConnectiveInstance::ConnInt(true),
        SimpleType::String => ConnectiveInstance::ConnString(true),
        SimpleType::Uri => ConnectiveInstance::ConnUri(true),
        SimpleType::ByteArray => ConnectiveInstance::ConnByteArray(true),
    }
}

/// Normalizes a simple type pattern into its connective.
pub fn normalize_simple_type(simple_type: SimpleType) -> (r: ConnectiveInstance)
    ensures
        r == simple_type_connective(simple_type),
{
    match simple_type {
        SimpleType::Bool => ConnectiveInstance::ConnBool(true),
        SimpleType::Int => ConnectiveInstance::ConnInt(true),
        SimpleType::String => ConnectiveInstance::ConnString(true),
        SimpleType::Uri => ConnectiveInstance::ConnUri(true),
        SimpleType::ByteArray => ConnectiveInstance::ConnByteArray(true),
    }
}

/// A URI literal without its surrounding backticks, when it has both.
pub open spec fn strip_backticks(s: Seq<char>) -> Seq<char> {
    if s.len() >= 2 && s[0] == '`' && s[s.len() - 1] == '`' {
        s.subrange(1, s.len() - 1)
    } else {
        s
    }
}

/// Normalizes a literal into its ground value; a URI loses its surrounding
/// backticks.
pub fn normalize_ground(proc: &GroundLiteral) -> (r: GroundValue)
    requires
        proc matches GroundLiteral::UriLiteral(u) ==> u@ != seq!['`'],
    ensures
        match proc {
            GroundLiteral::BoolLiteral(b) => r == GroundValue::GBool(*b),
            GroundLiteral::LongLiteral(n) => r == GroundValue::GInt(*n),
            GroundLiteral::StringLiteral(s) => r matches GroundValue::GString(t) && t@ == s@,
            GroundLiteral::UriLiteral(u) => r matches GroundValue::GUri(t) && t@ == strip_backticks(u@),
        },
{
    match proc {
        GroundLiteral::BoolLiteral(b) => GroundValue::GBool(*b),
        GroundLiteral::LongLiteral(n) => GroundValue::GInt(*n),
        GroundLiteral::StringLiteral(s) => GroundValue::GString(s.clone()),
        GroundLiteral::UriLiteral(u) => {
            let text = u.as_str();
            let len = text.unicode_len();
            if len >= 2 && text.get_char(0) == '`' && text.get_char(len - 1) == '`' {
                let inner = text.substring_char(1, len - 1);
                GroundValue::GUri(inner.to_string())
            } else {
                GroundValue::GUri(u.clone())
            }
        },
    }
}

/// The write and read flags of a bundle polarity.
pub open spec fn bundle_flags(t: BundleType) -> (bool, bool) {
    match t {
        BundleType::BundleReadWrite => (true, true),
        BundleType::BundleRead => (false, true),
        BundleType::BundleWrite => (true, false),
        BundleType::BundleEquiv => (false, false),
    }
}

/// The write and read flags of a bundle polarity: `bundle+` writes,
/// `bundle-` reads, `bundle` does both, `bundle0` neither.
pub fn bundle_polarity(bundle_type: BundleType) -> (r: (bool, bool))
    ensures
        r == bundle_flags(bundle_type),
{
    match bundle_type {
        BundleType::BundleReadWrite => (true, true),
        BundleType::BundleRead => (false, true),
        BundleType::BundleWrite => (true, false),
        BundleType::BundleEquiv => (false, false),
    }
}

/// The flags of a bundle that directly holds another bundle: the two collapse
/// into one that may do only what both allow.
pub fn merge_bundle_polarities(outer: (bool, bool), inner: (bool, bool)) -> (r: (bool, bool))
    ensures
        r == (outer.0 && inner.0, outer.1 && inner.1),
{
    (outer.0 && inner.0, outer.1 && inner.1)
}

/// The persistent and peek flags of a receive, from the kind of its first bind.
pub open spec fn receive_flags(kind: BindKind) -> (bool, bool) {
    match kind {
        BindKind::Linear => (false, false),
        BindKind::Repeated => (true, false),
        BindKind::Peek => (false, true),
    }
}

/// The persistent and peek flags of a receive: `<=` persists, `<<-` peeks,
/// `<-` does neither.
pub fn receive_bind_flags(head: BindKind) -> (r: (bool, bool))
    ensures
        r == receive_flags(head),
{
    match head {
        BindKind::Linear => (false, false),
        BindKind::Repeated => (true, false),
        BindKind::Peek => (false, true),
    }
}

/// Whether a send is persistent: `!!` is, `!` is not.
pub fn send_persistent(send_type: crate::ast::SendType) -> (r: bool)
    ensures
        r == (send_type == crate::ast::SendType::Multiple),
{
    match send_type {
        crate::ast::SendType::Single => false,
        crate::ast::SendType::Multiple => true,
    }
}

} // verus!
