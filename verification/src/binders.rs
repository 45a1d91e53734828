//! The scopes opened by the constructs that bind pattern variables
//! (contracts, receives, match cases), and the checks made on a bind and on
//! the body of a bundle before the body is normalized.
use vstd::prelude::*;
use crate::ast::{BundleType, Var};
use crate::bound_map::BoundMapChain;
use crate::context::{FreeContext, VarSort};
use crate::free_map::{FreeMap, FreeMapView};
use crate::normalize::{bundle_flags, normalize_match_name, normalize_name_var, remainder_outcome, resolve_name_var,
    with_wildcard, InterpreterError, NameVisitInputs, VarInstance};
use crate::bound_map::BoundMapView;
use crate::span::point_span;
use crate::receive::{merge_all, merge_receive_bind_free_maps, merge_refusal, pairwise_disjoint, total_count};
use crate::span::SourceSpan;

verus! {

/// What a bind leaves to its body: the free variables of its patterns (which
/// the body sees as bound), the chain the body is normalized in, and how
/// many variables it binds.
pub struct BindScope {
    pub free_map: FreeMap<VarSort>,
    pub body_chain: BoundMapChain<VarSort>,
    pub bind_count: usize,
}

/// `s` is the scope in which the free variables `free` of a pattern become
/// bound in the innermost scope of `chain`.
pub open spec fn scope_of(chain: Seq<crate::bound_map::BoundMapView<VarSort>>, free: FreeMapView<VarSort>, s: BindScope) -> bool {
    &&& s.free_map@ == free
    &&& s.body_chain@ == chain.update(0, chain[0].absorb(free))
    &&& s.bind_count == free.next
}

/// The scope of a pattern whose names left the free map `pattern_free`, with
/// the optional remainder `...x` of its names (the formals of a contract, or
/// one bind of a receive): the remainder becomes one more free variable, then
/// all free variables become bound for the body.
pub fn pattern_scope(chain: &BoundMapChain<VarSort>, pattern_free: FreeMap<VarSort>, remainder: &Option<Var>)
    -> (r: Result<(Option<VarInstance>, BindScope), InterpreterError>)
    requires
        pattern_free@.count() < usize::MAX,
        chain@[0].next + pattern_free@.next + 1 <= usize::MAX,
    ensures
        match remainder {
            None => r matches Ok((v, s)) && v is None && scope_of(chain@, pattern_free@, s),
            Some(var) => match r {
                Ok((v, s)) => remainder_outcome(var, pattern_free@, Ok((v, s.free_map)))
                    && scope_of(chain@, s.free_map@, s),
                Err(e) => remainder_outcome(var, pattern_free@, Err(e)),
            },
        },
{
    let ghost before = pattern_free@;
    match normalize_match_name(remainder, pattern_free) {
        Ok((v, free_map)) => {
            proof {
                if let Some(var) = remainder {
                    assert(remainder_outcome(var, before, Ok((v, free_map))));
                }
            }
            let body_chain = chain.absorb_free_span(&free_map);
            let bind_count = free_map.count_no_wildcards();
            Ok((v, BindScope { free_map, body_chain, bind_count }))
        },
        Err(e) => Err(e),
    }
}

/// Whether two of the channels are the same.
pub open spec fn has_repeat(channels: Seq<u64>) -> bool {
    exists|i: int, j: int| 0 <= i < j < channels.len() && channels[i] == channels[j]
}

/// Whether two of the channels (each given by the value that identifies it)
/// are the same.
pub fn has_repeated_channel(channels: &Vec<u64>) -> (r: bool)
    ensures
        r == has_repeat(channels@),
{
    let mut i: usize = 0;
    while i < channels.len()
        invariant
            i <= channels@.len(),
            forall|a: int, b: int| 0 <= a < b < channels@.len() && a < i ==> channels@[a] != channels@[b],
        decreases channels@.len() - i,
    {
        let mut j: usize = i + 1;
        while j < channels.len()
            invariant
                i < j <= channels@.len(),
                forall|a: int, b: int| 0 <= a < b < channels@.len() && a < i ==> channels@[a] != channels@[b],
                forall|b: int| i < b < j ==> channels@[i as int] != channels@[b],
            decreases channels@.len() - j,
        {
            if channels[i] == channels[j] {
                return true;
            }
            j = j + 1;
        }
        i = i + 1;
    }
    false
}

/// The scope of the binds of one receive `for (.. <- c1 & .. <- c2 ..) { body }`,
/// given, for each bind in order, the free map of its patterns (remainder
/// included) and the value that identifies its channel. Two binds on the same
/// channel are refused at the span of the body; so is a variable bound by two
/// binds. Otherwise the free variables of all binds, merged in order, become
/// bound for the body.
pub fn receive_scope(chain: &BoundMapChain<VarSort>, bind_free_maps: &Vec<FreeMap<VarSort>>, channels: &Vec<u64>,
    body_span: SourceSpan) -> (r: Result<BindScope, InterpreterError>)
    requires
        chain@[0].next + total_count(bind_free_maps@.map_values(|m: FreeMap<VarSort>| m@)) <= usize::MAX,
    ensures
        ({
            let ms = bind_free_maps@.map_values(|m: FreeMap<VarSort>| m@);
            if has_repeat(channels@) {
                r matches Err(InterpreterError::ReceiveOnSameChannelsError { source_span }) && source_span == body_span
            } else if pairwise_disjoint(ms) {
                r matches Ok(s) && scope_of(chain@, merge_all(ms), s)
            } else {
                r matches Err(e) && merge_refusal(ms, e)
            }
        }),
{
    if has_repeated_channel(channels) {
        return Err(InterpreterError::ReceiveOnSameChannelsError { source_span: body_span });
    }
    let ghost ms = bind_free_maps@.map_values(|m: FreeMap<VarSort>| m@);
    match merge_receive_bind_free_maps(bind_free_maps) {
        Ok(free_map) => {
            proof { crate::receive::lemma_merge_all_facts(ms); }
            let body_chain = chain.absorb_free_span(&free_map);
            let bind_count = free_map.count_no_wildcards();
            Ok(BindScope { free_map, body_chain, bind_count })
        },
        Err(e) => Err(e),
    }
}

/// Why the body of a bundle is refused.
#[derive(Debug)]
pub enum BundleContentError {
    /// A logical connective at the top level of the body, at the bundle's span.
    TopLevelConnective { source_span: SourceSpan },
    /// Free variables or wildcards in the body: the wildcards' spans, and the
    /// free variables with their contexts.
    FreeVariables { wildcards: Vec<SourceSpan>, free_variables: Vec<(String, FreeContext<VarSort>)> },
}

/// The polarity of the bundle `bundle_type` at `bundle_span`, given what its
/// normalized body holds: the number of connectives at its top level, its free
/// map, and the polarity of the bundle it consists of, if it is a single
/// bundle. A top-level connective is refused first, then free variables or
/// wildcards; a body that is a single bundle collapses into this one, which
/// then may do only what both allow.
pub fn bundle_content(bundle_type: BundleType, bundle_span: SourceSpan, body_connectives: usize,
    body_free: &FreeMap<VarSort>, single_inner: Option<(bool, bool)>) -> (r: Result<(bool, bool), BundleContentError>)
    ensures
        body_connectives > 0 ==> (r matches Err(BundleContentError::TopLevelConnective { source_span })
            && source_span == bundle_span),
        body_connectives == 0 && (body_free@.wildcards.len() > 0 || exists|k: Seq<char>| body_free@.bindings.contains_key(k)) ==>
            (r matches Err(BundleContentError::FreeVariables { wildcards, free_variables })
            && wildcards@ == body_free@.wildcards
            && crate::assoc::keys_unique(free_variables@)
            && crate::assoc::assoc_map(free_variables@) == body_free@.bindings),
        body_connectives == 0 && body_free@.wildcards.len() == 0 && (forall|k: Seq<char>| !body_free@.bindings.contains_key(k)) ==>
            r == Ok::<(bool, bool), BundleContentError>(match single_inner {
                Some(inner) => (bundle_flags(bundle_type).0 && inner.0, bundle_flags(bundle_type).1 && inner.1),
                None => bundle_flags(bundle_type),
            }),
{
    if body_connectives > 0 {
        return Err(BundleContentError::TopLevelConnective { source_span: bundle_span });
    }
    let wildcards = body_free.wildcards();
    let free_variables = body_free.level_bindings();
    if wildcards.len() > 0 || free_variables.len() > 0 {
        proof {
            if free_variables@.len() > 0 {
                crate::assoc::lemma_assoc_entry(free_variables@, 0);
            }
        }
        return Err(BundleContentError::FreeVariables { wildcards, free_variables });
    }
    proof {
        assert forall|k: Seq<char>| !body_free@.bindings.contains_key(k) by {
            crate::assoc::lemma_assoc_absent(free_variables@, k);
        }
    }
    let outer = crate::normalize::bundle_polarity(bundle_type);
    match single_inner {
        Some(inner) => Ok(crate::normalize::merge_bundle_polarities(outer, inner)),
        None => Ok(outer),
    }
}

/// How a list of variable names resolves, one after the other, each seeing
/// the free variables of those before it. `Err((i, o))` stands for the first
/// name `i` that is refused, as `resolve_name_var` says with `o`.
pub open spec fn resolve_names(bound: BoundMapView<VarSort>, free: FreeMapView<VarSort>, vars: Seq<Var>)
    -> Result<(Seq<VarInstance>, FreeMapView<VarSort>), (int, Option<SourceSpan>)>
    decreases vars.len(),
{
    if vars.len() == 0 {
        Ok((Seq::empty(), free))
    } else {
        match resolve_names(bound, free, vars.drop_last()) {
            Err(e) => Err(e),
            Ok((vs, f)) => match vars.last() {
                Var::Wildcard => Ok((vs.push(VarInstance::Wildcard), with_wildcard(f))),
                Var::Id(id) => match resolve_name_var(bound, f, id.name@, point_span(id.pos)) {
                    Ok((v, f2)) => Ok((vs.push(v), f2)),
                    Err(o) => Err((vars.len() - 1, o)),
                },
            },
        }
    }
}

/// The error for name `var`, refused as `o` says, in scope `bound`.
pub open spec fn name_refusal(bound: BoundMapView<VarSort>, var: Var, o: Option<SourceSpan>, e: InterpreterError) -> bool {
    match var {
        Var::Wildcard => false,
        Var::Id(id) => match o {
            None => e matches InterpreterError::UnexpectedNameContext { var_name, proc_var_source_span, name_source_span }
                && var_name@ == id.name@
                && proc_var_source_span == bound.lookup(id.name@).unwrap().source_span
                && name_source_span == point_span(id.pos),
            Some(first) => e matches InterpreterError::UnexpectedReuseOfNameContextFree { var_name, first_use, second_use }
                && var_name@ == id.name@ && first_use == first && second_use == point_span(id.pos),
        },
    }
}

/// Normalizes the names `x, y, .. ...rest` of a pattern or a list, when each
/// is a variable or `_`: each name resolves in turn (see `normalize_name_var`),
/// then the remainder, if any, becomes a free process variable or a wildcard.
/// The result lists the remainder's variable first, then the names' in order.
pub fn normalize_names(names: &Vec<Var>, remainder: &Option<Var>, input: &NameVisitInputs)
    -> (r: Result<(Vec<VarInstance>, FreeMap<VarSort>), InterpreterError>)
    requires
        input.free_map@.count() + names@.len() + 1 < usize::MAX,
    ensures
        match resolve_names(input.bound_map_chain@[0], input.free_map@, names@) {
            Err((i, o)) => r matches Err(e) && 0 <= i < names@.len() && name_refusal(input.bound_map_chain@[0], names@[i], o, e),
            Ok((vs, f)) => match remainder {
                None => r matches Ok((rv, rf)) && rv@ == vs && rf@ == f,
                Some(var) => match r {
                    Ok((rv, rf)) => exists|v: VarInstance| rv@ == seq![v] + vs
                        && remainder_outcome(var, f, Ok((Some(v), rf))),
                    Err(e) => remainder_outcome(var, f, Err(e)),
                },
            },
        },
{
    let ghost bound = input.bound_map_chain@[0];
    let mut vars: Vec<VarInstance> = Vec::new();
    let mut free_map = input.free_map.copy();
    let mut i: usize = 0;
    while i < names.len()
        invariant
            i <= names@.len(),
            bound == input.bound_map_chain@[0],
            input.free_map@.count() + names@.len() + 1 < usize::MAX,
            resolve_names(bound, input.free_map@, names@.subrange(0, i as int)) == Ok::<(Seq<VarInstance>, FreeMapView<VarSort>), (int, Option<SourceSpan>)>((vars@, free_map@)),
            free_map@.count() <= input.free_map@.count() + i,
        decreases names@.len() - i,
    {
        let ghost prefix = names@.subrange(0, i + 1);
        proof {
            assert(prefix.drop_last() =~= names@.subrange(0, i as int));
            assert(prefix.last() == names@[i as int]);
        }
        let step = NameVisitInputs { bound_map_chain: input.bound_map_chain.copy(), free_map };
        match normalize_name_var(&names[i], &step) {
            Ok(out) => {
                vars.push(out.var);
                free_map = out.free_map;
                proof {
                    assert(free_map@.count() <= step.free_map@.count() + 1);
                }
            },
            Err(e) => {
                proof {
                    assert(resolve_names(bound, input.free_map@, prefix) matches Err((k, _)) && k == i);
                    lemma_prefix_error(bound, input.free_map@, names@, i as int, names@.len() as int);
                    assert(names@.subrange(0, names@.len() as int) =~= names@);
                }
                return Err(e);
            },
        }
        i = i + 1;
    }
    proof { assert(names@.subrange(0, names@.len() as int) =~= names@); }
    match remainder {
        None => Ok((vars, free_map)),
        Some(_) => {
            match normalize_match_name(remainder, free_map) {
                Ok((rv, rf)) => {
                    let mut all: Vec<VarInstance> = Vec::new();
                    match rv {
                        Some(v) => {
                            all.push(v);
                        },
                        None => {},
                    }
                    let mut rest = vars;
                    all.append(&mut rest);
                    Ok((all, rf))
                },
                Err(e) => Err(e),
            }
        },
    }
}

proof fn lemma_prefix_error(bound: BoundMapView<VarSort>, free: FreeMapView<VarSort>, vars: Seq<Var>, i: int, j: int)
    requires
        0 <= i < j <= vars.len(),
        resolve_names(bound, free, vars.subrange(0, i + 1)) is Err,
    ensures
        resolve_names(bound, free, vars.subrange(0, j)) == resolve_names(bound, free, vars.subrange(0, i + 1)),
    decreases j - i,
{
    if j > i + 1 {
        lemma_prefix_error(bound, free, vars, i, j - 1);
        assert(vars.subrange(0, j).drop_last() =~= vars.subrange(0, j - 1));
    }
}

} // verus!
