//! The checks the compiler makes on a whole program once it is normalized:
//! a program is one process, and it may have no free variables, wildcards or
//! logical connectives at its top level.
use vstd::prelude::*;
use crate::assoc::{assoc_map, keys_unique};
use crate::context::{ConnectiveInstance, VarSort};
use crate::free_map::FreeMap;
use crate::normalize::InterpreterError;
use crate::span::SourceSpan;

verus! {

/// The compiler from Rholang source to normalized terms.
pub struct Compiler;

/// The free variables of a program with the spans where they first occur,
/// as the pairs `(name, span)` list them.
pub open spec fn named_spans(pairs: Seq<(String, SourceSpan)>, bindings: Map<Seq<char>, crate::context::FreeContext<VarSort>>) -> bool {
    &&& pairs.len() == bindings.dom().len()
    &&& forall|i: int| 0 <= i < pairs.len() ==> bindings.contains_key((#[trigger] pairs[i]).0@)
        && pairs[i].1 == bindings[pairs[i].0@].source_span
    &&& forall|k: Seq<char>| bindings.contains_key(k) ==> exists|i: int| 0 <= i < pairs.len() && (#[trigger] pairs[i]).0@ == k
}

impl Compiler {
    /// The one process of a source that holds exactly one; otherwise the
    /// number it holds is reported.
    pub fn single_process<T>(procs: Vec<T>) -> (r: Result<T, InterpreterError>)
        ensures
            procs@.len() == 1 ==> (r matches Ok(p) && p == procs@[0]),
            procs@.len() != 1 ==> (r matches Err(InterpreterError::ExpectedSingleProcess(n)) && n == procs@.len()),
    {
        let n = procs.len();
        if n == 1 {
            let mut procs = procs;
            let p = procs.pop().unwrap();
            Ok(p)
        } else {
            Err(InterpreterError::ExpectedSingleProcess(n))
        }
    }

    /// Checks what is free at the top level of a normalized program: its
    /// logical connectives are refused first, then its wildcards, then its
    /// free variables, each error listing all of its kind with their spans.
    pub fn check_top_level(free_map: &FreeMap<VarSort>) -> (r: Result<(), InterpreterError>)
        ensures
            free_map@.count() == 0 ==> r is Ok,
            free_map@.count() > 0 && free_map@.connectives.len() > 0 ==>
                (r matches Err(InterpreterError::TopLevelLogicalConnectivesNotAllowedError(cs)) && cs@ == free_map@.connectives),
            free_map@.count() > 0 && free_map@.connectives.len() == 0 && free_map@.wildcards.len() > 0 ==>
                (r matches Err(InterpreterError::TopLevelWildcardsNotAllowedError(ws)) && ws@ == free_map@.wildcards),
            free_map@.count() > 0 && free_map@.connectives.len() == 0 && free_map@.wildcards.len() == 0 ==>
                (r matches Err(InterpreterError::TopLevelFreeVariablesNotAllowedError(vs))
                    && free_map@.bindings.dom().finite() && named_spans(vs@, free_map@.bindings)),
    {
        if free_map.count() == 0 {
            return Ok(());
        }
        let connectives = free_map.connectives();
        if connectives.len() > 0 {
            return Err(InterpreterError::TopLevelLogicalConnectivesNotAllowedError(connectives));
        }
        let wildcards = free_map.wildcards();
        if wildcards.len() > 0 {
            return Err(InterpreterError::TopLevelWildcardsNotAllowedError(wildcards));
        }
        let bindings = free_map.level_bindings();
        let mut vars: Vec<(String, SourceSpan)> = Vec::new();
        let mut i: usize = 0;
        while i < bindings.len()
            invariant
                i <= bindings@.len(),
                keys_unique(bindings@),
                assoc_map(bindings@) == free_map@.bindings,
                vars@.len() == i,
                forall|j: int| 0 <= j < i ==> (#[trigger] vars@[j]).0@ == bindings@[j].0@ && vars@[j].1 == bindings@[j].1.source_span,
            decreases bindings@.len() - i,
        {
            let (name, ctx) = &bindings[i];
            vars.push((name.clone(), ctx.source_span));
            i = i + 1;
        }
        proof {
            crate::assoc::lemma_assoc_map_len(bindings@);
            assert forall|j: int| 0 <= j < vars@.len() implies free_map@.bindings.contains_key((#[trigger] vars@[j]).0@)
                && vars@[j].1 == free_map@.bindings[vars@[j].0@].source_span by {
                crate::assoc::lemma_assoc_entry(bindings@, j);
            }
            assert forall|k: Seq<char>| free_map@.bindings.contains_key(k) implies
                exists|j: int| 0 <= j < vars@.len() && (#[trigger] vars@[j]).0@ == k by {
                let j = choose|j: int| 0 <= j < bindings@.len() && #[trigger] bindings@[j].0@ == k;
                assert(vars@[j].0@ == k);
            }
        }
        Err(InterpreterError::TopLevelFreeVariablesNotAllowedError(vars))
    }
}

} // verus!
