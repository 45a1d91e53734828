//! The synchronous send `channel!?(messages); cont`: a send that passes a
//! fresh reply channel along with the messages, in parallel with a receive
//! on that channel that runs the continuation, both under a `new` of the
//! reply channel.
use vstd::prelude::*;
use crate::ast::{BindKind, Id, NameDecl, SendType, Var};
use crate::env::Env;
use crate::let_rewrite::fresh_identifier;
use crate::normalizer::{fits, norm_proc, normalize_ann_proc, proc_outcome, ProcVisitInputs, ProcVisitOutputs};
use crate::normalize::InterpreterError;
use crate::span::SourceSpan;
use crate::syntax::{bind_size, binds_size, list_size, name_size, names_size, proc_size, receipts_size, AnnProc, Bind, Name, Names, Proc};
use crate::term::{List, Node};

verus! {

/// The reply channel `reply` as a name variable declared at the start of `span`.
pub open spec fn reply_var(reply: String, span: SourceSpan) -> Var {
    Var::Id(Id { name: reply, pos: span.start })
}

/// The continuation that runs once the reply comes: `cont`, or `Nil`.
pub open spec fn continuation(cont: Option<Box<AnnProc>>, span: SourceSpan) -> AnnProc {
    match cont {
        Some(c) => *c,
        None => AnnProc { proc: Proc::Nil, span },
    }
}

/// The send of `channel!?(messages)`: `channel!(*reply, messages)`.
pub open spec fn reply_send(reply: String, channel: Name, messages: List<AnnProc>, span: SourceSpan) -> Proc {
    Proc::Send {
        channel,
        send_type: SendType::Single,
        inputs: Some(Box::new(Node {
            head: AnnProc { proc: Proc::Eval(Name::ProcVar(reply_var(reply, span))), span },
            tail: messages,
        })),
    }
}

/// The receive that waits for the reply: `for (_ <- reply) { cont }`.
pub open spec fn reply_receive(reply: String, cont: Option<Box<AnnProc>>, span: SourceSpan) -> Proc {
    let bind = Bind {
        kind: BindKind::Linear,
        lhs: Names { names: Some(Box::new(Node { head: Name::ProcVar(Var::Wildcard), tail: None })), remainder: None },
        rhs: Name::ProcVar(reply_var(reply, span)),
    };
    Proc::ForComprehension {
        receipts: Some(Box::new(Node { head: Some(Box::new(Node { head: bind, tail: None })), tail: None })),
        body: Box::new(continuation(cont, span)),
    }
}

/// Whether `p` is the process a synchronous send stands for, with `reply`
/// as the reply channel: `new reply in { channel!(*reply, messages) |
/// for (_ <- reply) { cont } }`, every part at `span`.
pub open spec fn is_send_sync_process(p: Proc, reply: String, channel: Name, messages: List<AnnProc>,
    cont: Option<Box<AnnProc>>, span: SourceSpan) -> bool
{
    &&& p matches Proc::New { decls, proc }
    &&& decls@ == seq![NameDecl { id: Id { name: reply, pos: span.start }, uri: None }]
    &&& proc.span == span
    &&& proc.proc == Proc::Par(
        Box::new(AnnProc { proc: reply_send(reply, channel, messages, span), span }),
        Box::new(AnnProc { proc: reply_receive(reply, cont, span), span }),
    )
}

/// The number of nodes of that process, whatever the reply channel.
pub open spec fn send_sync_size(channel: Name, messages: List<AnnProc>, cont: Option<Box<AnnProc>>) -> nat {
    11 + name_size(channel) + list_size(messages) + match cont {
        Some(c) => proc_size(c.proc),
        None => 1,
    }
}

proof fn lemma_send_sync_size(p: Proc, reply: String, channel: Name, messages: List<AnnProc>,
    cont: Option<Box<AnnProc>>, span: SourceSpan)
    requires
        is_send_sync_process(p, reply, channel, messages, cont, span),
    ensures
        proc_size(p) == send_sync_size(channel, messages, cont),
{
    let send = reply_send(reply, channel, messages, span);
    let recv = reply_receive(reply, cont, span);
    let eval = AnnProc { proc: Proc::Eval(Name::ProcVar(reply_var(reply, span))), span };
    assert(name_size(Name::ProcVar(reply_var(reply, span))) == 1);
    assert(proc_size(eval.proc) == 2);
    assert(list_size(Some(Box::new(Node { head: eval, tail: messages }))) == 2 + list_size(messages));
    assert(proc_size(send) == 3 + name_size(channel) + list_size(messages));
    let bind = Bind {
        kind: BindKind::Linear,
        lhs: Names { names: Some(Box::new(Node { head: Name::ProcVar(Var::Wildcard), tail: None })), remainder: None },
        rhs: Name::ProcVar(reply_var(reply, span)),
    };
    let group: List<Bind> = Some(Box::new(Node { head: bind, tail: None }));
    assert(name_size(Name::ProcVar(Var::Wildcard)) == 1);
    assert(names_size(None) == 0);
    assert(names_size(bind.lhs.names) == 1);
    assert(bind_size(bind) == 3);
    assert(binds_size(None) == 0);
    assert(binds_size(group) == 3);
    assert(receipts_size(None) == 0);
    assert(receipts_size(Some(Box::new(Node { head: group, tail: None }))) == 4);
    assert(proc_size(recv) == 5 + proc_size(continuation(cont, span).proc));
    assert(proc_size(Proc::Nil) == 1);
    if let Proc::New { decls, proc } = p {
        assert(decls@.len() == 1);
        assert(proc_size(proc.proc) == 1 + proc_size(send) + proc_size(recv));
        assert(proc_size(p) == 2 + proc_size(proc.proc));
    }
}

/// Normalizes the synchronous send `channel!?(messages); cont` at `span`
/// with `reply` as the name of its reply channel: the process
/// `new reply in { channel!(*reply, messages) | for (_ <- reply) { cont } }`
/// normalized and added to `input.par`.
pub fn normalize_p_send_sync_with_reply(reply: String, channel: Name, messages: List<AnnProc>, cont: Option<Box<AnnProc>>,
    span: SourceSpan, input: ProcVisitInputs, env: &Env) -> (r: Result<ProcVisitOutputs, InterpreterError>)
    requires
        fits(input.bound_map_chain@, input.free_map@, send_sync_size(channel, messages, cont)),
    ensures
        forall|p: Proc| #[trigger] is_send_sync_process(p, reply, channel, messages, cont, span)
            ==> proc_outcome(norm_proc(p, span, input.par, input.bound_map_chain@, input.free_map@, *env), r),
{
    let ghost (ch, ms, co) = (channel, messages, cont);
    let body = match cont {
        Some(c) => *c,
        None => AnnProc { proc: Proc::Nil, span },
    };
    let send = Proc::Send {
        channel,
        send_type: SendType::Single,
        inputs: Some(Box::new(Node {
            head: AnnProc { proc: Proc::Eval(Name::ProcVar(Var::Id(Id { name: reply.clone(), pos: span.start }))), span },
            tail: messages,
        })),
    };
    let bind = Bind {
        kind: BindKind::Linear,
        lhs: Names { names: Some(Box::new(Node { head: Name::ProcVar(Var::Wildcard), tail: None })), remainder: None },
        rhs: Name::ProcVar(Var::Id(Id { name: reply.clone(), pos: span.start })),
    };
    let receive = Proc::ForComprehension {
        receipts: Some(Box::new(Node { head: Some(Box::new(Node { head: bind, tail: None })), tail: None })),
        body: Box::new(body),
    };
    let ghost reply_spec = reply;
    let decls = vec![NameDecl { id: Id { name: reply, pos: span.start }, uri: None }];
    assert(decls@ == seq![NameDecl { id: Id { name: reply_spec, pos: span.start }, uri: None }]);
    let p = AnnProc {
        proc: Proc::New {
            decls,
            proc: Box::new(AnnProc { proc: Proc::Par(Box::new(AnnProc { proc: send, span }), Box::new(AnnProc { proc: receive, span })), span }),
        },
        span,
    };
    proof {
        assert(send == reply_send(reply_spec, ch, ms, span));
        assert(receive == reply_receive(reply_spec, co, span));
        assert(is_send_sync_process(p.proc, reply_spec, ch, ms, co, span));
        lemma_send_sync_size(p.proc, reply_spec, ch, ms, co, span);
    }
    let r = normalize_ann_proc(&p, input, env);
    proof {
        assert forall|q: Proc| #[trigger] is_send_sync_process(q, reply_spec, ch, ms, co, span) implies
            norm_proc(q, span, input.par, input.bound_map_chain@, input.free_map@, *env)
                == norm_proc(p.proc, span, input.par, input.bound_map_chain@, input.free_map@, *env) by {
        }
    }
    r
}

/// Normalizes the synchronous send `channel!?(messages); cont` at `span`,
/// with a fresh random identifier as the name of its reply channel (see
/// `normalize_p_send_sync_with_reply`). Which identifier is drawn is not
/// stated: it is random, 36 characters long.
pub fn normalize_p_send_sync(channel: Name, messages: List<AnnProc>, cont: Option<Box<AnnProc>>, span: SourceSpan,
    input: ProcVisitInputs, env: &Env) -> (r: Result<ProcVisitOutputs, InterpreterError>)
    requires
        fits(input.bound_map_chain@, input.free_map@, send_sync_size(channel, messages, cont)),
    ensures
        exists|reply: String| {
            &&& reply@.len() == 36
            &&& forall|p: Proc| #[trigger] is_send_sync_process(p, reply, channel, messages, cont, span)
                ==> proc_outcome(norm_proc(p, span, input.par, input.bound_map_chain@, input.free_map@, *env), r)
        },
{
    let reply = fresh_identifier();
    let ghost g = reply;
    let r = normalize_p_send_sync_with_reply(reply, channel, messages, cont, span, input, env);
    assert(g@.len() == 36);
    r
}

} // verus!
