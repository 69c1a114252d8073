//! What holds of every saga: what its calls leave behind, what an abort sends, and what the
//! reports tell.

use crate::document_laws;
use crate::exchange::{Effect, JobView};
use crate::json;
use crate::json::Tree;
use crate::registry::RegistryView;
use crate::report;
use crate::report::{Attempt, Delivery};
use crate::saga::{ForwardView, OperationView, ProgressView, SagaView, StepView, UnwindView};
use vstd::prelude::*;

verus! {

// ---- a chain of calls ----

/// One call of a saga: what is asked for, and what the app answers to the `begin`, where one is
/// sent, and to the call, where it is sent.
pub struct Turn {
    pub app: Seq<char>,
    pub verb: Seq<char>,
    pub args: Tree,
    pub begin_answer: Result<Tree, Seq<char>>,
    pub call_answer: Result<Tree, Seq<char>>,
}

/// An operation that was sent, with what the app answered.
pub struct Sent {
    pub operation: OperationView,
    pub answer: Result<Tree, Seq<char>>,
}

/// The saga after a call, what was sent for it, and what the call answers.
pub open spec fn took(saga: SagaView, turn: Turn) -> (
    SagaView,
    Seq<Sent>,
    Result<Tree, Seq<char>>,
) {
    let forward = saga.forward(turn.app, turn.verb, turn.args);
    if forward.joining {
        let begun = Sent { operation: forward.operation(), answer: turn.begin_answer };
        let (joined, progress) = saga.advanced(forward, turn.begin_answer);
        match progress {
            ProgressView::Continue(next) => {
                let (after, end) = joined.advanced(next, turn.call_answer);
                let called = Sent { operation: next.operation(), answer: turn.call_answer };
                (after, seq![begun, called], end->Finished_0)
            },
            ProgressView::Finished(answer) => (joined, seq![begun], answer),
        }
    } else {
        let (after, end) = saga.advanced(forward, turn.call_answer);
        let called = Sent { operation: forward.operation(), answer: turn.call_answer };
        (after, seq![called], end->Finished_0)
    }
}

/// The saga under `txn` after a chain of calls, and all that was sent for it, in order.
pub open spec fn chain(txn: u64, turns: Seq<Turn>) -> (SagaView, Seq<Sent>)
    decreases turns.len(),
{
    if turns.len() == 0 {
        (SagaView::empty(txn), Seq::empty())
    } else {
        let (before, sent) = chain(txn, turns.drop_last());
        let (after, more, _) = took(before, turns.last());
        (after, sent + more)
    }
}

/// The calls that the apps carried out, in order.
pub open spec fn executed(sent: Seq<Sent>) -> Seq<Sent> {
    sent.filter(|s: Sent| s.operation is Call && s.answer is Ok)
}

/// The `begin`s that the apps accepted, in order.
pub open spec fn accepted(sent: Seq<Sent>) -> Seq<Sent> {
    sent.filter(|s: Sent| s.operation is Begin && s.answer is Ok)
}

/// Whether `step` is the record of the call `s`.
spec fn records(step: StepView, s: Sent) -> bool {
    &&& s.operation == (OperationView::Call { app: step.app, verb: step.verb, args: step.args })
    &&& s.answer == Ok::<Tree, Seq<char>>(step.result)
}

/// Whether `s` is a `begin` of `txn` that `app` accepted.
pub open spec fn opens(s: Sent, app: Seq<char>, txn: u64) -> bool {
    s.operation == (OperationView::Begin { app, txn }) && s.answer is Ok
}

/// What ties a saga to what was sent for it.
spec fn tied(saga: SagaView, sent: Seq<Sent>) -> bool {
    &&& saga.steps.len() == executed(sent).len()
    &&& forall|i: int|
        0 <= i < saga.steps.len() ==> records(#[trigger] saga.steps[i], executed(sent)[i])
    &&& saga.joined.len() == accepted(sent).len()
    &&& forall|i: int|
        0 <= i < saga.joined.len() ==> opens(
            accepted(sent)[i],
            #[trigger] saga.joined[i],
            saga.txn,
        )
    &&& saga.joined.no_duplicates()
}

proof fn lemma_filter_two<A>(a: A, b: A, pred: spec_fn(A) -> bool)
    ensures
        seq![a].filter(pred) == if pred(a) {
            seq![a]
        } else {
            Seq::empty()
        },
        seq![a, b].filter(pred) == seq![a].filter(pred) + seq![b].filter(pred),
        seq![b].filter(pred) == if pred(b) {
            seq![b]
        } else {
            Seq::empty()
        },
{
    reveal(Seq::filter);
    reveal_with_fuel(Seq::filter, 3);
    assert(seq![a].drop_last() =~= Seq::empty());
    assert(seq![b].drop_last() =~= Seq::empty());
    assert(seq![a, b] =~= seq![a] + seq![b]);
    Seq::filter_distributes_over_add(seq![a], seq![b], pred);
    assert(Seq::<A>::empty().push(a) =~= seq![a]);
    assert(Seq::<A>::empty().push(b) =~= seq![b]);
}

proof fn lemma_took(saga: SagaView, turn: Turn, sent: Seq<Sent>)
    requires
        tied(saga, sent),
    ensures
        tied(took(saga, turn).0, sent + took(saga, turn).1),
        took(saga, turn).0.txn == saga.txn,
{
    let call = |s: Sent| s.operation is Call && s.answer is Ok;
    let begin = |s: Sent| s.operation is Begin && s.answer is Ok;
    let more = took(saga, turn).1;
    Seq::filter_distributes_over_add(sent, more, call);
    Seq::filter_distributes_over_add(sent, more, begin);
    if more.len() == 1 {
        lemma_filter_two(more[0], more[0], call);
        lemma_filter_two(more[0], more[0], begin);
        assert(more =~= seq![more[0]]);
    } else {
        lemma_filter_two(more[0], more[1], call);
        lemma_filter_two(more[0], more[1], begin);
        assert(more =~= seq![more[0], more[1]]);
    }
}

proof fn lemma_chain(txn: u64, turns: Seq<Turn>)
    ensures
        tied(chain(txn, turns).0, chain(txn, turns).1),
        chain(txn, turns).0.txn == txn,
    decreases turns.len(),
{
    if turns.len() == 0 {
        reveal(Seq::filter);
    } else {
        lemma_chain(txn, turns.drop_last());
        let (before, sent) = chain(txn, turns.drop_last());
        lemma_took(before, turns.last(), sent);
    }
}

/// The compensation of a call that was carried out.
pub open spec fn compensation(s: Sent) -> OperationView {
    OperationView::Undo {
        app: s.operation->Call_app,
        verb: s.operation->Call_verb,
        args: s.operation->Call_args,
        result: s.answer->Ok_0,
    }
}

/// An abort after any chain of calls undoes exactly the calls that were carried out, each once,
/// in the exact reverse of the order in which they ran, over every app, and quotes what each ran
/// with and what it returned. It then sends every app that joined one `commit`, and nothing else:
/// no app is sent an `abort`, so none compensates a second time.
pub proof fn law_abort_is_the_chain_in_reverse(txn: u64, turns: Seq<Turn>)
    ensures
        ({
            let (saga, sent) = chain(txn, turns);
            let (ran, begun) = (executed(sent), accepted(sent));
            let plan = saga.unwind().plan();
            &&& plan.len() == ran.len() + begun.len()
            &&& forall|i: int|
                0 <= i < ran.len() ==> #[trigger] plan[i] == compensation(ran[ran.len() - 1 - i])
            &&& forall|i: int|
                ran.len() <= i < plan.len() ==> #[trigger] plan[i] == (OperationView::Commit {
                    app: begun[plan.len() - 1 - i].operation.app(),
                    txn,
                })
        }),
{
    lemma_chain(txn, turns);
    let (saga, sent) = chain(txn, turns);
    let (ran, begun) = (executed(sent), accepted(sent));
    let plan = saga.unwind().plan();
    assert forall|i: int| 0 <= i < ran.len() implies #[trigger] plan[i] == compensation(
        ran[ran.len() - 1 - i],
    ) by {
        assert(records(saga.steps[ran.len() - 1 - i], ran[ran.len() - 1 - i]));
    }
    assert forall|i: int| ran.len() <= i < plan.len() implies #[trigger] plan[i] == (
    OperationView::Commit { app: begun[plan.len() - 1 - i].operation.app(), txn }) by {
        assert(opens(begun[plan.len() - 1 - i], saga.joined[plan.len() - 1 - i], txn));
    }
}

/// A commit after any chain of calls sends every app that joined one `commit`, and nothing else,
/// so what the chain did stays done.
pub proof fn law_commit_compensates_nothing(txn: u64, turns: Seq<Turn>)
    ensures
        ({
            let (saga, sent) = chain(txn, turns);
            let begun = accepted(sent);
            let plan = saga.closing().plan();
            &&& plan.len() == begun.len()
            &&& forall|i: int|
                0 <= i < plan.len() ==> #[trigger] plan[i] == (OperationView::Commit {
                    app: begun[plan.len() - 1 - i].operation.app(),
                    txn,
                })
        }),
{
    lemma_chain(txn, turns);
    let (saga, sent) = chain(txn, turns);
    let plan = saga.closing().plan();
    assert forall|i: int| 0 <= i < plan.len() implies #[trigger] plan[i] == (
    OperationView::Commit { app: accepted(sent)[plan.len() - 1 - i].operation.app(), txn }) by {
        assert(opens(accepted(sent)[plan.len() - 1 - i], saga.joined[plan.len() - 1 - i], txn));
    }
}

/// No app accepts `begin` twice from one saga, so an end of the saga sends no app two `commit`s.
pub proof fn law_apps_join_once(txn: u64, turns: Seq<Turn>)
    ensures
        ({
            let begun = accepted(chain(txn, turns).1);
            forall|i: int, j: int|
                0 <= i < j < begun.len() ==> (#[trigger] begun[i]).operation.app() != (
                #[trigger] begun[j]).operation.app()
        }),
{
    lemma_chain(txn, turns);
    let (saga, sent) = chain(txn, turns);
    let begun = accepted(sent);
    assert forall|i: int, j: int| 0 <= i < j < begun.len() implies (
    #[trigger] begun[i]).operation.app() != (#[trigger] begun[j]).operation.app() by {
        assert(opens(begun[i], saga.joined[i], txn));
        assert(opens(begun[j], saga.joined[j], txn));
    }
}

/// The host's gate is in place before anything runs: every call that a saga sends to an app comes
/// behind a `begin` of the saga's transaction that the app accepted.
pub proof fn law_begin_comes_before_calls(txn: u64, turns: Seq<Turn>, i: int)
    requires
        0 <= i < chain(txn, turns).1.len(),
        chain(txn, turns).1[i].operation is Call,
    ensures
        ({
            let sent = chain(txn, turns).1;
            exists|j: int|
                0 <= j < i && opens(#[trigger] sent[j], sent[i].operation.app(), txn)
        }),
    decreases turns.len(),
{
    let rest = turns.drop_last();
    let (before, earlier) = chain(txn, rest);
    let more = took(before, turns.last()).1;
    let sent = chain(txn, turns).1;
    let app = sent[i].operation.app();
    if i < earlier.len() {
        law_begin_comes_before_calls(txn, rest, i);
        let j = choose|j: int| 0 <= j < i && opens(#[trigger] earlier[j], app, txn);
        assert(opens(sent[j], app, txn));
    } else if more.len() == 2 {
        lemma_chain(txn, rest);
        assert(opens(sent[earlier.len() as int], app, txn));
    } else {
        lemma_chain(txn, rest);
        let k = choose|k: int| 0 <= k < before.joined.len() && before.joined[k] == app;
        assert(opens(accepted(earlier)[k], before.joined[k], txn));
        earlier.lemma_filter_contains_rev(
            |s: Sent| s.operation is Begin && s.answer is Ok,
            accepted(earlier)[k],
        );
        let j = choose|j: int| 0 <= j < earlier.len() && earlier[j] == accepted(earlier)[k];
        assert(opens(sent[j], app, txn));
    }
}

/// A `begin` that an app refuses, or that does not get through, ends the call with its error: the
/// verb is not sent, the app does not join, so the next call to it sends `begin` again, and
/// neither end of the saga sends it anything.
pub proof fn law_refused_begin_leaves_no_trace(
    saga: SagaView,
    turn: Turn,
    error: Seq<char>,
    verb: Seq<char>,
    args: Tree,
)
    requires
        saga.wf(),
        !saga.joined.contains(turn.app),
        turn.begin_answer == Err::<Tree, Seq<char>>(error),
    ensures
        ({
            let begin = OperationView::Begin { app: turn.app, txn: saga.txn };
            let (after, sent, answer) = took(saga, turn);
            &&& answer == Err::<Tree, Seq<char>>(error)
            &&& sent == seq![Sent { operation: begin, answer: Err(error) }]
            &&& after == saga
            &&& after.forward(turn.app, verb, args).operation() == begin
            &&& forall|i: int|
                0 <= i < after.closing().plan().len() ==> (
                #[trigger] after.closing().plan()[i]).app() != turn.app
            &&& forall|i: int|
                0 <= i < after.unwind().plan().len() ==> (
                #[trigger] after.unwind().plan()[i]).app() != turn.app
        }),
{
    let n = saga.steps.len();
    let m = saga.joined.len();
    assert forall|i: int| 0 <= i < saga.closing().plan().len() implies (
    #[trigger] saga.closing().plan()[i]).app() != turn.app by {
        assert(saga.joined.contains(saga.joined[m - 1 - i]));
    }
    assert forall|i: int| 0 <= i < saga.unwind().plan().len() implies (
    #[trigger] saga.unwind().plan()[i]).app() != turn.app by {
        if i < n {
            assert(saga.joined.contains(saga.steps[n - 1 - i].app));
        } else {
            assert(saga.joined.contains(saga.joined[m - 1 - (i - n)]));
        }
    }
}

/// A call answers with the verb's value where the app accepted all that was sent for it, and
/// otherwise with the first error.
pub proof fn law_call_answers_what_the_app_says(saga: SagaView, turn: Turn)
    ensures
        took(saga, turn).2 == if saga.joined.contains(turn.app) || turn.begin_answer is Ok {
            turn.call_answer
        } else {
            turn.begin_answer
        },
{
}

/// A call that fails leaves the journal as it was: there is nothing to compensate.
pub proof fn law_failed_call_is_not_journaled(saga: SagaView, turn: Turn)
    requires
        took(saga, turn).2 is Err,
    ensures
        took(saga, turn).0.steps == saga.steps,
{
}

/// A saga that was ended has nothing left to unwind: an abort of it sends nothing and reports
/// success.
pub proof fn law_ended_saga_unwinds_nothing(txn: u64)
    ensures
        SagaView::empty(txn).unwind().plan() == Seq::<OperationView>::empty(),
        SagaView::empty(txn).closing().plan() == Seq::<OperationView>::empty(),
{
    assert(SagaView::empty(txn).unwind().plan() =~= Seq::empty());
    assert(SagaView::empty(txn).closing().plan() =~= Seq::empty());
}

/// A call sends `begin` where the app has not joined and then, unless that failed, exactly the verb
/// and the arguments that were asked for; an app that accepts `begin` joins behind the others, and
/// a call that succeeds is added behind the steps before it with what it ran with and what it
/// returned.
pub proof fn law_calls_send_and_record_what_was_asked(saga: SagaView, turn: Turn)
    ensures
        ({
            let (after, sent, answer) = took(saga, turn);
            let begin = Sent {
                operation: OperationView::Begin { app: turn.app, txn: saga.txn },
                answer: turn.begin_answer,
            };
            let call = Sent {
                operation: OperationView::Call {
                    app: turn.app,
                    verb: turn.verb,
                    args: turn.args,
                },
                answer: turn.call_answer,
            };
            let had = saga.joined.contains(turn.app);
            let ran = had || turn.begin_answer is Ok;
            &&& sent == if had {
                seq![call]
            } else if ran {
                seq![begin, call]
            } else {
                seq![begin]
            }
            &&& after.txn == saga.txn
            &&& after.joined == if !had && ran {
                saga.joined.push(turn.app)
            } else {
                saga.joined
            }
            &&& after.steps == if ran && turn.call_answer is Ok {
                saga.steps.push(
                    StepView {
                        seq: (saga.steps.len() + 1) as u64,
                        app: turn.app,
                        verb: turn.verb,
                        args: turn.args,
                        result: turn.call_answer->Ok_0,
                    },
                )
            } else {
                saga.steps
            }
        }),
{
}

/// An abort undoes each step by an `undo` to its app with its verb, its arguments and its result,
/// the last step first, and then sends each app that joined a `commit`, the last to join first; a
/// commit sends the latter alone.
pub proof fn law_plans_go_backwards(saga: SagaView, i: int)
    ensures
        saga.unwind().plan().len() == saga.steps.len() + saga.joined.len(),
        0 <= i < saga.steps.len() ==> {
            let step = saga.steps[saga.steps.len() - 1 - i];
            saga.unwind().plan()[i] == (OperationView::Undo {
                app: step.app,
                verb: step.verb,
                args: step.args,
                result: step.result,
            })
        },
        0 <= i < saga.joined.len() ==> saga.unwind().plan()[saga.steps.len() + i] == (
        OperationView::Commit { app: saga.joined[saga.joined.len() - 1 - i], txn: saga.txn }),
        saga.closing().plan().len() == saga.joined.len(),
        0 <= i < saga.joined.len() ==> saga.closing().plan()[i] == (OperationView::Commit {
            app: saga.joined[saga.joined.len() - 1 - i],
            txn: saga.txn,
        }),
{
}

/// An operation goes to its app as the frame of its kind, with what it was given; a `begin` opens
/// its transaction, a `commit` leaves it, and a call or an `undo` leaves the open transaction
/// alone.
pub proof fn law_operations_send_their_frames(
    app: Seq<char>,
    txn: u64,
    verb: Seq<char>,
    args: Tree,
    result: Tree,
    key: Seq<char>,
)
    ensures
        ({
            let op = OperationView::Begin { app, txn };
            &&& op.app() == app
            &&& op.job() matches JobView::Request { frame, effect }
            &&& effect == Effect::Enter(txn)
            &&& frame is Object
            &&& json::field(frame, key) == if key == "t"@ {
                Some(Tree::Text("begin"@))
            } else if key == "txn"@ {
                Some(Tree::Unsigned(txn))
            } else {
                None
            }
        }),
        ({
            let op = OperationView::Commit { app, txn };
            &&& op.app() == app
            &&& op.job() matches JobView::Request { frame, effect }
            &&& effect == Effect::Leave(txn)
            &&& frame is Object
            &&& json::field(frame, key) == if key == "t"@ {
                Some(Tree::Text("commit"@))
            } else if key == "txn"@ {
                Some(Tree::Unsigned(txn))
            } else {
                None
            }
        }),
        ({
            let op = OperationView::Call { app, verb, args };
            &&& op.app() == app
            &&& op.job() matches JobView::Request { frame, effect }
            &&& effect == Effect::Keep
            &&& frame is Object
            &&& json::field(frame, key) == if key == "t"@ {
                Some(Tree::Text("call"@))
            } else if key == "verb"@ {
                Some(Tree::Text(verb))
            } else if key == "args"@ {
                Some(args)
            } else {
                None
            }
        }),
        ({
            let op = OperationView::Undo { app, verb, args, result };
            &&& op.app() == app
            &&& op.job() matches JobView::Request { frame, effect }
            &&& effect == Effect::Keep
            &&& frame is Object
            &&& json::field(frame, key) == if key == "t"@ {
                Some(Tree::Text("undo"@))
            } else if key == "verb"@ {
                Some(Tree::Text(verb))
            } else if key == "args"@ {
                Some(args)
            } else if key == "result"@ {
                Some(result)
            } else {
                None
            }
        }),
{
    document_laws::law_frames_hold_what_they_are_given(verb, args, result, verb, txn, key);
}

/// A step being run belongs to the saga that it was started in: it has the saga's id and what was
/// asked for, and the app has still to be joined exactly where it has not joined.
pub proof fn law_steps_are_admitted_by_their_saga(
    saga: SagaView,
    app: Seq<char>,
    verb: Seq<char>,
    args: Tree,
    forward: ForwardView,
)
    ensures
        saga.forward(app, verb, args) == (ForwardView {
            txn: saga.txn,
            app,
            verb,
            args,
            joining: forall|i: int| 0 <= i < saga.joined.len() ==> #[trigger] saga.joined[i] != app,
        }),
        saga.admits(forward) <==> forward.txn == saga.txn && (forward.joining <==> forall|i: int|
            0 <= i < saga.joined.len() ==> #[trigger] saga.joined[i] != forward.app),
{
}

/// A saga is valid exactly where no app joined twice, its steps are numbered from 1 on, and each ran
/// on an app that joined.
pub proof fn law_valid_sagas(saga: SagaView)
    ensures
        saga.wf() <==> {
            &&& forall|i: int, j: int|
                0 <= i < saga.joined.len() && 0 <= j < saga.joined.len() && i != j
                    ==> saga.joined[i] != saga.joined[j]
            &&& forall|i: int|
                0 <= i < saga.steps.len() ==> (#[trigger] saga.steps[i]).seq == i + 1
            &&& forall|i: int|
                0 <= i < saga.steps.len() ==> saga.joined.contains((#[trigger] saga.steps[i]).app)
        },
{
}

// ---- sagas side by side ----

/// The registry after one step of the open saga `txn`, and what the step answers.
pub open spec fn stepping(reg: RegistryView, txn: u64, turn: Turn) -> (
    RegistryView,
    Result<Tree, Seq<char>>,
) {
    let forward = reg.sagas[txn].forward(turn.app, turn.verb, turn.args);
    if forward.joining {
        let (joined, progress) = reg.advanced(forward, turn.begin_answer);
        match progress {
            ProgressView::Continue(next) => {
                let (after, end) = joined.advanced(next, turn.call_answer);
                (after, end->Finished_0)
            },
            ProgressView::Finished(answer) => (joined, answer),
        }
    } else {
        let (after, end) = reg.advanced(forward, turn.call_answer);
        (after, end->Finished_0)
    }
}

/// A step of one open saga closes none and touches no other. Where it fails, the saga's own steps
/// stay, so a following abort unwinds what was done before; where it succeeds, they grow by one
/// entry at the end.
pub proof fn law_step_touches_its_saga_alone(reg: RegistryView, txn: u64, other: u64, turn: Turn)
    requires
        reg.wf(),
        reg.sagas.contains_key(txn),
        reg.sagas.contains_key(other),
        other != txn,
    ensures
        ({
            let (after, answer) = stepping(reg, txn, turn);
            let (was, now) = (reg.sagas[txn], after.sagas[txn]);
            &&& after.sagas.dom() == reg.sagas.dom()
            &&& after.sagas[other] == reg.sagas[other]
            &&& after.minted == reg.minted
            &&& now == took(was, turn).0
            &&& answer == took(was, turn).2
            &&& match answer {
                Err(_) => now.steps == was.steps && now.unwind().steps == was.unwind().steps,
                Ok(value) => now.steps == was.steps.push(
                    StepView {
                        seq: (was.steps.len() + 1) as u64,
                        app: turn.app,
                        verb: turn.verb,
                        args: turn.args,
                        result: value,
                    },
                ),
            }
        }),
{
    assert(stepping(reg, txn, turn).0.sagas.dom() =~= reg.sagas.dom());
}

// ---- the order of an unwind ----

proof fn lemma_filter_reverse<A>(s: Seq<A>, pred: spec_fn(A) -> bool)
    ensures
        s.reverse().filter(pred) == s.filter(pred).reverse(),
    decreases s.len(),
{
    reveal(Seq::filter);
    if s.len() == 0 {
        assert(s.reverse() =~= s);
        assert(s.filter(pred).reverse() =~= s.filter(pred));
    } else {
        let rest = s.drop_last();
        let last = s.last();
        lemma_filter_reverse(rest, pred);
        lemma_filter_two(last, last, pred);
        assert(s.reverse() =~= seq![last] + rest.reverse());
        Seq::filter_distributes_over_add(seq![last], rest.reverse(), pred);
        if pred(last) {
            assert(s.filter(pred) == rest.filter(pred).push(last));
            assert(s.filter(pred).reverse() =~= seq![last] + rest.filter(pred).reverse());
        } else {
            assert(Seq::empty() + rest.filter(pred).reverse() =~= rest.filter(pred).reverse());
        }
    }
}

/// An unwind goes by descending sequence number over all apps, and so does its part for any one
/// app: it is that app's steps in reverse.
pub proof fn law_unwind_descends(saga: SagaView, app: Seq<char>)
    requires
        saga.wf(),
    ensures
        ({
            let steps = saga.unwind().steps;
            let of_app = |step: StepView| step.app == app;
            &&& forall|i: int, j: int|
                0 <= i < j < steps.len() ==> (#[trigger] steps[i]).seq > (#[trigger] steps[j]).seq
            &&& steps.filter(of_app) == saga.steps.filter(of_app).reverse()
        }),
{
    lemma_filter_reverse(saga.steps, |step: StepView| step.app == app);
}

// ---- reports ----

proof fn lemma_attempts_add_up(attempts: Seq<Attempt>)
    ensures
        report::compensated(attempts) + report::failures(attempts).len() == attempts.len(),
        report::failures(attempts).len() == 0 <==> forall|i: int|
            0 <= i < attempts.len() ==> (#[trigger] attempts[i]).answer is Ok,
    decreases attempts.len(),
{
    if attempts.len() == 0 {
        reveal(Seq::filter);
    } else {
        let rest = attempts.drop_last();
        let last = attempts.last();
        lemma_attempts_add_up(rest);
        assert(rest.push(last) =~= attempts);
        report::lemma_attempts_push(rest, last);
        assert(attempts[attempts.len() - 1] == last);
        if forall|i: int| 0 <= i < rest.len() ==> (#[trigger] rest[i]).answer is Ok {
            assert forall|i: int| 0 <= i < attempts.len() - 1 implies (
            #[trigger] attempts[i]).answer is Ok by {
                assert(rest[i].answer is Ok);
            }
        } else {
            let i = choose|i: int| 0 <= i < rest.len() && !((#[trigger] rest[i]).answer is Ok);
            assert(attempts[i].answer is Err);
        }
    }
}

proof fn lemma_undelivered(deliveries: Seq<Delivery>)
    ensures
        report::undelivered(deliveries).len() == 0 <==> forall|i: int|
            0 <= i < deliveries.len() ==> (#[trigger] deliveries[i]).answer is Ok,
{
    let failed = |d: Delivery| d.answer is Err;
    if report::undelivered(deliveries).len() == 0 {
        assert forall|i: int| 0 <= i < deliveries.len() implies (
        #[trigger] deliveries[i]).answer is Ok by {
            if deliveries[i].answer is Err {
                deliveries.lemma_filter_contains(failed, i);
                assert(deliveries.filter(failed).len() > 0);
            }
        }
    } else {
        let found = deliveries.filter(failed);
        deliveries.lemma_filter_pred(failed, 0);
        deliveries.lemma_filter_contains_rev(failed, found[0]);
        let i = choose|i: int| 0 <= i < deliveries.len() && deliveries[i] == found[0];
        assert(deliveries[i].answer is Err);
    }
}

/// What stands under each key of the report of an unwind.
proof fn lemma_unwind_report_fields(
    txn: u64,
    attempts: Seq<Attempt>,
    releases: Seq<Delivery>,
)
    ensures
        ({
            let doc = report::unwind_report(txn, attempts, releases);
            &&& json::unsigned_field(doc, "txn"@) == Some(txn)
            &&& json::bool_field(doc, "ok"@) == Some(
                report::failures(attempts).len() == 0 && report::undelivered(releases).len() == 0,
            )
            &&& json::unsigned_field(doc, "compensated"@) == Some(
                report::compensated(attempts) as u64,
            )
            &&& json::field(doc, "order"@) == Some(
                report::steps_doc(attempts.map_values(|a: Attempt| a.step)),
            )
            &&& json::field(doc, "failed"@) == Some(Tree::Array(report::failures(attempts)))
            &&& json::field(doc, "apps"@) == Some(report::apps_doc(attempts))
            &&& json::field(doc, "releaseFailed"@) == Some(
                Tree::Array(report::undelivered(releases)),
            )
        }),
{
    reveal_strlit("txn");
    reveal_strlit("ok");
    reveal_strlit("compensated");
    reveal_strlit("order");
    reveal_strlit("failed");
    reveal_strlit("apps");
    reveal_strlit("releaseFailed");
    assert("txn"@.len() == 3 && "ok"@.len() == 2 && "compensated"@.len() == 11 && "order"@.len()
        == 5 && "failed"@.len() == 6 && "apps"@.len() == 4 && "releaseFailed"@.len() == 13);
}

/// The report of an unwind accounts for every step: each counts as compensated or has its entry
/// under `failed`, whatever came of the others. It tells `ok` exactly where no app refused or
/// missed anything.
pub proof fn law_unwind_report_adds_up(unwind: UnwindView, answers: Seq<Result<Tree, Seq<char>>>)
    requires
        answers.len() == unwind.plan().len(),
        unwind.steps.len() <= u64::MAX,
    ensures
        ({
            let doc = unwind.report(answers);
            let failed = report::failures(unwind.attempts(answers));
            &&& json::unsigned_field(doc, "compensated"@) matches Some(n)
            &&& json::field(doc, "failed"@) == Some(Tree::Array(failed))
            &&& n + failed.len() == unwind.steps.len()
            &&& json::bool_field(doc, "ok"@) == Some(
                forall|i: int| 0 <= i < answers.len() ==> #[trigger] answers[i] is Ok,
            )
            &&& json::field(doc, "order"@) == Some(report::steps_doc(unwind.steps))
            &&& json::unsigned_field(doc, "txn"@) == Some(unwind.txn)
        }),
{
    let attempts = unwind.attempts(answers);
    lemma_unwind_report_fields(unwind.txn, attempts, unwind.releases(answers));
    let releases = unwind.releases(answers);
    let n = unwind.steps.len() as int;
    lemma_attempts_add_up(attempts);
    lemma_undelivered(releases);
    assert(attempts.map_values(|a: Attempt| a.step) =~= unwind.steps);
    if forall|i: int| 0 <= i < answers.len() ==> #[trigger] answers[i] is Ok {
        assert forall|i: int| 0 <= i < attempts.len() implies (
        #[trigger] attempts[i]).answer is Ok by {
            assert(answers[i] is Ok);
        }
        assert forall|i: int| 0 <= i < releases.len() implies (
        #[trigger] releases[i]).answer is Ok by {
            assert(answers[n + i] is Ok);
        }
    } else {
        let i = choose|i: int| 0 <= i < answers.len() && !(#[trigger] answers[i] is Ok);
        if i < n {
            assert(attempts[i].answer is Err);
        } else {
            assert(releases[i - n].answer is Err);
        }
    }
}

/// A compensation that fails is told twice: under `failed`, and again under its app in `apps`.
pub proof fn law_failures_are_told_twice(
    unwind: UnwindView,
    answers: Seq<Result<Tree, Seq<char>>>,
    i: int,
)
    requires
        answers.len() == unwind.plan().len(),
        0 <= i < unwind.steps.len(),
        answers[i] is Err,
    ensures
        ({
            let attempts = unwind.attempts(answers);
            let app = unwind.steps[i].app;
            let entry = report::failure_doc(attempts[i]);
            let mine = report::within(attempts, app);
            &&& json::text_field(entry, "error"@) == Some(answers[i]->Err_0)
            &&& json::unsigned_field(entry, "seq"@) == Some(unwind.steps[i].seq)
            &&& json::text_field(entry, "app"@) == Some(app)
            &&& json::text_field(entry, "verb"@) == Some(unwind.steps[i].verb)
            &&& report::failures(attempts).contains(entry)
            &&& json::field(unwind.report(answers), "apps"@) matches Some(apps)
            &&& json::field(apps, app) matches Some(told)
            &&& json::field(told, "failed"@) == Some(Tree::Array(report::failures(mine)))
            &&& report::failures(mine).contains(entry)
        }),
{
    reveal_strlit("compensated");
    reveal_strlit("failed");
    reveal_strlit("app");
    reveal_strlit("seq");
    reveal_strlit("verb");
    reveal_strlit("error");
    assert("app"@[0] != "seq"@[0]);
    assert("compensated"@.len() == 11 && "failed"@.len() == 6 && "verb"@.len() == 4 && "error"@.len()
        == 5);
    let attempts = unwind.attempts(answers);
    lemma_unwind_report_fields(unwind.txn, attempts, unwind.releases(answers));
    let app = unwind.steps[i].app;
    assert(attempts[i].step.app == app);
    assert(report::took_part(attempts, app));
    lemma_failure_listed(attempts, i);
    attempts.lemma_filter_contains(|a: Attempt| a.step.app == app, i);
    let mine = report::within(attempts, app);
    let k = choose|k: int| 0 <= k < mine.len() && mine[k] == attempts[i];
    lemma_failure_listed(mine, k);
}

proof fn lemma_failure_listed(attempts: Seq<Attempt>, i: int)
    requires
        0 <= i < attempts.len(),
        attempts[i].answer is Err,
    ensures
        report::failures(attempts).contains(report::failure_doc(attempts[i])),
{
    let failed = |a: Attempt| a.answer is Err;
    attempts.lemma_filter_contains(failed, i);
    let found = attempts.filter(failed);
    let k = choose|k: int| 0 <= k < found.len() && found[k] == attempts[i];
    assert(report::failures(attempts)[k] == report::failure_doc(attempts[i]));
}

/// What stands under an app in `apps` is about that app's steps alone and accounts for each: it
/// counts as compensated or has its entry there, and each such entry stands under `failed` too.
pub proof fn law_apps_report_their_own_steps(
    unwind: UnwindView,
    answers: Seq<Result<Tree, Seq<char>>>,
    app: Seq<char>,
)
    requires
        answers.len() == unwind.plan().len(),
        unwind.steps.len() <= u64::MAX,
    ensures
        ({
            let attempts = unwind.attempts(answers);
            let mine = report::within(attempts, app);
            let steps = unwind.steps.filter(|step: StepView| step.app == app);
            &&& mine.map_values(|a: Attempt| a.step) == steps
            &&& report::compensated(mine) + report::failures(mine).len() == steps.len()
            &&& json::field(unwind.report(answers), "apps"@) matches Some(apps)
            &&& json::field(apps, app) == if steps.len() > 0 {
                Some(report::app_doc(mine))
            } else {
                None
            }
            &&& forall|i: int|
                0 <= i < report::failures(mine).len() ==> report::failures(attempts).contains(
                    #[trigger] report::failures(mine)[i],
                )
        }),
{
    let attempts = unwind.attempts(answers);
    let mine = report::within(attempts, app);
    lemma_unwind_report_fields(unwind.txn, attempts, unwind.releases(answers));
    let of_app = |a: Attempt| a.step.app == app;
    let failed = |a: Attempt| a.answer is Err;
    lemma_attempts_add_up(mine);
    lemma_within_steps(attempts, app);
    assert(attempts.map_values(|a: Attempt| a.step) =~= unwind.steps);
    if report::took_part(attempts, app) {
        let i = choose|i: int| 0 <= i < attempts.len() && (#[trigger] attempts[i]).step.app == app;
        attempts.lemma_filter_contains(of_app, i);
    }
    if mine.len() > 0 {
        attempts.lemma_filter_pred(of_app, 0);
        attempts.lemma_filter_contains_rev(of_app, mine[0]);
        let i = choose|i: int| 0 <= i < attempts.len() && attempts[i] == mine[0];
        assert(attempts[i].step.app == app);
    }
    assert forall|i: int| 0 <= i < report::failures(mine).len() implies report::failures(
        attempts,
    ).contains(#[trigger] report::failures(mine)[i]) by {
        let entry = mine.filter(failed)[i];
        mine.lemma_filter_pred(failed, i);
        mine.lemma_filter_contains_rev(failed, entry);
        let k = choose|k: int| 0 <= k < mine.len() && mine[k] == entry;
        attempts.lemma_filter_contains_rev(of_app, mine[k]);
        let j = choose|j: int| 0 <= j < attempts.len() && attempts[j] == entry;
        lemma_failure_listed(attempts, j);
    }
}

proof fn lemma_within_steps(attempts: Seq<Attempt>, app: Seq<char>)
    ensures
        report::within(attempts, app).map_values(|a: Attempt| a.step) == attempts.map_values(
            |a: Attempt| a.step,
        ).filter(|step: StepView| step.app == app),
    decreases attempts.len(),
{
    reveal(Seq::filter);
    let step = |a: Attempt| a.step;
    let of_app = |step: StepView| step.app == app;
    if attempts.len() == 0 {
        assert(report::within(attempts, app).map_values(step) =~= attempts.map_values(step).filter(
            of_app,
        ));
    } else {
        let rest = attempts.drop_last();
        let last = attempts.last();
        lemma_within_steps(rest, app);
        assert(rest.push(last) =~= attempts);
        report::lemma_within_push(rest, last, app);
        assert(attempts.map_values(step).drop_last() =~= rest.map_values(step));
        assert(report::within(attempts, app).map_values(step) =~= attempts.map_values(step).filter(
            of_app,
        ));
    }
}

/// The report of a commit tells `ok` exactly where every app got its `commit`, and counts the
/// steps of the chain.
pub proof fn law_commit_report_adds_up(saga: SagaView, answers: Seq<Result<Tree, Seq<char>>>)
    requires
        answers.len() == saga.closing().plan().len(),
        saga.steps.len() <= u64::MAX,
    ensures
        ({
            let doc = saga.closing().report(answers);
            &&& json::bool_field(doc, "ok"@) == Some(
                forall|i: int| 0 <= i < answers.len() ==> #[trigger] answers[i] is Ok,
            )
            &&& json::unsigned_field(doc, "committed"@) == Some(saga.steps.len() as u64)
            &&& json::unsigned_field(doc, "txn"@) == Some(saga.txn)
        }),
{
    reveal_strlit("txn");
    reveal_strlit("ok");
    reveal_strlit("committed");
    reveal_strlit("failed");
    assert("txn"@.len() == 3 && "ok"@.len() == 2 && "committed"@.len() == 9 && "failed"@.len() == 6);
    let deliveries = report::deliveries(saga.closing().apps, answers);
    lemma_undelivered(deliveries);
    if forall|i: int| 0 <= i < answers.len() ==> #[trigger] answers[i] is Ok {
        assert forall|i: int| 0 <= i < deliveries.len() implies (
        #[trigger] deliveries[i]).answer is Ok by {
            assert(answers[i] is Ok);
        }
    } else {
        let i = choose|i: int| 0 <= i < answers.len() && !(#[trigger] answers[i] is Ok);
        assert(deliveries[i].answer is Err);
    }
}

} // verus!
