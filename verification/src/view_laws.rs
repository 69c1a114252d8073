//! What holds of the views: each says what the value holds, part by part.

use crate::conn::{Conn, ConnView, Heard, HeardView};
use crate::exchange;
use crate::exchange::{Action, ActionView, Event, EventView, Job, JobView, Phase, PhaseView};
use crate::exports;
use crate::exports::{Command, CommandView};
use crate::json;
use crate::json::{Json, Tree};
use crate::report;
use crate::saga;
use crate::saga::{Forward, Operation, OperationView, Progress, ProgressView, Step};
use vstd::prelude::*;

verus! {

/// A connection's view has its endpoint, its count, its open transaction, and each event that it
/// keeps, in order.
pub proof fn law_connections_say_what_they_hold<S>(conn: Conn<S>)
    ensures
        conn@.reader == conn.reader,
        conn@.next_id == conn.next_id,
        conn@.open_txn == conn.open_txn,
        conn@.events.len() == conn.events@.len(),
        forall|i: int|
            0 <= i < conn.events@.len() ==> #[trigger] conn@.events[i] == conn.events@[i]@,
{
    json::lemma_trees(conn.events@);
}

/// What was heard is told as it is.
pub proof fn law_heard_is_told(reply: Json, message: String)
    ensures
        Heard::Reply(reply)@ == HeardView::Reply(reply@),
        Heard::Waiting@ == HeardView::Waiting,
        Heard::Malformed(message)@ == HeardView::Malformed(message@),
{
}

/// A job is told as it is.
pub proof fn law_jobs_are_told(frame: Json, effect: exchange::Effect)
    ensures
        Job::Open@ == JobView::Open,
        Job::Poll@ == JobView::Poll,
        (Job::Request { frame, effect })@ == (JobView::Request { frame: frame@, effect }),
{
}

/// An action is told as it is.
pub proof fn law_actions_are_told(request: Json, line: String, draining: bool)
    ensures
        Action::Dial@ == ActionView::Dial,
        (Action::Send { request, line })@ == (ActionView::Send { request: request@, line: line@ }),
        Action::Read@ == ActionView::Read,
        Action::SetDrainMode(draining)@ == ActionView::SetDrainMode(draining),
        Action::Finish@ == ActionView::Finish,
{
}

/// An event is told as it is.
pub proof fn law_events_are_told<S>(reader: S, message: String, doc: Json, quiet: bool)
    ensures
        Event::<S>::Go@ == EventView::<S>::Go,
        Event::Dialed(Ok(reader))@ == EventView::Dialed(Ok::<S, Seq<char>>(reader)),
        Event::<S>::Dialed(Err(message))@ == EventView::<S>::Dialed(Err(message@)),
        Event::<S>::Sent(Ok(()))@ == EventView::<S>::Sent(Ok(())),
        Event::<S>::Sent(Err(message))@ == EventView::<S>::Sent(Err(message@)),
        Event::<S>::Frame(Ok(doc))@ == EventView::<S>::Frame(Ok(doc@)),
        Event::<S>::Frame(Err(message))@ == EventView::<S>::Frame(Err(message@)),
        Event::<S>::Closed@ == EventView::<S>::Closed,
        (Event::<S>::Failed { quiet, message })@ == (EventView::<S>::Failed {
            quiet,
            message: message@,
        }),
        Event::<S>::ModeSet(Ok(()))@ == EventView::<S>::ModeSet(Ok(())),
        Event::<S>::ModeSet(Err(message))@ == EventView::<S>::ModeSet(Err(message@)),
{
}

/// A phase is told as it is.
pub proof fn law_phases_are_told<S>(
    retry: bool,
    message: String,
    rejoin: Option<u64>,
    txn: u64,
    fresh: Conn<S>,
    doc: Json,
)
    ensures
        Phase::<S>::Start@ == PhaseView::<S>::Start,
        Phase::<S>::Dialing@ == PhaseView::<S>::Dialing,
        (Phase::<S>::Sending { retry })@ == (PhaseView::<S>::Sending { retry }),
        (Phase::<S>::Awaiting { retry })@ == (PhaseView::<S>::Awaiting { retry }),
        (Phase::<S>::Quieting { retry })@ == (PhaseView::<S>::Quieting { retry }),
        (Phase::<S>::Draining { retry })@ == (PhaseView::<S>::Draining { retry }),
        (Phase::<S>::Restoring { retry, failure: Some(message) })@ == (PhaseView::<S>::Restoring {
            retry,
            failure: Some(message@),
        }),
        (Phase::<S>::Restoring { retry, failure: None })@ == (PhaseView::<S>::Restoring {
            retry,
            failure: None,
        }),
        (Phase::<S>::Redialing { rejoin })@ == (PhaseView::<S>::Redialing { rejoin }),
        (Phase::RejoinSending { txn, fresh })@ == (PhaseView::RejoinSending { txn, fresh: fresh@ }),
        (Phase::RejoinAwaiting { txn, fresh })@ == (PhaseView::RejoinAwaiting {
            txn,
            fresh: fresh@,
        }),
        (Phase::<S>::Done { answer: Ok(doc) })@ == (PhaseView::<S>::Done { answer: Ok(doc@) }),
        (Phase::<S>::Done { answer: Err(message) })@ == (PhaseView::<S>::Done {
            answer: Err(message@),
        }),
{
}

/// The connection in an option is told where there is one.
pub proof fn law_slots_are_told<S>(conn: Conn<S>)
    ensures
        exchange::held(Some(conn)) == Some(conn@),
        exchange::held(None::<Conn<S>>) == None::<ConnView<S>>,
{
}

/// A step is told with all its parts, and a journal step by step.
pub proof fn law_steps_are_told(step: Step, steps: Seq<Step>)
    ensures
        step@.seq == step.seq,
        step@.app == step.app@,
        step@.verb == step.verb@,
        step@.args == step.args@,
        step@.result == step.result@,
        saga::stepped(steps).len() == steps.len(),
        forall|i: int| 0 <= i < steps.len() ==> #[trigger] saga::stepped(steps)[i] == steps[i]@,
{
}

/// An operation is told with all its parts, and a plan operation by operation.
pub proof fn law_operations_are_told(
    app: String,
    txn: u64,
    verb: String,
    args: Json,
    result: Json,
    plan: Seq<Operation>,
)
    ensures
        (Operation::Begin { app, txn })@ == (OperationView::Begin { app: app@, txn }),
        (Operation::Call { app, verb, args })@ == (OperationView::Call {
            app: app@,
            verb: verb@,
            args: args@,
        }),
        (Operation::Undo { app, verb, args, result })@ == (OperationView::Undo {
            app: app@,
            verb: verb@,
            args: args@,
            result: result@,
        }),
        (Operation::Commit { app, txn })@ == (OperationView::Commit { app: app@, txn }),
        saga::operated(plan).len() == plan.len(),
        forall|i: int| 0 <= i < plan.len() ==> #[trigger] saga::operated(plan)[i] == plan[i]@,
{
}

/// How far a step is, is told as it is.
pub proof fn law_progress_is_told(forward: Forward, doc: Json, message: String)
    ensures
        Progress::Continue(forward)@ == ProgressView::Continue(forward@),
        Progress::Finished(Ok(doc))@ == ProgressView::Finished(Ok(doc@)),
        Progress::Finished(Err(message))@ == ProgressView::Finished(Err(message@)),
{
}

/// Each answer is told, in order.
pub proof fn law_all_answers_are_told(answers: Seq<Result<Json, String>>)
    ensures
        report::all_told(answers).len() == answers.len(),
        forall|i: int|
            0 <= i < answers.len() ==> #[trigger] report::all_told(answers)[i] == match answers[i] {
                Ok(doc) => Ok::<Tree, Seq<char>>(doc@),
                Err(message) => Err(message@),
            },
{
}

/// A command is told with all its parts.
pub proof fn law_commands_are_told(
    app: String,
    verb: String,
    args: Json,
    result: Json,
    name: String,
    id: Option<u64>,
    txn: u64,
    message: String,
    command: Command,
)
    ensures
        (Command::Open { app })@ == (CommandView::Open { app: app@ }),
        Command::Here@ == CommandView::Here,
        Command::List@ == CommandView::List,
        (Command::Verbs { app })@ == (CommandView::Verbs { app: app@ }),
        (Command::Call { app, verb, args })@ == (CommandView::Call {
            app: app@,
            verb: verb@,
            args: args@,
        }),
        (Command::Get { app, state: name })@ == (CommandView::Get { app: app@, state: name@ }),
        (Command::Sub { app, event: name })@ == (CommandView::Sub { app: app@, event: name@ }),
        (Command::Poll { app })@ == (CommandView::Poll { app: app@ }),
        (Command::Undo { app, verb, args, result })@ == (CommandView::Undo {
            app: app@,
            verb: verb@,
            args: args@,
            result: result@,
        }),
        (Command::TxnBegin { id })@ == (CommandView::TxnBegin { id }),
        (Command::TxnCall { txn, app, verb, args })@ == (CommandView::TxnCall {
            txn,
            app: app@,
            verb: verb@,
            args: args@,
        }),
        (Command::TxnSteps { txn })@ == (CommandView::TxnSteps { txn }),
        (Command::TxnCommit { txn })@ == (CommandView::TxnCommit { txn }),
        (Command::TxnAbort { txn })@ == (CommandView::TxnAbort { txn }),
        exports::decoded(Ok(command)) == Ok::<CommandView, Seq<char>>(command@),
        exports::decoded(Err(message)) == Err::<CommandView, Seq<char>>(message@),
{
}

} // verus!
