//! What holds of every exchange.

use crate::conn;
use crate::conn::{ConnView, HeardView};
use crate::exchange;
use crate::exchange::{ActionView, Effect, EventView, ExchangeView, JobView, PhaseView};
use crate::frame;
use crate::json;
use crate::json::Tree;
use vstd::prelude::*;

verus! {

/// The exchange after `events`.
pub open spec fn run<S>(x: ExchangeView<S>, events: Seq<EventView<S>>) -> ExchangeView<S>
    decreases events.len(),
{
    if events.len() == 0 {
        x
    } else {
        run(x, events.drop_last()).after(events.last()).0
    }
}

/// The actions that `events` led to, in order.
pub open spec fn actions<S>(x: ExchangeView<S>, events: Seq<EventView<S>>) -> Seq<ActionView>
    decreases events.len(),
{
    if events.len() == 0 {
        Seq::empty()
    } else {
        actions(x, events.drop_last()).push(run(x, events.drop_last()).after(events.last()).1)
    }
}

/// Whether each of `events` is one that the action before it can lead to.
pub open spec fn possible<S>(x: ExchangeView<S>, events: Seq<EventView<S>>) -> bool
    decreases events.len(),
{
    events.len() > 0 ==> possible(x, events.drop_last()) && run(x, events.drop_last()).awaits(
        events.last(),
    )
}

/// How often the app is dialed.
pub open spec fn dials(actions: Seq<ActionView>) -> nat {
    actions.filter(|action: ActionView| action is Dial).len()
}

/// A step of an exchange that is well-formed leads to one that is.
pub proof fn law_steps_keep_exchanges_well_formed<S>(x: ExchangeView<S>, event: EventView<S>)
    requires
        x.wf(),
        x.awaits(event),
    ensures
        x.after(event).0.wf(),
{
}

/// Whether the job is being run for the second time.
pub open spec fn retrying<S>(x: ExchangeView<S>) -> bool {
    match x.phase {
        PhaseView::Sending { retry } => retry,
        PhaseView::Awaiting { retry } => retry,
        PhaseView::Quieting { retry } => retry,
        PhaseView::Draining { retry } => retry,
        PhaseView::Restoring { retry, .. } => retry,
        _ => false,
    }
}

/// How often the app may still be dialed.
spec fn dials_left<S>(x: ExchangeView<S>) -> nat {
    match x.phase {
        PhaseView::Start => if x.slot is Some {
            1
        } else {
            2
        },
        PhaseView::Dialing => if x.job is Open {
            0
        } else {
            1
        },
        PhaseView::Redialing { .. }
        | PhaseView::RejoinSending { .. }
        | PhaseView::RejoinAwaiting { .. }
        | PhaseView::Done { .. } => 0,
        _ => if retrying(x) {
            0
        } else {
            1
        },
    }
}

proof fn lemma_dials_step<S>(x: ExchangeView<S>, event: EventView<S>)
    requires
        x.wf(),
        x.awaits(event),
    ensures
        x.after(event).0.wf(),
        x.after(event).1 is Dial ==> dials_left(x.after(event).0) + 1 <= dials_left(x),
        dials_left(x.after(event).0) <= dials_left(x),
{
}

proof fn lemma_dials<S>(x: ExchangeView<S>, events: Seq<EventView<S>>)
    requires
        x.wf(),
        possible(x, events),
    ensures
        run(x, events).wf(),
        dials(actions(x, events)) + dials_left(run(x, events)) <= dials_left(x),
    decreases events.len(),
{
    if events.len() == 0 {
        reveal(Seq::filter);
    } else {
        let before = events.drop_last();
        let y = run(x, before);
        lemma_dials(x, before);
        lemma_dials_step(y, events.last());
        actions(x, before).lemma_filter_len_push(
            |action: ActionView| action is Dial,
            y.after(events.last()).1,
        );
    }
}

/// A transport failure is met by dialing once more, and never twice: an exchange dials a pooled
/// app at most once, and an app that was not pooled at most twice.
pub proof fn law_reconnects_once<S>(
    app: Seq<char>,
    job: JobView,
    slot: Option<ConnView<S>>,
    events: Seq<EventView<S>>,
)
    requires
        ExchangeView::starting(app, job, slot).wf(),
        possible(ExchangeView::starting(app, job, slot), events),
    ensures
        dials(actions(ExchangeView::starting(app, job, slot), events)) <= if slot is Some {
            1nat
        } else {
            2nat
        },
{
    lemma_dials(ExchangeView::starting(app, job, slot), events);
}

/// The transaction that a connection has open.
pub open spec fn open_txn<S>(slot: Option<ConnView<S>>) -> Option<u64> {
    match slot {
        Some(conn) => conn.open_txn,
        None => None,
    }
}

/// What a job that was accepted or refused does to the open transaction.
pub open spec fn job_effect(job: JobView, accepted: bool, open_txn: Option<u64>) -> Option<u64> {
    match job {
        JobView::Request { effect, .. } => effect.on(accepted, open_txn),
        _ => open_txn,
    }
}

/// Whether `event` brings the reply that a request awaits.
pub open spec fn is_answered<S>(x: ExchangeView<S>, event: EventView<S>) -> bool {
    &&& x.phase is Awaiting
    &&& event matches EventView::Frame(Ok(reply))
    &&& frame::is_reply_to(reply, x.slot->0.next_id)
}

/// A transaction outlives its connection: the pooled connection has open what the first one had,
/// also where it is a fresh one that took its place. Only a job that the app answers adds its own
/// effect to that, where one that it refuses opens nothing; one that does not get through changes
/// nothing.
pub proof fn law_transaction_outlives_connection<S>(
    app: Seq<char>,
    job: JobView,
    slot: Option<ConnView<S>>,
    events: Seq<EventView<S>>,
)
    requires
        ExchangeView::starting(app, job, slot).wf(),
        possible(ExchangeView::starting(app, job, slot), events),
    ensures
        ({
            let x = run(ExchangeView::starting(app, job, slot), events);
            &&& x.job == job
            &&& match x.phase {
                PhaseView::Done { answer: Ok(_) } => open_txn(x.slot) == job_effect(
                    job,
                    true,
                    open_txn(slot),
                ),
                PhaseView::Done { answer: Err(_) } => open_txn(x.slot) == if is_answered(
                    run(ExchangeView::starting(app, job, slot), events.drop_last()),
                    events.last(),
                ) {
                    job_effect(job, false, open_txn(slot))
                } else {
                    open_txn(slot)
                },
                _ => open_txn(x.slot) == open_txn(slot),
            }
        }),
    decreases events.len(),
{
    if events.len() > 0 {
        let start = ExchangeView::starting(app, job, slot);
        law_transaction_outlives_connection(app, job, slot, events.drop_last());
        lemma_dials(start, events.drop_last());
    }
}

/// A job whose connection failed inside a transaction runs again only once the app has accepted
/// the `begin` that joins that transaction on the fresh connection.
pub proof fn law_no_retry_before_rejoin<S>(x: ExchangeView<S>, event: EventView<S>, txn: u64)
    requires
        x.wf(),
        x.awaits(event),
        x.slot matches Some(conn) && conn.open_txn == Some(txn),
        !retrying(x),
        retrying(x.after(event).0),
    ensures
        x.phase matches PhaseView::RejoinAwaiting { txn: joined, fresh } && joined == txn
            && fresh.next_id == 1,
        event matches EventView::Frame(Ok(reply)) && frame::is_reply_to(reply, 1)
            && frame::reply_says(reply) is Ok,
        x.after(event).0.slot matches Some(conn) && conn.open_txn == Some(txn),
{
}

/// What is sent on a fresh connection to join the transaction again is its `begin`, and nothing
/// else is sent there until it is answered.
pub proof fn law_rejoin_sends_begin<S>(x: ExchangeView<S>, event: EventView<S>)
    requires
        x.wf(),
        x.awaits(event),
    ensures
        x.after(event).0.phase matches PhaseView::RejoinSending { txn, .. } ==> x.after(event).1
            == ActionView::sending(frame::stamped(frame::begin_doc(txn), 1)),
        x.phase is RejoinAwaiting && x.after(event).0.phase is RejoinAwaiting ==> x.after(event).1
            == ActionView::Read,
        x.phase is RejoinSending ==> !(x.after(event).1 is Send),
{
}

/// A refusal by the app is the answer: it is told to the caller, the app is not dialed again, and
/// the connection stays as it is, but that it leaves the transaction that a `commit` or an `abort`
/// was for.
pub proof fn law_refusal_is_the_answer<S>(x: ExchangeView<S>, reply: Tree, message: Seq<char>)
    requires
        x.wf(),
        x.phase is Awaiting,
        frame::is_reply_to(reply, x.slot->0.next_id),
        frame::reply_says(reply) == Err::<Tree, Seq<char>>(message),
    ensures
        x.after(EventView::Frame(Ok(reply))).1 == ActionView::Finish,
        x.after(EventView::Frame(Ok(reply))).0.phase == (PhaseView::<S>::Done {
            answer: Err(message),
        }),
        x.after(EventView::Frame(Ok(reply))).0.slot == Some(
            ConnView {
                open_txn: x.job->effect.on(false, x.slot->0.open_txn),
                ..x.slot->0
            },
        ),
{
    lemma_reply_is_no_event(reply, x.slot->0.next_id);
}

proof fn lemma_reply_is_no_event(reply: Tree, id: u64)
    requires
        frame::is_reply_to(reply, id),
    ensures
        !frame::is_event(reply),
{
    reveal_strlit("reply");
    reveal_strlit("event");
    assert("reply"@[0] != "event"@[0]);
}

// ---- events ----

/// The app's events among what was read, in the order of arrival: the frames whose `t` is the
/// text `event`, whatever else they hold.
pub open spec fn delivered<S>(events: Seq<EventView<S>>) -> Seq<Tree>
    decreases events.len(),
{
    if events.len() == 0 {
        Seq::empty()
    } else {
        let before = delivered(events.drop_last());
        match events.last() {
            EventView::Frame(Ok(doc)) if json::field(doc, "t"@) == Some(
                Tree::Text("event"@),
            ) => before.push(doc),
            _ => before,
        }
    }
}

/// The reads that brought `lines`, each with the frame on it, or why there is none.
pub open spec fn reads<S>(lines: Seq<Result<Tree, Seq<char>>>) -> Seq<EventView<S>> {
    lines.map_values(|line: Result<Tree, Seq<char>>| EventView::Frame(line))
}

/// The events that a connection keeps.
pub open spec fn kept<S>(slot: Option<ConnView<S>>) -> Seq<Tree> {
    match slot {
        Some(conn) => conn.events,
        None => Seq::empty(),
    }
}

/// The events that an exchange hands out: those that a poll answers.
pub open spec fn handed_out<S>(x: ExchangeView<S>) -> Seq<Tree> {
    match (x.job, x.phase) {
        (JobView::Poll, PhaseView::Done { answer: Ok(Tree::Array(items)) }) => items,
        _ => Seq::empty(),
    }
}

proof fn lemma_events_step<S>(x: ExchangeView<S>, event: EventView<S>)
    requires
        x.wf(),
        x.awaits(event),
    ensures
        x.after(event).0.job == x.job,
        x.job is Poll && x.after(event).0.phase is Done && x.after(event).0.phase->answer is Ok
            ==> kept(x.after(event).0.slot) == Seq::<Tree>::empty(),
        handed_out(x.after(event).0) + kept(x.after(event).0.slot) == match event {
            EventView::Frame(Ok(doc)) if frame::is_event(doc) => kept(x.slot).push(doc),
            _ => kept(x.slot),
        },
{
    match event {
        EventView::Frame(Ok(doc)) => {
            if frame::is_reply_to(doc, x.current()->0.next_id) {
                lemma_reply_is_no_event(doc, x.current()->0.next_id);
            }
        },
        _ => {},
    }
    let y = x.after(event).0;
    assert(handed_out(y) + kept(y.slot) =~= match event {
        EventView::Frame(Ok(doc)) if frame::is_event(doc) => kept(x.slot).push(doc),
        _ => kept(x.slot),
    });
}

/// No event is lost, told twice or reordered: at every point of an exchange, what it has handed
/// out and what the pooled connection keeps are the events that were kept before and those that
/// were read since, in the order of arrival. That holds over a reconnect, over the joining of a
/// transaction again, and over failures; and only a poll that succeeds hands anything out.
pub proof fn law_events_are_kept_until_polled<S>(
    app: Seq<char>,
    job: JobView,
    slot: Option<ConnView<S>>,
    events: Seq<EventView<S>>,
)
    requires
        ExchangeView::starting(app, job, slot).wf(),
        possible(ExchangeView::starting(app, job, slot), events),
    ensures
        ({
            let y = run(ExchangeView::starting(app, job, slot), events);
            &&& y.job == job
            &&& handed_out(y) + kept(y.slot) == kept(slot) + delivered(events)
            &&& if job is Poll && y.phase is Done && y.phase->answer is Ok {
                kept(y.slot) == Seq::<Tree>::empty()
            } else {
                handed_out(y) == Seq::<Tree>::empty()
            }
        }),
    decreases events.len(),
{
    let start = ExchangeView::starting(app, job, slot);
    if events.len() == 0 {
        assert(handed_out(start) + kept(slot) =~= kept(slot) + delivered(events));
    } else {
        let before = events.drop_last();
        let x = run(start, before);
        law_events_are_kept_until_polled(app, job, slot, before);
        lemma_dials(start, before);
        lemma_events_step(x, events.last());
        assert(handed_out(x) == Seq::<Tree>::empty());
        assert(handed_out(x) + kept(x.slot) =~= kept(x.slot));
        assert(kept(slot) + delivered(events) =~= match events.last() {
            EventView::Frame(Ok(doc)) if frame::is_event(doc) => (kept(slot) + delivered(
                before,
            )).push(doc),
            _ => kept(slot) + delivered(before),
        });
    }
}

proof fn lemma_run_push<S>(x: ExchangeView<S>, events: Seq<EventView<S>>, event: EventView<S>)
    ensures
        run(x, events.push(event)) == run(x, events).after(event).0,
{
    assert(events.push(event).drop_last() =~= events);
}

proof fn lemma_run_add<S>(x: ExchangeView<S>, first: Seq<EventView<S>>, more: Seq<EventView<S>>)
    ensures
        run(x, first + more) == run(run(x, first), more),
    decreases more.len(),
{
    if more.len() == 0 {
        assert(first + more =~= first);
    } else {
        lemma_run_add(x, first, more.drop_last());
        assert((first + more).drop_last() =~= first + more.drop_last());
    }
}

/// Whether `line` brings a frame that is no reply to the request under `id`.
pub open spec fn is_beside(line: Result<Tree, Seq<char>>, id: u64) -> bool {
    line matches Ok(doc) && !frame::is_reply_to(doc, id)
}

/// An exchange that listens goes on listening, and keeps the events that it reads.
proof fn lemma_listening<S>(x: ExchangeView<S>, lines: Seq<Result<Tree, Seq<char>>>)
    requires
        x.wf(),
        x.phase is Draining || x.phase is Awaiting || x.phase is RejoinAwaiting,
        x.phase is Draining || forall|i: int|
            0 <= i < lines.len() ==> is_beside(#[trigger] lines[i], x.current()->0.next_id),
    ensures
        run(x, reads(lines)) == (ExchangeView {
            slot: Some(
                ConnView {
                    events: x.slot->0.events + delivered(reads::<S>(lines)),
                    ..x.slot->0
                },
            ),
            ..x
        }),
    decreases lines.len(),
{
    let told = x.slot->0.events + delivered(reads::<S>(lines));
    if lines.len() == 0 {
        assert(told =~= x.slot->0.events);
    } else {
        let before = lines.drop_last();
        lemma_listening(x, before);
        assert(reads::<S>(lines).drop_last() =~= reads::<S>(before));
        assert(is_beside(lines[lines.len() - 1], x.current()->0.next_id) || x.phase is Draining);
        assert(told =~= match lines.last() {
            Ok(doc) if frame::is_event(doc) => (x.slot->0.events + delivered(
                reads::<S>(before),
            )).push(doc),
            _ => x.slot->0.events + delivered(reads::<S>(before)),
        });
    }
}

/// What comes of a request once its frame is to be written: the write succeeds, other frames are
/// read, and then the reply.
pub open spec fn answering<S>(lines: Seq<Result<Tree, Seq<char>>>, reply: Tree) -> Seq<
    EventView<S>,
> {
    seq![EventView::Sent(Ok(()))] + reads(lines.push(Ok(reply)))
}

/// What comes of a poll once reads are to give up soon: that succeeds, lines are read, there is
/// no more to read, and reads block again.
pub open spec fn emptying<S>(lines: Seq<Result<Tree, Seq<char>>>, end: EventView<S>) -> Seq<
    EventView<S>,
> {
    seq![EventView::ModeSet(Ok(()))] + reads(lines).push(end).push(EventView::ModeSet(Ok(())))
}

/// Whether `event` ends a poll's reading without a failure.
pub open spec fn is_end<S>(event: EventView<S>) -> bool {
    event is Closed || (event matches EventView::Failed { quiet, .. } && quiet)
}

/// A request that is written ends with what the reply says.
proof fn lemma_answered<S>(
    x: ExchangeView<S>,
    lines: Seq<Result<Tree, Seq<char>>>,
    reply: Tree,
)
    requires
        x.wf(),
        x.phase is Sending,
        forall|i: int|
            0 <= i < lines.len() ==> is_beside(#[trigger] lines[i], x.slot->0.next_id),
        frame::is_reply_to(reply, x.slot->0.next_id),
    ensures
        run(x, answering(lines, reply)) == (ExchangeView {
            slot: Some(
                ConnView {
                    events: x.slot->0.events + delivered(reads::<S>(lines)),
                    open_txn: x.job->effect.on(
                        frame::reply_says(reply) is Ok,
                        x.slot->0.open_txn,
                    ),
                    ..x.slot->0
                },
            ),
            phase: PhaseView::Done { answer: frame::reply_says(reply) },
            ..x
        }),
{
    let sent = seq![EventView::Sent(Ok(()))];
    let listening = x.after(EventView::Sent(Ok(()))).0;
    lemma_run_push(x, Seq::empty(), EventView::Sent(Ok(())));
    assert(sent =~= Seq::empty().push(EventView::Sent(Ok(()))));
    lemma_run_add(x, sent, reads(lines.push(Ok(reply))));
    lemma_listening(listening, lines);
    assert(reads::<S>(lines.push(Ok(reply))) =~= reads::<S>(lines).push(
        EventView::Frame(Ok(reply)),
    ));
    lemma_run_push(listening, reads(lines), EventView::Frame(Ok(reply)));
    lemma_reply_is_no_event(reply, x.slot->0.next_id);
}

/// A poll whose reads give up soon ends with the events that were kept and those that it reads.
proof fn lemma_emptied<S>(
    x: ExchangeView<S>,
    lines: Seq<Result<Tree, Seq<char>>>,
    end: EventView<S>,
)
    requires
        x.wf(),
        x.phase is Quieting,
        is_end(end),
    ensures
        run(x, emptying(lines, end)) == (ExchangeView {
            slot: Some(ConnView { events: Seq::empty(), ..x.slot->0 }),
            phase: PhaseView::Done {
                answer: Ok(Tree::Array(x.slot->0.events + delivered(reads::<S>(lines)))),
            },
            ..x
        }),
{
    let quiet = seq![EventView::ModeSet(Ok(()))];
    let listening = x.after(EventView::ModeSet(Ok(()))).0;
    lemma_run_push(x, Seq::empty(), EventView::ModeSet(Ok(())));
    assert(quiet =~= Seq::empty().push(EventView::ModeSet(Ok(()))));
    lemma_run_add(x, quiet, reads(lines).push(end).push(EventView::ModeSet(Ok(()))));
    lemma_listening(listening, lines);
    lemma_run_push(listening, reads(lines), end);
    lemma_run_push(listening, reads(lines).push(end), EventView::ModeSet(Ok(())));
}

/// A request goes out under the next id of its connection, and reads until the reply to that id
/// comes. Replies to other ids and stray frames are passed over; the events in between are kept,
/// in order and behind those kept before; and what the reply says is the answer.
pub proof fn law_request_finds_its_reply<S>(
    app: Seq<char>,
    request: Tree,
    effect: Effect,
    conn: ConnView<S>,
    lines: Seq<Result<Tree, Seq<char>>>,
    reply: Tree,
)
    requires
        request is Object,
        conn.next_id < u64::MAX,
        forall|i: int|
            0 <= i < lines.len() ==> is_beside(#[trigger] lines[i], (conn.next_id + 1) as u64),
        frame::is_reply_to(reply, (conn.next_id + 1) as u64),
    ensures
        ({
            let x = ExchangeView::starting(
                app,
                JobView::Request { frame: request, effect },
                Some(conn),
            );
            let y = run(x, seq![EventView::Go] + answering(lines, reply));
            &&& x.after(EventView::Go).1 == ActionView::sending(
                frame::stamped(request, (conn.next_id + 1) as u64),
            )
            &&& y.phase == (PhaseView::<S>::Done { answer: frame::reply_says(reply) })
            &&& y.slot == Some(
                ConnView {
                    events: conn.events + delivered(reads::<S>(lines)),
                    next_id: (conn.next_id + 1) as u64,
                    open_txn: effect.on(frame::reply_says(reply) is Ok, conn.open_txn),
                    ..conn
                },
            )
        }),
{
    let x = ExchangeView::starting(app, JobView::Request { frame: request, effect }, Some(conn));
    lemma_run_push(x, Seq::empty(), EventView::Go);
    assert(seq![EventView::<S>::Go] =~= Seq::empty().push(EventView::Go));
    lemma_run_add(x, seq![EventView::Go], answering(lines, reply));
    lemma_answered(x.after(EventView::Go).0, lines, reply);
}

/// A poll hands out every event once: first those that were kept, then those that it reads, in
/// the order of arrival; lines that bring no frame are passed over. None is kept afterwards, so a
/// poll after it hands out only what has arrived since.
pub proof fn law_poll_hands_out_each_event_once<S>(
    app: Seq<char>,
    conn: ConnView<S>,
    lines: Seq<Result<Tree, Seq<char>>>,
    end: EventView<S>,
)
    requires
        is_end(end),
    ensures
        ({
            let x = ExchangeView::starting(app, JobView::Poll, Some(conn));
            let y = run(x, seq![EventView::Go] + emptying(lines, end));
            &&& y.phase == (PhaseView::<S>::Done {
                answer: Ok(Tree::Array(conn.events + delivered(reads::<S>(lines)))),
            })
            &&& y.slot == Some(ConnView { events: Seq::empty(), ..conn })
        }),
{
    let x = ExchangeView::starting(app, JobView::Poll, Some(conn));
    lemma_run_push(x, Seq::empty(), EventView::Go);
    assert(seq![EventView::<S>::Go] =~= Seq::empty().push(EventView::Go));
    lemma_run_add(x, seq![EventView::Go], emptying(lines, end));
    lemma_emptied(x.after(EventView::Go).0, lines, end);
}

// ---- reachability ----

/// To open an app is to dial it, whether or not a connection is pooled: the answer is that the app
/// can be reached exactly where the dial succeeds, and otherwise the dial's failure. A pooled
/// connection stays; where there is none, the one that was dialed is pooled.
pub proof fn law_open_tells_whether_the_app_is_reachable<S>(
    app: Seq<char>,
    slot: Option<ConnView<S>>,
    result: Result<S, Seq<char>>,
)
    ensures
        ({
            let x = ExchangeView::starting(app, JobView::Open, slot);
            let y = run(x, seq![EventView::Go, EventView::Dialed(result)]);
            &&& x.after(EventView::Go).1 == ActionView::Dial
            &&& y.phase == (PhaseView::<S>::Done {
                answer: match result {
                    Ok(_) => Ok(exchange::reachable_doc(app)),
                    Err(message) => Err(message),
                },
            })
            &&& y.slot == match (slot, result) {
                (None, Ok(reader)) => Some(ConnView::fresh(reader)),
                _ => slot,
            }
        }),
{
    let x = ExchangeView::starting(app, JobView::Open, slot);
    let go = Seq::empty().push(EventView::Go);
    lemma_run_push(x, Seq::empty(), EventView::Go);
    lemma_run_push(x, go, EventView::Dialed(result));
    assert(seq![EventView::Go, EventView::Dialed(result)] =~= go.push(EventView::Dialed(result)));
}

// ---- reconnecting ----

/// An attempt to connect again that fails, or to join the transaction again, leaves the pooled
/// connection as it is.
pub proof fn law_failed_reconnect_changes_nothing<S>(x: ExchangeView<S>, event: EventView<S>)
    requires
        x.wf(),
        x.awaits(event),
        x.phase is Redialing || x.phase is RejoinSending || x.phase is RejoinAwaiting,
        x.after(event).0.phase matches PhaseView::Done { answer: Err(_) },
    ensures
        x.after(event).0.slot == x.slot,
{
    if let EventView::Frame(Ok(reply)) = event {
        if frame::is_reply_to(reply, 1) {
            lemma_reply_is_no_event(reply, 1);
        }
    }
}

/// Every request goes out under an id that its connection has not used: the one after the last
/// on the pooled connection, and on a fresh connection 1, or 2 behind the `begin` that joined the
/// transaction again. Nothing but that takes an id, so the count stays whatever comes of the
/// request.
pub proof fn law_ids_are_fresh<S>(x: ExchangeView<S>, event: EventView<S>)
    requires
        x.wf(),
        x.awaits(event),
    ensures
        x.after(event).1 matches ActionView::Send { request, line } ==> {
            &&& line == frame::written(request)
            &&& x.after(event).0.current() matches Some(conn)
            &&& json::unsigned_field(request, "id"@) == Some(conn.next_id)
            &&& conn.next_id == match (x.phase, x.slot) {
                (PhaseView::Start, Some(pooled)) => pooled.next_id + 1,
                (PhaseView::RejoinAwaiting { .. }, _) => 2,
                _ => 1int,
            }
        },
        x.job is Request && x.slot is Some && !(x.after(event).1 is Send) ==> {
            &&& x.after(event).0.slot matches Some(conn)
            &&& conn.next_id == x.slot->0.next_id
        },
{
}

/// The connection after `n` more requests.
pub open spec fn after_requests<S>(conn: ConnView<S>, n: nat) -> ConnView<S>
    decreases n,
{
    if n == 0 {
        conn
    } else {
        after_requests(conn, (n - 1) as nat).requested()
    }
}

/// The requests on a connection count up by one: on a fresh one their ids are 1, 2, 3 and so on,
/// and none is used twice.
pub proof fn law_ids_count_up<S>(conn: ConnView<S>, n: nat)
    requires
        conn.next_id + n <= u64::MAX,
    ensures
        after_requests(conn, n).next_id == conn.next_id + n,
        forall|k: nat| k < n ==> #[trigger] after_requests(conn, k).next_id < conn.next_id + n,
    decreases n,
{
    if n > 0 {
        law_ids_count_up(conn, (n - 1) as nat);
    }
}

/// Whether the connection is lost under the first run of a job. Of a request, the write fails, or
/// a read fails, finds the connection closed, or brings a line that is no frame. Of a poll, the
/// drain mode cannot be set, or a read fails for another reason than that there is nothing to
/// read.
pub open spec fn lost<S>(x: ExchangeView<S>, event: EventView<S>) -> bool {
    match x.phase {
        PhaseView::Sending { retry: false } => event matches EventView::Sent(Err(_)),
        PhaseView::Awaiting { retry: false } => {
            ||| event is Closed
            ||| event is Failed
            ||| event matches EventView::Frame(Err(_))
        },
        PhaseView::Quieting { retry: false } => event matches EventView::ModeSet(Err(_)),
        PhaseView::Restoring { retry: false, failure } => {
            event is ModeSet && (failure is Some || event matches EventView::ModeSet(Err(_)))
        },
        _ => false,
    }
}

/// What comes of a lost connection: the app is dialed again.
pub open spec fn redialing<S>(failure: EventView<S>, reader: S) -> Seq<EventView<S>> {
    seq![failure, EventView::Dialed(Ok(reader))]
}

/// What comes of it inside a transaction: the `begin` that joins it again is written, other frames
/// are read, and then its reply.
pub open spec fn rejoining<S>(
    failure: EventView<S>,
    reader: S,
    lines: Seq<Result<Tree, Seq<char>>>,
    joined: Tree,
) -> Seq<EventView<S>> {
    redialing(failure, reader) + answering(lines, joined)
}

/// Outside any transaction, the job runs again on the connection that was dialed, which has the
/// events that were kept.
proof fn lemma_redialed<S>(x: ExchangeView<S>, failure: EventView<S>, reader: S)
    requires
        x.wf(),
        x.slot->0.open_txn is None,
        lost(x, failure),
    ensures
        ({
            let conn = ConnView { events: x.slot->0.events, ..ConnView::fresh(reader) };
            &&& run(x, redialing(failure, reader)) == x.running(conn, true).0
            &&& actions(x, redialing(failure, reader)).last() == x.running(conn, true).1
            &&& x.running(conn, true).0.wf()
        }),
{
    let first = Seq::empty().push(failure);
    lemma_run_push(x, Seq::empty(), failure);
    lemma_run_push(x, first, EventView::Dialed(Ok(reader)));
    assert(redialing(failure, reader) =~= first.push(EventView::Dialed(Ok(reader))));
    assert(redialing(failure, reader).drop_last() =~= first);
}

/// Inside a transaction, the job runs again on the connection that was dialed, once the app has
/// accepted the `begin` that joins the transaction again.
proof fn lemma_rejoined<S>(
    x: ExchangeView<S>,
    failure: EventView<S>,
    reader: S,
    lines: Seq<Result<Tree, Seq<char>>>,
    joined: Tree,
    txn: u64,
)
    requires
        x.wf(),
        x.slot->0.open_txn == Some(txn),
        lost(x, failure),
        forall|i: int| 0 <= i < lines.len() ==> is_beside(#[trigger] lines[i], 1),
        frame::is_reply_to(joined, 1),
        frame::reply_says(joined) is Ok,
    ensures
        ({
            let conn = ConnView {
                reader,
                events: x.slot->0.events + delivered(reads::<S>(lines)),
                next_id: 1,
                open_txn: Some(txn),
            };
            let all = rejoining(failure, reader, lines, joined);
            &&& actions(x, redialing(failure, reader)).last() == ActionView::sending(
                frame::stamped(frame::begin_doc(txn), 1),
            )
            &&& run(x, all) == x.running(conn, true).0
            &&& actions(x, all).last() == x.running(conn, true).1
            &&& x.running(conn, true).0.wf()
        }),
{
    let first = Seq::empty().push(failure);
    let again = redialing(failure, reader);
    let all = rejoining(failure, reader, lines, joined);
    lemma_run_push(x, Seq::empty(), failure);
    lemma_run_push(x, first, EventView::Dialed(Ok(reader)));
    assert(again =~= first.push(EventView::Dialed(Ok(reader))));
    assert(again.drop_last() =~= first);
    let sending = run(x, again);
    let listening = sending.after(EventView::Sent(Ok(()))).0;
    lemma_run_push(x, again, EventView::Sent(Ok(())));
    lemma_listening(listening, lines);
    let sent = again.push(EventView::Sent(Ok(())));
    lemma_run_add(x, sent, reads(lines));
    assert(all =~= (sent + reads(lines)).push(EventView::Frame(Ok(joined))));
    assert(all.drop_last() =~= sent + reads(lines));
    lemma_run_push(x, sent + reads(lines), EventView::Frame(Ok(joined)));
    lemma_reply_is_no_event(joined, 1);
}

/// An app that restarted is absorbed: where the connection is lost under a request outside any
/// transaction, the request goes out again on a fresh one, and its reply there is the answer. The
/// events that were kept are kept on, and those that arrive before the reply are kept behind
/// them.
pub proof fn law_restart_is_absorbed<S>(
    x: ExchangeView<S>,
    failure: EventView<S>,
    reader: S,
    lines: Seq<Result<Tree, Seq<char>>>,
    reply: Tree,
)
    requires
        x.wf(),
        x.job is Request,
        x.slot->0.open_txn is None,
        lost(x, failure),
        forall|i: int| 0 <= i < lines.len() ==> is_beside(#[trigger] lines[i], 1),
        frame::is_reply_to(reply, 1),
    ensures
        ({
            let again = redialing(failure, reader);
            let y = run(x, again + answering(lines, reply));
            &&& actions(x, again).last() == ActionView::sending(frame::stamped(x.job->frame, 1))
            &&& y.phase == (PhaseView::<S>::Done { answer: frame::reply_says(reply) })
            &&& y.slot == Some(
                ConnView {
                    reader,
                    events: x.slot->0.events + delivered(reads::<S>(lines)),
                    next_id: 1,
                    open_txn: x.job->effect.on(frame::reply_says(reply) is Ok, None),
                },
            )
        }),
{
    let again = redialing(failure, reader);
    lemma_redialed(x, failure, reader);
    lemma_run_add(x, again, answering(lines, reply));
    lemma_answered(run(x, again), lines, reply);
}

/// The same inside a transaction: the `begin` that joins it again goes out first, and the
/// connection has the transaction open when the request goes out again. The events that arrive
/// before the reply to the `begin` are kept too.
pub proof fn law_restart_is_absorbed_in_transaction<S>(
    x: ExchangeView<S>,
    failure: EventView<S>,
    reader: S,
    greeting: Seq<Result<Tree, Seq<char>>>,
    joined: Tree,
    lines: Seq<Result<Tree, Seq<char>>>,
    reply: Tree,
    txn: u64,
)
    requires
        x.wf(),
        x.job is Request,
        x.slot->0.open_txn == Some(txn),
        lost(x, failure),
        forall|i: int| 0 <= i < greeting.len() ==> is_beside(#[trigger] greeting[i], 1),
        frame::is_reply_to(joined, 1),
        frame::reply_says(joined) is Ok,
        forall|i: int| 0 <= i < lines.len() ==> is_beside(#[trigger] lines[i], 2),
        frame::is_reply_to(reply, 2),
    ensures
        ({
            let again = rejoining(failure, reader, greeting, joined);
            let y = run(x, again + answering(lines, reply));
            &&& actions(x, redialing(failure, reader)).last() == ActionView::sending(
                frame::stamped(frame::begin_doc(txn), 1),
            )
            &&& actions(x, again).last() == ActionView::sending(frame::stamped(x.job->frame, 2))
            &&& open_txn(run(x, again).slot) == Some(txn)
            &&& y.phase == (PhaseView::<S>::Done { answer: frame::reply_says(reply) })
            &&& y.slot == Some(
                ConnView {
                    reader,
                    events: x.slot->0.events + delivered(reads::<S>(greeting)) + delivered(
                        reads::<S>(lines),
                    ),
                    next_id: 2,
                    open_txn: x.job->effect.on(frame::reply_says(reply) is Ok, Some(txn)),
                },
            )
        }),
{
    let again = rejoining(failure, reader, greeting, joined);
    lemma_rejoined(x, failure, reader, greeting, joined, txn);
    lemma_run_add(x, again, answering(lines, reply));
    lemma_answered(run(x, again), lines, reply);
}

/// A poll absorbs a restarted app too: it polls again on a fresh connection, and hands out the
/// events that were kept, those that it had read before, and those that it reads there.
pub proof fn law_restart_is_absorbed_by_poll<S>(
    x: ExchangeView<S>,
    failure: EventView<S>,
    reader: S,
    lines: Seq<Result<Tree, Seq<char>>>,
    end: EventView<S>,
)
    requires
        x.wf(),
        x.job is Poll,
        x.slot->0.open_txn is None,
        lost(x, failure),
        is_end(end),
    ensures
        ({
            let again = redialing(failure, reader);
            let y = run(x, again + emptying(lines, end));
            &&& actions(x, again).last() == ActionView::SetDrainMode(true)
            &&& y.phase == (PhaseView::<S>::Done {
                answer: Ok(Tree::Array(x.slot->0.events + delivered(reads::<S>(lines)))),
            })
            &&& y.slot == Some(ConnView::fresh(reader))
        }),
{
    let again = redialing(failure, reader);
    lemma_redialed(x, failure, reader);
    lemma_run_add(x, again, emptying(lines, end));
    lemma_emptied(run(x, again), lines, end);
}

/// The same inside a transaction, which is joined again first and stays open.
pub proof fn law_restart_is_absorbed_by_poll_in_transaction<S>(
    x: ExchangeView<S>,
    failure: EventView<S>,
    reader: S,
    greeting: Seq<Result<Tree, Seq<char>>>,
    joined: Tree,
    lines: Seq<Result<Tree, Seq<char>>>,
    end: EventView<S>,
    txn: u64,
)
    requires
        x.wf(),
        x.job is Poll,
        x.slot->0.open_txn == Some(txn),
        lost(x, failure),
        forall|i: int| 0 <= i < greeting.len() ==> is_beside(#[trigger] greeting[i], 1),
        frame::is_reply_to(joined, 1),
        frame::reply_says(joined) is Ok,
        is_end(end),
    ensures
        ({
            let again = rejoining(failure, reader, greeting, joined);
            let y = run(x, again + emptying(lines, end));
            &&& actions(x, again).last() == ActionView::SetDrainMode(true)
            &&& y.phase == (PhaseView::<S>::Done {
                answer: Ok(
                    Tree::Array(
                        x.slot->0.events + delivered(reads::<S>(greeting)) + delivered(
                            reads::<S>(lines),
                        ),
                    ),
                ),
            })
            &&& y.slot == Some(
                ConnView { reader, events: Seq::empty(), next_id: 1, open_txn: Some(txn) },
            )
        }),
{
    let again = rejoining(failure, reader, greeting, joined);
    lemma_rejoined(x, failure, reader, greeting, joined, txn);
    lemma_run_add(x, again, emptying(lines, end));
    lemma_emptied(run(x, again), lines, end);
}

// ---- what every run comes to ----

proof fn lemma_last_step<S>(
    app: Seq<char>,
    job: JobView,
    slot: Option<ConnView<S>>,
    events: Seq<EventView<S>>,
) -> (x: ExchangeView<S>)
    requires
        ExchangeView::starting(app, job, slot).wf(),
        possible(ExchangeView::starting(app, job, slot), events),
        events.len() > 0,
    ensures
        x == run(ExchangeView::starting(app, job, slot), events.drop_last()),
        run(ExchangeView::starting(app, job, slot), events) == x.after(events.last()).0,
        x.wf(),
        x.awaits(events.last()),
        x.job == job,
        x.app == app,
    decreases events.len(),
{
    let start = ExchangeView::starting(app, job, slot);
    let before = events.drop_last();
    lemma_dials(start, before);
    if before.len() > 0 {
        let y = lemma_last_step(app, job, slot, before);
    }
    run(start, before)
}

/// A request succeeds only by its reply: where an exchange for a request has finished with a
/// value, the last thing that was read is a frame with `t: "reply"` and the id that the request
/// went out under, marked `ok: true`, and the value is what stands there under `value`.
pub proof fn law_requests_succeed_only_by_their_reply<S>(
    app: Seq<char>,
    request: Tree,
    effect: Effect,
    slot: Option<ConnView<S>>,
    events: Seq<EventView<S>>,
)
    requires
        ExchangeView::starting(app, JobView::Request { frame: request, effect }, slot).wf(),
        possible(
            ExchangeView::starting(app, JobView::Request { frame: request, effect }, slot),
            events,
        ),
    ensures
        ({
            let y = run(
                ExchangeView::starting(app, JobView::Request { frame: request, effect }, slot),
                events,
            );
            y.phase matches PhaseView::Done { answer: Ok(value) } ==> {
                &&& events.len() > 0
                &&& events.last() matches EventView::Frame(Ok(reply))
                &&& y.slot matches Some(conn)
                &&& json::field(reply, "t"@) == Some(Tree::Text("reply"@))
                &&& json::field(reply, "id"@) == Some(Tree::Unsigned(conn.next_id))
                &&& json::field(reply, "ok"@) == Some(Tree::Bool(true))
                &&& json::field(reply, "value"@) == Some(value) || (json::field(
                    reply,
                    "value"@,
                ) is None && value == Tree::Null)
            }
        }),
{
    if events.len() > 0 {
        let x = lemma_last_step(
            app,
            JobView::Request { frame: request, effect },
            slot,
            events,
        );
    }
}

/// What an exchange fails with is the cause that was told last: the message of the dial, write,
/// read or mode change that failed, `connection closed` where the app closed the connection, and
/// the app's own error where it refused. A poll whose read failed tells that failure, whatever
/// came of blocking again.
pub proof fn law_failures_tell_their_cause<S>(
    app: Seq<char>,
    job: JobView,
    slot: Option<ConnView<S>>,
    events: Seq<EventView<S>>,
)
    requires
        ExchangeView::starting(app, job, slot).wf(),
        possible(ExchangeView::starting(app, job, slot), events),
    ensures
        ({
            let y = run(ExchangeView::starting(app, job, slot), events);
            y.phase matches PhaseView::Done { answer: Err(message) } ==> {
                &&& events.len() > 0
                &&& match events.last() {
                    EventView::Dialed(result) => result == Err::<S, Seq<char>>(message),
                    EventView::Sent(result) => result == Err::<(), Seq<char>>(message),
                    EventView::Frame(Err(cause)) => message == cause,
                    EventView::Frame(Ok(reply)) => {
                        &&& json::field(reply, "t"@) == Some(Tree::Text("reply"@))
                        &&& json::field(reply, "ok"@) != Some(Tree::Bool(true))
                        &&& message == match json::field(reply, "error"@) {
                            Some(Tree::Text(error)) => error,
                            _ => "call failed"@,
                        }
                    },
                    EventView::Closed => message == "connection closed"@,
                    EventView::Failed { message: cause, .. } => message == cause,
                    EventView::ModeSet(result) => match events.drop_last().last() {
                        EventView::Failed { quiet: false, message: cause } => message == cause,
                        _ => result == Err::<(), Seq<char>>(message),
                    },
                    EventView::Go => false,
                }
            }
        }),
{
    if events.len() > 0 {
        let x = lemma_last_step(app, job, slot, events);
        let before = events.drop_last();
        if before.len() > 0 {
            let w = lemma_last_step(app, job, slot, before);
            assert(x == w.after(before.last()).0);
        }
    }
}

/// A poll succeeds only once there was no more to read and reads block again, and hands out what
/// was kept and what arrived.
pub proof fn law_polls_succeed_only_with_the_events<S>(
    app: Seq<char>,
    slot: Option<ConnView<S>>,
    events: Seq<EventView<S>>,
)
    requires
        ExchangeView::starting(app, JobView::Poll, slot).wf(),
        possible(ExchangeView::starting(app, JobView::Poll, slot), events),
    ensures
        ({
            let y = run(ExchangeView::starting(app, JobView::Poll, slot), events);
            y.phase matches PhaseView::Done { answer: Ok(value) } ==> {
                &&& events.len() > 1
                &&& events.last() matches EventView::ModeSet(Ok(_))
                &&& is_end(events.drop_last().last())
                &&& value == Tree::Array(kept(slot) + delivered(events))
                &&& y.slot matches Some(conn)
                &&& conn.events.len() == 0
            }
        }),
{
    law_events_are_kept_until_polled(app, JobView::Poll, slot, events);
    if events.len() > 0 {
        let x = lemma_last_step(app, JobView::Poll, slot, events);
        let before = events.drop_last();
        if before.len() > 0 {
            let w = lemma_last_step(app, JobView::Poll, slot, before);
            assert(x == w.after(before.last()).0);
        }
        let y = x.after(events.last()).0;
        if let PhaseView::Done { answer: Ok(value) } = y.phase {
            assert(x.phase matches PhaseView::Restoring { failure: None, .. });
            assert(before.len() > 0);
            assert(value == Tree::Array(handed_out(y)));
            assert(handed_out(y) + kept(y.slot) =~= handed_out(y));
        }
    }
}

/// To open an app succeeds only by a dial that does, and answers its name and `ok: true`, and
/// nothing else.
pub proof fn law_opens_succeed_only_by_dialing<S>(
    app: Seq<char>,
    slot: Option<ConnView<S>>,
    events: Seq<EventView<S>>,
    key: Seq<char>,
)
    requires
        possible(ExchangeView::starting(app, JobView::Open, slot), events),
    ensures
        ({
            let y = run(ExchangeView::starting(app, JobView::Open, slot), events);
            y.phase matches PhaseView::Done { answer: Ok(value) } ==> {
                &&& events.len() > 0
                &&& events.last() matches EventView::Dialed(Ok(_))
                &&& value is Object
                &&& json::field(value, key) == if key == "app"@ {
                    Some(Tree::Text(app))
                } else if key == "ok"@ {
                    Some(Tree::Bool(true))
                } else {
                    None
                }
            }
        }),
{
    reveal_strlit("app");
    reveal_strlit("ok");
    assert("app"@.len() == 3 && "ok"@.len() == 2);
    if events.len() > 0 {
        let x = lemma_last_step(app, JobView::Open, slot, events);
    }
}

// ---- what every step does ----

/// The action that comes next fits where the exchange then is, and whatever it leads to is taken
/// in.
pub proof fn law_actions_fit_their_phases<S>(
    x: ExchangeView<S>,
    event: EventView<S>,
    dialed: Result<S, Seq<char>>,
    done: Result<(), Seq<char>>,
    line: Result<Tree, Seq<char>>,
    quiet: bool,
    message: Seq<char>,
)
    requires
        x.wf(),
        x.awaits(event),
    ensures
        ({
            let (y, action) = x.after(event);
            &&& y.app == x.app
            &&& y.job == x.job
            &&& match action {
                ActionView::Dial => {
                    &&& y.phase is Dialing || y.phase is Redialing
                    &&& y.awaits(EventView::Dialed(dialed))
                },
                ActionView::Send { .. } => {
                    &&& y.phase is Sending || y.phase is RejoinSending
                    &&& y.awaits(EventView::Sent(done))
                },
                ActionView::Read => {
                    &&& y.phase is Awaiting || y.phase is Draining || y.phase is RejoinAwaiting
                    &&& y.awaits(EventView::Frame(line))
                    &&& y.awaits(EventView::Closed)
                    &&& y.awaits(EventView::Failed { quiet, message })
                },
                ActionView::SetDrainMode(draining) => {
                    &&& if draining {
                        y.phase is Quieting
                    } else {
                        y.phase is Restoring
                    }
                    &&& y.awaits(EventView::ModeSet(done))
                },
                ActionView::Finish => y.phase is Done,
            }
        }),
{
}

/// What an action writes is the line that carries its request.
pub proof fn law_actions_write_their_request(request: Tree, line: Seq<char>)
    ensures
        (ActionView::Send { request, line }).wf() <==> frame::carries(line, request),
        ActionView::sending(request) == (ActionView::Send {
            request,
            line: json::rendered(request)->Ok_0.push('\n'),
        }),
{
}

/// An exchange about to start is valid where its request is an object and has an id left, and
/// then starts.
pub proof fn law_exchanges_can_start<S>(
    app: Seq<char>,
    request: Tree,
    effect: Effect,
    slot: Option<ConnView<S>>,
)
    ensures
        ({
            let x = ExchangeView::starting(app, JobView::Request { frame: request, effect }, slot);
            &&& x.wf() <==> request is Object && (slot matches Some(conn) ==> conn.next_id
                < u64::MAX)
            &&& x.awaits(EventView::Go)
        }),
        ExchangeView::starting(app, JobView::Open, slot).wf(),
        ExchangeView::starting(app, JobView::Open, slot).awaits(EventView::Go),
        ExchangeView::starting(app, JobView::Poll, slot).wf(),
        ExchangeView::starting(app, JobView::Poll, slot).awaits(EventView::Go),
{
}

/// The first transport failure under a job is met by dialing again, and the second ends it. A dial
/// that fails ends it at once. The pooled connection is left alone either way.
pub proof fn law_transport_failures<S>(
    x: ExchangeView<S>,
    event: EventView<S>,
    retry: bool,
    message: Seq<char>,
)
    requires
        x.wf(),
        x.awaits(event),
    ensures
        ({
            let (y, action) = x.after(event);
            let failed = y.slot == x.slot && if retry {
                action is Finish && y.phase matches PhaseView::Done { answer: Err(_) }
            } else {
                action is Dial
            };
            &&& x.phase == (PhaseView::<S>::Sending { retry }) && event == EventView::<S>::Sent(
                Err(message),
            ) ==> failed
            &&& x.phase == (PhaseView::<S>::Awaiting { retry }) && (event is Closed || event is
                Failed || event == EventView::<S>::Frame(Err(message))) ==> failed
            &&& x.phase == (PhaseView::<S>::Quieting { retry }) && event == EventView::<
                S,
            >::ModeSet(Err(message)) ==> failed
            &&& x.phase == (PhaseView::<S>::Restoring { retry, failure: Some(message) })
                ==> failed
            &&& x.phase == (PhaseView::<S>::Restoring { retry, failure: None }) && event
                == EventView::<S>::ModeSet(Err(message)) ==> failed
            &&& event == EventView::<S>::Dialed(Err(message)) ==> {
                &&& action is Finish
                &&& y.phase == (PhaseView::<S>::Done { answer: Err(message) })
                &&& y.slot == x.slot
            }
        }),
{
}

/// Whether the job is being run, for the first time or again.
pub open spec fn is_running<S>(x: ExchangeView<S>) -> bool {
    x.phase is Sending || x.phase is Awaiting || x.phase is Quieting || x.phase is Draining
        || x.phase is Restoring
}

/// A job runs for the first time until it fails, and runs again only behind a connection that was
/// dialed again: no step in between takes the one for the other. So whichever step of the first run
/// fails, the app is dialed again.
pub proof fn law_first_runs_stay_first_runs<S>(x: ExchangeView<S>, event: EventView<S>)
    requires
        x.wf(),
        x.awaits(event),
        is_running(x.after(event).0),
    ensures
        retrying(x.after(event).0) == if is_running(x) {
            retrying(x)
        } else {
            x.phase is Redialing || x.phase is RejoinAwaiting
        },
        x.job is Request ==> x.after(event).0.phase is Sending || x.after(event).0.phase is
            Awaiting,
        x.job is Poll ==> x.after(event).0.phase is Quieting || x.after(event).0.phase is Draining
            || x.after(event).0.phase is Restoring,
        !(x.job is Open),
{
}

/// A step that succeeds leads on: what is written is followed by a read, and a mode that is set to
/// drain by a read.
pub proof fn law_steps_that_succeed_lead_on<S>(x: ExchangeView<S>, event: EventView<S>)
    requires
        x.wf(),
        x.awaits(event),
        event == EventView::<S>::Sent(Ok(())) || x.phase is Quieting && event == EventView::<
            S,
        >::ModeSet(Ok(())),
    ensures
        x.after(event).1 is Read,
        x.after(event).0.slot == x.slot,
        x.phase is RejoinSending ==> x.after(event).0.phase == (PhaseView::RejoinAwaiting {
            txn: x.phase->RejoinSending_txn,
            fresh: x.phase->RejoinSending_fresh,
        }),
{
}

/// A poll's read that fails hard makes reads block again first, and is then a transport failure,
/// whatever came of that; the events read before it stay.
pub proof fn law_hard_failures_of_polls<S>(
    x: ExchangeView<S>,
    retry: bool,
    message: Seq<char>,
    restored: Result<(), Seq<char>>,
)
    requires
        x.wf(),
        x.phase == (PhaseView::<S>::Draining { retry }),
    ensures
        ({
            let (y, action) = x.after(EventView::Failed { quiet: false, message });
            let (z, next) = y.after(EventView::ModeSet(restored));
            &&& action == ActionView::SetDrainMode(false)
            &&& y.slot == x.slot
            &&& z.slot == x.slot
            &&& if retry {
                next is Finish && z.phase == (PhaseView::<S>::Done { answer: Err(message) })
            } else {
                next is Dial
            }
        }),
{
}

/// Joining a transaction again fails where the write fails, where the connection is closed, a read
/// fails or a line brings no frame, and where the app refuses. That ends the job, which does not
/// run again, and leaves the pooled connection alone.
pub proof fn law_failed_rejoins_end_the_job<S>(
    x: ExchangeView<S>,
    event: EventView<S>,
    message: Seq<char>,
    reply: Tree,
)
    requires
        x.wf(),
        x.awaits(event),
        x.phase is RejoinSending && event == EventView::<S>::Sent(Err(message)) || x.phase is
            RejoinAwaiting && (event is Closed || event is Failed || event == EventView::<
            S,
        >::Frame(Err(message)) || event == EventView::<S>::Frame(Ok(reply)) && json::field(
            reply,
            "t"@,
        ) == Some(Tree::Text("reply"@)) && json::field(reply, "id"@) == Some(Tree::Unsigned(1))
            && json::field(reply, "ok"@) != Some(Tree::Bool(true))),
    ensures
        x.after(event).1 is Finish,
        x.after(event).0.phase matches PhaseView::Done { answer: Err(_) },
        x.after(event).0.slot == x.slot,
{
    reveal_strlit("reply");
    reveal_strlit("event");
    assert("reply"@[0] != "event"@[0]);
}

/// A `begin` that the app accepts on the fresh connection puts that connection, with the
/// transaction open on it and with the events that were kept, in the place of the lost one, and
/// the job runs again: a request goes out under id 2, and a poll sets the drain mode.
pub proof fn law_rejoined_jobs_run_again<S>(x: ExchangeView<S>, reply: Tree)
    requires
        x.wf(),
        x.phase is RejoinAwaiting,
        json::field(reply, "t"@) == Some(Tree::Text("reply"@)),
        json::field(reply, "id"@) == Some(Tree::Unsigned(1)),
        json::field(reply, "ok"@) == Some(Tree::Bool(true)),
    ensures
        ({
            let (y, action) = x.after(EventView::Frame(Ok(reply)));
            &&& y.slot matches Some(conn)
            &&& conn.reader == x.phase->RejoinAwaiting_fresh.reader
            &&& conn.events == x.slot->0.events
            &&& conn.open_txn == x.slot->0.open_txn
            &&& conn.next_id == if x.job is Request {
                2
            } else {
                1int
            }
            &&& x.job is Request ==> action is Send && y.phase == (PhaseView::<S>::Sending {
                retry: true,
            })
            &&& x.job is Poll ==> action == ActionView::SetDrainMode(true) && y.phase == (
            PhaseView::<S>::Quieting { retry: true })
        }),
{
    reveal_strlit("reply");
    reveal_strlit("event");
    assert("reply"@[0] != "event"@[0]);
}

/// A dial that succeeds after a connection was lost puts the fresh connection, with the events that
/// were kept, in its place outside any transaction, and joins the transaction on it first inside
/// one.
pub proof fn law_redialed_jobs_run_again_or_rejoin<S>(x: ExchangeView<S>, reader: S)
    requires
        x.wf(),
        x.phase is Redialing,
    ensures
        ({
            let (y, action) = x.after(EventView::Dialed(Ok(reader)));
            match x.slot->0.open_txn {
                None => {
                    &&& y.slot matches Some(conn)
                    &&& conn.reader == reader
                    &&& conn.events == x.slot->0.events
                    &&& conn.open_txn is None
                    &&& x.job is Request ==> action is Send && conn.next_id == 1
                    &&& x.job is Poll ==> action == ActionView::SetDrainMode(true) && conn.next_id
                        == 0
                },
                Some(open) => {
                    &&& y.slot == x.slot
                    &&& action is Send
                    &&& y.phase matches PhaseView::RejoinSending { txn, fresh }
                    &&& txn == open
                    &&& fresh.reader == reader
                },
            }
        }),
{
}

/// What is sent is the job's own request or, to join a transaction again, its `begin`: with an id
/// put on it, and with nothing else changed.
pub proof fn law_what_is_sent<S>(x: ExchangeView<S>, event: EventView<S>, key: Seq<char>)
    requires
        x.wf(),
        x.awaits(event),
    ensures
        ({
            let (y, action) = x.after(event);
            action matches ActionView::Send { request, .. } ==> match y.phase {
                PhaseView::RejoinSending { txn, .. } => json::field(request, key) == if key
                    == "t"@ {
                    Some(Tree::Text("begin"@))
                } else if key == "txn"@ {
                    Some(Tree::Unsigned(txn))
                } else if key == "id"@ {
                    Some(Tree::Unsigned(1))
                } else {
                    None
                },
                _ => {
                    &&& y.phase is Sending
                    &&& x.job matches JobView::Request { frame, .. }
                    &&& y.slot matches Some(conn)
                    &&& json::field(request, key) == if key == "id"@ {
                        Some(Tree::Unsigned(conn.next_id))
                    } else {
                        json::field(frame, key)
                    }
                },
            }
        }),
{
    reveal_strlit("t");
    reveal_strlit("txn");
    reveal_strlit("id");
    assert("t"@.len() == 1 && "txn"@.len() == 3 && "id"@.len() == 2);
}

/// A frame with `t: "event"`, whatever else it holds, is kept behind the events before it, also
/// while a reply is awaited, and reading goes on.
pub proof fn law_events_that_are_read_are_kept<S>(x: ExchangeView<S>, doc: Tree)
    requires
        x.wf(),
        x.awaits(EventView::Frame(Ok(doc))),
        json::field(doc, "t"@) == Some(Tree::Text("event"@)),
    ensures
        x.after(EventView::Frame(Ok(doc))).1 is Read,
        x.after(EventView::Frame(Ok(doc))).0 == (ExchangeView {
            slot: Some(ConnView { events: x.slot->0.events.push(doc), ..x.slot->0 }),
            ..x
        }),
{
    reveal_strlit("reply");
    reveal_strlit("event");
    assert("reply"@[0] != "event"@[0]);
}

/// Any other frame that is not the reply that is awaited changes nothing, and reading goes on; a
/// poll passes over lines that bring no frame too.
pub proof fn law_stray_frames_change_nothing<S>(
    x: ExchangeView<S>,
    doc: Tree,
    message: Seq<char>,
)
    requires
        x.wf(),
        x.phase is Awaiting || x.phase is Draining || x.phase is RejoinAwaiting,
        json::field(doc, "t"@) != Some(Tree::Text("event"@)),
        x.phase is Draining || json::field(doc, "t"@) != Some(Tree::Text("reply"@)) || json::field(
            doc,
            "id"@,
        ) != Some(Tree::Unsigned(x.current()->0.next_id)),
    ensures
        x.after(EventView::Frame(Ok(doc))) == (x, ActionView::Read),
        x.phase is Draining ==> x.after(EventView::Frame(Err(message))) == (x, ActionView::Read),
{
}

/// A reply marked `ok: true` ends the request that awaits it with the value that stands there,
/// unchanged, or `null`; any other reply to it ends it with the error that stands there.
pub proof fn law_replies_are_the_answers<S>(x: ExchangeView<S>, reply: Tree)
    requires
        x.wf(),
        x.phase is Awaiting,
        json::field(reply, "t"@) == Some(Tree::Text("reply"@)),
        json::field(reply, "id"@) == Some(Tree::Unsigned(x.slot->0.next_id)),
    ensures
        x.after(EventView::Frame(Ok(reply))).1 is Finish,
        x.after(EventView::Frame(Ok(reply))).0.phase == (PhaseView::<S>::Done {
            answer: if json::field(reply, "ok"@) == Some(Tree::Bool(true)) {
                match json::field(reply, "value"@) {
                    Some(value) => Ok(value),
                    None => Ok(Tree::Null),
                }
            } else {
                match json::field(reply, "error"@) {
                    Some(Tree::Text(error)) => Err(error),
                    _ => Err("call failed"@),
                }
            },
        }),
        x.after(EventView::Frame(Ok(reply))).0.slot matches Some(conn) && conn.reader
            == x.slot->0.reader && conn.events == x.slot->0.events && conn.next_id
            == x.slot->0.next_id,
{
    reveal_strlit("reply");
    reveal_strlit("event");
    assert("reply"@[0] != "event"@[0]);
}

// ---- connections ----

/// A connection that was just dialed has counted nothing, keeps nothing and has nothing open; a
/// request adds one to its count, and nothing else.
pub proof fn law_connections_count<S>(reader: S, conn: ConnView<S>)
    requires
        conn.next_id < u64::MAX,
    ensures
        ConnView::fresh(reader).reader == reader,
        ConnView::fresh(reader).events.len() == 0,
        ConnView::fresh(reader).next_id == 0,
        ConnView::fresh(reader).open_txn is None,
        conn.requested().next_id == conn.next_id + 1,
        conn.requested().reader == conn.reader,
        conn.requested().events == conn.events,
        conn.requested().open_txn == conn.open_txn,
{
}

/// A frame that comes in is kept where its `t` is the text `event`, and changes nothing else.
pub proof fn law_connections_keep_events<S>(conn: ConnView<S>, doc: Tree, message: Seq<char>)
    ensures
        conn.after_frame(Ok(doc)).events == if json::field(doc, "t"@) == Some(
            Tree::Text("event"@),
        ) {
            conn.events.push(doc)
        } else {
            conn.events
        },
        conn.after_frame(Ok(doc)).reader == conn.reader,
        conn.after_frame(Ok(doc)).next_id == conn.next_id,
        conn.after_frame(Ok(doc)).open_txn == conn.open_txn,
        conn.after_frame(Err(message)) == conn,
{
}

/// What a line is to a request: the reply where its frame has `t: "reply"` and the request's id,
/// malformed where it brings no frame, and otherwise nothing to it.
pub proof fn law_what_is_heard(id: u64, doc: Tree, message: Seq<char>)
    ensures
        conn::hears(id, Ok(doc)) == if json::field(doc, "t"@) == Some(Tree::Text("reply"@))
            && json::field(doc, "id"@) == Some(Tree::Unsigned(id)) {
            HeardView::Reply(doc)
        } else {
            HeardView::Waiting
        },
        conn::hears(id, Err(message)) == HeardView::Malformed(message),
{
}

/// What an answered request does to the open transaction: a `begin` that is accepted opens its
/// transaction, one that is refused opens nothing, and a `commit` or an `abort` leaves its own
/// transaction and no other.
pub proof fn law_effects(txn: u64, other: u64, accepted: bool, open: Option<u64>)
    requires
        other != txn,
    ensures
        Effect::Keep.on(accepted, open) == open,
        Effect::Enter(txn).on(true, open) == Some(txn),
        Effect::Enter(txn).on(false, open) == open,
        Effect::Leave(txn).on(accepted, Some(txn)) is None,
        Effect::Leave(txn).on(accepted, Some(other)) == Some(other),
        Effect::Leave(txn).on(accepted, None) is None,
{
}

/// Writes and reads go to the pooled connection, and to the fresh one while it joins a transaction
/// again; putting another endpoint there changes nothing but that endpoint.
pub proof fn law_endpoints<S>(x: ExchangeView<S>, reader: S)
    requires
        x.current() is Some,
    ensures
        x.current() == match x.phase {
            PhaseView::RejoinSending { fresh, .. } => Some(fresh),
            PhaseView::RejoinAwaiting { fresh, .. } => Some(fresh),
            _ => x.slot,
        },
        x.with_reader(reader).current() == Some(ConnView { reader, ..x.current()->0 }),
        x.with_reader(reader).app == x.app,
        x.with_reader(reader).job == x.job,
        match x.phase {
            PhaseView::RejoinSending { txn, .. } => {
                &&& x.with_reader(reader).slot == x.slot
                &&& x.with_reader(reader).phase matches PhaseView::RejoinSending { txn: t, .. }
                    && t == txn
            },
            PhaseView::RejoinAwaiting { txn, .. } => {
                &&& x.with_reader(reader).slot == x.slot
                &&& x.with_reader(reader).phase matches PhaseView::RejoinAwaiting { txn: t, .. }
                    && t == txn
            },
            _ => x.with_reader(reader).phase == x.phase,
        },
{
}

// ---- apps that are not pooled ----

/// A request to an app that is not pooled dials it, goes out under id 1, and ends with what the
/// reply says; the connection that was dialed is pooled.
pub proof fn law_request_dials_an_app_that_is_not_pooled<S>(
    app: Seq<char>,
    request: Tree,
    effect: Effect,
    reader: S,
    lines: Seq<Result<Tree, Seq<char>>>,
    reply: Tree,
)
    requires
        request is Object,
        forall|i: int| 0 <= i < lines.len() ==> is_beside(#[trigger] lines[i], 1),
        frame::is_reply_to(reply, 1),
    ensures
        ({
            let x = ExchangeView::starting(app, JobView::Request { frame: request, effect }, None);
            let opening = seq![EventView::Go, EventView::Dialed(Ok(reader))];
            let y = run(x, opening + answering(lines, reply));
            &&& x.after(EventView::Go).1 == ActionView::Dial
            &&& actions(x, opening).last() == ActionView::sending(frame::stamped(request, 1))
            &&& y.phase == (PhaseView::<S>::Done { answer: frame::reply_says(reply) })
            &&& y.slot == Some(
                ConnView {
                    reader,
                    events: delivered(reads::<S>(lines)),
                    next_id: 1,
                    open_txn: effect.on(frame::reply_says(reply) is Ok, None),
                },
            )
        }),
{
    let x = ExchangeView::starting(app, JobView::Request { frame: request, effect }, None);
    let go = Seq::empty().push(EventView::Go);
    let opening = seq![EventView::Go, EventView::Dialed(Ok(reader))];
    lemma_run_push(x, Seq::empty(), EventView::Go);
    lemma_run_push(x, go, EventView::Dialed(Ok(reader)));
    assert(opening =~= go.push(EventView::Dialed(Ok(reader))));
    assert(opening.drop_last() =~= go);
    lemma_run_add(x, opening, answering(lines, reply));
    lemma_answered(run(x, opening), lines, reply);
    assert(Seq::<Tree>::empty() + delivered(reads::<S>(lines)) =~= delivered(reads::<S>(lines)));
}

/// A poll of an app that is not pooled dials it, and hands out what arrives there.
pub proof fn law_poll_dials_an_app_that_is_not_pooled<S>(
    app: Seq<char>,
    reader: S,
    lines: Seq<Result<Tree, Seq<char>>>,
    end: EventView<S>,
)
    requires
        is_end(end),
    ensures
        ({
            let x = ExchangeView::starting(app, JobView::Poll, None);
            let opening = seq![EventView::Go, EventView::Dialed(Ok(reader))];
            let y = run(x, opening + emptying(lines, end));
            &&& x.after(EventView::Go).1 == ActionView::Dial
            &&& y.phase == (PhaseView::<S>::Done {
                answer: Ok(Tree::Array(delivered(reads::<S>(lines)))),
            })
            &&& y.slot == Some(ConnView::fresh(reader))
        }),
{
    let x = ExchangeView::starting(app, JobView::Poll, None);
    let go = Seq::empty().push(EventView::Go);
    let opening = seq![EventView::Go, EventView::Dialed(Ok(reader))];
    lemma_run_push(x, Seq::empty(), EventView::Go);
    lemma_run_push(x, go, EventView::Dialed(Ok(reader)));
    assert(opening =~= go.push(EventView::Dialed(Ok(reader))));
    lemma_run_add(x, opening, emptying(lines, end));
    lemma_emptied(run(x, opening), lines, end);
    assert(Seq::<Tree>::empty() + delivered(reads::<S>(lines)) =~= delivered(reads::<S>(lines)));
}

} // verus!
