//! One exchange with an app: the decisions between its steps.
//!
//! An [`Exchange`] runs one job on the app's pooled connection and dials it if there is none. On
//! a transport failure it dials once more and runs the job again, which absorbs an app that
//! restarted between calls. A connection that was inside a transaction first joins it again on
//! the fresh endpoint: the host keeps the open transaction per connection, so a job that ran
//! without joining would run untransacted, and no later abort could unwind it. The events that
//! were kept for the next poll pass over to the connection that takes the place of the lost one.
//!
//! The exchange names the next [`Action`]; whoever drives it performs the action and tells the
//! [`Event`] that it led to.

use crate::conn;
use crate::conn::{Conn, ConnView, Heard, HeardView};
use crate::frame;
use crate::json;
use crate::json::{Json, Tree};
use vstd::prelude::*;
use vstd::string::*;

verus! {

/// What a request that was answered does to the connection's open transaction.
#[derive(Clone, Copy)]
pub enum Effect {
    /// Nothing.
    Keep,
    /// The transaction is open from now on, where the app accepted the request.
    Enter(u64),
    /// The transaction, where it was the open one, is open no longer, whatever the app answered.
    Leave(u64),
}

impl Effect {
    /// The open transaction after a reply that accepted the request or refused it.
    pub open spec fn on(self, accepted: bool, open_txn: Option<u64>) -> Option<u64> {
        match self {
            Effect::Keep => open_txn,
            Effect::Enter(txn) => if accepted {
                Some(txn)
            } else {
                open_txn
            },
            Effect::Leave(txn) => if open_txn == Some(txn) {
                None
            } else {
                open_txn
            },
        }
    }

    fn apply(self, accepted: bool, open_txn: Option<u64>) -> (res: Option<u64>)
        ensures
            res == self.on(accepted, open_txn),
    {
        match self {
            Effect::Keep => open_txn,
            Effect::Enter(txn) => if accepted {
                Some(txn)
            } else {
                open_txn
            },
            Effect::Leave(txn) => match open_txn {
                Some(open) => if open == txn {
                    None
                } else {
                    open_txn
                },
                None => None,
            },
        }
    }
}

/// What an exchange is for.
pub enum Job {
    /// To see that the app can be reached: it is dialed, also where a connection is pooled.
    Open,
    /// To send a frame and get its reply.
    Request { frame: Json, effect: Effect },
    /// To collect the events that have arrived.
    Poll,
}

/// What there is to say of a [`Job`].
#[verifier::ext_equal]
pub enum JobView {
    Open,
    Request { frame: Tree, effect: Effect },
    Poll,
}

impl View for Job {
    type V = JobView;

    open spec fn view(&self) -> JobView {
        match self {
            Job::Open => JobView::Open,
            Job::Request { frame, effect } => JobView::Request { frame: frame@, effect: *effect },
            Job::Poll => JobView::Poll,
        }
    }
}

/// What the driver of an exchange does next.
pub enum Action {
    /// Dial the app.
    Dial,
    /// Write the line that carries the request to the exchange's reader, and flush.
    Send { request: Json, line: String },
    /// Read a line from the exchange's reader.
    Read,
    /// Make reads on the exchange's reader give up soon (`true`), or block again (`false`).
    SetDrainMode(bool),
    /// Nothing: the exchange has finished.
    Finish,
}

/// What there is to say of an [`Action`].
#[verifier::ext_equal]
pub enum ActionView {
    Dial,
    Send { request: Tree, line: Seq<char> },
    Read,
    SetDrainMode(bool),
    Finish,
}

impl View for Action {
    type V = ActionView;

    open spec fn view(&self) -> ActionView {
        match self {
            Action::Dial => ActionView::Dial,
            Action::Send { request, line } => ActionView::Send { request: request@, line: line@ },
            Action::Read => ActionView::Read,
            Action::SetDrainMode(draining) => ActionView::SetDrainMode(*draining),
            Action::Finish => ActionView::Finish,
        }
    }
}

impl ActionView {
    /// The action that writes `request`.
    pub open spec fn sending(request: Tree) -> ActionView {
        ActionView::Send { request, line: frame::written(request) }
    }

    /// What holds of every action: what is written is the one line that carries the request.
    pub open spec fn wf(self) -> bool {
        self matches ActionView::Send { request, line } ==> frame::carries(line, request)
    }
}

/// What an action led to.
pub enum Event<S> {
    /// The exchange may start.
    Go,
    /// The app was dialed, or could not be.
    Dialed(Result<S, String>),
    /// The frame was written, or could not be.
    Sent(Result<(), String>),
    /// A line was read; the frame on it, or why there is none.
    Frame(Result<Json, String>),
    /// The connection is closed.
    Closed,
    /// The read failed; `quiet` where there was only nothing to read.
    Failed { quiet: bool, message: String },
    /// The drain mode was set, or could not be.
    ModeSet(Result<(), String>),
}

/// What there is to say of an [`Event`].
pub enum EventView<S> {
    Go,
    Dialed(Result<S, Seq<char>>),
    Sent(Result<(), Seq<char>>),
    Frame(Result<Tree, Seq<char>>),
    Closed,
    Failed { quiet: bool, message: Seq<char> },
    ModeSet(Result<(), Seq<char>>),
}

/// A result with its message as a sequence.
pub open spec fn noted<T>(result: Result<T, String>) -> Result<T, Seq<char>> {
    match result {
        Ok(value) => Ok(value),
        Err(message) => Err(message@),
    }
}

impl<S> View for Event<S> {
    type V = EventView<S>;

    open spec fn view(&self) -> EventView<S> {
        match self {
            Event::Go => EventView::Go,
            Event::Dialed(result) => EventView::Dialed(noted(*result)),
            Event::Sent(result) => EventView::Sent(noted(*result)),
            Event::Frame(answer) => EventView::Frame(json::told(*answer)),
            Event::Closed => EventView::Closed,
            Event::Failed { quiet, message } => EventView::Failed {
                quiet: *quiet,
                message: message@,
            },
            Event::ModeSet(result) => EventView::ModeSet(noted(*result)),
        }
    }
}

/// How far an exchange is. In the phases of a job, `retry` tells whether this is the second
/// time.
pub enum Phase<S> {
    /// Nothing has been done.
    Start,
    /// The app is dialed, since no connection was pooled, or to see that it can be reached.
    Dialing,
    /// The request is written.
    Sending { retry: bool },
    /// The reply is awaited.
    Awaiting { retry: bool },
    /// Drain mode is switched on.
    Quieting { retry: bool },
    /// What has arrived is read.
    Draining { retry: bool },
    /// Drain mode is switched off, after a failure or after none.
    Restoring { retry: bool, failure: Option<String> },
    /// The app is dialed again, after a failure.
    Redialing { rejoin: Option<u64> },
    /// The frame that joins the transaction again is written.
    RejoinSending { txn: u64, fresh: Conn<S> },
    /// Its reply is awaited.
    RejoinAwaiting { txn: u64, fresh: Conn<S> },
    /// The exchange has finished.
    Done { answer: Result<Json, String> },
}

/// What there is to say of a [`Phase`].
#[verifier::ext_equal]
pub enum PhaseView<S> {
    Start,
    Dialing,
    Sending { retry: bool },
    Awaiting { retry: bool },
    Quieting { retry: bool },
    Draining { retry: bool },
    Restoring { retry: bool, failure: Option<Seq<char>> },
    Redialing { rejoin: Option<u64> },
    RejoinSending { txn: u64, fresh: ConnView<S> },
    RejoinAwaiting { txn: u64, fresh: ConnView<S> },
    Done { answer: Result<Tree, Seq<char>> },
}

impl<S> View for Phase<S> {
    type V = PhaseView<S>;

    open spec fn view(&self) -> PhaseView<S> {
        match self {
            Phase::Start => PhaseView::Start,
            Phase::Dialing => PhaseView::Dialing,
            Phase::Sending { retry } => PhaseView::Sending { retry: *retry },
            Phase::Awaiting { retry } => PhaseView::Awaiting { retry: *retry },
            Phase::Quieting { retry } => PhaseView::Quieting { retry: *retry },
            Phase::Draining { retry } => PhaseView::Draining { retry: *retry },
            Phase::Restoring { retry, failure } => PhaseView::Restoring {
                retry: *retry,
                failure: match failure {
                    Some(message) => Some(message@),
                    None => None,
                },
            },
            Phase::Redialing { rejoin } => PhaseView::Redialing { rejoin: *rejoin },
            Phase::RejoinSending { txn, fresh } => PhaseView::RejoinSending {
                txn: *txn,
                fresh: fresh@,
            },
            Phase::RejoinAwaiting { txn, fresh } => PhaseView::RejoinAwaiting {
                txn: *txn,
                fresh: fresh@,
            },
            Phase::Done { answer } => PhaseView::Done { answer: json::told(*answer) },
        }
    }
}

/// The connection in an option.
pub open spec fn held<S>(slot: Option<Conn<S>>) -> Option<ConnView<S>> {
    match slot {
        Some(conn) => Some(conn@),
        None => None,
    }
}

/// One exchange with an app.
pub struct Exchange<S> {
    app: String,
    job: Job,
    /// The pooled connection.
    slot: Option<Conn<S>>,
    phase: Phase<S>,
}

/// What there is to say of an [`Exchange`].
#[verifier::ext_equal]
pub struct ExchangeView<S> {
    pub app: Seq<char>,
    pub job: JobView,
    pub slot: Option<ConnView<S>>,
    pub phase: PhaseView<S>,
}

impl<S> View for Exchange<S> {
    type V = ExchangeView<S>;

    closed spec fn view(&self) -> ExchangeView<S> {
        ExchangeView {
            app: self.app@,
            job: self.job@,
            slot: held(self.slot),
            phase: self.phase@,
        }
    }
}

/// What an exchange that was to see that `app` can be reached answers: `{app, ok: true}`.
pub open spec fn reachable_doc(app: Seq<char>) -> Tree {
    Tree::Object(
        Map::empty().insert("app"@, Tree::Text(app)).insert("ok"@, Tree::Bool(true)),
    )
}

impl<S> ExchangeView<S> {
    /// An exchange about to start, on the connection that was pooled.
    pub open spec fn starting(
        app: Seq<char>,
        job: JobView,
        slot: Option<ConnView<S>>,
    ) -> ExchangeView<S> {
        ExchangeView { app, job, slot, phase: PhaseView::Start }
    }

    /// Whether `event` is one that the action of this phase can lead to.
    pub open spec fn awaits(self, event: EventView<S>) -> bool {
        match self.phase {
            PhaseView::Start => event is Go,
            PhaseView::Dialing | PhaseView::Redialing { .. } => event is Dialed,
            PhaseView::Sending { .. } | PhaseView::RejoinSending { .. } => event is Sent,
            PhaseView::Awaiting { .. }
            | PhaseView::Draining { .. }
            | PhaseView::RejoinAwaiting { .. } => {
                event is Frame || event is Closed || event is Failed
            },
            PhaseView::Quieting { .. } | PhaseView::Restoring { .. } => event is ModeSet,
            PhaseView::Done { .. } => false,
        }
    }

    /// What holds in every phase: the request is a frame and has a correlation id left to go out
    /// under, the pooled connection is there where it is used, and while the app is dialed again the transaction to join is the one that
    /// the connection that failed had open.
    pub open spec fn wf(self) -> bool {
        &&& self.job matches JobView::Request { frame, effect } ==> frame is Object
        &&& match self.phase {
            PhaseView::Start => self.job is Request ==> (self.slot matches Some(conn)
                ==> conn.next_id < u64::MAX),
            PhaseView::Dialing => self.slot is None || self.job is Open,
            PhaseView::Sending { .. } | PhaseView::Awaiting { .. } => self.slot is Some
                && self.job is Request,
            PhaseView::Quieting { .. }
            | PhaseView::Draining { .. }
            | PhaseView::Restoring { .. } => self.slot is Some && self.job is Poll,
            PhaseView::Redialing { rejoin } => !(self.job is Open) && (self.slot matches Some(
                conn,
            ) && conn.open_txn == rejoin),
            PhaseView::RejoinSending { txn, fresh } | PhaseView::RejoinAwaiting { txn, fresh } => {
                &&& !(self.job is Open)
                &&& self.slot matches Some(conn)
                &&& conn.open_txn == Some(txn)
                &&& fresh == ConnView::fresh(fresh.reader).requested()
            },
            PhaseView::Done { .. } => true,
        }
    }

    /// The exchange with another phase.
    pub open spec fn to(self, phase: PhaseView<S>) -> ExchangeView<S> {
        ExchangeView { phase, ..self }
    }

    /// The exchange, finished.
    pub open spec fn finished(self, answer: Result<Tree, Seq<char>>) -> (
        ExchangeView<S>,
        ActionView,
    ) {
        (self.to(PhaseView::Done { answer }), ActionView::Finish)
    }

    /// The connection to go on with once the app was dialed: the pooled one stays, and where there
    /// is none, the one that was dialed is pooled.
    pub open spec fn reached(self, reader: S) -> ConnView<S> {
        match self.slot {
            Some(conn) => conn,
            None => ConnView::fresh(reader),
        }
    }

    /// `conn`, as it takes the place of the pooled connection: with the events that were kept.
    pub open spec fn inheriting(self, conn: ConnView<S>) -> ConnView<S> {
        ConnView { events: self.slot->0.events, ..conn }
    }

    /// The job begins on the pooled connection `conn`.
    pub open spec fn running(self, conn: ConnView<S>, retry: bool) -> (
        ExchangeView<S>,
        ActionView,
    ) {
        let here = ExchangeView { slot: Some(conn), ..self };
        match self.job {
            JobView::Open => here.finished(Ok(reachable_doc(self.app))),
            JobView::Request { frame, .. } => (
                ExchangeView {
                    slot: Some(conn.requested()),
                    phase: PhaseView::Sending { retry },
                    ..self
                },
                ActionView::sending(frame::stamped(frame, conn.requested().next_id)),
            ),
            JobView::Poll => (
                here.to(PhaseView::Quieting { retry }),
                ActionView::SetDrainMode(true),
            ),
        }
    }

    /// The transport failed under the job: the first time the app is dialed again, the second
    /// time the failure is the answer.
    pub open spec fn failing(self, retry: bool, message: Seq<char>) -> (
        ExchangeView<S>,
        ActionView,
    ) {
        if retry {
            self.finished(Err(message))
        } else {
            (self.to(PhaseView::Redialing { rejoin: self.slot->0.open_txn }), ActionView::Dial)
        }
    }

    /// The message of an event that ends a read without a frame.
    pub open spec fn read_failure(event: EventView<S>) -> Seq<char> {
        match event {
            EventView::Failed { message, .. } => message,
            _ => "connection closed"@,
        }
    }

    /// The exchange after `event`, and the action that comes next.
    pub open spec fn after(self, event: EventView<S>) -> (ExchangeView<S>, ActionView) {
        match (self.phase, event) {
            (PhaseView::Start, _) => match self.slot {
                Some(conn) if !(self.job is Open) => self.running(conn, false),
                _ => (self.to(PhaseView::Dialing), ActionView::Dial),
            },
            (PhaseView::Dialing, EventView::Dialed(result)) => match result {
                Ok(reader) => self.running(self.reached(reader), false),
                Err(message) => self.finished(Err(message)),
            },
            (PhaseView::Sending { retry }, EventView::Sent(result)) => match result {
                Ok(_) => (self.to(PhaseView::Awaiting { retry }), ActionView::Read),
                Err(message) => self.failing(retry, message),
            },
            (PhaseView::Awaiting { retry }, EventView::Frame(frame)) => {
                let conn = self.slot->0.after_frame(frame);
                let here = ExchangeView { slot: Some(conn), ..self };
                match conn::hears(self.slot->0.next_id, frame) {
                    HeardView::Reply(reply) => {
                        let answer = frame::reply_says(reply);
                        ExchangeView {
                            slot: Some(
                                ConnView {
                                    open_txn: self.job->effect.on(answer is Ok, conn.open_txn),
                                    ..conn
                                },
                            ),
                            ..self
                        }.finished(answer)
                    },
                    HeardView::Waiting => (here, ActionView::Read),
                    HeardView::Malformed(message) => here.failing(retry, message),
                }
            },
            (PhaseView::Awaiting { retry }, event) => self.failing(
                retry,
                Self::read_failure(event),
            ),
            (PhaseView::Quieting { retry }, EventView::ModeSet(result)) => match result {
                Ok(_) => (self.to(PhaseView::Draining { retry }), ActionView::Read),
                Err(message) => self.failing(retry, message),
            },
            (PhaseView::Draining { retry }, EventView::Frame(frame)) => (
                ExchangeView { slot: Some(self.slot->0.after_frame(frame)), ..self },
                ActionView::Read,
            ),
            (PhaseView::Draining { retry }, EventView::Failed { quiet: false, message }) => (
                self.to(PhaseView::Restoring { retry, failure: Some(message) }),
                ActionView::SetDrainMode(false),
            ),
            (PhaseView::Draining { retry }, _) => (
                self.to(PhaseView::Restoring { retry, failure: None }),
                ActionView::SetDrainMode(false),
            ),
            (PhaseView::Restoring { retry, failure: Some(message) }, _) => self.failing(
                retry,
                message,
            ),
            (PhaseView::Restoring { retry, failure: None }, EventView::ModeSet(result)) => {
                match result {
                    Ok(_) => ExchangeView {
                        slot: Some(ConnView { events: Seq::empty(), ..self.slot->0 }),
                        ..self
                    }.finished(Ok(Tree::Array(self.slot->0.events))),
                    Err(message) => self.failing(retry, message),
                }
            },
            (PhaseView::Redialing { rejoin }, EventView::Dialed(result)) => match result {
                Ok(reader) => match rejoin {
                    None => self.running(self.inheriting(ConnView::fresh(reader)), true),
                    Some(txn) => (
                        self.to(
                            PhaseView::RejoinSending {
                                txn,
                                fresh: ConnView::fresh(reader).requested(),
                            },
                        ),
                        ActionView::sending(frame::stamped(frame::begin_doc(txn), 1)),
                    ),
                },
                Err(message) => self.finished(Err(message)),
            },
            (PhaseView::RejoinSending { txn, fresh }, EventView::Sent(result)) => match result {
                Ok(_) => (self.to(PhaseView::RejoinAwaiting { txn, fresh }), ActionView::Read),
                Err(message) => self.finished(Err(message)),
            },
            (PhaseView::RejoinAwaiting { txn, fresh }, EventView::Frame(frame)) => {
                let here = ExchangeView { slot: Some(self.slot->0.after_frame(frame)), ..self };
                match conn::hears(fresh.next_id, frame) {
                    HeardView::Reply(reply) => match frame::reply_says(reply) {
                        Ok(_) => here.running(
                            here.inheriting(ConnView { open_txn: Some(txn), ..fresh }),
                            true,
                        ),
                        Err(message) => here.finished(Err(message)),
                    },
                    HeardView::Waiting => (here, ActionView::Read),
                    HeardView::Malformed(message) => here.finished(Err(message)),
                }
            },
            (PhaseView::RejoinAwaiting { txn, fresh }, event) => self.finished(
                Err(Self::read_failure(event)),
            ),
            _ => (self, ActionView::Finish),
        }
    }

    /// The connection that the next write or read goes to: the fresh one while it joins a
    /// transaction, and otherwise the pooled one.
    pub open spec fn current(self) -> Option<ConnView<S>> {
        match self.phase {
            PhaseView::RejoinSending { fresh, .. } => Some(fresh),
            PhaseView::RejoinAwaiting { fresh, .. } => Some(fresh),
            _ => self.slot,
        }
    }

    /// The exchange with another endpoint in the connection that the next write or read goes
    /// to.
    pub open spec fn with_reader(self, reader: S) -> ExchangeView<S> {
        match self.phase {
            PhaseView::RejoinSending { txn, fresh } => self.to(
                PhaseView::RejoinSending { txn, fresh: ConnView { reader, ..fresh } },
            ),
            PhaseView::RejoinAwaiting { txn, fresh } => self.to(
                PhaseView::RejoinAwaiting { txn, fresh: ConnView { reader, ..fresh } },
            ),
            _ => ExchangeView { slot: Some(ConnView { reader, ..self.slot->0 }), ..self },
        }
    }
}

impl<S> Exchange<S> {
    /// An exchange about to start, on the connection that was pooled.
    pub fn new(app: &str, job: Job, slot: Option<Conn<S>>) -> (exchange: Exchange<S>)
        ensures
            exchange@ == ExchangeView::starting(app@, job@, held(slot)),
    {
        Exchange { app: app.to_owned(), job, slot, phase: Phase::Start }
    }

    fn finish_with(self, answer: Result<Json, String>) -> (res: (Exchange<S>, Action))
        ensures
            (res.0@, res.1@) == self@.finished(json::told(answer)),
    {
        (Exchange { phase: Phase::Done { answer }, ..self }, Action::Finish)
    }

    fn run(self, conn: Conn<S>, retry: bool) -> (res: (Exchange<S>, Action))
        requires
            self@.job matches JobView::Request { frame, effect } ==> frame is Object
                && conn@.next_id < u64::MAX,
        ensures
            (res.0@, res.1@) == self@.running(conn@, retry),
            res.1@.wf(),
    {
        let mut conn = conn;
        match &self.job {
            Job::Open => {
                let doc = Json::object().with("app", Json::text(self.app.as_str())).with(
                    "ok",
                    Json::Bool(true),
                );
                Exchange { slot: Some(conn), ..self }.finish_with(Ok(doc))
            },
            Job::Request { frame, .. } => {
                let request = conn.stamp(frame.clone());
                match frame::frame_line(&request) {
                    Ok(line) => (
                        Exchange { slot: Some(conn), phase: Phase::Sending { retry }, ..self },
                        Action::Send { request, line },
                    ),
                    Err(message) => Exchange { slot: Some(conn), ..self }.fail(retry, message),
                }
            },
            Job::Poll => (
                Exchange { slot: Some(conn), phase: Phase::Quieting { retry }, ..self },
                Action::SetDrainMode(true),
            ),
        }
    }

    /// Runs the job again on `conn`, which takes the place of the pooled connection.
    fn succeed(self, conn: Conn<S>) -> (res: (Exchange<S>, Action))
        requires
            self@.job matches JobView::Request { frame, effect } ==> frame is Object
                && conn@.next_id < u64::MAX,
            self@.slot is Some,
        ensures
            (res.0@, res.1@) == self@.running(self@.inheriting(conn@), true),
            res.1@.wf(),
    {
        let Exchange { app, job, slot, phase } = self;
        let mut conn = conn;
        match slot {
            Some(lost) => {
                conn.events = lost.events;
            },
            None => {},
        }
        Exchange { app, job, slot: None, phase }.run(conn, true)
    }

    fn fail(self, retry: bool, message: String) -> (res: (Exchange<S>, Action))
        requires
            self@.slot is Some,
        ensures
            (res.0@, res.1@) == self@.failing(retry, message@),
    {
        if retry {
            self.finish_with(Err(message))
        } else {
            let rejoin = match &self.slot {
                Some(conn) => conn.open_txn,
                None => None,
            };
            (Exchange { phase: Phase::Redialing { rejoin }, ..self }, Action::Dial)
        }
    }

    /// Takes in what the last action led to, and names the next action.
    pub fn step(self, event: Event<S>) -> (res: (Exchange<S>, Action))
        requires
            self@.wf(),
            self@.awaits(event@),
        ensures
            (res.0@, res.1@) == self@.after(event@),
            res.0@.wf(),
            res.1@.wf(),
    {
        let Exchange { app, job, slot, phase } = self;
        match phase {
            Phase::Start => match (slot, &job) {
                (slot, Job::Open) => (
                    Exchange { app, job, slot, phase: Phase::Dialing },
                    Action::Dial,
                ),
                (Some(conn), _) => Exchange { app, job, slot: None, phase: Phase::Start }.run(
                    conn,
                    false,
                ),
                (None, _) => (
                    Exchange { app, job, slot: None, phase: Phase::Dialing },
                    Action::Dial,
                ),
            },
            Phase::Dialing => match event {
                Event::Dialed(Ok(reader)) => {
                    let conn = match slot {
                        Some(conn) => conn,
                        None => Conn::new(reader),
                    };
                    Exchange { app, job, slot: None, phase: Phase::Dialing }.run(conn, false)
                },
                Event::Dialed(Err(message)) => Exchange {
                    app,
                    job,
                    slot,
                    phase: Phase::Dialing,
                }.finish_with(Err(message)),
                _ => (Exchange { app, job, slot, phase: Phase::Dialing }, Action::Finish),
            },
            Phase::Sending { retry } => match event {
                Event::Sent(Err(message)) => Exchange {
                    app,
                    job,
                    slot,
                    phase: Phase::Sending { retry },
                }.fail(retry, message),
                _ => (Exchange { app, job, slot, phase: Phase::Awaiting { retry } }, Action::Read),
            },
            Phase::Awaiting { retry } => match event {
                Event::Frame(frame) => Self::hear_reply(app, job, slot, retry, frame),
                event => {
                    let message = Self::read_failed(event);
                    Exchange { app, job, slot, phase: Phase::Awaiting { retry } }.fail(
                        retry,
                        message,
                    )
                },
            },
            Phase::Quieting { retry } => match event {
                Event::ModeSet(Err(message)) => Exchange {
                    app,
                    job,
                    slot,
                    phase: Phase::Quieting { retry },
                }.fail(retry, message),
                _ => (Exchange { app, job, slot, phase: Phase::Draining { retry } }, Action::Read),
            },
            Phase::Draining { retry } => match event {
                Event::Frame(frame) => {
                    let slot = match slot {
                        Some(conn) => {
                            let mut conn = conn;
                            conn.overhear(frame);
                            Some(conn)
                        },
                        None => None,
                    };
                    (Exchange { app, job, slot, phase: Phase::Draining { retry } }, Action::Read)
                },
                Event::Failed { quiet: false, message } => (
                    Exchange {
                        app,
                        job,
                        slot,
                        phase: Phase::Restoring { retry, failure: Some(message) },
                    },
                    Action::SetDrainMode(false),
                ),
                _ => (
                    Exchange { app, job, slot, phase: Phase::Restoring { retry, failure: None } },
                    Action::SetDrainMode(false),
                ),
            },
            Phase::Restoring { retry, failure } => {
                let here = Exchange { app, job, slot, phase: Phase::Restoring { retry, failure: None } };
                match failure {
                    Some(message) => here.fail(retry, message),
                    None => match event {
                        Event::ModeSet(Err(message)) => here.fail(retry, message),
                        _ => here.hand_out(),
                    },
                }
            },
            Phase::Redialing { rejoin } => {
                let here = Exchange { app, job, slot, phase: Phase::Redialing { rejoin } };
                match event {
                    Event::Dialed(Ok(reader)) => match rejoin {
                        None => here.succeed(Conn::new(reader)),
                        Some(txn) => {
                            let mut fresh = Conn::new(reader);
                            let request = fresh.stamp(frame::begin_frame(txn));
                            match frame::frame_line(&request) {
                                Ok(line) => (
                                    Exchange { phase: Phase::RejoinSending { txn, fresh }, ..here },
                                    Action::Send { request, line },
                                ),
                                Err(message) => here.finish_with(Err(message)),
                            }
                        },
                    },
                    Event::Dialed(Err(message)) => here.finish_with(Err(message)),
                    _ => (here, Action::Finish),
                }
            },
            Phase::RejoinSending { txn, fresh } => match event {
                Event::Sent(Err(message)) => Exchange {
                    app,
                    job,
                    slot,
                    phase: Phase::Start,
                }.finish_with(Err(message)),
                _ => (
                    Exchange { app, job, slot, phase: Phase::RejoinAwaiting { txn, fresh } },
                    Action::Read,
                ),
            },
            Phase::RejoinAwaiting { txn, fresh } => match event {
                Event::Frame(frame) => Self::hear_joined(app, job, slot, txn, fresh, frame),
                event => {
                    let message = Self::read_failed(event);
                    Exchange { app, job, slot, phase: Phase::Start }.finish_with(Err(message))
                },
            },
            Phase::Done { answer } => (
                Exchange { app, job, slot, phase: Phase::Done { answer } },
                Action::Finish,
            ),
        }
    }

    fn read_failed(event: Event<S>) -> (message: String)
        ensures
            message@ == ExchangeView::<S>::read_failure(event@),
    {
        match event {
            Event::Failed { message, .. } => message,
            _ => "connection closed".to_owned(),
        }
    }

    fn hear_reply(
        app: String,
        job: Job,
        slot: Option<Conn<S>>,
        retry: bool,
        frame: Result<Json, String>,
    ) -> (res: (Exchange<S>, Action))
        requires
            slot is Some,
            job is Request,
        ensures
            (res.0@, res.1@) == (ExchangeView {
                app: app@,
                job: job@,
                slot: held(slot),
                phase: PhaseView::Awaiting { retry },
            }).after(EventView::Frame(json::told(frame))),
    {
        match slot {
            Some(conn) => {
                let mut conn = conn;
                let id: u64 = conn.next_id;
                match conn.hear(id, frame) {
                    Heard::Reply(reply) => {
                        let answer = frame::unwrap_reply(reply);
                        match &job {
                            Job::Request { effect, .. } => {
                                conn.open_txn = effect.apply(answer.is_ok(), conn.open_txn);
                            },
                            _ => {},
                        }
                        Exchange { app, job, slot: Some(conn), phase: Phase::Start }.finish_with(
                            answer,
                        )
                    },
                    Heard::Waiting => (
                        Exchange { app, job, slot: Some(conn), phase: Phase::Awaiting { retry } },
                        Action::Read,
                    ),
                    Heard::Malformed(message) => Exchange {
                        app,
                        job,
                        slot: Some(conn),
                        phase: Phase::Awaiting { retry },
                    }.fail(retry, message),
                }
            },
            None => (
                Exchange { app, job, slot: None, phase: Phase::Awaiting { retry } },
                Action::Read,
            ),
        }
    }

    fn hear_joined(
        app: String,
        job: Job,
        slot: Option<Conn<S>>,
        txn: u64,
        fresh: Conn<S>,
        frame: Result<Json, String>,
    ) -> (res: (Exchange<S>, Action))
        requires
            slot is Some,
            job@ matches JobView::Request { frame, effect } ==> frame is Object,
            fresh@.next_id < u64::MAX,
        ensures
            (res.0@, res.1@) == (ExchangeView {
                app: app@,
                job: job@,
                slot: held(slot),
                phase: PhaseView::RejoinAwaiting { txn, fresh: fresh@ },
            }).after(EventView::Frame(json::told(frame))),
            res.1@.wf(),
    {
        match slot {
            Some(conn) => {
                let mut conn = conn;
                match conn.hear(fresh.next_id, frame) {
                    Heard::Reply(reply) => {
                        let here = Exchange { app, job, slot: Some(conn), phase: Phase::Start };
                        match frame::unwrap_reply(reply) {
                            Ok(_) => {
                                let mut fresh = fresh;
                                fresh.open_txn = Some(txn);
                                here.succeed(fresh)
                            },
                            Err(message) => here.finish_with(Err(message)),
                        }
                    },
                    Heard::Waiting => (
                        Exchange {
                            app,
                            job,
                            slot: Some(conn),
                            phase: Phase::RejoinAwaiting { txn, fresh },
                        },
                        Action::Read,
                    ),
                    Heard::Malformed(message) => Exchange {
                        app,
                        job,
                        slot: Some(conn),
                        phase: Phase::Start,
                    }.finish_with(Err(message)),
                }
            },
            None => (
                Exchange { app, job, slot: None, phase: Phase::RejoinAwaiting { txn, fresh } },
                Action::Read,
            ),
        }
    }

    fn hand_out(self) -> (res: (Exchange<S>, Action))
        requires
            self@.slot is Some,
        ensures
            (res.0@, res.1@) == (ExchangeView {
                slot: Some(ConnView { events: Seq::empty(), ..self@.slot->0 }),
                ..self@
            }).finished(Ok(Tree::Array(self@.slot->0.events))),
    {
        let Exchange { app, job, slot, phase } = self;
        match slot {
            Some(conn) => {
                let mut conn = conn;
                let events = conn.drain();
                Exchange { app, job, slot: Some(conn), phase }.finish_with(Ok(events))
            },
            None => Exchange { app, job, slot: None, phase }.finish_with(Ok(Json::Null)),
        }
    }

    /// Takes in a line that was read, and names the next action.
    pub fn step_line(self, line: &str) -> (res: (Exchange<S>, Action))
        requires
            self@.wf(),
            self@.awaits(EventView::Frame(frame::line_says(line@))),
        ensures
            (res.0@, res.1@) == self@.after(EventView::Frame(frame::line_says(line@))),
            res.0@.wf(),
            res.1@.wf(),
    {
        let answer = frame::read_frame(line);
        self.step(Event::Frame(answer))
    }

    /// The endpoint that the next write or read goes to.
    pub fn reader(&mut self) -> (res: Option<&mut S>)
        ensures
            old(self)@.wf() ==> final(self)@.wf(),
            match res {
                Some(reader) => {
                    &&& old(self)@.current() matches Some(conn)
                    &&& conn.reader == *reader
                    &&& final(self)@ == old(self)@.with_reader(*final(reader))
                },
                None => old(self)@.current() is None && final(self)@ == old(self)@,
            },
    {
        match &mut self.phase {
            Phase::RejoinSending { fresh, .. } => Some(&mut fresh.reader),
            Phase::RejoinAwaiting { fresh, .. } => Some(&mut fresh.reader),
            _ => match &mut self.slot {
                Some(conn) => Some(&mut conn.reader),
                None => None,
            },
        }
    }

    /// The name of the app.
    pub fn app(&self) -> (app: String)
        ensures
            app@ == self@.app,
    {
        self.app.clone()
    }

    /// The end of a finished exchange: the connection to keep in the pool, and the answer.
    pub fn finish(self) -> (res: (Option<Conn<S>>, Result<Json, String>))
        requires
            self@.phase is Done,
        ensures
            held(res.0) == self@.slot,
            json::told(res.1) == self@.phase->answer,
    {
        match self.phase {
            Phase::Done { answer } => (self.slot, answer),
            _ => (self.slot, Err(String::new())),
        }
    }
}

} // verus!
