//! The exported surface: JSON text in, JSON text out.
//!
//! Each export takes an object of arguments. The functions here decode it into the [`Command`]
//! that it asks for, and turn what the command led to into the text that is handed back.

use crate::client;
use crate::conn::Pool;
use crate::exchange::{Effect, Exchange, JobView};
use crate::frame;
use crate::json;
use crate::json::{Json, Tree};
use vstd::prelude::*;
use vstd::string::*;

verus! {

/// What an export asks for.
pub enum Command {
    /// Confirm that an app can be reached.
    Open { app: String },
    /// Open the app that the script runs inside.
    Here,
    /// Name every running app.
    List,
    /// Fetch an app's typed surface.
    Verbs { app: String },
    /// Invoke a verb.
    Call { app: String, verb: String, args: Json },
    /// Read a state query.
    Get { app: String, state: String },
    /// Subscribe to an event.
    Sub { app: String, event: String },
    /// Collect the events since the last poll.
    Poll { app: String },
    /// Compensate one executed verb.
    Undo { app: String, verb: String, args: Json, result: Json },
    /// Open a saga.
    TxnBegin { id: Option<u64> },
    /// Run one step of a saga.
    TxnCall { txn: u64, app: String, verb: String, args: Json },
    /// Tell the steps of a saga.
    TxnSteps { txn: u64 },
    /// Commit a saga.
    TxnCommit { txn: u64 },
    /// Abort a saga.
    TxnAbort { txn: u64 },
}

/// What there is to say of a [`Command`].
#[verifier::ext_equal]
pub enum CommandView {
    Open { app: Seq<char> },
    Here,
    List,
    Verbs { app: Seq<char> },
    Call { app: Seq<char>, verb: Seq<char>, args: Tree },
    Get { app: Seq<char>, state: Seq<char> },
    Sub { app: Seq<char>, event: Seq<char> },
    Poll { app: Seq<char> },
    Undo { app: Seq<char>, verb: Seq<char>, args: Tree, result: Tree },
    TxnBegin { id: Option<u64> },
    TxnCall { txn: u64, app: Seq<char>, verb: Seq<char>, args: Tree },
    TxnSteps { txn: u64 },
    TxnCommit { txn: u64 },
    TxnAbort { txn: u64 },
}

impl View for Command {
    type V = CommandView;

    open spec fn view(&self) -> CommandView {
        match self {
            Command::Open { app } => CommandView::Open { app: app@ },
            Command::Here => CommandView::Here,
            Command::List => CommandView::List,
            Command::Verbs { app } => CommandView::Verbs { app: app@ },
            Command::Call { app, verb, args } => CommandView::Call {
                app: app@,
                verb: verb@,
                args: args@,
            },
            Command::Get { app, state } => CommandView::Get { app: app@, state: state@ },
            Command::Sub { app, event } => CommandView::Sub { app: app@, event: event@ },
            Command::Poll { app } => CommandView::Poll { app: app@ },
            Command::Undo { app, verb, args, result } => CommandView::Undo {
                app: app@,
                verb: verb@,
                args: args@,
                result: result@,
            },
            Command::TxnBegin { id } => CommandView::TxnBegin { id: *id },
            Command::TxnCall { txn, app, verb, args } => CommandView::TxnCall {
                txn: *txn,
                app: app@,
                verb: verb@,
                args: args@,
            },
            Command::TxnSteps { txn } => CommandView::TxnSteps { txn: *txn },
            Command::TxnCommit { txn } => CommandView::TxnCommit { txn: *txn },
            Command::TxnAbort { txn } => CommandView::TxnAbort { txn: *txn },
        }
    }
}

/// A decoded command, or why there is none.
pub open spec fn decoded(res: Result<Command, String>) -> Result<CommandView, Seq<char>> {
    match res {
        Ok(command) => Ok(command@),
        Err(message) => Err(message@),
    }
}

impl CommandView {
    /// The app that the command is an exchange with, and what the exchange is for. `None` for a
    /// command that is no exchange with one app.
    pub open spec fn exchange(self) -> Option<(Seq<char>, JobView)> {
        match self {
            CommandView::Open { app } => Some((app, JobView::Open)),
            CommandView::Verbs { app } => Some((app, asking(frame::verbs_doc()))),
            CommandView::Call { app, verb, args } => Some(
                (app, asking(frame::call_doc(verb, args))),
            ),
            CommandView::Get { app, state } => Some((app, asking(frame::get_doc(state)))),
            CommandView::Sub { app, event } => Some((app, asking(frame::sub_doc(event)))),
            CommandView::Poll { app } => Some((app, JobView::Poll)),
            CommandView::Undo { app, verb, args, result } => Some(
                (app, asking(frame::undo_doc(verb, args, result))),
            ),
            _ => None,
        }
    }

    /// Whether the command can start: where it is a request, the app's connection has a
    /// correlation id left.
    pub open spec fn can_start<S>(self, pool: Pool<S>) -> bool {
        match self.exchange() {
            Some((app, JobView::Request { .. })) => client::can_start(pool, app),
            _ => true,
        }
    }
}

/// A request that leaves the open transaction alone.
pub open spec fn asking(frame: Tree) -> JobView {
    JobView::Request { frame, effect: Effect::Keep }
}

impl Command {
    /// The app that the command is an exchange with.
    pub fn app(&self) -> (app: Option<&String>)
        ensures
            match self@.exchange() {
                Some((name, _)) => app matches Some(a) && a@ == name,
                None => app is None,
            },
    {
        match self {
            Command::Open { app } => Some(app),
            Command::Verbs { app } => Some(app),
            Command::Call { app, .. } => Some(app),
            Command::Get { app, .. } => Some(app),
            Command::Sub { app, .. } => Some(app),
            Command::Poll { app } => Some(app),
            Command::Undo { app, .. } => Some(app),
            _ => None,
        }
    }

    /// Whether the command can start.
    pub fn can_start<S>(&self, pool: &Pool<S>) -> (yes: bool)
        requires
            pool.wf(),
        ensures
            yes == self@.can_start(*pool),
    {
        match self {
            Command::Open { .. } => true,
            Command::Poll { .. } => true,
            _ => match self.app() {
                Some(app) => !pool.exhausted(app.as_str()),
                None => true,
            },
        }
    }

    /// Starts the exchange that the command is; `None` where it is none.
    pub fn start<S>(self, pool: &mut Pool<S>) -> (exchange: Option<Exchange<S>>)
        requires
            old(pool).wf(),
            self@.can_start(*old(pool)),
        ensures
            match self@.exchange() {
                Some((app, job)) => {
                    &&& exchange matches Some(x)
                    &&& client::started(*old(pool), *final(pool), x, app, job)
                },
                None => exchange is None && *final(pool) == *old(pool),
            },
    {
        match self {
            Command::Open { app } => Some(client::open(pool, app.as_str())),
            Command::Verbs { app } => Some(client::verbs(pool, app.as_str())),
            Command::Call { app, verb, args } => Some(
                client::call(pool, app.as_str(), verb.as_str(), args),
            ),
            Command::Get { app, state } => Some(client::get(pool, app.as_str(), state.as_str())),
            Command::Sub { app, event } => Some(
                client::subscribe(pool, app.as_str(), event.as_str()),
            ),
            Command::Poll { app } => Some(client::poll(pool, app.as_str())),
            Command::Undo { app, verb, args, result } => Some(
                client::undo(pool, app.as_str(), verb.as_str(), args, result),
            ),
            _ => None,
        }
    }
}

// ---- arguments ----

/// `missing '..' argument`
pub open spec fn missing(key: Seq<char>) -> Seq<char> {
    "missing '"@ + key + "' argument"@
}

/// The text under `key`, which has to be there.
pub open spec fn text_arg(args: Tree, key: Seq<char>) -> Result<Seq<char>, Seq<char>> {
    match json::text_field(args, key) {
        Some(text) => Ok(text),
        None => Err(missing(key)),
    }
}

/// The transaction id under `key`, which has to be there.
pub open spec fn id_arg(args: Tree, key: Seq<char>) -> Result<u64, Seq<char>> {
    match json::unsigned_field(args, key) {
        Some(n) => Ok(n),
        None => Err(missing(key)),
    }
}

/// The document under `key`, or `null` where there is none.
pub open spec fn doc_arg(args: Tree, key: Seq<char>) -> Tree {
    match json::field(args, key) {
        Some(doc) => doc,
        None => Tree::Null,
    }
}

fn missing_message(key: &str) -> (message: String)
    ensures
        message@ == missing(key@),
{
    "missing '".to_owned().concat(key).concat("' argument")
}

/// The text under `key`, or an error that names it.
pub fn arg_str(args: &Json, key: &str) -> (res: Result<String, String>)
    ensures
        json::worded(res) == text_arg(args@, key@),
{
    match args.get_str(key) {
        Some(text) => Ok(text.to_owned()),
        None => Err(missing_message(key)),
    }
}

/// The transaction id under `key`, or an error that names it.
pub fn arg_id(args: &Json, key: &str) -> (res: Result<u64, String>)
    ensures
        match res {
            Ok(n) => id_arg(args@, key@) == Ok::<u64, Seq<char>>(n),
            Err(message) => id_arg(args@, key@) == Err::<u64, Seq<char>>(message@),
        },
{
    match args.get_u64(key) {
        Some(n) => Ok(n),
        None => Err(missing_message(key)),
    }
}

/// The document under `key`, or `null`.
pub fn arg_doc(args: &Json, key: &str) -> (doc: Json)
    ensures
        doc@ == doc_arg(args@, key@),
{
    match args.get(key) {
        Some(doc) => doc.clone(),
        None => Json::Null,
    }
}

// ---- exports ----

/// A command that needs an app, or the first argument that is missing.
pub open spec fn with_app(args: Tree, command: spec_fn(Seq<char>) -> CommandView) -> Result<
    CommandView,
    Seq<char>,
> {
    match text_arg(args, "app"@) {
        Ok(app) => Ok(command(app)),
        Err(message) => Err(message),
    }
}

/// A command that needs an app and one more text, or the first argument that is missing.
pub open spec fn with_app_and(
    args: Tree,
    key: Seq<char>,
    command: spec_fn(Seq<char>, Seq<char>) -> CommandView,
) -> Result<CommandView, Seq<char>> {
    match (text_arg(args, "app"@), text_arg(args, key)) {
        (Err(message), _) => Err(message),
        (Ok(_), Err(message)) => Err(message),
        (Ok(app), Ok(text)) => Ok(command(app, text)),
    }
}

/// A command that needs a transaction id, or the error that names it.
pub open spec fn with_txn(args: Tree, command: spec_fn(u64) -> CommandView) -> Result<
    CommandView,
    Seq<char>,
> {
    match id_arg(args, "txn"@) {
        Ok(txn) => Ok(command(txn)),
        Err(message) => Err(message),
    }
}

/// `App::open(name)`: confirm that an app can be reached.
#[allow(non_snake_case)]
pub fn app__open(args: &Json) -> (res: Result<Command, String>)
    ensures
        decoded(res) == with_app(args@, |app: Seq<char>| CommandView::Open { app }),
{
    match arg_str(args, "app") {
        Ok(app) => Ok(Command::Open { app }),
        Err(message) => Err(message),
    }
}

/// `App::here()`: open the app that the script runs inside.
#[allow(non_snake_case)]
pub fn app__here(_args: &Json) -> (res: Result<Command, String>)
    ensures
        decoded(res) == Ok::<CommandView, Seq<char>>(CommandView::Here),
{
    Ok(Command::Here)
}

/// `App::list()`: every running app.
#[allow(non_snake_case)]
pub fn app__list(_args: &Json) -> (res: Result<Command, String>)
    ensures
        decoded(res) == Ok::<CommandView, Seq<char>>(CommandView::List),
{
    Ok(Command::List)
}

/// `App::verbs(name)`: the typed surface.
#[allow(non_snake_case)]
pub fn app__verbs(args: &Json) -> (res: Result<Command, String>)
    ensures
        decoded(res) == with_app(args@, |app: Seq<char>| CommandView::Verbs { app }),
{
    match arg_str(args, "app") {
        Ok(app) => Ok(Command::Verbs { app }),
        Err(message) => Err(message),
    }
}

/// `App::call(name, verb, args)`: invoke a verb.
#[allow(non_snake_case)]
pub fn app__call(args: &Json) -> (res: Result<Command, String>)
    ensures
        decoded(res) == with_app_and(
            args@,
            "verb"@,
            |app: Seq<char>, verb: Seq<char>|
                CommandView::Call { app, verb, args: doc_arg(args@, "args"@) },
        ),
{
    match arg_str(args, "app") {
        Ok(app) => match arg_str(args, "verb") {
            Ok(verb) => Ok(Command::Call { app, verb, args: arg_doc(args, "args") }),
            Err(message) => Err(message),
        },
        Err(message) => Err(message),
    }
}

/// `App::get(name, state)`: read a state query.
#[allow(non_snake_case)]
pub fn app__get(args: &Json) -> (res: Result<Command, String>)
    ensures
        decoded(res) == with_app_and(
            args@,
            "state"@,
            |app: Seq<char>, state: Seq<char>| CommandView::Get { app, state },
        ),
{
    match arg_str(args, "app") {
        Ok(app) => match arg_str(args, "state") {
            Ok(state) => Ok(Command::Get { app, state }),
            Err(message) => Err(message),
        },
        Err(message) => Err(message),
    }
}

/// `App::sub(name, event)`: subscribe to an event.
#[allow(non_snake_case)]
pub fn app__sub(args: &Json) -> (res: Result<Command, String>)
    ensures
        decoded(res) == with_app_and(
            args@,
            "event"@,
            |app: Seq<char>, event: Seq<char>| CommandView::Sub { app, event },
        ),
{
    match arg_str(args, "app") {
        Ok(app) => match arg_str(args, "event") {
            Ok(event) => Ok(Command::Sub { app, event }),
            Err(message) => Err(message),
        },
        Err(message) => Err(message),
    }
}

/// `App::poll(name)`: collect the events since the last poll.
#[allow(non_snake_case)]
pub fn app__poll(args: &Json) -> (res: Result<Command, String>)
    ensures
        decoded(res) == with_app(args@, |app: Seq<char>| CommandView::Poll { app }),
{
    match arg_str(args, "app") {
        Ok(app) => Ok(Command::Poll { app }),
        Err(message) => Err(message),
    }
}

/// `App::undo(name, verb, args, result)`: compensate one executed verb.
#[allow(non_snake_case)]
pub fn app__undo(args: &Json) -> (res: Result<Command, String>)
    ensures
        decoded(res) == with_app_and(
            args@,
            "verb"@,
            |app: Seq<char>, verb: Seq<char>|
                CommandView::Undo {
                    app,
                    verb,
                    args: doc_arg(args@, "args"@),
                    result: doc_arg(args@, "result"@),
                },
        ),
{
    match arg_str(args, "app") {
        Ok(app) => match arg_str(args, "verb") {
            Ok(verb) => Ok(
                Command::Undo {
                    app,
                    verb,
                    args: arg_doc(args, "args"),
                    result: arg_doc(args, "result"),
                },
            ),
            Err(message) => Err(message),
        },
        Err(message) => Err(message),
    }
}

/// `App::txn([txn])`: open a saga, under a minted id where none is given.
#[allow(non_snake_case)]
pub fn app__txn_begin(args: &Json) -> (res: Result<Command, String>)
    ensures
        decoded(res) == Ok::<CommandView, Seq<char>>(
            CommandView::TxnBegin { id: json::unsigned_field(args@, "txn"@) },
        ),
{
    Ok(Command::TxnBegin { id: args.get_u64("txn") })
}

/// `txn.call(app, verb, args)`: one journaled step of a saga.
#[allow(non_snake_case)]
pub fn app__txn_call(args: &Json) -> (res: Result<Command, String>)
    ensures
        decoded(res) == match id_arg(args@, "txn"@) {
            Ok(txn) => with_app_and(
                args@,
                "verb"@,
                |app: Seq<char>, verb: Seq<char>|
                    CommandView::TxnCall { txn, app, verb, args: doc_arg(args@, "args"@) },
            ),
            Err(message) => Err(message),
        },
{
    match arg_id(args, "txn") {
        Ok(txn) => match arg_str(args, "app") {
            Ok(app) => match arg_str(args, "verb") {
                Ok(verb) => Ok(Command::TxnCall { txn, app, verb, args: arg_doc(args, "args") }),
                Err(message) => Err(message),
            },
            Err(message) => Err(message),
        },
        Err(message) => Err(message),
    }
}

/// `txn.steps()`: the forward steps so far.
#[allow(non_snake_case)]
pub fn app__txn_steps(args: &Json) -> (res: Result<Command, String>)
    ensures
        decoded(res) == with_txn(args@, |txn: u64| CommandView::TxnSteps { txn }),
{
    match arg_id(args, "txn") {
        Ok(txn) => Ok(Command::TxnSteps { txn }),
        Err(message) => Err(message),
    }
}

/// `txn.commit()`: close a saga; every app keeps its effects.
#[allow(non_snake_case)]
pub fn app__txn_commit(args: &Json) -> (res: Result<Command, String>)
    ensures
        decoded(res) == with_txn(args@, |txn: u64| CommandView::TxnCommit { txn }),
{
    match arg_id(args, "txn") {
        Ok(txn) => Ok(Command::TxnCommit { txn }),
        Err(message) => Err(message),
    }
}

/// `txn.abort()`: unwind every step in reverse, over every app.
#[allow(non_snake_case)]
pub fn app__txn_abort(args: &Json) -> (res: Result<Command, String>)
    ensures
        decoded(res) == with_txn(args@, |txn: u64| CommandView::TxnAbort { txn }),
{
    match arg_id(args, "txn") {
        Ok(txn) => Ok(Command::TxnAbort { txn }),
        Err(message) => Err(message),
    }
}

// ---- text in, text out ----

/// A document that was read, or `null` where reading failed.
pub open spec fn or_null(answer: Result<Tree, Seq<char>>) -> Tree {
    match answer {
        Ok(doc) => doc,
        Err(_) => Tree::Null,
    }
}

/// A document that was read, or `null` where reading failed.
pub fn read_or_null(answer: Result<Json, String>) -> (doc: Json)
    ensures
        doc@ == or_null(json::told(answer)),
{
    match answer {
        Ok(doc) => doc,
        Err(_) => Json::Null,
    }
}

/// The arguments of an export: the document in the bytes, and `null` where there are none or
/// they hold none.
pub fn input(bytes: Option<&[u8]>) -> (args: Json)
    ensures
        args@ == match bytes {
            Some(bytes) => or_null(json::parsed_bytes(bytes@)),
            None => Tree::Null,
        },
{
    match bytes {
        Some(bytes) => read_or_null(json::parse_bytes(bytes)),
        None => Json::Null,
    }
}

/// How an export's command ended.
pub enum End {
    /// With an answer.
    Returned(Result<Json, String>),
    /// With a panic.
    Panicked,
}

/// `{error}`
pub open spec fn error_doc(message: Seq<char>) -> Tree {
    Tree::Object(Map::empty().insert("error"@, Tree::Text(message)))
}

/// What an export hands back: the answer, or the error as `{error}`.
pub open spec fn end_doc(end: End) -> Tree {
    match end {
        End::Returned(Ok(doc)) => doc@,
        End::Returned(Err(message)) => error_doc(message@),
        End::Panicked => error_doc("stryke-app handler panicked"@),
    }
}

fn error(message: &str) -> (doc: Json)
    ensures
        doc@ == error_doc(message@),
{
    Json::object().with("error", Json::text(message))
}

/// What an export hands back, as a document.
pub fn settle(end: End) -> (doc: Json)
    ensures
        doc@ == end_doc(end),
{
    match end {
        End::Returned(Ok(doc)) => doc,
        End::Returned(Err(message)) => error(message.as_str()),
        End::Panicked => error("stryke-app handler panicked"),
    }
}

/// The text that stands for a document that could not be written.
pub open spec fn unwritable() -> Seq<char> {
    "{\"error\":\"serialize\"}"@
}

/// The text of a document, or the one that stands for it where it could not be written.
pub fn written_or_error(attempt: Result<String, String>) -> (text: String)
    ensures
        text@ == match attempt {
            Ok(written) => written@,
            Err(_) => unwritable(),
        },
{
    match attempt {
        Ok(written) => written,
        Err(_) => "{\"error\":\"serialize\"}".to_owned(),
    }
}

/// The text that an export hands back. It holds no NUL, so it can always be handed over as a C
/// string.
pub fn output(end: End) -> (text: String)
    ensures
        json::rendered(end_doc(end)) == Ok::<Seq<char>, Seq<char>>(text@),
        forall|i: int| 0 <= i < text@.len() ==> #[trigger] text@[i] != '\0',
        json::reads_back(end_doc(end), json::depth_limit()) ==> {
            json::parsed_text(text@) matches Ok(doc) && doc == end_doc(end)
        },
{
    let doc = settle(end);
    written_or_error(json::render(&doc))
}

} // verus!
