//! The client's operations: each starts an exchange with one app.
//!
//! An operation takes the app's connection out of the pool and hands out the [`Exchange`] that
//! runs on it; [`finish`] puts the connection back and tells the answer. A verb that the app
//! refuses is an answer that the caller sees, not a transport failure.

use crate::conn::Pool;
use crate::exchange::{Effect, Exchange, ExchangeView, Job, JobView};
use crate::frame;
use crate::json;
use crate::json::{Json, Tree};
use crate::text;
use vstd::prelude::*;
use vstd::string::*;

verus! {

/// Whether a request to `app` can start: its connection has a correlation id left.
pub open spec fn can_start<S>(pool: Pool<S>, app: Seq<char>) -> bool {
    pool.wf() && (pool.conn(app) matches Some(conn) ==> conn.next_id < u64::MAX)
}

/// What starting an exchange does: the exchange has the app's connection, and the pool has all
/// the others.
pub open spec fn started<S>(
    before: Pool<S>,
    after: Pool<S>,
    exchange: Exchange<S>,
    app: Seq<char>,
    job: JobView,
) -> bool {
    &&& exchange@ == ExchangeView::starting(app, job, before.conn(app))
    &&& exchange@.wf()
    &&& after.wf()
    &&& after.conn(app) is None
    &&& forall|other: Seq<char>| other != app ==> #[trigger] after.conn(other) == before.conn(other)
}

fn start<S>(pool: &mut Pool<S>, app: &str, job: Job) -> (exchange: Exchange<S>)
    requires
        old(pool).wf(),
        job@ matches JobView::Request { frame, effect } ==> frame is Object && can_start(
            *old(pool),
            app@,
        ),
    ensures
        started(*old(pool), *final(pool), exchange, app@, job@),
{
    let slot = pool.take(app);
    Exchange::new(app, job, slot)
}

fn ask<S>(pool: &mut Pool<S>, app: &str, frame: Json, effect: Effect) -> (exchange: Exchange<S>)
    requires
        can_start(*old(pool), app@),
        frame@ is Object,
    ensures
        started(
            *old(pool),
            *final(pool),
            exchange,
            app@,
            JobView::Request { frame: frame@, effect },
        ),
{
    start(pool, app, Job::Request { frame, effect })
}

/// Invokes a verb; the answer is its value.
pub fn call<S>(pool: &mut Pool<S>, app: &str, verb: &str, args: Json) -> (exchange: Exchange<S>)
    requires
        can_start(*old(pool), app@),
    ensures
        started(
            *old(pool),
            *final(pool),
            exchange,
            app@,
            JobView::Request { frame: frame::call_doc(verb@, args@), effect: Effect::Keep },
        ),
{
    ask(pool, app, frame::call_frame(verb, args), Effect::Keep)
}

/// Opens transaction `txn` on `app`: the host journals every later call on this connection
/// under it, and refuses a verb that it cannot undo before the verb runs. To a host that has the
/// transaction open already this is a join.
pub fn begin<S>(pool: &mut Pool<S>, app: &str, txn: u64) -> (exchange: Exchange<S>)
    requires
        can_start(*old(pool), app@),
    ensures
        started(
            *old(pool),
            *final(pool),
            exchange,
            app@,
            JobView::Request { frame: frame::begin_doc(txn), effect: Effect::Enter(txn) },
        ),
{
    ask(pool, app, frame::begin_frame(txn), Effect::Enter(txn))
}

/// Closes `txn` on `app`, whose journal of it is discarded. No compensation runs.
pub fn commit<S>(pool: &mut Pool<S>, app: &str, txn: u64) -> (exchange: Exchange<S>)
    requires
        can_start(*old(pool), app@),
    ensures
        started(
            *old(pool),
            *final(pool),
            exchange,
            app@,
            JobView::Request { frame: frame::commit_doc(txn), effect: Effect::Leave(txn) },
        ),
{
    ask(pool, app, frame::commit_frame(txn), Effect::Leave(txn))
}

/// Aborts `txn` on `app`: the host compensates every step that it journaled, the last first.
/// This unwinds one app; a chain over several apps is unwound by a [`crate::saga::Saga`].
pub fn abort<S>(pool: &mut Pool<S>, app: &str, txn: u64) -> (exchange: Exchange<S>)
    requires
        can_start(*old(pool), app@),
    ensures
        started(
            *old(pool),
            *final(pool),
            exchange,
            app@,
            JobView::Request { frame: frame::abort_doc(txn), effect: Effect::Leave(txn) },
        ),
{
    ask(pool, app, frame::abort_frame(txn), Effect::Leave(txn))
}

/// Compensates one executed verb, quoting the arguments that it ran with and the result that it
/// returned.
pub fn undo<S>(
    pool: &mut Pool<S>,
    app: &str,
    verb: &str,
    args: Json,
    result: Json,
) -> (exchange: Exchange<S>)
    requires
        can_start(*old(pool), app@),
    ensures
        started(
            *old(pool),
            *final(pool),
            exchange,
            app@,
            JobView::Request {
                frame: frame::undo_doc(verb@, args@, result@),
                effect: Effect::Keep,
            },
        ),
{
    ask(pool, app, frame::undo_frame(verb, args, result), Effect::Keep)
}

/// Reads a state query; the answer is its value.
pub fn get<S>(pool: &mut Pool<S>, app: &str, state: &str) -> (exchange: Exchange<S>)
    requires
        can_start(*old(pool), app@),
    ensures
        started(
            *old(pool),
            *final(pool),
            exchange,
            app@,
            JobView::Request { frame: frame::get_doc(state@), effect: Effect::Keep },
        ),
{
    ask(pool, app, frame::get_frame(state), Effect::Keep)
}

/// Asks for the app's typed surface.
pub fn verbs<S>(pool: &mut Pool<S>, app: &str) -> (exchange: Exchange<S>)
    requires
        can_start(*old(pool), app@),
    ensures
        started(
            *old(pool),
            *final(pool),
            exchange,
            app@,
            JobView::Request { frame: frame::verbs_doc(), effect: Effect::Keep },
        ),
{
    ask(pool, app, frame::verbs_frame(), Effect::Keep)
}

/// Confirms that the app can be reached: it is dialed, and the answer is `{app, ok: true}` where
/// that succeeds.
pub fn open<S>(pool: &mut Pool<S>, app: &str) -> (exchange: Exchange<S>)
    requires
        old(pool).wf(),
    ensures
        started(*old(pool), *final(pool), exchange, app@, JobView::Open),
{
    start(pool, app, Job::Open)
}

/// Subscribes to an event; its occurrences are kept until [`poll`] collects them.
pub fn subscribe<S>(pool: &mut Pool<S>, app: &str, event: &str) -> (exchange: Exchange<S>)
    requires
        can_start(*old(pool), app@),
    ensures
        started(
            *old(pool),
            *final(pool),
            exchange,
            app@,
            JobView::Request { frame: frame::sub_doc(event@), effect: Effect::Keep },
        ),
{
    ask(pool, app, frame::sub_frame(event), Effect::Keep)
}

/// Collects the events that have arrived since the last poll; the answer is their array.
pub fn poll<S>(pool: &mut Pool<S>, app: &str) -> (exchange: Exchange<S>)
    requires
        old(pool).wf(),
    ensures
        started(*old(pool), *final(pool), exchange, app@, JobView::Poll),
{
    start(pool, app, Job::Poll)
}

/// Ends a finished exchange: its connection, where it has one, goes back to the pool under the
/// app's name, and its answer is told.
pub fn finish<S>(pool: &mut Pool<S>, exchange: Exchange<S>) -> (answer: Result<Json, String>)
    requires
        old(pool).wf(),
        exchange@.phase is Done,
    ensures
        final(pool).wf(),
        json::told(answer) == exchange@.phase->answer,
        final(pool).conn(exchange@.app) == match exchange@.slot {
            Some(conn) => Some(conn),
            None => old(pool).conn(exchange@.app),
        },
        forall|other: Seq<char>|
            other != exchange@.app ==> #[trigger] final(pool).conn(other) == old(pool).conn(other),
{
    let app = exchange.app();
    let (slot, answer) = exchange.finish();
    match slot {
        Some(conn) => pool.put(app.as_str(), conn),
        None => {},
    }
    answer
}

// ---- which apps there are ----

/// The app that a script runs inside: the value of `ZGUI_APP`, where it is set and not empty.
pub fn here_name(zgui_app: Option<String>) -> (res: Result<String, String>)
    ensures
        match zgui_app {
            Some(name) if name@.len() > 0 => res matches Ok(app) && app@ == name@,
            _ => res matches Err(message) && message@
                == "App::here() outside a bus app (ZGUI_APP unset)"@,
        },
{
    match zgui_app {
        Some(name) => if name.as_str().is_empty() {
            Err("App::here() outside a bus app (ZGUI_APP unset)".to_owned())
        } else {
            Ok(name)
        },
        None => Err("App::here() outside a bus app (ZGUI_APP unset)".to_owned()),
    }
}

/// Opens the app that the script runs inside; an error where it runs inside none.
pub fn here<S>(pool: &mut Pool<S>, zgui_app: Option<String>) -> (res: Result<Exchange<S>, String>)
    requires
        old(pool).wf(),
    ensures
        match zgui_app {
            Some(name) if name@.len() > 0 => {
                &&& res matches Ok(exchange)
                &&& started(*old(pool), *final(pool), exchange, name@, JobView::Open)
            },
            _ => {
                &&& res matches Err(message)
                &&& message@ == "App::here() outside a bus app (ZGUI_APP unset)"@
                &&& *final(pool) == *old(pool)
            },
        },
{
    match here_name(zgui_app) {
        Ok(app) => Ok(open(pool, app.as_str())),
        Err(message) => Err(message),
    }
}

/// The directory that holds the socket directory: that of `XDG_RUNTIME_DIR`, else that of
/// `TMPDIR`, else the fallback.
pub fn socket_base<P>(xdg_runtime_dir: Option<P>, tmpdir: Option<P>, fallback: P) -> (base: P)
    ensures
        base == match (xdg_runtime_dir, tmpdir) {
            (Some(dir), _) => dir,
            (None, Some(dir)) => dir,
            (None, None) => fallback,
        },
{
    match xdg_runtime_dir {
        Some(dir) => dir,
        None => match tmpdir {
            Some(dir) => dir,
            None => fallback,
        },
    }
}

/// Where the socket directory stands when the environment names no place.
pub fn fallback_base() -> (base: &'static str)
    ensures
        base@ == "/tmp"@,
{
    "/tmp"
}

/// The name of the socket directory inside its base.
pub fn socket_dir_name() -> (name: &'static str)
    ensures
        name@ == "zgui"@,
{
    "zgui"
}

/// The name of the app's endpoint inside the socket directory.
pub fn socket_name(app: &str) -> (name: String)
    ensures
        name@ == app@ + ".sock"@,
{
    app.to_owned().concat(".sock")
}

/// What is told of an app that cannot be dialed.
pub fn unreachable(app: &str, place: &str, cause: &str) -> (message: String)
    ensures
        message@ == "app '"@ + app@ + "' not reachable ("@ + place@ + "): "@ + cause@,
{
    "app '".to_owned().concat(app).concat("' not reachable (").concat(place).concat("): ").concat(
        cause,
    )
}

/// Whether `file` is an app's endpoint.
pub open spec fn is_socket(file: Seq<char>) -> bool {
    text::ends_with(file, ".sock"@)
}

/// The app whose endpoint `file` is.
pub open spec fn app_of(file: Seq<char>) -> Seq<char> {
    file.take(file.len() - ".sock"@.len())
}

/// The apps whose endpoints are among `files`, in the order of the files.
pub open spec fn apps_of(files: Seq<Seq<char>>) -> Seq<Seq<char>> {
    files.filter(|file: Seq<char>| is_socket(file)).map_values(|file: Seq<char>| app_of(file))
}

/// Whether `apps` are the apps whose endpoints are among `files`, sorted.
pub open spec fn is_listing(apps: Seq<Seq<char>>, files: Seq<Seq<char>>) -> bool {
    &&& apps.to_multiset() == apps_of(files).to_multiset()
    &&& forall|i: int, j: int|
        0 <= i <= j < apps.len() ==> text::text_le(#[trigger] apps[i], #[trigger] apps[j])
}

/// The texts in an array of texts.
pub open spec fn texts(items: Seq<Tree>) -> Seq<Seq<char>> {
    items.map_values(|item: Tree| item->Text_0)
}

proof fn lemma_apps_of_push(files: Seq<Seq<char>>, file: Seq<char>)
    ensures
        apps_of(files.push(file)) == if is_socket(file) {
            apps_of(files).push(app_of(file))
        } else {
            apps_of(files)
        },
{
    reveal(Seq::filter);
    assert(files.push(file).drop_last() =~= files);
    let pred = |file: Seq<char>| is_socket(file);
    let app = |file: Seq<char>| app_of(file);
    if is_socket(file) {
        assert(files.push(file).filter(pred) == files.filter(pred).push(file));
        assert(files.filter(pred).push(file).map_values(app) =~= files.filter(pred).map_values(
            app,
        ).push(app_of(file)));
    }
}

/// Puts `app` into the sorted `apps`, behind those that do not come after it.
fn insert_sorted(apps: &mut Vec<String>, app: String)
    requires
        forall|i: int, j: int|
            0 <= i <= j < old(apps)@.len() ==> text::text_le(
                #[trigger] old(apps)@[i]@,
                #[trigger] old(apps)@[j]@,
            ),
    ensures
        forall|i: int, j: int|
            0 <= i <= j < final(apps)@.len() ==> text::text_le(
                #[trigger] final(apps)@[i]@,
                #[trigger] final(apps)@[j]@,
            ),
        text::named(final(apps)@).to_multiset() == text::named(old(apps)@).to_multiset().insert(app@),
{
    let mut at: usize = apps.len();
    let ghost before = apps@;
    while at > 0 && !text::not_after(apps[at - 1].as_str(), app.as_str())
        invariant
            apps@ == before,
            at <= apps@.len(),
            forall|i: int, j: int|
                0 <= i <= j < before.len() ==> text::text_le(
                    #[trigger] before[i]@,
                    #[trigger] before[j]@,
                ),
            forall|i: int| at <= i < before.len() ==> text::text_le(app@, #[trigger] before[i]@),
        decreases at,
    {
        proof {
            text::lemma_bytes_le_total(
                vstd::utf8::encode_utf8(before[at - 1]@),
                vstd::utf8::encode_utf8(app@),
            );
        }
        at = at - 1;
    }
    let ghost name = app@;
    apps.insert(at, app);
    proof {
        broadcast use vstd::seq_lib::to_multiset_insert;

        assert(text::named(apps@) =~= text::named(before).insert(at as int, name));
        assert(text::text_le(name, name)) by {
            text::lemma_bytes_le_total(
                vstd::utf8::encode_utf8(name),
                vstd::utf8::encode_utf8(name),
            );
        }
        assert forall|i: int, j: int| 0 <= i <= j < apps@.len() implies text::text_le(
            #[trigger] apps@[i]@,
            #[trigger] apps@[j]@,
        ) by {
            let before_i = if i < at { i } else { i - 1 };
            let before_j = if j < at { j } else { j - 1 };
            if i < at && j >= at {
                text::lemma_bytes_le_transitive(
                    vstd::utf8::encode_utf8(before[i]@),
                    vstd::utf8::encode_utf8(before[at - 1]@),
                    vstd::utf8::encode_utf8(name),
                );
                if j > at {
                    assert(text::text_le(before[i]@, before[before_j]@));
                }
            } else if i != at && j != at {
                assert(text::text_le(before[before_i]@, before[before_j]@));
            }
        }
    }
}

/// Every running app by name, sorted: those whose endpoints are among the names of the files in
/// the socket directory.
pub fn list(files: &Vec<String>) -> (answer: Json)
    ensures
        answer@ matches Tree::Array(items) && {
            &&& forall|i: int| 0 <= i < items.len() ==> #[trigger] items[i] is Text
            &&& is_listing(texts(items), text::named(files@))
        },
{
    let mut apps: Vec<String> = Vec::new();
    let mut i: usize = 0;
    proof {
        reveal(Seq::filter);
        assert(text::named(files@).take(0) =~= Seq::empty());
        assert(apps_of(text::named(files@).take(0)) =~= Seq::empty());
        assert(text::named(apps@) =~= Seq::empty());
    }
    while i < files.len()
        invariant
            i <= files.len(),
            text::named(apps@).to_multiset() == apps_of(text::named(files@).take(i as int)).to_multiset(),
            forall|i: int, j: int|
                0 <= i <= j < apps@.len() ==> text::text_le(
                    #[trigger] apps@[i]@,
                    #[trigger] apps@[j]@,
                ),
        decreases files.len() - i,
    {
        proof {
            lemma_apps_of_push(text::named(files@).take(i as int), files@[i as int]@);
            assert(text::named(files@).take(i as int).push(files@[i as int]@) =~= text::named(files@).take(
                i + 1,
            ));
            broadcast use vstd::seq_lib::to_multiset_build;

        }
        match text::strip_suffix(files[i].as_str(), ".sock") {
            Some(app) => insert_sorted(&mut apps, app),
            None => {},
        }
        i = i + 1;
    }
    assert(text::named(files@).take(i as int) =~= text::named(files@));
    text_array(apps)
}

/// The array of `names`.
fn text_array(names: Vec<String>) -> (doc: Json)
    ensures
        doc@ matches Tree::Array(items) && {
            &&& forall|i: int| 0 <= i < items.len() ==> #[trigger] items[i] is Text
            &&& texts(items) == text::named(names@)
        },
{
    let mut items: Vec<Json> = Vec::new();
    let mut i: usize = 0;
    while i < names.len()
        invariant
            i <= names.len(),
            items@.len() == i,
            forall|j: int| 0 <= j < i ==> #[trigger] items@[j]@ == Tree::Text(names@[j]@),
        decreases names.len() - i,
    {
        items.push(Json::text(names[i].as_str()));
        i = i + 1;
    }
    proof {
        json::lemma_trees(items@);
        assert(texts(json::trees(items@)) =~= text::named(names@));
    }
    Json::Array(items)
}

} // verus!
