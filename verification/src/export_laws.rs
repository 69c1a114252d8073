//! What holds of the exported surface, the registry's words and the client's terms, stated on their
//! parts.

use crate::client;
use crate::conn::Pool;
use crate::exchange::{Effect, Exchange, ExchangeView, JobView};
use crate::exports;
use crate::exports::{CommandView, End};
use crate::json;
use crate::json::{Json, Tree};
use crate::registry;
use crate::registry::RegistryView;
use crate::saga::SagaView;
use crate::text;
use vstd::prelude::*;

verus! {

// ---- arguments ----

/// The error for an argument that is missing names it.
pub proof fn law_missing_arguments_are_named(key: Seq<char>)
    ensures
        exports::missing(key) == "missing '"@ + key + "' argument"@,
{
}

/// A text argument is the text under its key; where there is none, the error names the key.
pub proof fn law_text_arguments(args: Tree, key: Seq<char>, text: Seq<char>)
    ensures
        json::field(args, key) == Some(Tree::Text(text)) ==> exports::text_arg(args, key) == Ok::<
            Seq<char>,
            Seq<char>,
        >(text),
        !(json::field(args, key) matches Some(Tree::Text(_))) ==> exports::text_arg(args, key)
            == Err::<Seq<char>, Seq<char>>("missing '"@ + key + "' argument"@),
{
}

/// A transaction id is the integer under its key; where there is none, the error names the key.
pub proof fn law_id_arguments(args: Tree, key: Seq<char>, id: u64)
    ensures
        json::field(args, key) == Some(Tree::Unsigned(id)) ==> exports::id_arg(args, key) == Ok::<
            u64,
            Seq<char>,
        >(id),
        !(json::field(args, key) matches Some(Tree::Unsigned(_))) ==> exports::id_arg(args, key)
            == Err::<u64, Seq<char>>("missing '"@ + key + "' argument"@),
{
}

/// A document argument is what stands under its key, whatever it is, and `null` where there is
/// nothing.
pub proof fn law_document_arguments(args: Tree, key: Seq<char>, doc: Tree)
    ensures
        json::field(args, key) == Some(doc) ==> exports::doc_arg(args, key) == doc,
        json::field(args, key) is None ==> exports::doc_arg(args, key) == Tree::Null,
{
}

/// A command gets the arguments that it needs as they stand, and is told the first that is
/// missing.
pub proof fn law_commands_get_their_arguments(
    args: Tree,
    key: Seq<char>,
    of_app: spec_fn(Seq<char>) -> CommandView,
    of_both: spec_fn(Seq<char>, Seq<char>) -> CommandView,
    of_txn: spec_fn(u64) -> CommandView,
)
    ensures
        exports::with_app(args, of_app) == match json::field(args, "app"@) {
            Some(Tree::Text(app)) => Ok::<CommandView, Seq<char>>(of_app(app)),
            _ => Err("missing '"@ + "app"@ + "' argument"@),
        },
        exports::with_app_and(args, key, of_both) == match (
            json::field(args, "app"@),
            json::field(args, key),
        ) {
            (Some(Tree::Text(app)), Some(Tree::Text(text))) => Ok::<CommandView, Seq<char>>(
                of_both(app, text),
            ),
            (Some(Tree::Text(_)), _) => Err("missing '"@ + key + "' argument"@),
            _ => Err("missing '"@ + "app"@ + "' argument"@),
        },
        exports::with_txn(args, of_txn) == match json::field(args, "txn"@) {
            Some(Tree::Unsigned(txn)) => Ok::<CommandView, Seq<char>>(of_txn(txn)),
            _ => Err("missing '"@ + "txn"@ + "' argument"@),
        },
{
}

// ---- commands ----

/// Whether a job is a request of the kind `t` that leaves the open transaction alone.
pub open spec fn asks(job: JobView, t: Seq<char>) -> bool {
    job matches JobView::Request { frame, effect } && effect == Effect::Keep && frame is Object
        && json::field(frame, "t"@) == Some(Tree::Text(t))
}

/// A command for one app is an exchange with that app, and its request holds what the command was
/// given.
pub proof fn law_commands_are_the_exchanges_they_name(
    app: Seq<char>,
    verb: Seq<char>,
    args: Tree,
    result: Tree,
    name: Seq<char>,
)
    ensures
        (CommandView::Open { app }).exchange() == Some((app, JobView::Open)),
        (CommandView::Poll { app }).exchange() == Some((app, JobView::Poll)),
        (CommandView::Verbs { app }).exchange() matches Some((to, job)) && to == app && asks(
            job,
            "verbs"@,
        ),
        (CommandView::Call { app, verb, args }).exchange() matches Some((to, job)) && to == app
            && asks(job, "call"@) && json::field(job->frame, "verb"@) == Some(Tree::Text(verb))
            && json::field(job->frame, "args"@) == Some(args),
        (CommandView::Get { app, state: name }).exchange() matches Some((to, job)) && to == app
            && asks(job, "get"@) && json::field(job->frame, "state"@) == Some(Tree::Text(name)),
        (CommandView::Sub { app, event: name }).exchange() matches Some((to, job)) && to == app
            && asks(job, "sub"@) && json::field(job->frame, "event"@) == Some(Tree::Text(name)),
        (CommandView::Undo { app, verb, args, result }).exchange() matches Some((to, job)) && to
            == app && asks(job, "undo"@) && json::field(job->frame, "verb"@) == Some(
            Tree::Text(verb),
        ) && json::field(job->frame, "args"@) == Some(args) && json::field(
            job->frame,
            "result"@,
        ) == Some(result),
{
    reveal_strlit("t");
    reveal_strlit("verb");
    reveal_strlit("args");
    reveal_strlit("result");
    reveal_strlit("state");
    reveal_strlit("event");
    assert("verb"@[0] != "args"@[0]);
    assert("t"@.len() == 1 && "verb"@.len() == 4 && "args"@.len() == 4 && "result"@.len() == 6
        && "state"@.len() == 5 && "event"@.len() == 5);
}

/// The other commands are no exchange with one app.
pub proof fn law_other_commands_are_no_exchange(command: CommandView)
    requires
        command is Here || command is List || command is TxnBegin || command is TxnCall
            || command is TxnSteps || command is TxnCommit || command is TxnAbort,
    ensures
        command.exchange() is None,
{
}

/// A command starts unless it is a request on a connection that has used up its ids.
pub proof fn law_commands_start_while_ids_are_left<S>(command: CommandView, pool: Pool<S>)
    requires
        pool.wf(),
    ensures
        command.can_start(pool) <==> match command.exchange() {
            Some((app, JobView::Request { .. })) => match pool.conn(app) {
                Some(conn) => conn.next_id < u64::MAX,
                None => true,
            },
            _ => true,
        },
{
}

// ---- text in, text out ----

/// What was read is what the arguments are; where nothing could be read, they are `null`.
pub proof fn law_unreadable_arguments_are_null(doc: Tree, message: Seq<char>)
    ensures
        exports::or_null(Ok(doc)) == doc,
        exports::or_null(Err(message)) == Tree::Null,
{
}

/// An export hands back the answer as it is, and an error or a panic as an object with its message
/// under `error` and nothing else.
pub proof fn law_ends_are_handed_back(doc: Json, message: String, key: Seq<char>)
    ensures
        exports::end_doc(End::Returned(Ok(doc))) == doc@,
        exports::end_doc(End::Returned(Err(message))) is Object,
        json::field(exports::end_doc(End::Returned(Err(message))), key) == if key == "error"@ {
            Some(Tree::Text(message@))
        } else {
            None
        },
        exports::end_doc(End::Panicked) is Object,
        json::field(exports::end_doc(End::Panicked), key) == if key == "error"@ {
            Some(Tree::Text("stryke-app handler panicked"@))
        } else {
            None
        },
        exports::unwritable() == "{\"error\":\"serialize\"}"@,
{
}

// ---- the client's terms ----

/// A request can start exactly where the app has no connection, or one with an id left.
pub proof fn law_requests_start_while_ids_are_left<S>(pool: Pool<S>, app: Seq<char>)
    requires
        pool.wf(),
    ensures
        client::can_start(pool, app) <==> match pool.conn(app) {
            Some(conn) => conn.next_id < u64::MAX,
            None => true,
        },
{
}

/// An exchange that started has the app's name, its job and its connection, and has done nothing
/// yet; the pool has every other app's connection as before, and none for the app.
pub proof fn law_started_exchanges_have_the_connection<S>(
    before: Pool<S>,
    after: Pool<S>,
    exchange: Exchange<S>,
    app: Seq<char>,
    job: JobView,
    other: Seq<char>,
)
    requires
        client::started(before, after, exchange, app, job),
        other != app,
    ensures
        exchange@.app == app,
        exchange@.job == job,
        exchange@.slot == before.conn(app),
        exchange@.phase is Start,
        exchange@.wf(),
        after.wf(),
        after.conn(app) is None,
        after.conn(other) == before.conn(other),
{
}

/// Every app is named as often as its endpoint is among the files.
pub proof fn law_listing_names_each_endpoint(
    apps: Seq<Seq<char>>,
    files: Seq<Seq<char>>,
    app: Seq<char>,
)
    requires
        client::is_listing(apps, files),
    ensures
        apps.to_multiset().count(app) == files.to_multiset().count(app + ".sock"@),
    decreases files.len(),
{
    lemma_endpoints(files, app);
}

proof fn lemma_endpoints(files: Seq<Seq<char>>, app: Seq<char>)
    ensures
        client::apps_of(files).to_multiset().count(app) == files.to_multiset().count(
            app + ".sock"@,
        ),
    decreases files.len(),
{
    broadcast use vstd::seq_lib::group_to_multiset_ensures;
    broadcast use vstd::multiset::group_multiset_axioms;

    let pred = |file: Seq<char>| client::is_socket(file);
    let name = |file: Seq<char>| client::app_of(file);
    reveal(Seq::filter);
    if files.len() == 0 {
        assert(client::apps_of(files) =~= Seq::empty());
        assert(files =~= Seq::empty());
    } else {
        let rest = files.drop_last();
        let last = files.last();
        let file = app + ".sock"@;
        lemma_endpoints(rest, app);
        assert(rest.push(last) =~= files);
        assert(file.skip(file.len() - ".sock"@.len()) =~= ".sock"@);
        assert(client::app_of(file) =~= app);
        if client::is_socket(last) {
            assert(files.filter(pred) == rest.filter(pred).push(last));
            assert(client::apps_of(files) =~= client::apps_of(rest).push(client::app_of(last)));
            assert(last =~= client::app_of(last) + last.skip(last.len() - ".sock"@.len()));
        } else {
            assert(client::apps_of(files) =~= client::apps_of(rest));
        }
    }
}

/// A listing is sorted by bytes: of two apps, the first byte in which they differ is smaller in the
/// earlier one.
pub proof fn law_listing_is_sorted_by_bytes(
    apps: Seq<Seq<char>>,
    files: Seq<Seq<char>>,
    i: int,
    j: int,
    at: int,
)
    requires
        client::is_listing(apps, files),
        0 <= i <= j < apps.len(),
        ({
            let (x, y) = (vstd::utf8::encode_utf8(apps[i]), vstd::utf8::encode_utf8(apps[j]));
            &&& 0 <= at < x.len()
            &&& at <= y.len()
            &&& forall|k: int| 0 <= k < at ==> #[trigger] x[k] == y[k]
        }),
    ensures
        ({
            let (x, y) = (vstd::utf8::encode_utf8(apps[i]), vstd::utf8::encode_utf8(apps[j]));
            at < y.len() && x[at] <= y[at]
        }),
{
    assert(text::text_le(apps[i], apps[j]));
    lemma_order_at(vstd::utf8::encode_utf8(apps[i]), vstd::utf8::encode_utf8(apps[j]), at);
}

proof fn lemma_order_at(a: Seq<u8>, b: Seq<u8>, at: int)
    requires
        text::bytes_le(a, b),
        0 <= at < a.len(),
        at <= b.len(),
        forall|i: int| 0 <= i < at ==> #[trigger] a[i] == b[i],
    ensures
        at < b.len(),
        a[at] <= b[at],
    decreases at,
{
    if at > 0 {
        assert(a[0] == b[0]);
        assert forall|i: int| 0 <= i < at - 1 implies #[trigger] a.skip(1)[i] == b.skip(1)[i] by {
            assert(a[i + 1] == b[i + 1]);
        }
        lemma_order_at(a.skip(1), b.skip(1), at - 1);
    }
}

/// The texts of an array of texts are its items.
pub proof fn law_texts_are_the_items(items: Seq<Tree>, names: Seq<Seq<char>>)
    requires
        items.len() == names.len(),
        forall|i: int| 0 <= i < items.len() ==> #[trigger] items[i] == Tree::Text(names[i]),
    ensures
        client::texts(items) == names,
{
    assert(client::texts(items) =~= names);
}

// ---- the registry's words ----

/// A minted id has the process in its high half and the count in its low half.
pub proof fn law_minted_ids_hold_process_and_count(pid: u32, n: u64)
    ensures
        registry::minted_id(pid, n) as int / 0x1_0000_0000 == pid,
        registry::minted_id(pid, n) as int % 0x1_0000_0000 == n as int % 0x1_0000_0000,
{
}

/// A saga is opened under the id that is given, and otherwise under the next that the process
/// mints.
pub proof fn law_begun_ids(reg: RegistryView, txn: u64, pid: u32)
    requires
        reg.minted < u64::MAX,
    ensures
        registry::begun_id(reg, Some(txn), pid) == (txn, reg.minted),
        registry::begun_id(reg, None, pid).1 == reg.minted + 1,
        registry::begun_id(reg, None, pid).0 as int / 0x1_0000_0000 == pid,
        registry::begun_id(reg, None, pid).0 as int % 0x1_0000_0000 == (reg.minted + 1)
            % 0x1_0000_0000,
{
}

/// The registry's answers name the transaction.
pub proof fn law_registry_names_the_transaction(txn: u64, key: Seq<char>)
    ensures
        registry::not_open(txn) == "no open saga: "@ + text::decimal_of(txn as nat),
        registry::already_open(txn) == "saga already open: "@ + text::decimal_of(txn as nat),
        registry::txn_doc(txn) is Object,
        json::field(registry::txn_doc(txn), key) == if key == "txn"@ {
            Some(Tree::Unsigned(txn))
        } else {
            None
        },
{
}

/// A saga that was just opened has its id, no app and no step.
pub proof fn law_new_sagas_are_empty(txn: u64)
    ensures
        SagaView::empty(txn).txn == txn,
        SagaView::empty(txn).joined.len() == 0,
        SagaView::empty(txn).steps.len() == 0,
{
}

/// A registry is valid exactly where every open saga stands under its own id, no app of it joined
/// twice, its steps are numbered from 1 on, and each ran on an app that joined.
pub proof fn law_valid_registries(reg: RegistryView)
    ensures
        reg.wf() <==> forall|txn: u64| #[trigger]
            reg.sagas.contains_key(txn) ==> {
                let saga = reg.sagas[txn];
                &&& saga.txn == txn
                &&& saga.joined.no_duplicates()
                &&& forall|i: int|
                    0 <= i < saga.steps.len() ==> (#[trigger] saga.steps[i]).seq == i + 1
                        && saga.joined.contains(saga.steps[i].app)
            },
{
}

/// An exchange about to start has what it was given.
pub proof fn law_exchanges_start_with_what_they_are_given<S>(
    app: Seq<char>,
    job: JobView,
    slot: Option<crate::conn::ConnView<S>>,
)
    ensures
        ExchangeView::starting(app, job, slot).app == app,
        ExchangeView::starting(app, job, slot).job == job,
        ExchangeView::starting(app, job, slot).slot == slot,
        ExchangeView::starting(app, job, slot).phase is Start,
{
}

} // verus!
