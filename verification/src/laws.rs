//! What holds of frames, transaction ids and listings.

use crate::client;
use crate::frame;
use crate::json;
use crate::json::Tree;
use crate::registry;
use crate::text;
use vstd::prelude::*;

verus! {

// ---- frames ----

/// A correlation id is on its frame, and changes nothing else on it.
pub proof fn law_stamp_adds_only_the_id(doc: Tree, id: u64, key: Seq<char>)
    requires
        doc is Object,
        key != "id"@,
    ensures
        json::unsigned_field(frame::stamped(doc, id), "id"@) == Some(id),
        json::field(frame::stamped(doc, id), key) == json::field(doc, key),
{
}

/// An app reads every request as it was written, but for floats in what the caller sends along
/// and for documents that nest deeper than the reader takes.
pub proof fn law_requests_read_back(
    verb: Seq<char>,
    args: Tree,
    result: Tree,
    name: Seq<char>,
    txn: u64,
    id: u64,
)
    requires
        json::reads_back(args, (json::depth_limit() - 1) as nat),
        json::reads_back(result, (json::depth_limit() - 1) as nat),
    ensures
        json::reads_back(frame::stamped(frame::call_doc(verb, args), id), json::depth_limit()),
        json::reads_back(
            frame::stamped(frame::undo_doc(verb, args, result), id),
            json::depth_limit(),
        ),
        json::reads_back(frame::stamped(frame::begin_doc(txn), id), json::depth_limit()),
        json::reads_back(frame::stamped(frame::commit_doc(txn), id), json::depth_limit()),
        json::reads_back(frame::stamped(frame::abort_doc(txn), id), json::depth_limit()),
        json::reads_back(frame::stamped(frame::get_doc(name), id), json::depth_limit()),
        json::reads_back(frame::stamped(frame::sub_doc(name), id), json::depth_limit()),
        json::reads_back(frame::stamped(frame::verbs_doc(), id), json::depth_limit()),
{
    reveal_with_fuel(json::reads_back, 2);
}

/// An `undo` names the verb and the arguments that the `call` named, and the result that was
/// told.
pub proof fn law_undo_quotes_the_call(verb: Seq<char>, args: Tree, result: Tree)
    ensures
        json::field(frame::undo_doc(verb, args, result), "verb"@) == json::field(
            frame::call_doc(verb, args),
            "verb"@,
        ),
        json::field(frame::undo_doc(verb, args, result), "args"@) == json::field(
            frame::call_doc(verb, args),
            "args"@,
        ),
        json::field(frame::undo_doc(verb, args, result), "result"@) == Some(result),
        json::text_field(frame::undo_doc(verb, args, result), "verb"@) == Some(verb),
        json::field(frame::undo_doc(verb, args, result), "args"@) == Some(args),
{
    reveal_strlit("t");
    reveal_strlit("verb");
    reveal_strlit("args");
    reveal_strlit("result");
    assert("verb"@[0] != "args"@[0]);
}

// ---- transaction ids ----

/// Two processes mint no id in common, and neither does one process at two counts, unless they
/// are the same in their low halves.
pub proof fn law_minted_ids_do_not_collide(pid: u32, n: u64, other_pid: u32, other_n: u64)
    ensures
        registry::minted_id(pid, n) == registry::minted_id(other_pid, other_n) <==> pid == other_pid
            && n % 0x1_0000_0000 == other_n % 0x1_0000_0000,
{
}

// ---- listings ----

proof fn lemma_bytes_le_antisymmetric(a: Seq<u8>, b: Seq<u8>)
    requires
        text::bytes_le(a, b),
        text::bytes_le(b, a),
    ensures
        a == b,
    decreases a.len(),
{
    if a.len() == 0 || b.len() == 0 {
        assert(a =~= b);
    } else {
        lemma_bytes_le_antisymmetric(a.skip(1), b.skip(1));
        assert(a =~= seq![a[0]] + a.skip(1));
        assert(b =~= seq![b[0]] + b.skip(1));
    }
}

/// The files in the socket directory determine the listing.
pub proof fn law_listing_is_determined(
    apps: Seq<Seq<char>>,
    others: Seq<Seq<char>>,
    files: Seq<Seq<char>>,
)
    requires
        client::is_listing(apps, files),
        client::is_listing(others, files),
    ensures
        apps == others,
{
    let le = |a: Seq<char>, b: Seq<char>| text::text_le(a, b);
    assert forall|a: Seq<char>, b: Seq<char>| #[trigger] le(a, b) && #[trigger] le(b, a) implies a
        == b by {
        lemma_bytes_le_antisymmetric(vstd::utf8::encode_utf8(a), vstd::utf8::encode_utf8(b));
        vstd::utf8::encode_utf8_decode_utf8(a);
        vstd::utf8::encode_utf8_decode_utf8(b);
    }
    assert forall|a: Seq<char>, b: Seq<char>| #[trigger] le(a, b) || #[trigger] le(b, a) by {
        text::lemma_bytes_le_total(vstd::utf8::encode_utf8(a), vstd::utf8::encode_utf8(b));
    }
    assert forall|a: Seq<char>| #[trigger] le(a, a) by {
        text::lemma_bytes_le_total(vstd::utf8::encode_utf8(a), vstd::utf8::encode_utf8(a));
    }
    assert forall|a: Seq<char>, b: Seq<char>, c: Seq<char>| #[trigger] le(a, b) && #[trigger] le(
        b,
        c,
    ) implies le(a, c) by {
        text::lemma_bytes_le_transitive(
            vstd::utf8::encode_utf8(a),
            vstd::utf8::encode_utf8(b),
            vstd::utf8::encode_utf8(c),
        );
    }
    vstd::seq_lib::lemma_sorted_unique(apps, others, le);
}

/// An app is listed if and only if its endpoint is among the files.
pub proof fn law_listing_names_the_running_apps(
    apps: Seq<Seq<char>>,
    files: Seq<Seq<char>>,
    app: Seq<char>,
)
    requires
        client::is_listing(apps, files),
    ensures
        apps.contains(app) <==> files.contains(app + ".sock"@),
{
    broadcast use vstd::seq_lib::group_to_multiset_ensures;

    let listed = client::apps_of(files);
    let sockets = files.filter(|file: Seq<char>| client::is_socket(file));
    let file = app + ".sock"@;
    assert(apps.contains(app) <==> listed.contains(app)) by {
        assert(apps.contains(app) <==> apps.to_multiset().count(app) > 0);
        assert(listed.contains(app) <==> listed.to_multiset().count(app) > 0);
    }
    assert(file.skip(file.len() - ".sock"@.len()) =~= ".sock"@);
    assert(client::app_of(file) =~= app);
    if files.contains(file) {
        let i = choose|i: int| 0 <= i < files.len() && files[i] == file;
        files.lemma_filter_contains(|file: Seq<char>| client::is_socket(file), i);
        let k = choose|k: int| 0 <= k < sockets.len() && sockets[k] == file;
        assert(listed[k] == app);
    }
    if listed.contains(app) {
        let k = choose|k: int| 0 <= k < listed.len() && listed[k] == app;
        let found = sockets[k];
        files.lemma_filter_pred(|file: Seq<char>| client::is_socket(file), k);
        files.lemma_filter_contains_rev(|file: Seq<char>| client::is_socket(file), found);
        assert(found =~= client::app_of(found) + found.skip(found.len() - ".sock"@.len()));
    }
}

} // verus!
