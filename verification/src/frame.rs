//! Frames: the JSON objects that travel over an app's connection, one to a line.
//!
//! A request frame carries its kind under `t` and a correlation `id`; the app answers it with a
//! frame `{t: "reply", id, ok, value | error}`, and sends frames `{t: "event", ..}` whenever an
//! event that was subscribed to happens.

use crate::json;
use crate::json::{Json, Tree};
use crate::text;
use vstd::prelude::*;
use vstd::string::*;

verus! {

/// An object that so far holds its kind, under `t`.
pub open spec fn kind(t: Seq<char>) -> Map<Seq<char>, Tree> {
    Map::empty().insert("t"@, Tree::Text(t))
}

/// `{t: "call", verb, args}`
pub open spec fn call_doc(verb: Seq<char>, args: Tree) -> Tree {
    Tree::Object(kind("call"@).insert("verb"@, Tree::Text(verb)).insert("args"@, args))
}

/// `{t: "begin", txn}`
pub open spec fn begin_doc(txn: u64) -> Tree {
    Tree::Object(kind("begin"@).insert("txn"@, Tree::Unsigned(txn)))
}

/// `{t: "commit", txn}`
pub open spec fn commit_doc(txn: u64) -> Tree {
    Tree::Object(kind("commit"@).insert("txn"@, Tree::Unsigned(txn)))
}

/// `{t: "abort", txn}`
pub open spec fn abort_doc(txn: u64) -> Tree {
    Tree::Object(kind("abort"@).insert("txn"@, Tree::Unsigned(txn)))
}

/// `{t: "undo", verb, args, result}`
pub open spec fn undo_doc(verb: Seq<char>, args: Tree, result: Tree) -> Tree {
    Tree::Object(
        kind("undo"@).insert("verb"@, Tree::Text(verb)).insert("args"@, args).insert(
            "result"@,
            result,
        ),
    )
}

/// `{t: "get", state}`
pub open spec fn get_doc(state: Seq<char>) -> Tree {
    Tree::Object(kind("get"@).insert("state"@, Tree::Text(state)))
}

/// `{t: "verbs"}`
pub open spec fn verbs_doc() -> Tree {
    Tree::Object(kind("verbs"@))
}

/// `{t: "sub", event}`
pub open spec fn sub_doc(event: Seq<char>) -> Tree {
    Tree::Object(kind("sub"@).insert("event"@, Tree::Text(event)))
}

fn of_kind(t: &str) -> (frame: Json)
    ensures
        frame@ == Tree::Object(kind(t@)),
{
    Json::object().with("t", Json::text(t))
}

/// The frame that invokes `verb`.
pub fn call_frame(verb: &str, args: Json) -> (frame: Json)
    ensures
        frame@ == call_doc(verb@, args@),
{
    of_kind("call").with("verb", Json::text(verb)).with("args", args)
}

/// The frame that opens or joins a transaction.
pub fn begin_frame(txn: u64) -> (frame: Json)
    ensures
        frame@ == begin_doc(txn),
{
    of_kind("begin").with("txn", Json::Unsigned(txn))
}

/// The frame that closes a transaction.
pub fn commit_frame(txn: u64) -> (frame: Json)
    ensures
        frame@ == commit_doc(txn),
{
    of_kind("commit").with("txn", Json::Unsigned(txn))
}

/// The frame that makes one app unwind a transaction.
pub fn abort_frame(txn: u64) -> (frame: Json)
    ensures
        frame@ == abort_doc(txn),
{
    of_kind("abort").with("txn", Json::Unsigned(txn))
}

/// The frame that compensates one executed verb.
pub fn undo_frame(verb: &str, args: Json, result: Json) -> (frame: Json)
    ensures
        frame@ == undo_doc(verb@, args@, result@),
{
    of_kind("undo").with("verb", Json::text(verb)).with("args", args).with("result", result)
}

/// The frame that reads a state query.
pub fn get_frame(state: &str) -> (frame: Json)
    ensures
        frame@ == get_doc(state@),
{
    of_kind("get").with("state", Json::text(state))
}

/// The frame that asks for an app's surface.
pub fn verbs_frame() -> (frame: Json)
    ensures
        frame@ == verbs_doc(),
{
    of_kind("verbs")
}

/// The frame that subscribes to an event.
pub fn sub_frame(event: &str) -> (frame: Json)
    ensures
        frame@ == sub_doc(event@),
{
    of_kind("sub").with("event", Json::text(event))
}

/// `frame` with a correlation id.
pub open spec fn stamped(frame: Tree, id: u64) -> Tree {
    Tree::Object(frame->Object_0.insert("id"@, Tree::Unsigned(id)))
}

/// Whether `frame` is the reply to the request that went out under `id`.
pub open spec fn is_reply_to(frame: Tree, id: u64) -> bool {
    json::text_field(frame, "t"@) == Some("reply"@) && json::unsigned_field(frame, "id"@) == Some(
        id,
    )
}

/// Whether `frame` is an event.
pub open spec fn is_event(frame: Tree) -> bool {
    json::text_field(frame, "t"@) == Some("event"@)
}

/// Whether `frame` is the reply to the request that went out under `id`.
pub fn replies_to(frame: &Json, id: u64) -> (yes: bool)
    ensures
        yes == is_reply_to(frame@, id),
{
    match frame.get_str("t") {
        Some(t) => text::same(t, "reply") && match frame.get_u64("id") {
            Some(n) => n == id,
            None => false,
        },
        None => false,
    }
}

/// Whether `frame` is an event.
pub fn tells_event(frame: &Json) -> (yes: bool)
    ensures
        yes == is_event(frame@),
{
    match frame.get_str("t") {
        Some(t) => text::same(t, "event"),
        None => false,
    }
}

/// What a reply says: its `value` (`null` where it has none) when it is marked `ok: true`, and
/// otherwise the app's `error`, or `call failed` where the app gave none.
pub open spec fn reply_says(reply: Tree) -> Result<Tree, Seq<char>> {
    if json::bool_field(reply, "ok"@) == Some(true) {
        Ok(
            match json::field(reply, "value"@) {
                Some(value) => value,
                None => Tree::Null,
            },
        )
    } else {
        Err(
            match json::text_field(reply, "error"@) {
                Some(message) => message,
                None => "call failed"@,
            },
        )
    }
}

/// What a reply says: its value, or the app's message.
pub fn unwrap_reply(reply: Json) -> (answer: Result<Json, String>)
    ensures
        json::told(answer) == reply_says(reply@),
{
    let ok = match reply.get_bool("ok") {
        Some(b) => b,
        None => false,
    };
    if ok {
        match reply.get("value") {
            Some(value) => Ok(value.clone()),
            None => Ok(Json::Null),
        }
    } else {
        match reply.get_str("error") {
            Some(message) => Err(message.to_owned()),
            None => Err("call failed".to_owned()),
        }
    }
}

/// What reading a line gives: the frame on it, or why there is none.
pub open spec fn line_says(line: Seq<char>) -> Result<Tree, Seq<char>> {
    json::parsed_text(text::trimmed(line))
}

/// The frame on a line, without the white space around it.
pub fn read_frame(line: &str) -> (answer: Result<Json, String>)
    ensures
        json::told(answer) == line_says(line@),
{
    json::parse_text(text::trim(line))
}

/// Whether `text` is one line: a line feed at its end and nowhere else.
pub open spec fn one_line(text: Seq<char>) -> bool {
    text.len() > 0 && text.last() == '\n' && forall|i: int|
        0 <= i < text.len() - 1 ==> text[i] != '\n'
}

/// `text` as a line.
pub fn end_line(text: String) -> (line: String)
    ensures
        line@ == text@.push('\n'),
{
    proof {
        reveal_strlit("\n");
    }
    let ghost before = text@;
    let line = text.concat("\n");
    assert(line@ =~= before.push('\n'));
    line
}

/// The line that is written for a frame.
pub open spec fn written(frame: Tree) -> Seq<char> {
    json::rendered(frame)->Ok_0.push('\n')
}

/// Whether `line` carries `frame`: it is what is written for it, it is one line, and it reads back
/// as the frame, unless a float or a nesting too deep for the reader is in the way.
pub open spec fn carries(line: Seq<char>, frame: Tree) -> bool {
    &&& json::rendered(frame) is Ok
    &&& line == written(frame)
    &&& one_line(line)
    &&& json::reads_back(frame, json::depth_limit()) ==> line_says(line) == Ok::<Tree, Seq<char>>(
        frame,
    )
}

/// The line that carries a frame. It is one line whatever the frame holds, and whoever reads it
/// reads the frame that was written, unless a float or a nesting too deep for the reader is in
/// the way.
pub fn frame_line(frame: &Json) -> (res: Result<String, String>)
    requires
        frame@ is Object,
    ensures
        res matches Ok(line) && carries(line@, frame@),
{
    match json::render(frame) {
        Ok(text) => {
            let ghost before = text@;
            let line = end_line(text);
            proof {
                assert(line@.drop_last() =~= before);
                reveal_with_fuel(text::trimmed_back, 2);
                assert(text::trimmed(line@) == before);
            }
            Ok(line)
        },
        Err(message) => Err(message),
    }
}

} // verus!
