//! Exchanges, step by step, against a scripted transport.

use stryke_app::client;
use stryke_app::conn::{Conn, Heard, Pool};
use stryke_app::exchange::{Action, Effect, Event, Exchange, Job};
use stryke_app::exports::{input, output, End};
use stryke_app::frame;
use stryke_app::json::Json;

fn doc(text: &str) -> Json {
    input(Some(text.as_bytes()))
}

fn show(doc: &Json) -> String {
    output(End::Returned(Ok(doc.clone())))
}

fn shown(action: &Action) -> String {
    match action {
        Action::Dial => "dial".to_string(),
        Action::Send { request, line } => {
            assert_eq!(*line, format!("{}\n", show(request)));
            format!("send {}", show(request))
        }
        Action::Read => "read".to_string(),
        Action::SetDrainMode(true) => "quiet".to_string(),
        Action::SetDrainMode(false) => "block".to_string(),
        Action::Finish => "finish".to_string(),
    }
}

/// One entry of a script: what the last action leads to.
enum Says {
    Dialed(&'static str),
    Undialed(&'static str),
    Sent,
    Unsent(&'static str),
    Line(&'static str),
    Closed,
    Failed(&'static str),
    Quiet,
    ModeSet,
    ModeUnset(&'static str),
}

/// Runs an exchange on the script, and tells the actions that it named.
fn play(exchange: Exchange<&'static str>, script: Vec<Says>) -> (Exchange<&'static str>, Vec<String>) {
    let (mut exchange, mut action) = exchange.step(Event::Go);
    let mut actions = vec![shown(&action)];
    for says in script {
        let event = match says {
            Says::Dialed(reader) => Event::Dialed(Ok(reader)),
            Says::Undialed(message) => Event::Dialed(Err(message.to_string())),
            Says::Sent => Event::Sent(Ok(())),
            Says::Unsent(message) => Event::Sent(Err(message.to_string())),
            Says::Line(line) => {
                (exchange, action) = exchange.step_line(line);
                actions.push(shown(&action));
                continue;
            }
            Says::Closed => Event::Closed,
            Says::Failed(message) => Event::Failed { quiet: false, message: message.to_string() },
            Says::Quiet => Event::Failed { quiet: true, message: "timed out".to_string() },
            Says::ModeSet => Event::ModeSet(Ok(())),
            Says::ModeUnset(message) => Event::ModeSet(Err(message.to_string())),
        };
        (exchange, action) = exchange.step(event);
        actions.push(shown(&action));
    }
    (exchange, actions)
}

/// A pool in which `a` has a connection with what it is given.
fn pooled(reader: &'static str, next_id: u64, open_txn: Option<u64>) -> Pool<&'static str> {
    let mut pool = Pool::new();
    pool.put("a", Conn { reader, events: vec![], next_id, open_txn });
    pool
}

fn answered(answer: Result<Json, String>) -> Result<String, String> {
    answer.map(|value| show(&value))
}

#[test]
fn a_request_dials_sends_and_reads_until_its_reply() {
    let mut pool: Pool<&str> = Pool::new();
    let exchange = client::call(&mut pool, "a", "echo", doc(r#"{"msg":"hi"}"#));
    let (exchange, actions) = play(
        exchange,
        vec![
            Says::Dialed("first"),
            Says::Sent,
            Says::Line("{\"t\":\"reply\",\"id\":7,\"ok\":true,\"value\":0}\n"),
            Says::Line("{\"t\":\"event\",\"event\":\"tick\"}\r\n"),
            Says::Line("{\"t\":\"reply\",\"id\":1.0,\"ok\":true,\"value\":0}\n"),
            Says::Line("[1,2]\n"),
            Says::Line(" {\"t\":\"reply\",\"id\":1,\"ok\":true,\"value\":{\"n\":3}}\n"),
        ],
    );
    assert_eq!(
        actions,
        vec![
            "dial",
            r#"send {"args":{"msg":"hi"},"id":1,"t":"call","verb":"echo"}"#,
            "read",
            "read",
            "read",
            "read",
            "read",
            "finish",
        ]
    );
    assert_eq!(answered(client::finish(&mut pool, exchange)), Ok(r#"{"n":3}"#.to_string()));
    let conn = pool.take("a").unwrap();
    assert_eq!(conn.reader, "first");
    assert_eq!(conn.next_id, 1);
    assert_eq!(conn.open_txn, None);
    assert_eq!(conn.events.len(), 1);
    assert_eq!(show(&conn.events[0]), r#"{"event":"tick","t":"event"}"#);
}

#[test]
fn a_pooled_connection_is_not_dialed_and_goes_on_counting() {
    let mut pool = pooled("first", 4, None);
    let exchange = client::get(&mut pool, "a", "count");
    assert!(pool.take("a").is_none());
    let (exchange, actions) = play(
        exchange,
        vec![Says::Sent, Says::Line(r#"{"t":"reply","id":5,"ok":true,"value":42}"#)],
    );
    assert_eq!(actions, vec![r#"send {"id":5,"state":"count","t":"get"}"#, "read", "finish"]);
    assert_eq!(answered(client::finish(&mut pool, exchange)), Ok("42".to_string()));
    assert_eq!(pool.take("a").unwrap().next_id, 5);
}

#[test]
fn every_operation_sends_its_own_frame() {
    let sent = |exchange: Exchange<&'static str>| play(exchange, vec![]).1.remove(0);
    let pool = || pooled("first", 0, None);
    assert_eq!(
        sent(client::begin(&mut pool(), "a", 9)),
        r#"send {"id":1,"t":"begin","txn":9}"#
    );
    assert_eq!(
        sent(client::commit(&mut pool(), "a", 9)),
        r#"send {"id":1,"t":"commit","txn":9}"#
    );
    assert_eq!(
        sent(client::abort(&mut pool(), "a", 9)),
        r#"send {"id":1,"t":"abort","txn":9}"#
    );
    assert_eq!(
        sent(client::undo(&mut pool(), "a", "v", Json::Null, Json::Bool(false))),
        r#"send {"args":null,"id":1,"result":false,"t":"undo","verb":"v"}"#
    );
    assert_eq!(sent(client::verbs(&mut pool(), "a")), r#"send {"id":1,"t":"verbs"}"#);
    assert_eq!(
        sent(client::subscribe(&mut pool(), "a", "tick")),
        r#"send {"event":"tick","id":1,"t":"sub"}"#
    );
    assert_eq!(sent(client::open(&mut pool(), "a")), "dial");
    assert_eq!(sent(client::poll(&mut pool(), "a")), "quiet");
}

#[test]
fn opening_dials_and_pools() {
    let mut pool: Pool<&str> = Pool::new();
    let (exchange, actions) = play(client::open(&mut pool, "a"), vec![Says::Dialed("first")]);
    assert_eq!(actions, vec!["dial", "finish"]);
    assert_eq!(
        answered(client::finish(&mut pool, exchange)),
        Ok(r#"{"app":"a","ok":true}"#.to_string())
    );
    let conn = pool.take("a").unwrap();
    assert_eq!(conn.reader, "first");
    assert_eq!(conn.next_id, 0);
}

#[test]
fn opening_a_pooled_app_dials_and_keeps_its_connection() {
    let mut pool = pooled("first", 4, Some(9));
    let (exchange, actions) = play(client::open(&mut pool, "a"), vec![Says::Dialed("second")]);
    assert_eq!(actions, vec!["dial", "finish"]);
    assert_eq!(
        answered(client::finish(&mut pool, exchange)),
        Ok(r#"{"app":"a","ok":true}"#.to_string())
    );
    let conn = pool.take("a").unwrap();
    assert_eq!(conn.reader, "first");
    assert_eq!(conn.next_id, 4);
    assert_eq!(conn.open_txn, Some(9));
}

#[test]
fn opening_an_app_that_is_gone_fails_though_it_is_pooled() {
    let mut pool = pooled("first", 4, Some(9));
    let (exchange, actions) = play(client::open(&mut pool, "a"), vec![Says::Undialed("gone")]);
    assert_eq!(actions, vec!["dial", "finish"]);
    assert_eq!(answered(client::finish(&mut pool, exchange)), Err("gone".to_string()));
    let conn = pool.take("a").unwrap();
    assert_eq!(conn.reader, "first");
    assert_eq!(conn.open_txn, Some(9));
}

#[test]
fn a_dial_that_fails_is_the_answer_and_pools_nothing() {
    let mut pool: Pool<&str> = Pool::new();
    let (exchange, actions) = play(client::verbs(&mut pool, "a"), vec![Says::Undialed("gone")]);
    assert_eq!(actions, vec!["dial", "finish"]);
    assert_eq!(answered(client::finish(&mut pool, exchange)), Err("gone".to_string()));
    assert!(pool.take("a").is_none());
}

#[test]
fn a_refusal_is_not_retried() {
    let mut pool = pooled("first", 0, None);
    let (exchange, actions) = play(
        client::call(&mut pool, "a", "nope", Json::Null),
        vec![Says::Sent, Says::Line(r#"{"t":"reply","id":1,"ok":false,"error":"no such verb"}"#)],
    );
    assert_eq!(actions.len(), 3);
    assert_eq!(actions[2], "finish");
    assert_eq!(answered(client::finish(&mut pool, exchange)), Err("no such verb".to_string()));
    assert_eq!(pool.take("a").unwrap().reader, "first");
}

#[test]
fn a_restarted_app_is_dialed_once_more() {
    for failure in [
        vec![Says::Unsent("broken pipe")],
        vec![Says::Sent, Says::Closed],
        vec![Says::Sent, Says::Failed("reset")],
        vec![Says::Sent, Says::Quiet],
        vec![Says::Sent, Says::Line("no json\n")],
        vec![Says::Sent, Says::Line("\n")],
    ] {
        let mut pool = pooled("first", 3, None);
        let mut script = failure;
        script.extend(vec![
            Says::Dialed("second"),
            Says::Sent,
            Says::Line(r#"{"t":"reply","id":1,"ok":true,"value":"back"}"#),
        ]);
        let (exchange, actions) = play(client::verbs(&mut pool, "a"), script);
        assert_eq!(actions[0], r#"send {"id":4,"t":"verbs"}"#);
        let dialed = actions.iter().position(|a| a == "dial").unwrap();
        assert_eq!(
            actions[dialed..],
            ["dial", r#"send {"id":1,"t":"verbs"}"#, "read", "finish"]
        );
        assert_eq!(answered(client::finish(&mut pool, exchange)), Ok(r#""back""#.to_string()));
        let conn = pool.take("a").unwrap();
        assert_eq!(conn.reader, "second");
        assert_eq!(conn.next_id, 1);
    }
}

#[test]
fn the_second_failure_is_the_answer() {
    let mut pool = pooled("first", 0, None);
    let (exchange, actions) = play(
        client::verbs(&mut pool, "a"),
        vec![Says::Unsent("one"), Says::Dialed("second"), Says::Sent, Says::Closed],
    );
    assert_eq!(actions.iter().filter(|a| *a == "dial").count(), 1);
    assert_eq!(actions.last().unwrap(), "finish");
    assert_eq!(answered(client::finish(&mut pool, exchange)), Err("connection closed".to_string()));
    assert_eq!(pool.take("a").unwrap().reader, "second");
}

#[test]
fn a_redial_that_fails_keeps_the_old_connection() {
    let mut pool = pooled("first", 0, Some(9));
    let (exchange, _) = play(
        client::verbs(&mut pool, "a"),
        vec![Says::Unsent("one"), Says::Undialed("gone")],
    );
    assert_eq!(answered(client::finish(&mut pool, exchange)), Err("gone".to_string()));
    let conn = pool.take("a").unwrap();
    assert_eq!(conn.reader, "first");
    assert_eq!(conn.open_txn, Some(9));
}

#[test]
fn an_open_transaction_is_joined_again_first() {
    let mut pool = pooled("first", 6, Some(9));
    let (exchange, actions) = play(
        client::call(&mut pool, "a", "v", Json::Null),
        vec![
            Says::Sent,
            Says::Closed,
            Says::Dialed("second"),
            Says::Sent,
            Says::Line(r#"{"t":"event","event":"tick"}"#),
            Says::Line(r#"{"t":"reply","id":1,"ok":true}"#),
            Says::Sent,
            Says::Line(r#"{"t":"reply","id":2,"ok":true,"value":1}"#),
        ],
    );
    assert_eq!(
        actions,
        vec![
            r#"send {"args":null,"id":7,"t":"call","verb":"v"}"#,
            "read",
            "dial",
            r#"send {"id":1,"t":"begin","txn":9}"#,
            "read",
            "read",
            r#"send {"args":null,"id":2,"t":"call","verb":"v"}"#,
            "read",
            "finish",
        ]
    );
    assert_eq!(answered(client::finish(&mut pool, exchange)), Ok("1".to_string()));
    let conn = pool.take("a").unwrap();
    assert_eq!(conn.reader, "second");
    assert_eq!(conn.next_id, 2);
    assert_eq!(conn.open_txn, Some(9));
    assert_eq!(conn.events.len(), 1);
}

#[test]
fn a_rejoin_that_fails_is_the_answer_and_changes_nothing() {
    for (failure, message) in [
        (vec![Says::Unsent("broken pipe")], "broken pipe"),
        (vec![Says::Sent, Says::Closed], "connection closed"),
        (vec![Says::Sent, Says::Failed("reset")], "reset"),
        (
            vec![Says::Sent, Says::Line(r#"{"t":"reply","id":1,"ok":false,"error":"too late"}"#)],
            "too late",
        ),
    ] {
        let mut pool = pooled("first", 6, Some(9));
        let mut script = vec![Says::Unsent("lost"), Says::Dialed("second")];
        script.extend(failure);
        let (exchange, actions) = play(client::verbs(&mut pool, "a"), script);
        assert_eq!(actions.last().unwrap(), "finish");
        assert_eq!(answered(client::finish(&mut pool, exchange)), Err(message.to_string()));
        let conn = pool.take("a").unwrap();
        assert_eq!(conn.reader, "first");
        assert_eq!(conn.next_id, 7);
        assert_eq!(conn.open_txn, Some(9));
    }
}

#[test]
fn a_malformed_reply_to_the_rejoin_is_the_answer() {
    let mut pool = pooled("first", 6, Some(9));
    let (exchange, _) = play(
        client::verbs(&mut pool, "a"),
        vec![Says::Unsent("lost"), Says::Dialed("second"), Says::Sent, Says::Line("{")],
    );
    let expected = frame::read_frame("{").unwrap_err();
    assert_eq!(answered(client::finish(&mut pool, exchange)), Err(expected));
    assert_eq!(pool.take("a").unwrap().reader, "first");
}

#[test]
fn transactions_follow_the_answered_requests() {
    let after = |exchange_of: fn(&mut Pool<&'static str>) -> Exchange<&'static str>,
                 open_txn: Option<u64>,
                 reply: &'static str| {
        let mut pool = pooled("first", 0, open_txn);
        let exchange = exchange_of(&mut pool);
        let (exchange, _) = play(exchange, vec![Says::Sent, Says::Line(reply)]);
        let _ = client::finish(&mut pool, exchange);
        pool.take("a").unwrap().open_txn
    };
    let ok = r#"{"t":"reply","id":1,"ok":true}"#;
    let refused = r#"{"t":"reply","id":1,"ok":false}"#;
    assert_eq!(after(|p| client::begin(p, "a", 9), None, ok), Some(9));
    assert_eq!(after(|p| client::begin(p, "a", 9), None, refused), None);
    assert_eq!(after(|p| client::begin(p, "a", 9), Some(8), refused), Some(8));
    assert_eq!(after(|p| client::begin(p, "a", 9), Some(8), ok), Some(9));
    assert_eq!(after(|p| client::commit(p, "a", 9), Some(9), ok), None);
    assert_eq!(after(|p| client::commit(p, "a", 9), Some(8), ok), Some(8));
    assert_eq!(after(|p| client::commit(p, "a", 9), Some(9), refused), None);
    assert_eq!(after(|p| client::commit(p, "a", 9), Some(8), refused), Some(8));
    assert_eq!(after(|p| client::abort(p, "a", 9), Some(9), ok), None);
    assert_eq!(after(|p| client::abort(p, "a", 9), Some(9), refused), None);
    assert_eq!(after(|p| client::abort(p, "a", 9), Some(8), ok), Some(8));
    assert_eq!(after(|p| client::verbs(p, "a"), Some(8), ok), Some(8));
}

#[test]
fn replies_say_their_value_or_why_there_is_none() {
    let says = |reply: &str| answered(frame::unwrap_reply(doc(reply)));
    assert_eq!(says(r#"{"ok":true,"value":[1]}"#), Ok("[1]".to_string()));
    assert_eq!(says(r#"{"ok":true}"#), Ok("null".to_string()));
    assert_eq!(says(r#"{"ok":false,"error":"why"}"#), Err("why".to_string()));
    assert_eq!(says(r#"{"ok":false,"error":3}"#), Err("call failed".to_string()));
    assert_eq!(says(r#"{"value":1}"#), Err("call failed".to_string()));
    assert_eq!(says(r#"{"ok":"true","error":"text"}"#), Err("text".to_string()));
}

#[test]
fn a_poll_collects_what_was_kept_and_what_arrives() {
    let mut pool = Pool::new();
    pool.put(
        "a",
        Conn {
            reader: "first",
            events: vec![doc(r#"{"t":"event","n":0}"#)],
            next_id: 3,
            open_txn: Some(9),
        },
    );
    let (exchange, actions) = play(
        client::poll(&mut pool, "a"),
        vec![
            Says::ModeSet,
            Says::Line(r#"{"t":"event","n":1}"#),
            Says::Line("garbage"),
            Says::Line(r#"{"t":"reply","id":3,"ok":true}"#),
            Says::Line(r#"{"t":"event","n":2}"#),
            Says::Quiet,
            Says::ModeSet,
        ],
    );
    assert_eq!(
        actions,
        vec!["quiet", "read", "read", "read", "read", "read", "block", "finish"]
    );
    assert_eq!(
        answered(client::finish(&mut pool, exchange)),
        Ok(r#"[{"n":0,"t":"event"},{"n":1,"t":"event"},{"n":2,"t":"event"}]"#.to_string())
    );
    let conn = pool.take("a").unwrap();
    assert_eq!(conn.events.len(), 0);
    assert_eq!(conn.next_id, 3);
    assert_eq!(conn.open_txn, Some(9));
}

#[test]
fn a_closed_connection_ends_a_poll_without_failure() {
    let mut pool = pooled("first", 0, None);
    let (exchange, actions) = play(
        client::poll(&mut pool, "a"),
        vec![Says::ModeSet, Says::Line(r#"{"t":"event"}"#), Says::Closed, Says::ModeSet],
    );
    assert_eq!(actions, vec!["quiet", "read", "read", "block", "finish"]);
    assert_eq!(
        answered(client::finish(&mut pool, exchange)),
        Ok(r#"[{"t":"event"}]"#.to_string())
    );
}

#[test]
fn a_poll_that_fails_blocks_again_and_is_retried() {
    let mut pool = pooled("first", 0, None);
    let (exchange, actions) = play(
        client::poll(&mut pool, "a"),
        vec![
            Says::ModeSet,
            Says::Line(r#"{"t":"event"}"#),
            Says::Failed("reset"),
            Says::ModeUnset("ignored"),
            Says::Dialed("second"),
            Says::ModeSet,
            Says::Quiet,
            Says::ModeSet,
        ],
    );
    assert_eq!(
        actions,
        vec!["quiet", "read", "read", "block", "dial", "quiet", "read", "block", "finish"]
    );
    assert_eq!(
        answered(client::finish(&mut pool, exchange)),
        Ok(r#"[{"t":"event"}]"#.to_string())
    );
    assert_eq!(pool.take("a").unwrap().reader, "second");
}

#[test]
fn a_restarted_app_may_say_other_things_before_its_replies() {
    let mut pool = Pool::new();
    let events = vec![doc(r#"{"t":"event","n":1}"#)];
    pool.put("a", Conn { reader: "first", events, next_id: 0, open_txn: Some(9) });
    let (exchange, actions) = play(
        client::commit(&mut pool, "a", 9),
        vec![
            Says::Unsent("lost"),
            Says::Dialed("second"),
            Says::Sent,
            Says::Line(r#"{"t":"event","n":2}"#),
            Says::Line(r#"{"t":"reply","id":2,"ok":false}"#),
            Says::Line(r#"{"t":"reply","id":1,"ok":true}"#),
            Says::Sent,
            Says::Line(r#"{"t":"reply","id":1,"ok":false}"#),
            Says::Line(r#"{"t":"event","n":3}"#),
            Says::Line(r#"{"t":"reply","id":2,"ok":true,"value":"done"}"#),
        ],
    );
    assert_eq!(actions[2], r#"send {"id":1,"t":"begin","txn":9}"#);
    assert_eq!(actions[6], r#"send {"id":2,"t":"commit","txn":9}"#);
    assert_eq!(answered(client::finish(&mut pool, exchange)), Ok(r#""done""#.to_string()));
    let mut conn = pool.take("a").unwrap();
    assert_eq!(conn.reader, "second");
    assert_eq!(conn.next_id, 2);
    assert_eq!(conn.open_txn, None);
    assert_eq!(
        show(&conn.drain()),
        r#"[{"n":1,"t":"event"},{"n":2,"t":"event"},{"n":3,"t":"event"}]"#
    );
}

#[test]
fn a_poll_inside_a_transaction_joins_it_again() {
    let mut pool = pooled("first", 3, Some(9));
    let (exchange, actions) = play(
        client::poll(&mut pool, "a"),
        vec![
            Says::ModeSet,
            Says::Line(r#"{"t":"event","n":1}"#),
            Says::Failed("reset"),
            Says::ModeSet,
            Says::Dialed("second"),
            Says::Sent,
            Says::Line(r#"{"t":"event","n":2}"#),
            Says::Line(r#"{"t":"reply","id":1,"ok":true}"#),
            Says::ModeSet,
            Says::Line(r#"{"t":"event","n":3}"#),
            Says::Quiet,
            Says::ModeSet,
        ],
    );
    assert_eq!(actions[5], r#"send {"id":1,"t":"begin","txn":9}"#);
    assert_eq!(actions.last().unwrap(), "finish");
    assert_eq!(
        answered(client::finish(&mut pool, exchange)),
        Ok(r#"[{"n":1,"t":"event"},{"n":2,"t":"event"},{"n":3,"t":"event"}]"#.to_string())
    );
    let conn = pool.take("a").unwrap();
    assert_eq!(conn.reader, "second");
    assert_eq!(conn.next_id, 1);
    assert_eq!(conn.open_txn, Some(9));
    assert_eq!(conn.events.len(), 0);
}

#[test]
fn kept_events_outlive_a_reconnect() {
    let mut pool = pooled("first", 0, None);
    let (exchange, _) = play(
        client::verbs(&mut pool, "a"),
        vec![
            Says::Sent,
            Says::Line(r#"{"t":"event","n":1}"#),
            Says::Line(r#"{"t":"reply","id":1,"ok":true}"#),
        ],
    );
    let _ = client::finish(&mut pool, exchange);

    let (exchange, actions) = play(
        client::verbs(&mut pool, "a"),
        vec![
            Says::Sent,
            Says::Line(r#"{"t":"event","n":2}"#),
            Says::Closed,
            Says::Dialed("second"),
            Says::Sent,
            Says::Line(r#"{"t":"event","n":3}"#),
            Says::Line(r#"{"t":"reply","id":1,"ok":true}"#),
        ],
    );
    assert_eq!(actions.iter().filter(|a| *a == "dial").count(), 1);
    assert_eq!(answered(client::finish(&mut pool, exchange)), Ok("null".to_string()));

    let (exchange, _) = play(
        client::poll(&mut pool, "a"),
        vec![Says::ModeSet, Says::Quiet, Says::ModeSet],
    );
    assert_eq!(
        answered(client::finish(&mut pool, exchange)),
        Ok(r#"[{"n":1,"t":"event"},{"n":2,"t":"event"},{"n":3,"t":"event"}]"#.to_string())
    );
    let conn = pool.take("a").unwrap();
    assert_eq!(conn.reader, "second");
    assert_eq!(conn.events.len(), 0);
}

#[test]
fn kept_events_outlive_the_joining_of_a_transaction_again() {
    for (joined, reader) in [
        (r#"{"t":"reply","id":1,"ok":true}"#, "second"),
        (r#"{"t":"reply","id":1,"ok":false,"error":"too late"}"#, "first"),
    ] {
        let mut pool = Pool::new();
        let events = vec![doc(r#"{"t":"event","n":1}"#)];
        pool.put("a", Conn { reader: "first", events, next_id: 0, open_txn: Some(9) });
        let mut script = vec![
            Says::Unsent("lost"),
            Says::Dialed("second"),
            Says::Sent,
            Says::Line(r#"{"t":"event","n":2}"#),
            Says::Line(joined),
        ];
        if reader == "second" {
            script.push(Says::Sent);
            script.push(Says::Line(r#"{"t":"reply","id":2,"ok":true}"#));
        }
        let (exchange, actions) = play(client::verbs(&mut pool, "a"), script);
        assert_eq!(actions.last().unwrap(), "finish");
        let _ = client::finish(&mut pool, exchange);
        let mut conn = pool.take("a").unwrap();
        assert_eq!(conn.reader, reader);
        assert_eq!(conn.open_txn, Some(9));
        assert_eq!(show(&conn.drain()), r#"[{"n":1,"t":"event"},{"n":2,"t":"event"}]"#);
    }
}

#[test]
fn a_refused_begin_is_not_joined_on_a_reconnect() {
    let mut pool = pooled("first", 0, None);
    let (exchange, _) = play(
        client::begin(&mut pool, "a", 9),
        vec![Says::Sent, Says::Line(r#"{"t":"reply","id":1,"ok":false,"error":"busy"}"#)],
    );
    assert_eq!(answered(client::finish(&mut pool, exchange)), Err("busy".to_string()));
    let (_, actions) = play(
        client::verbs(&mut pool, "a"),
        vec![Says::Unsent("lost"), Says::Dialed("second")],
    );
    assert_eq!(
        actions,
        vec![r#"send {"id":2,"t":"verbs"}"#, "dial", r#"send {"id":1,"t":"verbs"}"#]
    );
}

#[test]
fn a_poll_whose_mode_cannot_be_set_fails() {
    let mut pool = pooled("first", 0, None);
    let (exchange, actions) = play(
        client::poll(&mut pool, "a"),
        vec![
            Says::ModeUnset("no mode"),
            Says::Dialed("second"),
            Says::ModeSet,
            Says::Quiet,
            Says::ModeUnset("still none"),
        ],
    );
    assert_eq!(actions, vec!["quiet", "dial", "quiet", "read", "block", "finish"]);
    assert_eq!(answered(client::finish(&mut pool, exchange)), Err("still none".to_string()));
}

#[test]
fn pools_keep_one_connection_for_each_app() {
    let mut pool = pooled("first", 1, None);
    pool.put("b", Conn::new("other"));
    pool.put("a", Conn::new("second"));
    assert!(!pool.exhausted("a"));
    assert!(!pool.exhausted("c"));
    assert_eq!(pool.take("a").unwrap().reader, "second");
    assert!(pool.take("a").is_none());
    assert_eq!(pool.take("b").unwrap().reader, "other");
    let pool = pooled("first", u64::MAX, None);
    assert!(pool.exhausted("a"));
}

#[test]
fn connections_stamp_hear_and_drain() {
    let mut conn = Conn::new(());
    assert_eq!(show(&conn.stamp(frame::verbs_frame())), r#"{"id":1,"t":"verbs"}"#);
    assert_eq!(show(&conn.stamp(frame::verbs_frame())), r#"{"id":2,"t":"verbs"}"#);
    assert!(matches!(conn.hear(2, Ok(doc(r#"{"t":"reply","id":1}"#))), Heard::Waiting));
    assert!(matches!(conn.hear(2, Ok(doc(r#"{"t":"event","id":2}"#))), Heard::Waiting));
    assert!(matches!(conn.hear(2, Ok(doc(r#"{"t":"reply","id":2}"#))), Heard::Reply(_)));
    assert!(matches!(conn.hear(2, Err("bad".to_string())), Heard::Malformed(m) if m == "bad"));
    conn.overhear(Ok(doc(r#"{"t":"event","id":3}"#)));
    conn.overhear(Ok(doc(r#"{"t":"other"}"#)));
    conn.overhear(Err("bad".to_string()));
    assert_eq!(show(&conn.drain()), r#"[{"id":2,"t":"event"},{"id":3,"t":"event"}]"#);
    assert_eq!(show(&conn.drain()), "[]");
}

#[test]
fn an_exchange_can_be_made_without_a_pool() {
    let job = Job::Request { frame: frame::begin_frame(4), effect: Effect::Enter(4) };
    let (exchange, _) = play(
        Exchange::new("a", job, Some(Conn::new("first"))),
        vec![Says::Sent, Says::Line(r#"{"t":"reply","id":1,"ok":true}"#)],
    );
    assert_eq!(exchange.app(), "a");
    let (slot, answer) = exchange.finish();
    assert_eq!(slot.unwrap().open_txn, Some(4));
    assert_eq!(answered(answer), Ok("null".to_string()));
}
