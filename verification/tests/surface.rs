//! The exported surface, the registry of sagas, and what the client tells of itself.

use stryke_app::client;
use stryke_app::conn::{Conn, Pool};
use stryke_app::exchange::{Action, Event};
use stryke_app::exports;
use stryke_app::exports::{input, output, Command, End};
use stryke_app::json::Json;
use stryke_app::registry;
use stryke_app::registry::Registry;
use stryke_app::report;
use stryke_app::saga;
use stryke_app::saga::{Forward, Operation, Progress, Saga, Step};
use stryke_app::text;

fn doc(text: &str) -> Json {
    input(Some(text.as_bytes()))
}

fn show(doc: &Json) -> String {
    output(End::Returned(Ok(doc.clone())))
}

fn missing(key: &str) -> String {
    format!("missing '{key}' argument")
}

// ---- exports ----

#[test]
fn exports_decode_their_arguments() {
    let args = doc(r#"{"app":"zcite","verb":"v","args":{"q":1},"result":[2],"state":"s","event":"e","txn":7}"#);
    assert!(matches!(exports::app__open(&args), Ok(Command::Open { app }) if app == "zcite"));
    assert!(matches!(exports::app__here(&Json::Null), Ok(Command::Here)));
    assert!(matches!(exports::app__list(&Json::Null), Ok(Command::List)));
    assert!(matches!(exports::app__verbs(&args), Ok(Command::Verbs { app }) if app == "zcite"));
    assert!(matches!(
        exports::app__call(&args),
        Ok(Command::Call { app, verb, args }) if app == "zcite" && verb == "v" && show(&args) == r#"{"q":1}"#
    ));
    assert!(matches!(
        exports::app__get(&args),
        Ok(Command::Get { app, state }) if app == "zcite" && state == "s"
    ));
    assert!(matches!(
        exports::app__sub(&args),
        Ok(Command::Sub { app, event }) if app == "zcite" && event == "e"
    ));
    assert!(matches!(exports::app__poll(&args), Ok(Command::Poll { app }) if app == "zcite"));
    assert!(matches!(
        exports::app__undo(&args),
        Ok(Command::Undo { app, verb, args, result })
            if app == "zcite" && verb == "v" && show(&args) == r#"{"q":1}"# && show(&result) == "[2]"
    ));
    assert!(matches!(exports::app__txn_begin(&args), Ok(Command::TxnBegin { id: Some(7) })));
    assert!(matches!(exports::app__txn_begin(&Json::Null), Ok(Command::TxnBegin { id: None })));
    assert!(matches!(
        exports::app__txn_call(&args),
        Ok(Command::TxnCall { txn: 7, app, verb, args })
            if app == "zcite" && verb == "v" && show(&args) == r#"{"q":1}"#
    ));
    assert!(matches!(exports::app__txn_steps(&args), Ok(Command::TxnSteps { txn: 7 })));
    assert!(matches!(exports::app__txn_commit(&args), Ok(Command::TxnCommit { txn: 7 })));
    assert!(matches!(exports::app__txn_abort(&args), Ok(Command::TxnAbort { txn: 7 })));
}

#[test]
fn missing_arguments_are_named_in_order() {
    let no_verb = doc(r#"{"txn":1,"app":"a","verb":3}"#);
    assert_eq!(exports::app__open(&Json::Null).err(), Some(missing("app")));
    assert_eq!(exports::app__verbs(&doc(r#"{"app":1}"#)).err(), Some(missing("app")));
    assert_eq!(exports::app__poll(&doc("[]")).err(), Some(missing("app")));
    assert_eq!(exports::app__call(&doc(r#"{"verb":"v"}"#)).err(), Some(missing("app")));
    assert_eq!(exports::app__call(&no_verb).err(), Some(missing("verb")));
    assert_eq!(exports::app__get(&no_verb).err(), Some(missing("state")));
    assert_eq!(exports::app__sub(&no_verb).err(), Some(missing("event")));
    assert_eq!(exports::app__undo(&no_verb).err(), Some(missing("verb")));
    assert_eq!(exports::app__txn_call(&Json::Null).err(), Some(missing("txn")));
    assert_eq!(exports::app__txn_call(&doc(r#"{"txn":1}"#)).err(), Some(missing("app")));
    assert_eq!(exports::app__txn_call(&no_verb).err(), Some(missing("verb")));
    assert_eq!(exports::app__txn_steps(&doc(r#"{"txn":-1}"#)).err(), Some(missing("txn")));
    assert_eq!(exports::app__txn_commit(&Json::Null).err(), Some(missing("txn")));
    assert_eq!(exports::app__txn_abort(&Json::Null).err(), Some(missing("txn")));
}

#[test]
fn arguments_that_may_be_left_out_are_null() {
    let args = doc(r#"{"app":"a","verb":"v"}"#);
    assert!(matches!(exports::app__call(&args), Ok(Command::Call { args: Json::Null, .. })));
    assert!(matches!(
        exports::app__undo(&args),
        Ok(Command::Undo { args: Json::Null, result: Json::Null, .. })
    ));
    assert_eq!(exports::arg_str(&args, "app"), Ok("a".to_string()));
    assert_eq!(exports::arg_id(&args, "app"), Err(missing("app")));
    assert_eq!(show(&exports::arg_doc(&args, "verb")), r#""v""#);
}

#[test]
fn commands_start_the_exchange_that_they_are() {
    let sent = |command: Command| {
        let mut pool: Pool<()> = Pool::new();
        pool.put("a", Conn::new(()));
        assert_eq!(command.app(), Some(&"a".to_string()));
        match command.start(&mut pool).unwrap().step(Event::Go).1 {
            Action::Send { request, .. } => show(&request),
            Action::SetDrainMode(true) => "poll".to_string(),
            Action::Dial => "open".to_string(),
            _ => unreachable!(),
        }
    };
    let app = || "a".to_string();
    assert_eq!(sent(Command::Open { app: app() }), "open");
    assert_eq!(sent(Command::Poll { app: app() }), "poll");
    assert_eq!(sent(Command::Verbs { app: app() }), r#"{"id":1,"t":"verbs"}"#);
    assert_eq!(
        sent(Command::Call { app: app(), verb: "v".to_string(), args: Json::Null }),
        r#"{"args":null,"id":1,"t":"call","verb":"v"}"#
    );
    assert_eq!(
        sent(Command::Get { app: app(), state: "s".to_string() }),
        r#"{"id":1,"state":"s","t":"get"}"#
    );
    assert_eq!(
        sent(Command::Sub { app: app(), event: "e".to_string() }),
        r#"{"event":"e","id":1,"t":"sub"}"#
    );
    assert_eq!(
        sent(Command::Undo {
            app: app(),
            verb: "v".to_string(),
            args: Json::Null,
            result: Json::Bool(true)
        }),
        r#"{"args":null,"id":1,"result":true,"t":"undo","verb":"v"}"#
    );
    let mut pool: Pool<()> = Pool::new();
    pool.put("a", Conn { reader: (), events: vec![], next_id: u64::MAX, open_txn: None });
    assert!(Command::Open { app: app() }.can_start(&pool));
    assert!(Command::Poll { app: app() }.can_start(&pool));
    assert!(!Command::Verbs { app: app() }.can_start(&pool));
    assert!(Command::Verbs { app: "b".to_string() }.can_start(&pool));
    assert!(Command::List.can_start(&pool));
    assert!(Command::List.app().is_none());
    assert!(Command::List.start(&mut pool).is_none());
    assert!(Command::TxnAbort { txn: 1 }.start(&mut pool).is_none());
}

#[test]
fn ends_are_handed_back_as_text() {
    assert_eq!(output(End::Returned(Ok(doc(r#"{"ok":true}"#)))), r#"{"ok":true}"#);
    assert_eq!(
        output(End::Returned(Err("no such \"verb\"".to_string()))),
        r#"{"error":"no such \"verb\""}"#
    );
    assert_eq!(output(End::Panicked), r#"{"error":"stryke-app handler panicked"}"#);
    assert_eq!(exports::written_or_error(Err("x".to_string())), r#"{"error":"serialize"}"#);
    assert_eq!(exports::written_or_error(Ok("[]".to_string())), "[]");
}

// ---- which apps there are ----

#[test]
fn here_needs_a_name() {
    let outside = "App::here() outside a bus app (ZGUI_APP unset)".to_string();
    assert_eq!(client::here_name(None), Err(outside.clone()));
    assert_eq!(client::here_name(Some(String::new())), Err(outside));
    assert_eq!(client::here_name(Some("zcite".to_string())), Ok("zcite".to_string()));
}

#[test]
fn the_socket_base_is_the_first_that_is_set() {
    assert_eq!(client::socket_base(Some("x"), Some("t"), "f"), "x");
    assert_eq!(client::socket_base(None, Some("t"), "f"), "t");
    assert_eq!(client::socket_base(None, None, client::fallback_base()), "/tmp");
    assert_eq!(client::socket_dir_name(), "zgui");
    assert_eq!(client::socket_name("zcite"), "zcite.sock");
}

#[test]
fn an_unreachable_app_is_named_with_its_place() {
    assert_eq!(
        client::unreachable("zcite", "/tmp/zgui/zcite.sock", "refused"),
        "app 'zcite' not reachable (/tmp/zgui/zcite.sock): refused"
    );
}

#[test]
fn listing_takes_the_sockets_sorted_by_bytes() {
    let files: Vec<String> = ["zreq.sock", "notes.txt", "zcite.sock", ".sock", "Z.sock", "é.sock", "a.sock.bak", "a.sock", "ab.sock", "sock"]
        .iter()
        .map(|f| f.to_string())
        .collect();
    assert_eq!(show(&client::list(&files)), r#"["","Z","a","ab","zcite","zreq","é"]"#);
    assert_eq!(show(&client::list(&vec![])), "[]");
    let mut reversed = files.clone();
    reversed.reverse();
    assert_eq!(show(&client::list(&reversed)), show(&client::list(&files)));
    let twice = vec!["a.sock".to_string(), "a.sock".to_string()];
    assert_eq!(show(&client::list(&twice)), r#"["a","a"]"#);
}

#[test]
fn texts_are_trimmed_stripped_and_ordered() {
    assert_eq!(text::trim("\u{85}\t a b \u{205f}\n"), "a b");
    assert_eq!(text::trim(" \r\n"), "");
    assert_eq!(text::trim("\u{200b}x"), "\u{200b}x");
    assert_eq!(text::decimal(0), "0");
    assert_eq!(text::decimal(9), "9");
    assert_eq!(text::decimal(10), "10");
    assert_eq!(text::decimal(18446744073709551615), "18446744073709551615");
    assert_eq!(text::strip_suffix("é.sock", ".sock"), Some("é".to_string()));
    assert_eq!(text::strip_suffix("ock", ".sock"), None);
    assert!(text::not_after("a", "a"));
    assert!(text::not_after("a", "ab"));
    assert!(!text::not_after("b", "ab"));
    assert!(text::not_after("\u{ffff}", "\u{10000}"));
    assert!(text::same("é", "é"));
    assert!(!text::same("é", "e"));
}

// ---- sagas by id ----

/// Runs a step whose app answers each operation by `answer`, and tells what went out.
fn step(
    registry: &mut Registry,
    forward: Forward,
    answer: fn(&Operation) -> Result<Json, String>,
) -> (Vec<String>, Result<Json, String>) {
    let mut forward = forward;
    let mut sent = vec![];
    loop {
        let operation = forward.operation();
        sent.push(named(&operation));
        match saga::advance(registry, forward, answer(&operation)) {
            Progress::Continue(next) => forward = next,
            Progress::Finished(answer) => return (sent, answer),
        }
    }
}

fn named(operation: &Operation) -> String {
    match operation {
        Operation::Begin { app, txn } => format!("begin {app} {txn}"),
        Operation::Call { app, verb, args } => format!("call {app} {verb} {}", show(args)),
        Operation::Undo { app, verb, args, result } => {
            format!("undo {app} {verb} {} {}", show(args), show(result))
        }
        Operation::Commit { app, txn } => format!("commit {app} {txn}"),
    }
}

fn yes(_: &Operation) -> Result<Json, String> {
    Ok(Json::Bool(true))
}

#[test]
fn a_saga_is_addressed_by_its_id() {
    let mut reg = Registry::new();
    assert_eq!(show(&saga::begin(&mut reg, Some(5), 1).unwrap()), r#"{"txn":5}"#);
    assert_eq!(saga::begin(&mut reg, Some(5), 1).err(), Some("saga already open: 5".to_string()));
    assert_eq!(show(&saga::steps(&reg, 5).unwrap()), "[]");

    let forward = saga::call(&reg, 5, "a", "push", Json::Unsigned(1)).unwrap();
    assert_eq!(forward.txn(), 5);
    let (sent, answer) = step(&mut reg, forward, yes);
    assert_eq!(sent, vec!["begin a 5", "call a push 1"]);
    assert!(matches!(answer, Ok(Json::Bool(true))));
    let forward = saga::call(&reg, 5, "a", "push", Json::Unsigned(2)).unwrap();
    let (sent, _) = step(&mut reg, forward, yes);
    assert_eq!(sent, vec!["call a push 2"]);
    assert_eq!(
        show(&saga::steps(&reg, 5).unwrap()),
        r#"[{"app":"a","seq":1,"verb":"push"},{"app":"a","seq":2,"verb":"push"}]"#
    );
    assert!(!reg.full(5));

    let unwind = saga::abort(&mut reg, 5).ok().unwrap();
    let plan = unwind.plan();
    assert_eq!(
        plan.iter().map(named).collect::<Vec<_>>(),
        vec!["undo a push 2 true", "undo a push 1 true", "commit a 5"]
    );
    let answers = plan.iter().map(yes).collect();
    assert_eq!(
        show(&unwind.report(&answers)),
        r#"{"apps":{"a":{"compensated":2,"failed":[]}},"compensated":2,"failed":[],"ok":true,"order":[{"app":"a","seq":2,"verb":"push"},{"app":"a","seq":1,"verb":"push"}],"releaseFailed":[],"txn":5}"#
    );

    let gone = "no open saga: 5".to_string();
    assert_eq!(saga::call(&reg, 5, "a", "push", Json::Null).err(), Some(gone.clone()));
    assert_eq!(saga::steps(&reg, 5).err(), Some(gone.clone()));
    assert_eq!(saga::commit(&mut reg, 5).err(), Some(gone.clone()));
    assert_eq!(saga::abort(&mut reg, 5).err(), Some(gone));
    assert!(saga::begin(&mut reg, Some(5), 1).is_ok());
}

#[test]
fn sagas_do_not_touch_one_another() {
    let mut reg = Registry::new();
    saga::begin(&mut reg, Some(1), 0).unwrap();
    saga::begin(&mut reg, Some(2), 0).unwrap();
    let forward = saga::call(&reg, 1, "a", "v", Json::Null).unwrap();
    step(&mut reg, forward, yes).1.unwrap();
    assert_eq!(show(&saga::steps(&reg, 2).unwrap()), "[]");
    // A step that fails leaves its own saga's steps as well.
    let forward = saga::call(&reg, 1, "a", "w", Json::Null).unwrap();
    assert!(step(&mut reg, forward, |_| Err("no".to_string())).1.is_err());
    assert_eq!(show(&saga::steps(&reg, 1).unwrap()), r#"[{"app":"a","seq":1,"verb":"v"}]"#);
    let closing = saga::commit(&mut reg, 2).ok().unwrap();
    assert_eq!(closing.plan().len(), 0);
    assert_eq!(
        show(&closing.report(&vec![])),
        r#"{"committed":0,"failed":[],"ok":true,"txn":2}"#
    );
    assert_eq!(show(&saga::steps(&reg, 1).unwrap()), r#"[{"app":"a","seq":1,"verb":"v"}]"#);
}

#[test]
fn minted_ids_hold_the_process_and_a_count() {
    assert_eq!(registry::next_txn(1, 1), 0x1_0000_0001);
    assert_eq!(registry::next_txn(0xffff_ffff, 0xffff_ffff), u64::MAX);
    assert_eq!(registry::next_txn(2, 0x1_0000_0003), 0x2_0000_0003);
    assert_ne!(registry::next_txn(1, 1), registry::next_txn(2, 1));
    let mut reg = Registry::new();
    assert!(!reg.exhausted());
    assert_eq!(show(&saga::begin(&mut reg, None, 3).unwrap()), r#"{"txn":12884901889}"#);
    assert_eq!(show(&saga::begin(&mut reg, None, 3).unwrap()), r#"{"txn":12884901890}"#);
    // An id that is taken is refused, and counts.
    saga::begin(&mut reg, Some(12884901891), 3).unwrap();
    assert_eq!(
        saga::begin(&mut reg, None, 3).err(),
        Some("saga already open: 12884901891".to_string())
    );
    assert_eq!(show(&saga::begin(&mut reg, None, 3).unwrap()), r#"{"txn":12884901892}"#);
}

#[test]
fn a_begin_that_fails_ends_the_step_before_the_call() {
    let mut reg = Registry::new();
    saga::begin(&mut reg, Some(1), 0).unwrap();
    let forward = saga::call(&reg, 1, "a", "v", Json::Null).unwrap();
    let (sent, answer) = step(&mut reg, forward, |_| Err("gone".to_string()));
    assert_eq!(sent, vec!["begin a 1"]);
    assert_eq!(answer.err(), Some("gone".to_string()));
    assert_eq!(show(&saga::steps(&reg, 1).unwrap()), "[]");
    // The app did not join, so it is asked again.
    let forward = saga::call(&reg, 1, "a", "v", Json::Null).unwrap();
    assert_eq!(step(&mut reg, forward, yes).0, vec!["begin a 1", "call a v null"]);
    // One that never joins is sent nothing at the end.
    let forward = saga::call(&reg, 1, "b", "v", Json::Null).unwrap();
    assert!(step(&mut reg, forward, |_| Err("gone".to_string())).1.is_err());
    let plan = saga::abort(&mut reg, 1).ok().unwrap().plan();
    assert_eq!(
        plan.iter().map(named).collect::<Vec<_>>(),
        vec!["undo a v null true", "commit a 1"]
    );
}

#[test]
fn a_saga_that_ended_unwinds_nothing() {
    let mut one = Saga::new(3);
    assert_eq!(one.txn(), 3);
    let forward = one.call("a", "v", Json::Null);
    let next = match one.advance(forward, Ok(Json::Null)) {
        Progress::Continue(next) => next,
        Progress::Finished(_) => unreachable!(),
    };
    one.advance(next, Ok(Json::Unsigned(1)));
    assert_eq!(one.steps().len(), 1);
    assert_eq!(one.steps()[0].seq, 1);
    assert_eq!(one.steps()[0].clone().verb, "v");
    assert_eq!(show(&one.steps()[0].result), "1");
    assert!(!one.full());

    let closing = one.commit();
    assert_eq!(closing.plan().iter().map(named).collect::<Vec<_>>(), vec!["commit a 3"]);
    assert_eq!(
        show(&closing.report(&vec![Err("away".to_string())])),
        r#"{"committed":1,"failed":[{"app":"a","error":"away"}],"ok":false,"txn":3}"#
    );
    let unwind = one.abort();
    assert_eq!(unwind.plan().len(), 0);
    assert_eq!(
        show(&unwind.report(&vec![])),
        r#"{"apps":{},"compensated":0,"failed":[],"ok":true,"order":[],"releaseFailed":[],"txn":3}"#
    );
}

#[test]
fn apps_are_released_in_reverse_of_their_joining() {
    let mut one = Saga::new(1);
    for app in ["a", "b", "a", "c"] {
        let mut forward = one.call(app, "v", Json::Null);
        while let Progress::Continue(next) = one.advance(forward, Ok(Json::Null)) {
            forward = next;
        }
    }
    let plan = one.commit().plan();
    assert_eq!(
        plan.iter().map(named).collect::<Vec<_>>(),
        vec!["commit c 1", "commit b 1", "commit a 1"]
    );
}

#[test]
fn a_release_that_fails_is_reported_beside_the_compensations() {
    let steps = vec![Step {
        seq: 1,
        app: "a".to_string(),
        verb: "v".to_string(),
        args: Json::Null,
        result: Json::Null,
    }];
    let apps = vec!["a".to_string()];
    let answers = vec![Ok(Json::Null), Err("away".to_string())];
    assert_eq!(
        show(&report::unwind_summary(4, &steps, &apps, &answers)),
        r#"{"apps":{"a":{"compensated":1,"failed":[]}},"compensated":1,"failed":[],"ok":false,"order":[{"app":"a","seq":1,"verb":"v"}],"releaseFailed":[{"app":"a","error":"away"}],"txn":4}"#
    );
    assert_eq!(show(&report::steps_summary(&steps)), r#"[{"app":"a","seq":1,"verb":"v"}]"#);
}
