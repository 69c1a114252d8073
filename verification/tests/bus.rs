//! Hosts and client together: every test stands up fake apps in memory and drives them over the
//! lines that would travel between them.

use std::cell::RefCell;
use std::collections::{BTreeMap, VecDeque};
use std::rc::Rc;

use stryke_app::client;
use stryke_app::conn::Pool;
use stryke_app::exchange::{Action, Event, Exchange};
use stryke_app::exports::{input, output, End};
use stryke_app::frame;
use stryke_app::json::Json;
use stryke_app::saga::{Operation, Progress, Saga};

// ---- documents ----

fn doc(text: &str) -> Json {
    let read = input(Some(text.as_bytes()));
    assert!(text == "null" || !matches!(read, Json::Null), "no document: {text}");
    read
}

fn show(doc: &Json) -> String {
    output(End::Returned(Ok(doc.clone())))
}

fn at<'a>(doc: &'a Json, key: &str) -> &'a Json {
    doc.get(key).expect(key)
}

fn items(doc: &Json) -> &Vec<Json> {
    doc.as_array().expect("array")
}

// ---- hosts ----

trait Handler {
    fn call(&self, verb: &str, args: &Json) -> Result<Json, String>;
    fn get(&self, state: &str) -> Result<Json, String>;
    fn surface(&self) -> Json;
    fn undo(&self, _verb: &str, _args: &Json, _result: &Json) -> Result<Json, String> {
        Err("not undoable".to_string())
    }
    fn rev(&self, _verb: &str) -> &'static str {
        "irreversible"
    }
}

struct Journaled {
    verb: String,
    args: Json,
    result: Json,
}

/// One running app: its handler, and a journal per transaction.
struct Host {
    handler: Box<dyn Handler>,
    journals: RefCell<BTreeMap<u64, Vec<Journaled>>>,
    pending: RefCell<Vec<Json>>,
    /// How many lines it still answers; the connection is lost at the next one.
    patience: RefCell<Option<usize>>,
}

/// One connection, with the transaction that the host has open on it.
struct Link {
    host: Rc<Host>,
    open_txn: Option<u64>,
    lost: bool,
    inbox: VecDeque<String>,
}

#[derive(Default)]
struct Bus {
    hosts: BTreeMap<String, Rc<Host>>,
    dialed: usize,
}

fn reply(id: u64, answer: Result<Json, String>) -> Json {
    let base = Json::object().with("t", Json::text("reply")).with("id", Json::Unsigned(id));
    match answer {
        Ok(value) => base.with("ok", Json::Bool(true)).with("value", value),
        Err(error) => base.with("ok", Json::Bool(false)).with("error", Json::text(&error)),
    }
}

impl Host {
    fn answer(&self, open_txn: &mut Option<u64>, request: &Json) -> Result<Json, String> {
        let txn = request.get_u64("txn");
        let verb = request.get_str("verb").unwrap_or("");
        match request.get_str("t") {
            Some("call") => {
                let args = at(request, "args");
                let rev = self.handler.rev(verb);
                if open_txn.is_some() && rev == "irreversible" {
                    return Err(format!("verb not reversible: {verb}"));
                }
                let result = self.handler.call(verb, args)?;
                if let (Some(txn), true) = (*open_txn, rev != "pure") {
                    self.journals.borrow_mut().entry(txn).or_default().push(Journaled {
                        verb: verb.to_string(),
                        args: args.clone(),
                        result: result.clone(),
                    });
                }
                Ok(result)
            }
            Some("undo") => self.handler.undo(verb, at(request, "args"), at(request, "result")),
            Some("get") => self.handler.get(request.get_str("state").unwrap()),
            Some("verbs") => Ok(self.handler.surface()),
            Some("sub") => Ok(Json::Null),
            Some("begin") => {
                *open_txn = txn;
                self.journals.borrow_mut().entry(txn.unwrap()).or_default();
                Ok(Json::Null)
            }
            Some("commit") => {
                *open_txn = None;
                self.journals.borrow_mut().remove(&txn.unwrap());
                Ok(Json::Null)
            }
            Some("abort") => {
                *open_txn = None;
                let journal = self.journals.borrow_mut().remove(&txn.unwrap()).unwrap_or_default();
                let mut compensated = 0;
                let mut failed = Vec::new();
                for step in journal.iter().rev() {
                    match self.handler.undo(&step.verb, &step.args, &step.result) {
                        Ok(_) => compensated += 1,
                        Err(e) => failed.push(Json::text(&e)),
                    }
                }
                Ok(Json::object()
                    .with("compensated", Json::Unsigned(compensated))
                    .with("failed", Json::Array(failed)))
            }
            other => Err(format!("no such frame: {other:?}")),
        }
    }
}

impl Bus {
    fn serve(&mut self, app: &str, handler: impl Handler + 'static) {
        let host = Host {
            handler: Box::new(handler),
            journals: RefCell::new(BTreeMap::new()),
            pending: RefCell::new(Vec::new()),
            patience: RefCell::new(None),
        };
        self.hosts.insert(app.to_string(), Rc::new(host));
    }

    fn files(&self) -> Vec<String> {
        self.hosts.keys().map(|app| client::socket_name(app)).collect()
    }

    fn emit(&self, app: &str, event: &str, payload: Json) {
        let frame = Json::object()
            .with("t", Json::text("event"))
            .with("event", Json::text(event))
            .with("payload", payload);
        self.hosts[app].pending.borrow_mut().push(frame);
    }

    fn dial(&mut self, app: &str) -> Result<Link, String> {
        self.dialed += 1;
        match self.hosts.get(app) {
            Some(host) => {
                *host.patience.borrow_mut() = None;
                Ok(Link {
                    host: host.clone(),
                    open_txn: None,
                    lost: false,
                    inbox: VecDeque::new(),
                })
            }
            None => Err(client::unreachable(app, "memory", "no such host")),
        }
    }

    fn write(link: &mut Link, line: &str) -> Result<(), String> {
        if link.lost {
            return Err("broken pipe".to_string());
        }
        let host = link.host.clone();
        {
            let mut patience = host.patience.borrow_mut();
            match *patience {
                Some(0) => {
                    link.lost = true;
                    return Ok(());
                }
                Some(n) => *patience = Some(n - 1),
                None => {}
            }
        }
        let request = frame::read_frame(line).expect("request");
        let id = request.get_u64("id").expect("id");
        for event in host.pending.borrow_mut().drain(..) {
            link.inbox.push_back(frame::frame_line(&event).unwrap());
        }
        let answer = host.answer(&mut link.open_txn, &request);
        link.inbox.push_back(frame::frame_line(&reply(id, answer)).unwrap());
        Ok(())
    }

    fn read(link: &mut Link) -> Option<String> {
        let host = link.host.clone();
        for event in host.pending.borrow_mut().drain(..) {
            link.inbox.push_back(frame::frame_line(&event).unwrap());
        }
        link.inbox.pop_front()
    }
}

/// A client with its pool, on a bus.
struct Client {
    bus: Bus,
    pool: Pool<Link>,
}

impl Client {
    fn new() -> Client {
        Client { bus: Bus::default(), pool: Pool::new() }
    }

    fn drive(&mut self, exchange: Exchange<Link>) -> Result<Json, String> {
        let app = exchange.app();
        let mut draining = false;
        let (mut exchange, mut action) = exchange.step(Event::Go);
        loop {
            let event = match action {
                Action::Dial => Event::Dialed(self.bus.dial(&app)),
                Action::Send { line, .. } => {
                    Event::Sent(Bus::write(exchange.reader().unwrap(), &line))
                }
                Action::SetDrainMode(on) => {
                    draining = on;
                    Event::ModeSet(Ok(()))
                }
                Action::Read => match Bus::read(exchange.reader().unwrap()) {
                    Some(line) => {
                        (exchange, action) = exchange.step_line(&line);
                        continue;
                    }
                    None if draining => {
                        Event::Failed { quiet: true, message: "timed out".to_string() }
                    }
                    None => Event::Closed,
                },
                Action::Finish => return client::finish(&mut self.pool, exchange),
            };
            (exchange, action) = exchange.step(event);
        }
    }

    fn perform(&mut self, operation: Operation) -> Result<Json, String> {
        let exchange = operation.start(&mut self.pool);
        self.drive(exchange)
    }

    fn saga_call(
        &mut self,
        saga: &mut Saga,
        app: &str,
        verb: &str,
        args: Json,
    ) -> Result<Json, String> {
        let mut forward = saga.call(app, verb, args);
        loop {
            let answer = self.perform(forward.operation());
            match saga.advance(forward, answer) {
                Progress::Continue(next) => forward = next,
                Progress::Finished(answer) => return answer,
            }
        }
    }

    fn saga_abort(&mut self, saga: &mut Saga) -> Json {
        let unwind = saga.abort();
        let answers = unwind.plan().into_iter().map(|op| self.perform(op)).collect();
        unwind.report(&answers)
    }

    fn saga_commit(&mut self, saga: &mut Saga) -> Json {
        let closing = saga.commit();
        let answers = closing.plan().into_iter().map(|op| self.perform(op)).collect();
        closing.report(&answers)
    }

    fn call(&mut self, app: &str, verb: &str, args: Json) -> Result<Json, String> {
        let exchange = client::call(&mut self.pool, app, verb, args);
        self.drive(exchange)
    }

    fn get(&mut self, app: &str, state: &str) -> Result<Json, String> {
        let exchange = client::get(&mut self.pool, app, state);
        self.drive(exchange)
    }

    fn open(&mut self, app: &str) -> Result<Json, String> {
        let exchange = client::open(&mut self.pool, app);
        self.drive(exchange)
    }

    fn abort(&mut self, app: &str, txn: u64) -> Result<Json, String> {
        let exchange = client::abort(&mut self.pool, app, txn);
        self.drive(exchange)
    }

    fn poll(&mut self, app: &str) -> Result<Json, String> {
        let exchange = client::poll(&mut self.pool, app);
        self.drive(exchange)
    }

    fn here(&mut self, zgui_app: Option<String>) -> Result<Json, String> {
        let exchange = client::here(&mut self.pool, zgui_app)?;
        self.drive(exchange)
    }

    fn store_of(&mut self, app: &str) -> String {
        show(&self.get(app, "store").expect("get store"))
    }
}

// ---- sagas ----

type Log = Rc<RefCell<Vec<String>>>;

/// A stand-in app: a key/value store, and a shared log of every forward and compensating step in
/// the order in which it ran.
struct FakeApp {
    label: String,
    store: RefCell<BTreeMap<String, String>>,
    log: Log,
    undo_fails: Vec<&'static str>,
    irreversible: Vec<&'static str>,
}

impl FakeApp {
    fn new(label: &str, log: Log) -> Self {
        FakeApp {
            label: label.to_string(),
            store: RefCell::new(BTreeMap::new()),
            log,
            undo_fails: Vec::new(),
            irreversible: Vec::new(),
        }
    }

    fn undo_fails(mut self, verbs: &[&'static str]) -> Self {
        self.undo_fails = verbs.to_vec();
        self
    }

    fn irreversible(mut self, verbs: &[&'static str]) -> Self {
        self.irreversible = verbs.to_vec();
        self
    }

    fn key(args: &Json) -> String {
        args.get_str("key").unwrap_or("?").to_string()
    }
}

impl Handler for FakeApp {
    fn call(&self, verb: &str, args: &Json) -> Result<Json, String> {
        if verb == "fails" {
            return Err("forward step failed".to_string());
        }
        let key = Self::key(args);
        self.store.borrow_mut().insert(key.clone(), verb.into());
        self.log.borrow_mut().push(format!("do {}.{verb}({key})", self.label));
        Ok(Json::object().with("key", Json::text(&key)))
    }

    fn get(&self, state: &str) -> Result<Json, String> {
        match state {
            "store" => {
                let mut stored = Json::object();
                for (key, value) in self.store.borrow().iter() {
                    stored = stored.with(key, Json::text(value));
                }
                Ok(stored)
            }
            other => Err(format!("no such state: {other}")),
        }
    }

    fn surface(&self) -> Json {
        doc(r#"{"verbs":[],"state":[{"id":"store","returns":"object"}],"events":[]}"#)
    }

    fn undo(&self, verb: &str, args: &Json, _result: &Json) -> Result<Json, String> {
        if self.undo_fails.contains(&verb) {
            self.log.borrow_mut().push(format!("FAIL {}.{verb}", self.label));
            return Err("compensation refused".to_string());
        }
        let key = Self::key(args);
        self.store.borrow_mut().remove(&key);
        self.log.borrow_mut().push(format!("undo {}.{verb}({key})", self.label));
        Ok(Json::object().with("undone", Json::text(verb)))
    }

    fn rev(&self, verb: &str) -> &'static str {
        if self.irreversible.contains(&verb) {
            "irreversible"
        } else if verb == "check" {
            "pure"
        } else {
            "inverse"
        }
    }
}

fn app_names(tag: &str, n: usize) -> Vec<String> {
    (0..n).map(|i| format!("stryke-app-saga-{tag}-{i}")).collect()
}

fn key(k: &str) -> Json {
    Json::object().with("key", Json::text(k))
}

/// The chain is not contiguous per app, a(1) b(2) a(3) c(4), so that only the global reverse walk
/// gives c4, a3, b2, a1.
#[test]
fn unwind_is_reverse_execution_order_across_three_apps() {
    let apps = app_names("order", 3);
    let log: Log = Rc::default();
    let mut client = Client::new();
    for (i, a) in apps.iter().enumerate() {
        client.bus.serve(a, FakeApp::new(["a", "b", "c"][i], log.clone()));
    }

    let mut saga = Saga::new(1);
    client.saga_call(&mut saga, &apps[0], "push", key("k1")).unwrap();
    client.saga_call(&mut saga, &apps[1], "roll", key("k2")).unwrap();
    client.saga_call(&mut saga, &apps[0], "push", key("k3")).unwrap();
    client.saga_call(&mut saga, &apps[2], "file", key("k4")).unwrap();

    let err = client.saga_call(&mut saga, &apps[1], "fails", Json::object()).unwrap_err();
    assert!(err.contains("forward step failed"), "{err}");
    assert_eq!(saga.steps().len(), 4, "a failed step must not be journaled");

    let report = client.saga_abort(&mut saga);
    assert_eq!(report.get_u64("compensated"), Some(4));
    assert_eq!(report.get_bool("ok"), Some(true));

    let order: Vec<String> = items(at(&report, "order"))
        .iter()
        .map(|s| format!("{}:{}", s.get_u64("seq").unwrap(), s.get_str("app").unwrap()))
        .collect();
    assert_eq!(
        order,
        vec![
            format!("4:{}", apps[2]),
            format!("3:{}", apps[0]),
            format!("2:{}", apps[1]),
            format!("1:{}", apps[0]),
        ],
        "unwind must be descending saga seq across app boundaries"
    );

    assert_eq!(
        *log.borrow(),
        vec![
            "do a.push(k1)",
            "do b.roll(k2)",
            "do a.push(k3)",
            "do c.file(k4)",
            "undo c.file(k4)",
            "undo a.push(k3)",
            "undo b.roll(k2)",
            "undo a.push(k1)",
        ]
    );

    for a in &apps {
        assert_eq!(client.store_of(a), "{}", "{a} not fully compensated");
    }
}

#[test]
fn compensation_failure_is_surfaced_and_the_unwind_continues() {
    let apps = app_names("fail", 2);
    let log: Log = Rc::default();
    let mut client = Client::new();
    client.bus.serve(&apps[0], FakeApp::new("a", log.clone()));
    client.bus.serve(&apps[1], FakeApp::new("b", log.clone()).undo_fails(&["roll"]));

    let mut saga = Saga::new(2);
    client.saga_call(&mut saga, &apps[0], "push", key("k1")).unwrap();
    client.saga_call(&mut saga, &apps[1], "roll", key("k2")).unwrap();
    client.saga_call(&mut saga, &apps[0], "push", key("k3")).unwrap();

    let report = client.saga_abort(&mut saga);
    assert_eq!(report.get_bool("ok"), Some(false));
    assert_eq!(report.get_u64("compensated"), Some(2), "the two survivors still unwound");

    let failed = items(at(&report, "failed"));
    assert_eq!(failed.len(), 1);
    assert_eq!(failed[0].get_str("app"), Some(apps[1].as_str()));
    assert_eq!(failed[0].get_u64("seq"), Some(2));
    assert_eq!(failed[0].get_str("verb"), Some("roll"));
    assert_eq!(failed[0].get_str("error"), Some("compensation refused"));

    let per_app = at(&report, "apps");
    assert_eq!(at(per_app, &apps[1]).get_u64("compensated"), Some(0));
    assert_eq!(items(at(at(per_app, &apps[1]), "failed")).len(), 1);
    assert_eq!(at(per_app, &apps[0]).get_u64("compensated"), Some(2));
    assert_eq!(items(at(at(per_app, &apps[0]), "failed")).len(), 0);

    assert_eq!(
        *log.borrow(),
        vec![
            "do a.push(k1)",
            "do b.roll(k2)",
            "do a.push(k3)",
            "undo a.push(k3)",
            "FAIL b.roll",
            "undo a.push(k1)",
        ]
    );

    assert_eq!(client.store_of(&apps[0]), "{}");
    assert_eq!(client.store_of(&apps[1]), r#"{"k2":"roll"}"#);
}

#[test]
fn abort_releases_the_host_journals_instead_of_double_compensating() {
    let apps = app_names("release", 2);
    let log: Log = Rc::default();
    let mut client = Client::new();
    client.bus.serve(&apps[0], FakeApp::new("a", log.clone()));
    client.bus.serve(&apps[1], FakeApp::new("b", log.clone()));

    let mut saga = Saga::new(3);
    client.saga_call(&mut saga, &apps[0], "push", key("k1")).unwrap();
    client.saga_call(&mut saga, &apps[1], "roll", key("k2")).unwrap();
    let report = client.saga_abort(&mut saga);
    assert_eq!(report.get_u64("compensated"), Some(2));

    let after_unwind = log.borrow().clone();

    for a in &apps {
        let r = client.abort(a, 3).expect("host abort");
        assert_eq!(r.get_u64("compensated"), Some(0), "{a} would have double-compensated");
        assert_eq!(items(at(&r, "failed")).len(), 0);
    }
    assert_eq!(*log.borrow(), after_unwind, "no inverse may run twice");
}

#[test]
fn an_irreversible_verb_is_refused_before_it_runs() {
    let apps = app_names("gate", 2);
    let log: Log = Rc::default();
    let mut client = Client::new();
    client.bus.serve(&apps[0], FakeApp::new("a", log.clone()));
    client.bus.serve(&apps[1], FakeApp::new("b", log.clone()).irreversible(&["wire.transfer"]));

    let mut saga = Saga::new(4);
    client.saga_call(&mut saga, &apps[0], "push", key("k1")).unwrap();

    let err = client.saga_call(&mut saga, &apps[1], "wire.transfer", key("k2")).unwrap_err();
    assert!(
        err.contains("verb not reversible"),
        "expected the host's rev gate, got: {err}"
    );

    assert_eq!(*log.borrow(), vec!["do a.push(k1)"]);
    assert_eq!(client.store_of(&apps[1]), "{}");
    assert_eq!(saga.steps().len(), 1);

    client.saga_call(&mut saga, &apps[1], "check", key("probe")).unwrap();
    assert_eq!(
        saga.steps().len(),
        2,
        "the saga journals what it called; the HOST is what declines to journal `pure`"
    );

    let report = client.saga_abort(&mut saga);
    assert_eq!(report.get_u64("compensated"), Some(2));
}

#[test]
fn commit_leaves_every_app_applied() {
    let apps = app_names("commit", 2);
    let log: Log = Rc::default();
    let mut client = Client::new();
    client.bus.serve(&apps[0], FakeApp::new("a", log.clone()));
    client.bus.serve(&apps[1], FakeApp::new("b", log.clone()));

    let mut saga = Saga::new(5);
    client.saga_call(&mut saga, &apps[0], "push", key("k1")).unwrap();
    client.saga_call(&mut saga, &apps[1], "roll", key("k2")).unwrap();

    let report = client.saga_commit(&mut saga);
    assert_eq!(report.get_bool("ok"), Some(true));
    assert_eq!(report.get_u64("committed"), Some(2));

    assert_eq!(
        *log.borrow(),
        vec!["do a.push(k1)", "do b.roll(k2)"],
        "commit must not compensate"
    );
    assert_eq!(client.store_of(&apps[0]), r#"{"k1":"push"}"#);
    assert_eq!(client.store_of(&apps[1]), r#"{"k2":"roll"}"#);

    for a in &apps {
        let r = client.abort(a, 5).expect("host abort");
        assert_eq!(r.get_u64("compensated"), Some(0));
    }
}

#[test]
fn host_journals_are_abortable_while_the_saga_is_open() {
    let log: Log = Rc::default();
    let mut client = Client::new();
    client.bus.serve("a", FakeApp::new("a", log.clone()));
    let mut saga = Saga::new(6);
    client.saga_call(&mut saga, "a", "push", key("k1")).unwrap();
    let r = client.abort("a", 6).expect("host abort");
    assert_eq!(r.get_u64("compensated"), Some(1));
    assert_eq!(*log.borrow(), vec!["do a.push(k1)", "undo a.push(k1)"]);
}

#[test]
fn a_lost_connection_rejoins_the_transaction_before_the_call_runs_again() {
    let log: Log = Rc::default();
    let mut client = Client::new();
    client.bus.serve("a", FakeApp::new("a", log.clone()).irreversible(&["wire.transfer"]));
    let mut saga = Saga::new(7);
    client.saga_call(&mut saga, "a", "push", key("k1")).unwrap();
    assert_eq!(client.bus.dialed, 1);

    // The next line is swallowed and the connection is lost: the call goes out again on a fresh
    // connection, where the host still journals it.
    *client.bus.hosts["a"].patience.borrow_mut() = Some(0);
    client.saga_call(&mut saga, "a", "push", key("k2")).unwrap();
    assert_eq!(client.bus.dialed, 2);
    assert_eq!(*log.borrow(), vec!["do a.push(k1)", "do a.push(k2)"]);
    assert_eq!(client.bus.hosts["a"].journals.borrow()[&7].len(), 2);

    // And its gate still holds.
    *client.bus.hosts["a"].patience.borrow_mut() = Some(0);
    let err = client.saga_call(&mut saga, "a", "wire.transfer", key("k3")).unwrap_err();
    assert_eq!(err, "verb not reversible: wire.transfer");
    assert_eq!(client.bus.dialed, 3);

    let report = client.saga_abort(&mut saga);
    assert_eq!(report.get_u64("compensated"), Some(2));
    assert_eq!(client.store_of("a"), "{}");
}

#[test]
fn a_host_that_went_away_is_reported_and_the_others_are_still_released() {
    let log: Log = Rc::default();
    let mut client = Client::new();
    client.bus.serve("a", FakeApp::new("a", log.clone()));
    client.bus.serve("b", FakeApp::new("b", log.clone()));
    let mut saga = Saga::new(8);
    client.saga_call(&mut saga, "a", "push", key("k1")).unwrap();
    client.saga_call(&mut saga, "b", "roll", key("k2")).unwrap();
    *client.bus.hosts["b"].patience.borrow_mut() = Some(0);
    client.bus.hosts.remove("b");
    let report = client.saga_abort(&mut saga);
    assert_eq!(
        show(&report),
        concat_report(
            r#"{"apps":{"a":{"compensated":1,"failed":[]},"#,
            r#""b":{"compensated":0,"failed":[{"app":"b","error":"app 'b' not reachable (memory): no such host","seq":2,"verb":"roll"}]}},"#,
            r#""compensated":1,"failed":[{"app":"b","error":"app 'b' not reachable (memory): no such host","seq":2,"verb":"roll"}],"#,
            r#""ok":false,"order":[{"app":"b","seq":2,"verb":"roll"},{"app":"a","seq":1,"verb":"push"}],"#,
            r#""releaseFailed":[{"app":"b","error":"app 'b' not reachable (memory): no such host"}],"txn":8}"#,
        )
    );
    assert_eq!(*log.borrow(), vec!["do a.push(k1)", "do b.roll(k2)", "undo a.push(k1)"]);
    let r = client.abort("a", 8).expect("host abort");
    assert_eq!(r.get_u64("compensated"), Some(0));
}

fn concat_report(a: &str, b: &str, c: &str, d: &str, e: &str) -> String {
    format!("{a}{b}{c}{d}{e}")
}

/// An app of a release chain: `deploy.verify` always fails, and one verb may refuse to be undone.
struct ReleaseApp {
    name: &'static str,
    store: RefCell<BTreeMap<String, String>>,
    log: Log,
    undo_fails: Option<&'static str>,
}

impl ReleaseApp {
    fn new(name: &'static str, log: &Log, undo_fails: Option<&'static str>) -> Self {
        ReleaseApp { name, store: RefCell::default(), log: log.clone(), undo_fails }
    }
}

impl Handler for ReleaseApp {
    fn call(&self, verb: &str, args: &Json) -> Result<Json, String> {
        match verb {
            "file.push" | "deploy.roll" | "citation.file" => {
                let key = args.get_str("key").unwrap();
                let value = args.get_str("value").unwrap_or("").to_string();
                self.store.borrow_mut().insert(key.to_string(), value);
                self.log.borrow_mut().push(format!("do {}.{verb}({key})", self.name));
                Ok(Json::object().with("key", Json::text(key)).with("app", Json::text(self.name)))
            }
            "deploy.verify" => Err("health check failed: 2/3 replicas unready".to_string()),
            other => Err(format!("no such verb: {other}")),
        }
    }

    fn get(&self, _state: &str) -> Result<Json, String> {
        let mut stored = Json::object();
        for (key, value) in self.store.borrow().iter() {
            stored = stored.with(key, Json::text(value));
        }
        Ok(stored)
    }

    fn surface(&self) -> Json {
        Json::object()
    }

    fn undo(&self, verb: &str, args: &Json, result: &Json) -> Result<Json, String> {
        assert_eq!(result.get_str("app"), Some(self.name));
        assert_eq!(result.get_str("key"), args.get_str("key"));
        if self.undo_fails == Some(verb) {
            self.log.borrow_mut().push(format!("FAIL {}.{verb}", self.name));
            return Err("registry tag is pinned; rollback refused".to_string());
        }
        let key = args.get_str("key").unwrap();
        self.store.borrow_mut().remove(key);
        self.log.borrow_mut().push(format!("undo {}.{verb}({key})", self.name));
        Ok(Json::object().with("undone", Json::text(verb)))
    }

    fn rev(&self, verb: &str) -> &'static str {
        match verb {
            "file.push" | "deploy.roll" | "citation.file" => "inverse",
            "deploy.verify" => "pure",
            _ => "irreversible",
        }
    }
}

#[test]
fn a_release_chain_unwinds_past_a_refused_rollback() {
    let log: Log = Rc::default();
    let mut client = Client::new();
    client.bus.serve("zftp", ReleaseApp::new("zftp", &log, None));
    client.bus.serve("zcontainer", ReleaseApp::new("zcontainer", &log, Some("deploy.roll")));
    client.bus.serve("zcite", ReleaseApp::new("zcite", &log, None));

    let mut saga = Saga::new(4242);
    for (app, verb, args) in [
        ("zftp", "file.push", r#"{"key":"app-1.7.2.tar.zst","value":"sha256:aa"}"#),
        ("zcontainer", "deploy.roll", r#"{"key":"web","value":"1.7.2"}"#),
        ("zftp", "file.push", r#"{"key":"app-1.7.2.sig","value":"sha256:bb"}"#),
        ("zcite", "citation.file", r#"{"key":"release-note","value":"doi:10.0/1.7.2"}"#),
    ] {
        client.saga_call(&mut saga, app, verb, doc(args)).unwrap();
    }
    assert_eq!(
        client.saga_call(&mut saga, "zcontainer", "deploy.verify", doc(r#"{"key":"web"}"#)).err(),
        Some("health check failed: 2/3 replicas unready".to_string())
    );

    let report = client.saga_abort(&mut saga);
    assert_eq!(
        *log.borrow(),
        vec![
            "do zftp.file.push(app-1.7.2.tar.zst)",
            "do zcontainer.deploy.roll(web)",
            "do zftp.file.push(app-1.7.2.sig)",
            "do zcite.citation.file(release-note)",
            "undo zcite.citation.file(release-note)",
            "undo zftp.file.push(app-1.7.2.sig)",
            "FAIL zcontainer.deploy.roll",
            "undo zftp.file.push(app-1.7.2.tar.zst)",
        ]
    );
    assert_eq!(
        show(at(&report, "failed")),
        r#"[{"app":"zcontainer","error":"registry tag is pinned; rollback refused","seq":2,"verb":"deploy.roll"}]"#
    );
    assert_eq!(show(at(at(&report, "apps"), "zftp")), r#"{"compensated":2,"failed":[]}"#);
    assert_eq!(show(at(at(&report, "apps"), "zcite")), r#"{"compensated":1,"failed":[]}"#);
    assert_eq!(show(at(&report, "releaseFailed")), "[]");
    assert_eq!(client.store_of("zftp"), "{}");
    assert_eq!(client.store_of("zcontainer"), r#"{"web":"1.7.2"}"#);
    assert_eq!(client.store_of("zcite"), "{}");
}

// ---- the client alone ----

struct Mock;

impl Handler for Mock {
    fn call(&self, verb: &str, args: &Json) -> Result<Json, String> {
        match verb {
            "echo" => Ok(Json::object()
                .with("echoed", args.get("msg").cloned().unwrap_or(Json::Null))),
            other => Err(format!("no such verb: {other}")),
        }
    }
    fn get(&self, state: &str) -> Result<Json, String> {
        match state {
            "count" => Ok(Json::Unsigned(42)),
            other => Err(format!("no such state: {other}")),
        }
    }
    fn surface(&self) -> Json {
        doc(r#"{
            "verbs": [ { "id": "echo", "params": [ { "name": "msg", "type": "string" } ], "returns": "object" } ],
            "state": [ { "id": "count", "returns": "number" } ],
            "events": [ { "id": "tick", "payload": "object" } ]
        }"#)
    }
}

#[test]
fn app_module_drives_a_running_host() {
    let app = "stryke-app-test";
    let mut client = Client::new();
    client.bus.serve(app, Mock);

    // open: reachable
    let opened = client.open(app).expect("open");
    assert_eq!(opened.get_bool("ok"), Some(true));

    // list: includes this app
    let apps = client::list(&client.bus.files());
    assert!(items(&apps).iter().any(|a| a.as_str() == Some(app)));

    // verbs: surface manifest
    let exchange = client::verbs(&mut client.pool, app);
    let surface = client.drive(exchange).expect("verbs");
    assert_eq!(items(at(&surface, "state"))[0].get_str("id"), Some("count"));

    // call echo: value back
    let r = client.call(app, "echo", doc(r#"{"msg":"hi"}"#)).expect("call");
    assert_eq!(r.get_str("echoed"), Some("hi"));

    // get count: 42
    assert_eq!(client.get(app, "count").expect("get").as_u64(), Some(42));

    // unknown verb: the app's message
    let err = client.call(app, "nope", Json::Null).unwrap_err();
    assert!(err.contains("no such verb"));

    // subscribe, emit from the host, poll drains the event
    let exchange = client::subscribe(&mut client.pool, app, "tick");
    client.drive(exchange).expect("sub");
    client.bus.emit(app, "tick", doc(r#"{"n":1}"#));
    let events = client.poll(app).expect("poll");
    let arr = items(&events);
    assert_eq!(arr.len(), 1);
    assert_eq!(arr[0].get_str("event"), Some("tick"));
    assert_eq!(at(&arr[0], "payload").get_u64("n"), Some(1));
}

#[test]
fn here_resolves_the_hosting_app_from_the_env() {
    let app = "stryke-app-here";
    let mut client = Client::new();
    client.bus.serve(app, Mock);

    // unset
    assert!(client.here(None).is_err());

    // set by the host
    let here = client.here(Some(app.to_string())).expect("here");
    assert_eq!(here.get_str("app"), Some(app));
    assert_eq!(here.get_bool("ok"), Some(true));

    // and it reaches the same surface
    assert_eq!(client.get(app, "count").expect("get").as_u64(), Some(42));
}

#[test]
fn events_during_a_call_wait_for_the_poll() {
    let mut client = Client::new();
    client.bus.serve("a", Mock);
    client.open("a").unwrap();
    client.bus.emit("a", "tick", doc(r#"{"n":1}"#));
    client.bus.emit("a", "tick", doc(r#"{"n":2}"#));
    assert_eq!(client.get("a", "count").unwrap().as_u64(), Some(42));
    client.bus.emit("a", "tick", doc(r#"{"n":3}"#));
    let events = client.poll("a").unwrap();
    assert_eq!(
        show(&events),
        concat_report(
            "[",
            r#"{"event":"tick","payload":{"n":1},"t":"event"},"#,
            r#"{"event":"tick","payload":{"n":2},"t":"event"},"#,
            r#"{"event":"tick","payload":{"n":3},"t":"event"}"#,
            "]",
        )
    );
    assert_eq!(show(&client.poll("a").unwrap()), "[]");
}

#[test]
fn an_app_that_went_away_cannot_be_opened_again() {
    let mut client = Client::new();
    client.bus.serve("a", Mock);
    assert!(client.open("a").is_ok());
    assert!(client.open("a").is_ok());
    client.bus.hosts.remove("a");
    assert_eq!(
        client.open("a").err(),
        Some("app 'a' not reachable (memory): no such host".to_string())
    );
}

#[test]
fn events_wait_for_the_poll_over_a_lost_connection() {
    let mut client = Client::new();
    client.bus.serve("a", Mock);
    client.bus.emit("a", "tick", doc(r#"{"n":1}"#));
    assert_eq!(client.get("a", "count").unwrap().as_u64(), Some(42));
    *client.bus.hosts["a"].patience.borrow_mut() = Some(0);
    assert_eq!(client.get("a", "count").unwrap().as_u64(), Some(42));
    assert_eq!(client.bus.dialed, 2);
    assert_eq!(
        show(&client.poll("a").unwrap()),
        r#"[{"event":"tick","payload":{"n":1},"t":"event"}]"#
    );
    assert_eq!(show(&client.poll("a").unwrap()), "[]");
}

#[test]
fn an_app_that_is_not_there_is_not_pooled() {
    let mut client = Client::new();
    let err = client.open("nowhere").unwrap_err();
    assert_eq!(err, "app 'nowhere' not reachable (memory): no such host");
    assert_eq!(client.bus.dialed, 1);
    assert!(client.pool.take("nowhere").is_none());
}
