//! Connections, one per app, and the pool that keeps them between calls.

use crate::frame;
use crate::json;
use crate::json::{Json, Tree};
use vstd::prelude::*;
use vstd::string::*;

verus! {

/// One live connection to an app's endpoint.
pub struct Conn<S> {
    /// The endpoint, which serves both directions.
    pub reader: S,
    /// Events that arrived while a reply was awaited.
    pub events: Vec<Json>,
    /// The correlation id of the last request.
    pub next_id: u64,
    /// The transaction that this connection has open on the host, which keeps that state per
    /// connection.
    pub open_txn: Option<u64>,
}

/// What there is to say of a [`Conn`].
#[verifier::ext_equal]
pub struct ConnView<S> {
    pub reader: S,
    pub events: Seq<Tree>,
    pub next_id: u64,
    pub open_txn: Option<u64>,
}

impl<S> View for Conn<S> {
    type V = ConnView<S>;

    open spec fn view(&self) -> ConnView<S> {
        ConnView {
            reader: self.reader,
            events: json::trees(self.events@),
            next_id: self.next_id,
            open_txn: self.open_txn,
        }
    }
}

/// What an incoming frame is to a request that awaits its reply.
pub enum Heard {
    /// The reply.
    Reply(Json),
    /// Something else; the reply is still to come.
    Waiting,
    /// No frame at all.
    Malformed(String),
}

/// What there is to say of a [`Heard`].
pub enum HeardView {
    Reply(Tree),
    Waiting,
    Malformed(Seq<char>),
}

impl View for Heard {
    type V = HeardView;

    open spec fn view(&self) -> HeardView {
        match self {
            Heard::Reply(reply) => HeardView::Reply(reply@),
            Heard::Waiting => HeardView::Waiting,
            Heard::Malformed(message) => HeardView::Malformed(message@),
        }
    }
}

/// What `frame` is to the request that went out under `id`: the reply where it is one to that id,
/// and nothing to it where it is anything else.
pub open spec fn hears(id: u64, frame: Result<Tree, Seq<char>>) -> HeardView {
    match frame {
        Err(message) => HeardView::Malformed(message),
        Ok(doc) => if frame::is_reply_to(doc, id) {
            HeardView::Reply(doc)
        } else {
            HeardView::Waiting
        },
    }
}

impl<S> ConnView<S> {
    /// A connection that was just dialed.
    pub open spec fn fresh(reader: S) -> ConnView<S> {
        ConnView { reader, events: Seq::empty(), next_id: 0, open_txn: None }
    }

    /// The connection after a request went out on it.
    pub open spec fn requested(self) -> ConnView<S> {
        ConnView { next_id: (self.next_id + 1) as u64, ..self }
    }

    /// The connection after `frame` came in on it: an event is kept behind those before it.
    pub open spec fn after_frame(self, frame: Result<Tree, Seq<char>>) -> ConnView<S> {
        match frame {
            Ok(doc) if frame::is_event(doc) => ConnView { events: self.events.push(doc), ..self },
            _ => self,
        }
    }
}

impl<S> Conn<S> {
    /// A connection that was just dialed.
    pub fn new(reader: S) -> (conn: Conn<S>)
        ensures
            conn@ == ConnView::fresh(reader),
    {
        Conn { reader, events: Vec::new(), next_id: 0, open_txn: None }
    }

    /// Takes the next correlation id and puts it on `frame`.
    pub fn stamp(&mut self, frame: Json) -> (request: Json)
        requires
            old(self)@.next_id < u64::MAX,
            frame@ is Object,
        ensures
            final(self)@ == old(self)@.requested(),
            request@ == frame::stamped(frame@, final(self)@.next_id),
    {
        self.next_id = self.next_id + 1;
        frame.with("id", Json::Unsigned(self.next_id))
    }

    /// Takes in a frame while the reply to the request under `id` is awaited: hands out the reply,
    /// keeps an event, and passes over any other frame.
    pub fn hear(&mut self, id: u64, frame: Result<Json, String>) -> (heard: Heard)
        ensures
            heard@ == hears(id, json::told(frame)),
            final(self)@ == old(self)@.after_frame(json::told(frame)),
    {
        match frame {
            Err(message) => Heard::Malformed(message),
            Ok(doc) => {
                if frame::replies_to(&doc, id) {
                    proof {
                        reveal_strlit("reply");
                        reveal_strlit("event");
                        assert("reply"@[0] != "event"@[0]);
                    }
                    Heard::Reply(doc)
                } else {
                    self.keep(doc);
                    Heard::Waiting
                }
            },
        }
    }

    /// Takes in a frame while no reply is awaited: keeps an event, and passes over anything
    /// else.
    pub fn overhear(&mut self, frame: Result<Json, String>)
        ensures
            final(self)@ == old(self)@.after_frame(json::told(frame)),
    {
        match frame {
            Err(_) => {},
            Ok(doc) => self.keep(doc),
        }
    }

    fn keep(&mut self, doc: Json)
        ensures
            final(self)@ == old(self)@.after_frame(Ok(doc@)),
    {
        if frame::tells_event(&doc) {
            proof {
                json::lemma_trees_push(self.events@, doc);
            }
            self.events.push(doc);
        }
    }

    /// Hands out the events that were kept, and keeps them no longer.
    pub fn drain(&mut self) -> (events: Json)
        ensures
            events@ == Tree::Array(old(self)@.events),
            final(self)@ == (ConnView { events: Seq::empty(), ..old(self)@ }),
    {
        let mut drained: Vec<Json> = Vec::new();
        drained.append(&mut self.events);
        proof {
            assert(drained@ =~= old(self).events@);
        }
        Json::Array(drained)
    }
}

/// The connections that are kept between calls, by the name of the app.
pub struct Pool<S> {
    entries: Vec<(String, Conn<S>)>,
}

impl<S> Pool<S> {
    /// Whether entry `i` is that of `app`.
    spec fn at(&self, i: int, app: Seq<char>) -> bool {
        0 <= i < self.entries@.len() && self.entries@[i].0@ == app
    }

    /// No app has two connections.
    pub closed spec fn wf(&self) -> bool {
        forall|i: int, j: int|
            0 <= i < j < self.entries@.len() ==> #[trigger] self.entries@[i].0@
                != #[trigger] self.entries@[j].0@
    }

    /// The connection of `app`.
    pub closed spec fn conn(&self, app: Seq<char>) -> Option<ConnView<S>> {
        if exists|i: int| self.at(i, app) {
            Some(self.entries@[choose|i: int| self.at(i, app)].1@)
        } else {
            None
        }
    }

    /// A pool without connections.
    pub fn new() -> (pool: Pool<S>)
        ensures
            pool.wf(),
            forall|app: Seq<char>| pool.conn(app) is None,
    {
        Pool { entries: Vec::new() }
    }

    fn position(&self, app: &str) -> (res: Option<usize>)
        ensures
            match res {
                Some(i) => self.at(i as int, app@),
                None => forall|i: int| !self.at(i, app@),
            },
    {
        let name = app.to_owned();
        let mut i: usize = 0;
        while i < self.entries.len()
            invariant
                i <= self.entries.len(),
                name@ == app@,
                forall|j: int| j < i ==> !self.at(j, app@),
            decreases self.entries.len() - i,
        {
            if self.entries[i].0 == name {
                return Some(i);
            }
            i = i + 1;
        }
        None
    }

    /// Whether `app` has a connection that has used up its correlation ids.
    pub fn exhausted(&self, app: &str) -> (yes: bool)
        requires
            self.wf(),
        ensures
            yes == (self.conn(app@) matches Some(conn) && conn.next_id == u64::MAX),
    {
        match self.position(app) {
            Some(i) => self.entries[i].1.next_id == u64::MAX,
            None => false,
        }
    }

    /// Takes the connection of `app` out of the pool.
    pub fn take(&mut self, app: &str) -> (conn: Option<Conn<S>>)
        requires
            old(self).wf(),
        ensures
            final(self).wf(),
            match conn {
                Some(c) => old(self).conn(app@) == Some(c@),
                None => old(self).conn(app@) is None,
            },
            final(self).conn(app@) is None,
            forall|other: Seq<char>|
                other != app@ ==> #[trigger] final(self).conn(other) == old(self).conn(other),
    {
        match self.position(app) {
            Some(i) => {
                let ghost before = *self;
                let entry = self.entries.remove(i);
                proof {
                    let k = i as int;
                    assert forall|other: Seq<char>| other != app@ implies #[trigger] self.conn(
                        other,
                    ) == before.conn(other) by {
                        if exists|j: int| before.at(j, other) {
                            let j = choose|j: int| before.at(j, other);
                            let j2 = if j < k { j } else { j - 1 };
                            assert(self.at(j2, other));
                        }
                        if exists|j: int| self.at(j, other) {
                            let j = choose|j: int| self.at(j, other);
                            let j2 = if j < k { j } else { j + 1 };
                            assert(before.at(j2, other));
                        }
                    }
                    assert forall|j: int| !self.at(j, app@) by {
                        let j2 = if j < k { j } else { j + 1 };
                        if self.at(j, app@) {
                            assert(before.entries@[j2].0@ == app@);
                        }
                    }
                }
                Some(entry.1)
            },
            None => None,
        }
    }

    /// Keeps `conn` as the connection of `app`, in place of the one it had.
    pub fn put(&mut self, app: &str, conn: Conn<S>)
        requires
            old(self).wf(),
        ensures
            final(self).wf(),
            final(self).conn(app@) == Some(conn@),
            forall|other: Seq<char>|
                other != app@ ==> #[trigger] final(self).conn(other) == old(self).conn(other),
    {
        let _ = self.take(app);
        let ghost before = *self;
        let ghost last = self.entries@.len() as int;
        let name = app.to_owned();
        self.entries.push((name, conn));
        proof {
            assert(self.at(last, app@));
            assert forall|i: int| 0 <= i < last implies self.entries@[i].0@ != app@ by {
                assert(!before.at(i, app@));
            }
            assert forall|other: Seq<char>| other != app@ implies #[trigger] self.conn(other)
                == before.conn(other) by {
                if exists|j: int| before.at(j, other) {
                    let j = choose|j: int| before.at(j, other);
                    assert(self.at(j, other));
                }
                if exists|j: int| self.at(j, other) {
                    let j = choose|j: int| self.at(j, other);
                    assert(before.at(j, other));
                }
            }
        }
    }
}

} // verus!
