//! The open sagas, by transaction id.

use crate::json;
use crate::json::{Json, Tree};
use crate::report;
use crate::saga::{Closing, Forward, ForwardView, Progress, ProgressView, Saga, SagaView, Unwind};
use crate::text;
use std::collections::HashMap;
use vstd::prelude::*;
use vstd::string::*;

verus! {

broadcast use vstd::std_specs::hash::group_hash_axioms;

/// The open sagas, and how many transaction ids have been minted.
pub struct Registry {
    sagas: HashMap<u64, Saga>,
    minted: u64,
}

/// What there is to say of a [`Registry`].
#[verifier::ext_equal]
pub struct RegistryView {
    pub sagas: Map<u64, SagaView>,
    pub minted: u64,
}

impl View for Registry {
    type V = RegistryView;

    closed spec fn view(&self) -> RegistryView {
        RegistryView {
            sagas: Map::new(|txn: u64| self.sagas@.contains_key(txn), |txn: u64| self.sagas@[txn]@),
            minted: self.minted,
        }
    }
}

impl RegistryView {
    /// What holds of every registry: each open saga stands under its own transaction id.
    pub open spec fn wf(self) -> bool {
        forall|txn: u64| #[trigger]
            self.sagas.contains_key(txn) ==> self.sagas[txn].wf() && self.sagas[txn].txn == txn
    }

    /// The registry after the app answered what `forward`, a step of an open saga, sent it, and
    /// how far the step is.
    pub open spec fn advanced(
        self,
        forward: ForwardView,
        answer: Result<Tree, Seq<char>>,
    ) -> (RegistryView, ProgressView) {
        let (saga, progress) = self.sagas[forward.txn].advanced(forward, answer);
        (RegistryView { sagas: self.sagas.insert(forward.txn, saga), ..self }, progress)
    }
}

/// The transaction id for the `n`th one that process `pid` mints: the process in the high half,
/// the count in the low half.
pub open spec fn minted_id(pid: u32, n: u64) -> u64 {
    (pid as nat * 0x1_0000_0000 + n as nat % 0x1_0000_0000) as u64
}

/// Mints a transaction id that no other process mints.
pub fn next_txn(pid: u32, n: u64) -> (txn: u64)
    ensures
        txn == minted_id(pid, n),
{
    let high: u64 = pid as u64;
    assert((high << 32) | (n & 0xffff_ffff) == high * 0x1_0000_0000 + n % 0x1_0000_0000)
        by (bit_vector)
        requires
            high <= 0xffff_ffff,
    ;
    (high << 32) | (n & 0xffff_ffff)
}

/// `no open saga: ..`
pub open spec fn not_open(txn: u64) -> Seq<char> {
    "no open saga: "@ + text::decimal_of(txn as nat)
}

/// `saga already open: ..`
pub open spec fn already_open(txn: u64) -> Seq<char> {
    "saga already open: "@ + text::decimal_of(txn as nat)
}

/// `{txn}`
pub open spec fn txn_doc(txn: u64) -> Tree {
    Tree::Object(Map::empty().insert("txn"@, Tree::Unsigned(txn)))
}

impl Registry {
    /// A registry without open sagas.
    pub fn new() -> (registry: Registry)
        ensures
            registry@ == (RegistryView { sagas: Map::empty(), minted: 0 }),
            registry@.wf(),
    {
        let registry = Registry { sagas: HashMap::new(), minted: 0 };
        assert(registry@.sagas =~= Map::empty());
        registry
    }

    /// Whether no further transaction id can be minted.
    pub fn exhausted(&self) -> (yes: bool)
        ensures
            yes == (self@.minted == u64::MAX),
    {
        self.minted == u64::MAX
    }

    /// Whether the journal of the open saga `txn` can take no further step.
    pub fn full(&self, txn: u64) -> (yes: bool)
        ensures
            yes == (self@.sagas.contains_key(txn) && self@.sagas[txn].steps.len() >= usize::MAX),
    {
        match self.sagas.get(&txn) {
            Some(saga) => saga.full(),
            None => false,
        }
    }
}

fn not_open_message(txn: u64) -> (message: String)
    ensures
        message@ == not_open(txn),
{
    "no open saga: ".to_owned().concat(text::decimal(txn).as_str())
}

/// The id of the saga that [`begin`] opens, and how many ids have then been minted.
pub open spec fn begun_id(registry: RegistryView, txn: Option<u64>, pid: u32) -> (u64, u64) {
    match txn {
        Some(txn) => (txn, registry.minted),
        None => {
            let n = (registry.minted + 1) as u64;
            (minted_id(pid, n), n)
        },
    }
}

/// Opens a saga, under a minted id where none is given. The answer is `{txn}`.
pub fn begin(registry: &mut Registry, txn: Option<u64>, pid: u32) -> (answer: Result<Json, String>)
    requires
        old(registry)@.wf(),
        txn is None ==> old(registry)@.minted < u64::MAX,
    ensures
        final(registry)@.wf(),
        final(registry)@.minted == begun_id(old(registry)@, txn, pid).1,
        ({
            let id = begun_id(old(registry)@, txn, pid).0;
            if old(registry)@.sagas.contains_key(id) {
                &&& json::told(answer) == Err::<Tree, Seq<char>>(already_open(id))
                &&& final(registry)@.sagas == old(registry)@.sagas
            } else {
                &&& json::told(answer) == Ok::<Tree, Seq<char>>(txn_doc(id))
                &&& final(registry)@.sagas == old(registry)@.sagas.insert(id, SagaView::empty(id))
            }
        }),
{
    let ghost before = registry@;
    let id: u64 = match txn {
        Some(txn) => txn,
        None => {
            registry.minted = registry.minted + 1;
            next_txn(pid, registry.minted)
        },
    };
    assert(registry@.sagas =~= before.sagas);
    if registry.sagas.contains_key(&id) {
        return Err("saga already open: ".to_owned().concat(text::decimal(id).as_str()));
    }
    registry.sagas.insert(id, Saga::new(id));
    assert(registry@.sagas =~= before.sagas.insert(id, SagaView::empty(id)));
    Ok(Json::object().with("txn", Json::Unsigned(id)))
}

/// Starts one step of an open saga.
pub fn call(registry: &Registry, txn: u64, app: &str, verb: &str, args: Json) -> (res: Result<
    Forward,
    String,
>)
    requires
        registry@.wf(),
    ensures
        match res {
            Ok(forward) => {
                &&& registry@.sagas.contains_key(txn)
                &&& forward@ == registry@.sagas[txn].forward(app@, verb@, args@)
                &&& registry@.sagas[txn].admits(forward@)
            },
            Err(message) => !registry@.sagas.contains_key(txn) && message@ == not_open(txn),
        },
{
    match registry.sagas.get(&txn) {
        Some(saga) => Ok(saga.call(app, verb, args)),
        None => Err(not_open_message(txn)),
    }
}

/// Takes in what the app answered to what `forward`, a step of an open saga, sent it.
pub fn advance(registry: &mut Registry, forward: Forward, answer: Result<Json, String>) -> (
    progress: Progress)
    requires
        old(registry)@.wf(),
        old(registry)@.sagas.contains_key(forward@.txn),
        old(registry)@.sagas[forward@.txn].admits(forward@),
        answer is Ok && !forward@.joining ==> old(registry)@.sagas[forward@.txn].steps.len()
            < usize::MAX,
    ensures
        (final(registry)@, progress@) == old(registry)@.advanced(forward@, json::told(answer)),
        final(registry)@.wf(),
        progress matches Progress::Continue(next) ==> final(registry)@.sagas.contains_key(
            next@.txn,
        ) && final(registry)@.sagas[next@.txn].admits(next@),
{
    let ghost before = registry@;
    let txn: u64 = forward.txn();
    match registry.sagas.remove(&txn) {
        Some(saga) => {
            let mut saga = saga;
            let ghost was = saga@;
            assert(was == before.sagas[txn]);
            let progress = saga.advance(forward, answer);
            let ghost now = saga@;
            registry.sagas.insert(txn, saga);
            assert(registry@.sagas =~= before.sagas.insert(txn, now));
            progress
        },
        None => Progress::Finished(answer),
    }
}

/// Closes an open saga by a commit.
pub fn commit(registry: &mut Registry, txn: u64) -> (res: Result<Closing, String>)
    requires
        old(registry)@.wf(),
    ensures
        final(registry)@.wf(),
        final(registry)@ == (RegistryView {
            sagas: old(registry)@.sagas.remove(txn),
            ..old(registry)@
        }),
        match res {
            Ok(closing) => {
                &&& old(registry)@.sagas.contains_key(txn)
                &&& closing@ == old(registry)@.sagas[txn].closing()
            },
            Err(message) => !old(registry)@.sagas.contains_key(txn) && message@ == not_open(txn),
        },
{
    let ghost before = registry@;
    let removed = registry.sagas.remove(&txn);
    assert(registry@.sagas =~= before.sagas.remove(txn));
    match removed {
        Some(saga) => {
            let mut saga = saga;
            Ok(saga.commit())
        },
        None => Err(not_open_message(txn)),
    }
}

/// Closes an open saga by an abort.
pub fn abort(registry: &mut Registry, txn: u64) -> (res: Result<Unwind, String>)
    requires
        old(registry)@.wf(),
    ensures
        final(registry)@.wf(),
        final(registry)@ == (RegistryView {
            sagas: old(registry)@.sagas.remove(txn),
            ..old(registry)@
        }),
        match res {
            Ok(unwind) => {
                &&& old(registry)@.sagas.contains_key(txn)
                &&& unwind@ == old(registry)@.sagas[txn].unwind()
            },
            Err(message) => !old(registry)@.sagas.contains_key(txn) && message@ == not_open(txn),
        },
{
    let ghost before = registry@;
    let removed = registry.sagas.remove(&txn);
    assert(registry@.sagas =~= before.sagas.remove(txn));
    match removed {
        Some(saga) => {
            let mut saga = saga;
            Ok(saga.abort())
        },
        None => Err(not_open_message(txn)),
    }
}

/// The forward steps of an open saga, as `[{seq, app, verb}]`.
pub fn steps(registry: &Registry, txn: u64) -> (answer: Result<Json, String>)
    ensures
        json::told(answer) == if registry@.sagas.contains_key(txn) {
            Ok::<Tree, Seq<char>>(report::steps_doc(registry@.sagas[txn].steps))
        } else {
            Err(not_open(txn))
        },
{
    match registry.sagas.get(&txn) {
        Some(saga) => Ok(report::steps_summary(saga.steps())),
        None => Err(not_open_message(txn)),
    }
}

} // verus!
