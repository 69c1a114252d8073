//! Cross-app compensating transactions: one chain over several independent applications,
//! unwound in reverse when a step fails.
//!
//! A host can journal the calls of a transaction and unwind them, but only its own: each app
//! counts its steps by a clock of its own, and aborting app by app would compensate in an order
//! that never happened. So a [`Saga`] keeps the one clock that spans the chain, a journal in call
//! order.
//!
//! - The first call to an app sends `begin`, so that the host applies its own gate: a verb that it
//!   cannot undo is refused before it runs.
//! - Every step that succeeds is journaled under a saga-wide number. [`Saga::abort`] compensates
//!   the steps from the last to the first, each with one `undo` to the app that ran it.
//! - A compensation that fails does not stop the unwind. It is reported, once among all failures
//!   and once under its app.
//!
//! After the unwind every app is sent `commit`, which discards the journal that the host kept
//! beside this one without compensating anything: an `abort` would run every inverse a second
//! time.
//!
//! What goes to an app is an [`Operation`]; whoever drives a saga performs it and tells what the
//! app answered.

pub use crate::registry::{abort, advance, begin, call, commit, steps, Registry};

use crate::client;
use crate::conn::Pool;
use crate::exchange::{Effect, Exchange, JobView};
use crate::frame;
use crate::json;
use crate::json::{Json, Tree};
use crate::report;
use crate::text;
use vstd::prelude::*;
use vstd::string::*;

verus! {

/// One executed forward step of a saga, in global call order.
#[derive(Debug)]
pub struct Step {
    /// Saga-wide sequence number, from 1 on, over every participating app.
    pub seq: u64,
    pub app: String,
    pub verb: String,
    pub args: Json,
    pub result: Json,
}

/// What there is to say of a [`Step`].
#[verifier::ext_equal]
pub struct StepView {
    pub seq: u64,
    pub app: Seq<char>,
    pub verb: Seq<char>,
    pub args: Tree,
    pub result: Tree,
}

impl View for Step {
    type V = StepView;

    open spec fn view(&self) -> StepView {
        StepView {
            seq: self.seq,
            app: self.app@,
            verb: self.verb@,
            args: self.args@,
            result: self.result@,
        }
    }
}

impl Clone for Step {
    fn clone(&self) -> (copy: Step)
        ensures
            copy@ == self@,
    {
        Step {
            seq: self.seq,
            app: self.app.clone(),
            verb: self.verb.clone(),
            args: self.args.clone(),
            result: self.result.clone(),
        }
    }
}

/// The steps, in order.
pub open spec fn stepped(steps: Seq<Step>) -> Seq<StepView> {
    steps.map_values(|step: Step| step@)
}

// ---- what goes to an app ----

/// One request of a saga to an app.
pub enum Operation {
    /// Open or join the transaction.
    Begin { app: String, txn: u64 },
    /// Invoke a verb.
    Call { app: String, verb: String, args: Json },
    /// Compensate an executed verb.
    Undo { app: String, verb: String, args: Json, result: Json },
    /// Close the transaction and discard its journal.
    Commit { app: String, txn: u64 },
}

/// What there is to say of an [`Operation`].
#[verifier::ext_equal]
pub enum OperationView {
    Begin { app: Seq<char>, txn: u64 },
    Call { app: Seq<char>, verb: Seq<char>, args: Tree },
    Undo { app: Seq<char>, verb: Seq<char>, args: Tree, result: Tree },
    Commit { app: Seq<char>, txn: u64 },
}

impl View for Operation {
    type V = OperationView;

    open spec fn view(&self) -> OperationView {
        match self {
            Operation::Begin { app, txn } => OperationView::Begin { app: app@, txn: *txn },
            Operation::Call { app, verb, args } => OperationView::Call {
                app: app@,
                verb: verb@,
                args: args@,
            },
            Operation::Undo { app, verb, args, result } => OperationView::Undo {
                app: app@,
                verb: verb@,
                args: args@,
                result: result@,
            },
            Operation::Commit { app, txn } => OperationView::Commit { app: app@, txn: *txn },
        }
    }
}

impl OperationView {
    /// The app that it goes to.
    pub open spec fn app(self) -> Seq<char> {
        match self {
            OperationView::Begin { app, .. } => app,
            OperationView::Call { app, .. } => app,
            OperationView::Undo { app, .. } => app,
            OperationView::Commit { app, .. } => app,
        }
    }

    /// What the exchange with the app is for.
    pub open spec fn job(self) -> JobView {
        match self {
            OperationView::Begin { txn, .. } => JobView::Request {
                frame: frame::begin_doc(txn),
                effect: Effect::Enter(txn),
            },
            OperationView::Call { verb, args, .. } => JobView::Request {
                frame: frame::call_doc(verb, args),
                effect: Effect::Keep,
            },
            OperationView::Undo { verb, args, result, .. } => JobView::Request {
                frame: frame::undo_doc(verb, args, result),
                effect: Effect::Keep,
            },
            OperationView::Commit { txn, .. } => JobView::Request {
                frame: frame::commit_doc(txn),
                effect: Effect::Leave(txn),
            },
        }
    }
}

/// The operations, in order.
pub open spec fn operated(operations: Seq<Operation>) -> Seq<OperationView> {
    operations.map_values(|operation: Operation| operation@)
}

impl Operation {
    /// The app that it goes to.
    pub fn app(&self) -> (app: &String)
        ensures
            app@ == self@.app(),
    {
        match self {
            Operation::Begin { app, .. } => app,
            Operation::Call { app, .. } => app,
            Operation::Undo { app, .. } => app,
            Operation::Commit { app, .. } => app,
        }
    }

    /// Starts the exchange with the app.
    pub fn start<S>(self, pool: &mut Pool<S>) -> (exchange: Exchange<S>)
        requires
            client::can_start(*old(pool), self@.app()),
        ensures
            client::started(*old(pool), *final(pool), exchange, self@.app(), self@.job()),
    {
        match self {
            Operation::Begin { app, txn } => client::begin(pool, app.as_str(), txn),
            Operation::Call { app, verb, args } => client::call(
                pool,
                app.as_str(),
                verb.as_str(),
                args,
            ),
            Operation::Undo { app, verb, args, result } => client::undo(
                pool,
                app.as_str(),
                verb.as_str(),
                args,
                result,
            ),
            Operation::Commit { app, txn } => client::commit(pool, app.as_str(), txn),
        }
    }
}

// ---- one forward step ----

/// A step that is being run: its app is joined first, unless it takes part already.
pub struct Forward {
    txn: u64,
    app: String,
    verb: String,
    args: Json,
    joining: bool,
}

/// What there is to say of a [`Forward`].
#[verifier::ext_equal]
pub struct ForwardView {
    pub txn: u64,
    pub app: Seq<char>,
    pub verb: Seq<char>,
    pub args: Tree,
    /// Whether the app has still to be joined.
    pub joining: bool,
}

impl View for Forward {
    type V = ForwardView;

    closed spec fn view(&self) -> ForwardView {
        ForwardView {
            txn: self.txn,
            app: self.app@,
            verb: self.verb@,
            args: self.args@,
            joining: self.joining,
        }
    }
}

impl ForwardView {
    /// What goes to the app next.
    pub open spec fn operation(self) -> OperationView {
        if self.joining {
            OperationView::Begin { app: self.app, txn: self.txn }
        } else {
            OperationView::Call { app: self.app, verb: self.verb, args: self.args }
        }
    }
}

impl Forward {
    /// The transaction that the step belongs to.
    pub fn txn(&self) -> (txn: u64)
        ensures
            txn == self@.txn,
    {
        self.txn
    }

    /// What goes to the app next.
    pub fn operation(&self) -> (operation: Operation)
        ensures
            operation@ == self@.operation(),
    {
        if self.joining {
            Operation::Begin { app: self.app.clone(), txn: self.txn }
        } else {
            Operation::Call {
                app: self.app.clone(),
                verb: self.verb.clone(),
                args: self.args.clone(),
            }
        }
    }
}

/// How far a step is once the app has answered.
pub enum Progress {
    /// The app has joined; the call goes out next.
    Continue(Forward),
    /// The step has ended, with the verb's value or with an error.
    Finished(Result<Json, String>),
}

/// What there is to say of a [`Progress`].
#[verifier::ext_equal]
pub enum ProgressView {
    Continue(ForwardView),
    Finished(Result<Tree, Seq<char>>),
}

impl View for Progress {
    type V = ProgressView;

    open spec fn view(&self) -> ProgressView {
        match self {
            Progress::Continue(forward) => ProgressView::Continue(forward@),
            Progress::Finished(answer) => ProgressView::Finished(json::told(*answer)),
        }
    }
}

// ---- the saga ----

/// A transaction over several apps: which apps joined, and every step so far.
pub struct Saga {
    txn: u64,
    /// Apps that were sent `begin`, in the order in which they first took part.
    joined: Vec<String>,
    steps: Vec<Step>,
}

/// What there is to say of a [`Saga`].
#[verifier::ext_equal]
pub struct SagaView {
    pub txn: u64,
    pub joined: Seq<Seq<char>>,
    pub steps: Seq<StepView>,
}

impl View for Saga {
    type V = SagaView;

    closed spec fn view(&self) -> SagaView {
        SagaView {
            txn: self.txn,
            joined: text::named(self.joined@),
            steps: stepped(self.steps@),
        }
    }
}

impl SagaView {
    /// A saga that touched nothing yet.
    pub open spec fn empty(txn: u64) -> SagaView {
        SagaView { txn, joined: Seq::empty(), steps: Seq::empty() }
    }

    /// What holds of every saga: no app joined twice, the steps are numbered from 1 on in call
    /// order, and every step ran on an app that had joined.
    pub open spec fn wf(self) -> bool {
        &&& self.joined.no_duplicates()
        &&& forall|i: int| 0 <= i < self.steps.len() ==> (#[trigger] self.steps[i]).seq == i + 1
        &&& forall|i: int|
            0 <= i < self.steps.len() ==> self.joined.contains((#[trigger] self.steps[i]).app)
    }

    /// The step that a call starts.
    pub open spec fn forward(self, app: Seq<char>, verb: Seq<char>, args: Tree) -> ForwardView {
        ForwardView { txn: self.txn, app, verb, args, joining: !self.joined.contains(app) }
    }

    /// Whether `forward` is a step of this saga that is being run.
    pub open spec fn admits(self, forward: ForwardView) -> bool {
        forward.txn == self.txn && forward.joining == !self.joined.contains(forward.app)
    }

    /// The saga after the app answered what `forward` sent it, and how far the step is. An app
    /// that begins has joined. A call that succeeds is journaled; one that fails is not, since it
    /// left nothing to compensate.
    pub open spec fn advanced(self, forward: ForwardView, answer: Result<Tree, Seq<char>>) -> (
        SagaView,
        ProgressView,
    ) {
        match answer {
            Err(message) => (self, ProgressView::Finished(Err(message))),
            Ok(value) => if forward.joining {
                (
                    SagaView { joined: self.joined.push(forward.app), ..self },
                    ProgressView::Continue(ForwardView { joining: false, ..forward }),
                )
            } else {
                (
                    SagaView {
                        steps: self.steps.push(
                            StepView {
                                seq: (self.steps.len() + 1) as u64,
                                app: forward.app,
                                verb: forward.verb,
                                args: forward.args,
                                result: value,
                            },
                        ),
                        ..self
                    },
                    ProgressView::Finished(Ok(value)),
                )
            },
        }
    }

    /// What a commit of this saga does.
    pub open spec fn closing(self) -> ClosingView {
        ClosingView {
            txn: self.txn,
            apps: self.joined.reverse(),
            committed: self.steps.len() as u64,
        }
    }

    /// What an abort of this saga does.
    pub open spec fn unwind(self) -> UnwindView {
        UnwindView { txn: self.txn, steps: self.steps.reverse(), apps: self.joined.reverse() }
    }
}

impl Saga {
    /// Starts a saga under transaction id `txn`. No app is contacted until the first call.
    pub fn new(txn: u64) -> (saga: Saga)
        ensures
            saga@ == SagaView::empty(txn),
            saga@.wf(),
    {
        let saga = Saga { txn, joined: Vec::new(), steps: Vec::new() };
        assert(saga@ =~= SagaView::empty(txn));
        saga
    }

    /// The transaction id.
    pub fn txn(&self) -> (txn: u64)
        ensures
            txn == self@.txn,
    {
        self.txn
    }

    /// The forward steps executed so far, in call order.
    pub fn steps(&self) -> (steps: &[Step])
        ensures
            stepped(steps@) == self@.steps,
    {
        self.steps.as_slice()
    }

    /// Starts to invoke `verb` on `app` inside this saga. The app is sent `begin` on its first
    /// participation; see [`Saga::advance`] for what the app's answers lead to.
    pub fn call(&self, app: &str, verb: &str, args: Json) -> (forward: Forward)
        ensures
            forward@ == self@.forward(app@, verb@, args@),
            self@.admits(forward@),
    {
        let joining = !self.has_joined(app);
        Forward { txn: self.txn, app: app.to_owned(), verb: verb.to_owned(), args, joining }
    }

    fn has_joined(&self, app: &str) -> (yes: bool)
        ensures
            yes == self@.joined.contains(app@),
    {
        let name = app.to_owned();
        let mut i: usize = 0;
        while i < self.joined.len()
            invariant
                i <= self.joined.len(),
                name@ == app@,
                forall|j: int| 0 <= j < i ==> #[trigger] self@.joined[j] != app@,
            decreases self.joined.len() - i,
        {
            assert(self@.joined[i as int] == self.joined@[i as int]@);
            if self.joined[i] == name {
                return true;
            }
            i = i + 1;
        }
        false
    }

    /// Whether the journal can take no further step.
    pub fn full(&self) -> (yes: bool)
        ensures
            yes == (self@.steps.len() >= usize::MAX),
    {
        self.steps.len() == usize::MAX
    }

    /// Takes in what the app answered to what `forward` sent it.
    pub fn advance(&mut self, forward: Forward, answer: Result<Json, String>) -> (
        progress: Progress)
        requires
            old(self)@.wf(),
            old(self)@.admits(forward@),
            answer is Ok && !forward@.joining ==> old(self)@.steps.len() < usize::MAX,
        ensures
            (final(self)@, progress@) == old(self)@.advanced(forward@, json::told(answer)),
            final(self)@.wf(),
            progress matches Progress::Continue(next) ==> final(self)@.admits(next@),
    {
        match answer {
            Err(message) => Progress::Finished(Err(message)),
            Ok(value) => {
                let ghost before = self@;
                if forward.joining {
                    self.joined.push(forward.app.clone());
                    proof {
                        assert(self@.joined =~= before.joined.push(forward.app@));
                        assert(self@ =~= before.advanced(forward@, json::told(answer)).0);
                        assert(self@.joined[before.joined.len() as int] == forward.app@);
                        assert forall|i: int| 0 <= i < self@.steps.len() implies self@.joined.contains(
                            (#[trigger] self@.steps[i]).app,
                        ) by {
                            let k = choose|k: int|
                                0 <= k < before.joined.len() && before.joined[k]
                                    == before.steps[i].app;
                            assert(self@.joined[k] == self@.steps[i].app);
                        }
                    }
                    Progress::Continue(Forward { joining: false, ..forward })
                } else {
                    let seq: u64 = self.steps.len() as u64 + 1;
                    let result = value.clone();
                    self.steps.push(
                        Step {
                            seq,
                            app: forward.app,
                            verb: forward.verb,
                            args: forward.args,
                            result,
                        },
                    );
                    proof {
                        assert(self@.steps =~= before.advanced(
                            forward@,
                            json::told(answer),
                        ).0.steps);
                        assert(self@ =~= before.advanced(forward@, json::told(answer)).0);
                    }
                    Progress::Finished(Ok(value))
                }
            },
        }
    }

    /// Closes the saga: every participating app is to be sent `commit`. The saga's own journal is
    /// cleared, so a later abort of it unwinds nothing.
    pub fn commit(&mut self) -> (closing: Closing)
        ensures
            closing@ == old(self)@.closing(),
            final(self)@ == SagaView::empty(old(self)@.txn),
            final(self)@.wf(),
    {
        let committed: u64 = self.steps.len() as u64;
        let apps = take_reversed(&mut self.joined);
        self.steps.clear();
        assert(self@ =~= SagaView::empty(old(self)@.txn));
        assert(text::named(apps@) =~= old(self)@.joined.reverse());
        Closing { txn: self.txn, apps, committed }
    }

    /// Unwinds the whole chain: every step is to be compensated, the last first, and then every
    /// participating app is to be sent `commit`. The saga's own journal is cleared.
    pub fn abort(&mut self) -> (unwind: Unwind)
        ensures
            unwind@ == old(self)@.unwind(),
            final(self)@ == SagaView::empty(old(self)@.txn),
            final(self)@.wf(),
    {
        let apps = take_reversed(&mut self.joined);
        let steps = take_reversed(&mut self.steps);
        assert(self@ =~= SagaView::empty(old(self)@.txn));
        assert(text::named(apps@) =~= old(self)@.joined.reverse());
        assert(stepped(steps@) =~= old(self)@.steps.reverse());
        Unwind { txn: self.txn, steps, apps }
    }
}

/// Empties `items` into a vector with the last first.
fn take_reversed<T>(items: &mut Vec<T>) -> (reversed: Vec<T>)
    ensures
        final(items)@ == Seq::<T>::empty(),
        reversed@ == old(items)@.reverse(),
{
    let ghost all = items@;
    let mut reversed: Vec<T> = Vec::new();
    assert(all.take(all.len() as int) =~= all);
    while items.len() > 0
        invariant
            items@.len() <= all.len(),
            items@ == all.take(items@.len() as int),
            reversed@ == all.skip(items@.len() as int).reverse(),
        decreases items.len(),
    {
        let ghost n = items@.len() as int;
        match items.pop() {
            Some(item) => {
                reversed.push(item);
                assert(items@ =~= all.take(n - 1));
                assert(reversed@ =~= all.skip(n - 1).reverse());
            },
            None => {},
        }
    }
    assert(all.skip(0) =~= all);
    reversed
}

// ---- the two ends of a saga ----

/// A commit under way.
pub struct Closing {
    txn: u64,
    apps: Vec<String>,
    committed: u64,
}

/// What there is to say of a [`Closing`].
#[verifier::ext_equal]
pub struct ClosingView {
    pub txn: u64,
    /// The apps to close, in the order in which they are closed.
    pub apps: Seq<Seq<char>>,
    /// How many steps the saga had.
    pub committed: u64,
}

impl View for Closing {
    type V = ClosingView;

    closed spec fn view(&self) -> ClosingView {
        ClosingView { txn: self.txn, apps: text::named(self.apps@), committed: self.committed }
    }
}

/// A `commit` to each of `apps`, in order.
pub open spec fn commits(txn: u64, apps: Seq<Seq<char>>) -> Seq<OperationView> {
    apps.map_values(|app: Seq<char>| OperationView::Commit { app, txn })
}

impl ClosingView {
    /// What goes to the apps, in order.
    pub open spec fn plan(self) -> Seq<OperationView> {
        commits(self.txn, self.apps)
    }

    /// The report, from what each app answered.
    pub open spec fn report(self, answers: Seq<Result<Tree, Seq<char>>>) -> Tree {
        report::commit_report(self.txn, self.committed, report::deliveries(self.apps, answers))
    }
}

impl Closing {
    /// What goes to the apps, in order. Each is to be sent whatever came of those before it.
    pub fn plan(&self) -> (plan: Vec<Operation>)
        ensures
            operated(plan@) == self@.plan(),
    {
        let mut plan: Vec<Operation> = Vec::new();
        push_commits(&mut plan, self.txn, &self.apps);
        assert(operated(plan@) =~= self@.plan());
        plan
    }

    /// The report, from what each app answered. A `commit` that did not get through is reported.
    pub fn report(&self, answers: &Vec<Result<Json, String>>) -> (report: Json)
        requires
            answers@.len() == self@.plan().len(),
        ensures
            report@ == self@.report(report::all_told(answers@)),
    {
        report::commit_summary(self.txn, self.committed, &self.apps, answers)
    }
}

/// An unwind under way.
pub struct Unwind {
    txn: u64,
    steps: Vec<Step>,
    apps: Vec<String>,
}

/// What there is to say of an [`Unwind`].
#[verifier::ext_equal]
pub struct UnwindView {
    pub txn: u64,
    /// The steps to compensate, in the order in which they are compensated.
    pub steps: Seq<StepView>,
    /// The apps to release, in the order in which they are released.
    pub apps: Seq<Seq<char>>,
}

impl View for Unwind {
    type V = UnwindView;

    closed spec fn view(&self) -> UnwindView {
        UnwindView {
            txn: self.txn,
            steps: stepped(self.steps@),
            apps: text::named(self.apps@),
        }
    }
}

/// The compensation of `step`: an `undo` to the app that ran it, quoting what it ran with and
/// what it returned.
pub open spec fn undo_of(step: StepView) -> OperationView {
    OperationView::Undo { app: step.app, verb: step.verb, args: step.args, result: step.result }
}

impl UnwindView {
    /// What goes to the apps, in order: the compensations, and then the releases.
    pub open spec fn plan(self) -> Seq<OperationView> {
        self.steps.map_values(|step: StepView| undo_of(step)) + commits(self.txn, self.apps)
    }

    /// What came of each compensation, from what each app answered.
    pub open spec fn attempts(self, answers: Seq<Result<Tree, Seq<char>>>) -> Seq<report::Attempt> {
        report::attempts(self.steps, answers)
    }

    /// What came of each release, from what each app answered.
    pub open spec fn releases(self, answers: Seq<Result<Tree, Seq<char>>>) -> Seq<
        report::Delivery,
    > {
        report::deliveries(self.apps, answers.skip(self.steps.len() as int))
    }

    /// The report, from what each app answered.
    pub open spec fn report(self, answers: Seq<Result<Tree, Seq<char>>>) -> Tree {
        report::unwind_report(self.txn, self.attempts(answers), self.releases(answers))
    }
}

impl Unwind {
    /// What goes to the apps, in order. Each is to be sent whatever came of those before it.
    pub fn plan(&self) -> (plan: Vec<Operation>)
        ensures
            operated(plan@) == self@.plan(),
    {
        let mut plan: Vec<Operation> = Vec::new();
        let mut i: usize = 0;
        while i < self.steps.len()
            invariant
                i <= self.steps.len(),
                plan@.len() == i,
                forall|j: int| 0 <= j < i ==> #[trigger] plan@[j]@ == undo_of(self.steps@[j]@),
            decreases self.steps.len() - i,
        {
            let step = &self.steps[i];
            plan.push(
                Operation::Undo {
                    app: step.app.clone(),
                    verb: step.verb.clone(),
                    args: step.args.clone(),
                    result: step.result.clone(),
                },
            );
            i = i + 1;
        }
        push_commits(&mut plan, self.txn, &self.apps);
        assert(operated(plan@) =~= self@.plan());
        plan
    }

    /// The report, from what each app answered. Every failure is reported, and those of the
    /// compensations once more under their apps.
    pub fn report(&self, answers: &Vec<Result<Json, String>>) -> (report: Json)
        requires
            answers@.len() == self@.plan().len(),
        ensures
            report@ == self@.report(report::all_told(answers@)),
    {
        report::unwind_summary(self.txn, &self.steps, &self.apps, answers)
    }
}

/// Adds a `commit` to each of `apps`, in order.
fn push_commits(plan: &mut Vec<Operation>, txn: u64, apps: &Vec<String>)
    ensures
        final(plan)@.len() == old(plan)@.len() + apps@.len(),
        forall|i: int|
            0 <= i < old(plan)@.len() ==> #[trigger] final(plan)@[i] == old(plan)@[i],
        forall|i: int|
            old(plan)@.len() <= i < final(plan)@.len() ==> (#[trigger] final(plan)@[i])@
                == (OperationView::Commit { app: apps@[i - old(plan)@.len()]@, txn }),
{
    let ghost before = plan@;
    let mut i: usize = 0;
    while i < apps.len()
        invariant
            i <= apps.len(),
            plan@.len() == before.len() + i,
            forall|j: int| 0 <= j < before.len() ==> #[trigger] plan@[j] == before[j],
            forall|j: int|
                before.len() <= j < plan@.len() ==> (#[trigger] plan@[j])@
                    == (OperationView::Commit { app: apps@[j - before.len()]@, txn }),
        decreases apps.len() - i,
    {
        plan.push(Operation::Commit { app: apps[i].clone(), txn });
        i = i + 1;
    }
}

} // verus!
