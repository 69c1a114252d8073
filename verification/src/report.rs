//! The reports of a saga's end: what a commit or an unwind led to, as JSON documents.

use crate::json;
use crate::json::{Json, Tree};
use crate::saga;
use crate::saga::{Step, StepView};
use crate::text;
use vstd::prelude::*;
use vstd::string::*;

verus! {

/// What the answers say, in order.
pub open spec fn all_told(answers: Seq<Result<Json, String>>) -> Seq<Result<Tree, Seq<char>>> {
    answers.map_values(|answer: Result<Json, String>| json::told(answer))
}

// ---- deliveries: one request to each app, which gets through or does not ----

/// What came of a request to an app.
pub struct Delivery {
    pub app: Seq<char>,
    pub answer: Result<Tree, Seq<char>>,
}

/// The requests to `apps`, each with what came of it.
pub open spec fn deliveries(
    apps: Seq<Seq<char>>,
    answers: Seq<Result<Tree, Seq<char>>>,
) -> Seq<Delivery> {
    Seq::new(apps.len(), |i: int| Delivery { app: apps[i], answer: answers[i] })
}

/// `{app, error}`
pub open spec fn undelivered_doc(delivery: Delivery) -> Tree {
    Tree::Object(
        Map::empty().insert("app"@, Tree::Text(delivery.app)).insert(
            "error"@,
            Tree::Text(delivery.answer->Err_0),
        ),
    )
}

/// An entry for each request that did not get through, in order.
pub open spec fn undelivered(deliveries: Seq<Delivery>) -> Seq<Tree> {
    deliveries.filter(|d: Delivery| d.answer is Err).map_values(|d: Delivery| undelivered_doc(d))
}

// ---- attempts: one compensation for each step, which succeeds or fails ----

/// What came of the compensation of a step.
pub struct Attempt {
    pub step: StepView,
    pub answer: Result<Tree, Seq<char>>,
}

/// The compensations of `steps`, each with what came of it.
pub open spec fn attempts(
    steps: Seq<StepView>,
    answers: Seq<Result<Tree, Seq<char>>>,
) -> Seq<Attempt> {
    Seq::new(steps.len(), |i: int| Attempt { step: steps[i], answer: answers[i] })
}

/// How many compensations succeeded.
pub open spec fn compensated(attempts: Seq<Attempt>) -> nat {
    attempts.filter(|a: Attempt| a.answer is Ok).len()
}

/// `{app, seq, verb, error}`
pub open spec fn failure_doc(attempt: Attempt) -> Tree {
    Tree::Object(
        Map::empty().insert("app"@, Tree::Text(attempt.step.app)).insert(
            "seq"@,
            Tree::Unsigned(attempt.step.seq),
        ).insert("verb"@, Tree::Text(attempt.step.verb)).insert(
            "error"@,
            Tree::Text(attempt.answer->Err_0),
        ),
    )
}

/// An entry for each compensation that failed, in order.
pub open spec fn failures(attempts: Seq<Attempt>) -> Seq<Tree> {
    attempts.filter(|a: Attempt| a.answer is Err).map_values(|a: Attempt| failure_doc(a))
}

/// The compensations of the steps that `app` ran.
pub open spec fn within(attempts: Seq<Attempt>, app: Seq<char>) -> Seq<Attempt> {
    attempts.filter(|a: Attempt| a.step.app == app)
}

/// Whether `app` ran one of the steps.
pub open spec fn took_part(attempts: Seq<Attempt>, app: Seq<char>) -> bool {
    exists|i: int| 0 <= i < attempts.len() && (#[trigger] attempts[i]).step.app == app
}

/// `{compensated, failed}`
pub open spec fn app_doc(attempts: Seq<Attempt>) -> Tree {
    Tree::Object(
        Map::empty().insert("compensated"@, Tree::Unsigned(compensated(attempts) as u64)).insert(
            "failed"@,
            Tree::Array(failures(attempts)),
        ),
    )
}

/// The same for each app that ran a step, under its name.
pub open spec fn apps_doc(attempts: Seq<Attempt>) -> Tree {
    Tree::Object(
        Map::new(
            |app: Seq<char>| took_part(attempts, app),
            |app: Seq<char>| app_doc(within(attempts, app)),
        ),
    )
}

/// `{seq, app, verb}`
pub open spec fn step_doc(step: StepView) -> Tree {
    Tree::Object(
        Map::empty().insert("seq"@, Tree::Unsigned(step.seq)).insert(
            "app"@,
            Tree::Text(step.app),
        ).insert("verb"@, Tree::Text(step.verb)),
    )
}

/// The steps, in order.
pub open spec fn steps_doc(steps: Seq<StepView>) -> Tree {
    Tree::Array(steps.map_values(|step: StepView| step_doc(step)))
}

// ---- the two reports ----

/// `{txn, ok, committed, failed}`
pub open spec fn commit_report(txn: u64, committed: u64, deliveries: Seq<Delivery>) -> Tree {
    Tree::Object(
        Map::empty().insert("txn"@, Tree::Unsigned(txn)).insert(
            "ok"@,
            Tree::Bool(undelivered(deliveries).len() == 0),
        ).insert("committed"@, Tree::Unsigned(committed)).insert(
            "failed"@,
            Tree::Array(undelivered(deliveries)),
        ),
    )
}

/// `{txn, ok, compensated, order, failed, apps, releaseFailed}`
pub open spec fn unwind_report(
    txn: u64,
    attempts: Seq<Attempt>,
    deliveries: Seq<Delivery>,
) -> Tree {
    Tree::Object(
        Map::empty().insert("txn"@, Tree::Unsigned(txn)).insert(
            "ok"@,
            Tree::Bool(failures(attempts).len() == 0 && undelivered(deliveries).len() == 0),
        ).insert("compensated"@, Tree::Unsigned(compensated(attempts) as u64)).insert(
            "order"@,
            steps_doc(attempts.map_values(|a: Attempt| a.step)),
        ).insert("failed"@, Tree::Array(failures(attempts))).insert(
            "apps"@,
            apps_doc(attempts),
        ).insert("releaseFailed"@, Tree::Array(undelivered(deliveries))),
    )
}

// ---- how they grow ----

proof fn lemma_filter_push<A>(s: Seq<A>, a: A, pred: spec_fn(A) -> bool)
    ensures
        s.push(a).filter(pred) == if pred(a) {
            s.filter(pred).push(a)
        } else {
            s.filter(pred)
        },
{
    reveal(Seq::filter);
    assert(s.push(a).drop_last() =~= s);
}

proof fn lemma_undelivered_push(ds: Seq<Delivery>, d: Delivery)
    ensures
        undelivered(ds.push(d)) == if d.answer is Err {
            undelivered(ds).push(undelivered_doc(d))
        } else {
            undelivered(ds)
        },
{
    let pred = |d: Delivery| d.answer is Err;
    let doc = |d: Delivery| undelivered_doc(d);
    lemma_filter_push(ds, d, pred);
    if d.answer is Err {
        assert(ds.filter(pred).push(d).map_values(doc) =~= ds.filter(pred).map_values(doc).push(
            undelivered_doc(d),
        ));
    }
}

/// One more compensation counts as one where it succeeded, and adds its entry where it failed.
pub proof fn lemma_attempts_push(s: Seq<Attempt>, a: Attempt)
    ensures
        compensated(s.push(a)) == compensated(s) + if a.answer is Ok {
            1nat
        } else {
            0nat
        },
        failures(s.push(a)) == if a.answer is Err {
            failures(s).push(failure_doc(a))
        } else {
            failures(s)
        },
{
    let failed = |a: Attempt| a.answer is Err;
    let doc = |a: Attempt| failure_doc(a);
    lemma_filter_push(s, a, |a: Attempt| a.answer is Ok);
    lemma_filter_push(s, a, failed);
    if a.answer is Err {
        assert(s.filter(failed).push(a).map_values(doc) =~= s.filter(failed).map_values(doc).push(
            failure_doc(a),
        ));
    }
}

/// One more compensation is one of the app that ran the step.
pub proof fn lemma_within_push(s: Seq<Attempt>, a: Attempt, app: Seq<char>)
    ensures
        within(s.push(a), app) == if a.step.app == app {
            within(s, app).push(a)
        } else {
            within(s, app)
        },
{
    lemma_filter_push(s, a, |a: Attempt| a.step.app == app);
}

// ---- what one app's compensations led to ----

struct Tally {
    app: String,
    compensated: u64,
    failed: Vec<Json>,
}

/// Whether `tallies` hold one entry for each app that ran a step, and what came of its steps.
spec fn tallied(tallies: Seq<Tally>, attempts: Seq<Attempt>) -> bool {
    &&& forall|i: int, j: int|
        0 <= i < j < tallies.len() ==> (#[trigger] tallies[i]).app@ != (
        #[trigger] tallies[j]).app@
    &&& forall|i: int|
        0 <= i < tallies.len() ==> {
            let app = (#[trigger] tallies[i]).app@;
            &&& took_part(attempts, app)
            &&& tallies[i].compensated == compensated(within(attempts, app))
            &&& json::trees(tallies[i].failed@) == failures(within(attempts, app))
        }
    &&& forall|k: int|
        0 <= k < attempts.len() ==> has_tally(tallies, (#[trigger] attempts[k]).step.app)
}

spec fn has_tally(tallies: Seq<Tally>, app: Seq<char>) -> bool {
    exists|i: int| 0 <= i < tallies.len() && (#[trigger] tallies[i]).app@ == app
}

fn find_tally(tallies: &Vec<Tally>, app: &String) -> (res: Option<usize>)
    ensures
        match res {
            Some(i) => i < tallies@.len() && tallies@[i as int].app@ == app@,
            None => !has_tally(tallies@, app@),
        },
{
    let mut i: usize = 0;
    while i < tallies.len()
        invariant
            i <= tallies.len(),
            forall|j: int| 0 <= j < i ==> (#[trigger] tallies@[j]).app@ != app@,
        decreases tallies.len() - i,
    {
        if tallies[i].app == *app {
            return Some(i);
        }
        i = i + 1;
    }
    None
}

/// Adds to the tallies what came of one more compensation: nothing but success, or the entry of
/// a failure.
fn add_to_tally(
    tallies: &mut Vec<Tally>,
    app: &String,
    failure: Option<Json>,
    Ghost(done): Ghost<Seq<Attempt>>,
    Ghost(attempt): Ghost<Attempt>,
)
    requires
        tallied(old(tallies)@, done),
        done.len() < u64::MAX,
        attempt.step.app == app@,
        match failure {
            Some(entry) => attempt.answer is Err && entry@ == failure_doc(attempt),
            None => attempt.answer is Ok,
        },
    ensures
        tallied(final(tallies)@, done.push(attempt)),
{
    let ghost now = done.push(attempt);
    let ghost before = tallies@;
    proof {
        assert forall|a: Seq<char>| #[trigger] took_part(done, a) implies took_part(now, a) by {
            let i = choose|i: int| 0 <= i < done.len() && (#[trigger] done[i]).step.app == a;
            assert(now[i].step.app == a);
        }
        assert(now[done.len() as int].step.app == app@);
        assert(took_part(now, app@));
        assert forall|a: Seq<char>| true implies #[trigger] within(now, a) == if a == app@ {
            within(done, a).push(attempt)
        } else {
            within(done, a)
        } by {
            lemma_within_push(done, attempt, a);
        }
        lemma_attempts_push(within(done, app@), attempt);
        within(done, app@).lemma_filter_len(|a: Attempt| a.answer is Ok);
        done.lemma_filter_len(|a: Attempt| a.step.app == app@);
    }
    let at = match find_tally(tallies, app) {
        Some(i) => i,
        None => {
            tallies.push(Tally { app: app.clone(), compensated: 0, failed: Vec::new() });
            proof {
                assert(within(done, app@) =~= Seq::empty()) by {
                    lemma_not_within(done, app@);
                }
                reveal(Seq::filter);
                assert(failures(within(done, app@)) =~= Seq::empty());
            }
            tallies.len() - 1
        },
    };
    let ghost middle = tallies@;
    let ghost entry = tallies@[at as int];
    let slot = &mut tallies[at];
    match failure {
        None => {
            slot.compensated = slot.compensated + 1;
        },
        Some(doc) => {
            proof {
                json::lemma_trees_push(slot.failed@, doc);
            }
            slot.failed.push(doc);
        },
    }
    proof {
        assert forall|k: int| 0 <= k < now.len() implies has_tally(
            tallies@,
            (#[trigger] now[k]).step.app,
        ) by {
            if k < done.len() {
                assert(now[k] == done[k]);
                assert(has_tally(before, done[k].step.app));
                let i = choose|i: int|
                    0 <= i < before.len() && (#[trigger] before[i]).app@ == done[k].step.app;
                assert(tallies@[i].app@ == done[k].step.app);
            } else {
                assert(tallies@[at as int].app@ == app@);
            }
        }
    }
}

/// An app that ran no step has no compensations.
proof fn lemma_not_within(attempts: Seq<Attempt>, app: Seq<char>)
    requires
        !took_part(attempts, app),
    ensures
        within(attempts, app).len() == 0,
    decreases attempts.len(),
{
    reveal(Seq::filter);
    if attempts.len() > 0 {
        let rest = attempts.drop_last();
        assert forall|i: int| 0 <= i < rest.len() implies (#[trigger] rest[i]).step.app != app by {
            assert(attempts[i].step.app != app);
        }
        assert(attempts[attempts.len() - 1].step.app != app);
        lemma_not_within(rest, app);
    }
}

/// The array of the entries of the requests to `apps` that did not get through; their answers
/// stand in `answers` from `from` on.
fn undelivered_items(
    apps: &Vec<String>,
    answers: &Vec<Result<Json, String>>,
    from: usize,
) -> (items: Vec<Json>)
    requires
        from + apps@.len() == answers@.len(),
    ensures
        json::trees(items@) == undelivered(
            deliveries(text::named(apps@), all_told(answers@).skip(from as int)),
        ),
{
    let ghost all = deliveries(text::named(apps@), all_told(answers@).skip(from as int));
    let total: usize = answers.len();
    let mut items: Vec<Json> = Vec::new();
    let mut i: usize = 0;
    proof {
        reveal(Seq::filter);
        assert(undelivered(all.take(0)) =~= Seq::empty());
    }
    while i < apps.len()
        invariant
            i <= apps.len(),
            total == answers@.len(),
            from + apps@.len() == total,
            all == deliveries(text::named(apps@), all_told(answers@).skip(from as int)),
            json::trees(items@) == undelivered(all.take(i as int)),
        decreases apps.len() - i,
    {
        proof {
            lemma_undelivered_push(all.take(i as int), all[i as int]);
            assert(all.take(i as int).push(all[i as int]) =~= all.take(i + 1));
        }
        match &answers[from + i] {
            Ok(_) => {},
            Err(message) => {
                let entry = Json::object().with("app", Json::text(apps[i].as_str())).with(
                    "error",
                    Json::text(message.as_str()),
                );
                proof {
                    json::lemma_trees_push(items@, entry);
                }
                items.push(entry);
            },
        }
        i = i + 1;
    }
    assert(all.take(i as int) =~= all);
    items
}

/// The report of a commit, from what came of the request to each app.
pub fn commit_summary(
    txn: u64,
    committed: u64,
    apps: &Vec<String>,
    answers: &Vec<Result<Json, String>>,
) -> (report: Json)
    requires
        apps@.len() == answers@.len(),
    ensures
        report@ == commit_report(
            txn,
            committed,
            deliveries(text::named(apps@), all_told(answers@)),
        ),
{
    let failed = undelivered_items(apps, answers, 0);
    proof {
        assert(all_told(answers@).skip(0) =~= all_told(answers@));
        json::lemma_trees(failed@);
    }
    Json::object().with("txn", Json::Unsigned(txn)).with("ok", Json::Bool(failed.is_empty())).with(
        "committed",
        Json::Unsigned(committed),
    ).with("failed", Json::Array(failed))
}

/// `{seq, app, verb}`
fn step_item(step: &Step) -> (doc: Json)
    ensures
        doc@ == step_doc(step@),
{
    Json::object().with("seq", Json::Unsigned(step.seq)).with(
        "app",
        Json::text(step.app.as_str()),
    ).with("verb", Json::text(step.verb.as_str()))
}

/// The steps as `[{seq, app, verb}]`.
pub fn steps_summary(steps: &[Step]) -> (doc: Json)
    ensures
        doc@ == steps_doc(saga::stepped(steps@)),
{
    let mut items: Vec<Json> = Vec::new();
    let mut i: usize = 0;
    while i < steps.len()
        invariant
            i <= steps.len(),
            items@.len() == i,
            forall|j: int| 0 <= j < i ==> #[trigger] items@[j]@ == step_doc(steps@[j]@),
        decreases steps.len() - i,
    {
        items.push(step_item(&steps[i]));
        i = i + 1;
    }
    proof {
        json::lemma_trees(items@);
        assert(json::trees(items@) =~= saga::stepped(steps@).map_values(
            |step: StepView| step_doc(step),
        ));
    }
    Json::Array(items)
}

/// The object of what each app's compensations led to.
fn apps_item(tallies: Vec<Tally>, Ghost(done): Ghost<Seq<Attempt>>) -> (doc: Json)
    requires
        tallied(tallies@, done),
    ensures
        doc@ == apps_doc(done),
{
    let ghost all = tallies@;
    let mut rest = tallies;
    let mut doc = Json::object();
    assert(all.take(rest@.len() as int) =~= rest@);
    while rest.len() > 0
        invariant
            rest@.len() <= all.len(),
            rest@ == all.take(rest@.len() as int),
            tallied(all, done),
            doc@ is Object,
            forall|app: Seq<char>|
                #![trigger doc@->Object_0.contains_key(app)]
                doc@->Object_0.contains_key(app) <==> has_tally(all.skip(rest@.len() as int), app),
            forall|app: Seq<char>|
                doc@->Object_0.contains_key(app) ==> #[trigger] doc@->Object_0[app] == app_doc(
                    within(done, app),
                ),
        decreases rest.len(),
    {
        let ghost n = rest@.len() as int;
        match rest.pop() {
            None => {},
            Some(tally) => {
                let ghost before = all.skip(n);
                let ghost after = all.skip(n - 1);
                proof {
                    assert(tally == all[n - 1]);
                    assert(rest@ =~= all.take(n - 1));
                    assert forall|app: Seq<char>| #[trigger] has_tally(after, app) <==> (has_tally(
                        before,
                        app,
                    ) || app == tally.app@) by {
                        if has_tally(after, app) {
                            let k = choose|k: int|
                                0 <= k < after.len() && (#[trigger] after[k]).app@ == app;
                            if k > 0 {
                                assert(before[k - 1].app@ == app);
                            }
                        }
                        if has_tally(before, app) {
                            let k = choose|k: int|
                                0 <= k < before.len() && (#[trigger] before[k]).app@ == app;
                            assert(after[k + 1].app@ == app);
                        }
                        assert(after[0].app@ == tally.app@);
                    }
                }
                let entry = Json::object().with(
                    "compensated",
                    Json::Unsigned(tally.compensated),
                ).with("failed", Json::Array(tally.failed));
                doc = doc.with(tally.app.as_str(), entry);
            },
        }
    }
    proof {
        assert(all.skip(0) =~= all);
        assert forall|app: Seq<char>| has_tally(all, app) <==> took_part(done, app) by {
            if took_part(done, app) {
                let k = choose|k: int| 0 <= k < done.len() && (#[trigger] done[k]).step.app == app;
                assert(has_tally(all, done[k].step.app));
            }
        }
        assert(doc@->Object_0 =~= apps_doc(done)->Object_0);
    }
    doc
}

/// The report of an unwind, from what came of each compensation and then of the release of each
/// app.
pub fn unwind_summary(
    txn: u64,
    steps: &Vec<Step>,
    apps: &Vec<String>,
    answers: &Vec<Result<Json, String>>,
) -> (report: Json)
    requires
        steps@.len() + apps@.len() == answers@.len(),
    ensures
        report@ == unwind_report(
            txn,
            attempts(saga::stepped(steps@), all_told(answers@)),
            deliveries(text::named(apps@), all_told(answers@).skip(steps@.len() as int)),
        ),
{
    let ghost all = attempts(saga::stepped(steps@), all_told(answers@));
    let mut count: u64 = 0;
    let mut failed: Vec<Json> = Vec::new();
    let mut tallies: Vec<Tally> = Vec::new();
    let mut i: usize = 0;
    proof {
        reveal(Seq::filter);
        assert(failures(all.take(0)) =~= Seq::empty());
    }
    while i < steps.len()
        invariant
            i <= steps.len(),
            steps@.len() + apps@.len() == answers@.len(),
            all == attempts(saga::stepped(steps@), all_told(answers@)),
            count <= i,
            count == compensated(all.take(i as int)),
            json::trees(failed@) == failures(all.take(i as int)),
            tallied(tallies@, all.take(i as int)),
        decreases steps.len() - i,
    {
        let ghost done = all.take(i as int);
        let ghost attempt = all[i as int];
        proof {
            lemma_attempts_push(done, attempt);
            assert(done.push(attempt) =~= all.take(i + 1));
        }
        let step = &steps[i];
        match &answers[i] {
            Ok(_) => {
                count = count + 1;
                add_to_tally(&mut tallies, &step.app, None, Ghost(done), Ghost(attempt));
            },
            Err(message) => {
                let entry = Json::object().with("app", Json::text(step.app.as_str())).with(
                    "seq",
                    Json::Unsigned(step.seq),
                ).with("verb", Json::text(step.verb.as_str())).with(
                    "error",
                    Json::text(message.as_str()),
                );
                proof {
                    json::lemma_trees_push(failed@, entry);
                }
                add_to_tally(
                    &mut tallies,
                    &step.app,
                    Some(entry.clone()),
                    Ghost(done),
                    Ghost(attempt),
                );
                failed.push(entry);
            },
        }
        i = i + 1;
    }
    proof {
        assert(all.take(i as int) =~= all);
        assert(all.map_values(|a: Attempt| a.step) =~= saga::stepped(steps@));
        json::lemma_trees(failed@);
    }
    let per_app = apps_item(tallies, Ghost(all));
    let release_failed = undelivered_items(apps, answers, steps.len());
    proof {
        json::lemma_trees(release_failed@);
    }
    Json::object().with("txn", Json::Unsigned(txn)).with(
        "ok",
        Json::Bool(failed.is_empty() && release_failed.is_empty()),
    ).with("compensated", Json::Unsigned(count)).with("order", steps_summary(steps.as_slice())).with(
        "failed",
        Json::Array(failed),
    ).with("apps", per_app).with("releaseFailed", Json::Array(release_failed))
}

} // verus!
