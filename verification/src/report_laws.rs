//! What holds of the reports of a saga's end, stated on what the apps answered.

use crate::json;
use crate::json::Tree;
use crate::report;
use crate::report::{Attempt, Delivery};
use crate::saga::{OperationView, SagaView, StepView, UnwindView};
use vstd::prelude::*;

verus! {

/// How many of the numbers below `n` there are that `pred` holds of.
pub open spec fn how_many(n: int, pred: spec_fn(int) -> bool) -> nat
    decreases n,
{
    if n <= 0 {
        0
    } else {
        how_many(n - 1, pred) + if pred(n - 1) {
            1nat
        } else {
            0nat
        }
    }
}

proof fn lemma_how_many_same(n: int, p: spec_fn(int) -> bool, q: spec_fn(int) -> bool)
    requires
        forall|i: int| 0 <= i < n ==> #[trigger] p(i) == q(i),
    ensures
        how_many(n, p) == how_many(n, q),
    decreases n,
{
    if n > 0 {
        lemma_how_many_same(n - 1, p, q);
        assert(p(n - 1) == q(n - 1));
    }
}

proof fn lemma_how_many_below(n: int, m: int, pred: spec_fn(int) -> bool)
    requires
        0 <= m < n,
        pred(m),
    ensures
        how_many(m, pred) < how_many(n, pred),
    decreases n,
{
    if m < n - 1 {
        lemma_how_many_below(n - 1, m, pred);
    }
}

/// A filtered sequence has as many items as pass, and each stands where the number of those before
/// it says.
proof fn lemma_filter_places<A>(s: Seq<A>, pass: spec_fn(A) -> bool, p: spec_fn(int) -> bool)
    requires
        forall|i: int| 0 <= i < s.len() ==> #[trigger] p(i) == pass(s[i]),
    ensures
        s.filter(pass).len() == how_many(s.len() as int, p),
        forall|i: int|
            0 <= i < s.len() && #[trigger] p(i) ==> how_many(i, p) < s.filter(pass).len()
                && s.filter(pass)[how_many(i, p) as int] == s[i],
    decreases s.len(),
{
    reveal(Seq::filter);
    if s.len() > 0 {
        let rest = s.drop_last();
        let n = s.len() as int;
        assert forall|i: int| 0 <= i < rest.len() implies #[trigger] p(i) == pass(rest[i]) by {
            assert(p(i) == pass(s[i]));
        }
        lemma_filter_places(rest, pass, p);
        assert(p(n - 1) == pass(s[n - 1]));
        assert forall|i: int| 0 <= i < s.len() && #[trigger] p(i) implies how_many(i, p) < s.filter(
            pass,
        ).len() && s.filter(pass)[how_many(i, p) as int] == s[i] by {
            lemma_how_many_below(n, i, p);
            if i < n - 1 {
                assert(rest.filter(pass)[how_many(i, p) as int] == rest[i]);
            }
        }
    }
}

proof fn lemma_filter_twice<A>(s: Seq<A>, first: spec_fn(A) -> bool, second: spec_fn(A) -> bool)
    ensures
        s.filter(first).filter(second) == s.filter(|a: A| first(a) && second(a)),
    decreases s.len(),
{
    reveal(Seq::filter);
    if s.len() > 0 {
        let rest = s.drop_last();
        lemma_filter_twice(rest, first, second);
        if first(s.last()) {
            assert(s.filter(first).drop_last() =~= rest.filter(first));
        }
    } else {
        assert(s.filter(first).filter(second) =~= s.filter(|a: A| first(a) && second(a)));
    }
}

// ---- commits ----

/// The report of a commit names exactly the apps whose own `commit` failed, in the order in which
/// they were sent it, each with its own message; it has the saga's id, how many steps it had, and
/// `ok` exactly where none failed; and it has nothing else.
pub proof fn law_commit_report_names_each_failure(
    saga: SagaView,
    answers: Seq<Result<Tree, Seq<char>>>,
    key: Seq<char>,
)
    requires
        answers.len() == saga.closing().plan().len(),
        saga.steps.len() <= u64::MAX,
    ensures
        ({
            let doc = saga.closing().report(answers);
            let plan = saga.closing().plan();
            let failed_at = |i: int| answers[i] is Err;
            &&& doc is Object
            &&& json::field(doc, "failed"@) matches Some(Tree::Array(failed))
            &&& failed.len() == how_many(answers.len() as int, failed_at)
            &&& forall|i: int|
                0 <= i < answers.len() && (#[trigger] answers[i]) is Err ==> {
                    let entry = failed[how_many(i, failed_at) as int];
                    &&& plan[i] matches OperationView::Commit { app, .. }
                    &&& entry is Object
                    &&& json::field(entry, key) == if key == "app"@ {
                        Some(Tree::Text(app))
                    } else if key == "error"@ {
                        Some(Tree::Text(answers[i]->Err_0))
                    } else {
                        None
                    }
                }
            &&& json::field(doc, "txn"@) == Some(Tree::Unsigned(saga.txn))
            &&& json::field(doc, "committed"@) == Some(Tree::Unsigned(saga.steps.len() as u64))
            &&& json::field(doc, "ok"@) == Some(
                Tree::Bool(how_many(answers.len() as int, failed_at) == 0),
            )
            &&& json::field(doc, key) is Some ==> key == "txn"@ || key == "ok"@ || key
                == "committed"@ || key == "failed"@
        }),
{
    reveal_strlit("txn");
    reveal_strlit("ok");
    reveal_strlit("committed");
    reveal_strlit("failed");
    reveal_strlit("app");
    reveal_strlit("error");
    assert("txn"@.len() == 3 && "ok"@.len() == 2 && "committed"@.len() == 9 && "failed"@.len() == 6
        && "app"@.len() == 3 && "error"@.len() == 5);
    let deliveries = report::deliveries(saga.closing().apps, answers);
    let failed_at = |i: int| answers[i] is Err;
    lemma_undelivered_places(deliveries, failed_at);
    assert forall|i: int| 0 <= i < answers.len() && (#[trigger] answers[i]) is Err implies {
        let entry = report::undelivered(deliveries)[how_many(i, failed_at) as int];
        entry == report::undelivered_doc(deliveries[i])
    } by {
        assert(failed_at(i));
    }
}

proof fn lemma_undelivered_places(deliveries: Seq<Delivery>, failed_at: spec_fn(int) -> bool)
    requires
        forall|i: int|
            0 <= i < deliveries.len() ==> #[trigger] failed_at(i) == (deliveries[i].answer is Err),
    ensures
        report::undelivered(deliveries).len() == how_many(deliveries.len() as int, failed_at),
        forall|i: int|
            0 <= i < deliveries.len() && #[trigger] failed_at(i) ==> {
                &&& how_many(i, failed_at) < report::undelivered(deliveries).len()
                &&& report::undelivered(deliveries)[how_many(i, failed_at) as int]
                    == report::undelivered_doc(deliveries[i])
            },
{
    lemma_filter_places(deliveries, |d: Delivery| d.answer is Err, failed_at);
}

// ---- unwinds ----

proof fn lemma_attempt_places(
    attempts: Seq<Attempt>,
    ok_at: spec_fn(int) -> bool,
    failed_at: spec_fn(int) -> bool,
)
    requires
        forall|i: int|
            0 <= i < attempts.len() ==> #[trigger] ok_at(i) == (attempts[i].answer is Ok),
        forall|i: int|
            0 <= i < attempts.len() ==> #[trigger] failed_at(i) == (attempts[i].answer is Err),
    ensures
        report::compensated(attempts) == how_many(attempts.len() as int, ok_at),
        report::failures(attempts).len() == how_many(attempts.len() as int, failed_at),
        forall|i: int|
            0 <= i < attempts.len() && #[trigger] failed_at(i) ==> {
                &&& how_many(i, failed_at) < report::failures(attempts).len()
                &&& report::failures(attempts)[how_many(i, failed_at) as int]
                    == report::failure_doc(attempts[i])
            },
{
    lemma_filter_places(attempts, |a: Attempt| a.answer is Ok, ok_at);
    lemma_filter_places(attempts, |a: Attempt| a.answer is Err, failed_at);
}

/// What an entry for a compensation that failed holds.
proof fn lemma_failure_doc(attempt: Attempt, key: Seq<char>)
    requires
        attempt.answer is Err,
    ensures
        json::field(report::failure_doc(attempt), key) == if key == "app"@ {
            Some(Tree::Text(attempt.step.app))
        } else if key == "seq"@ {
            Some(Tree::Unsigned(attempt.step.seq))
        } else if key == "verb"@ {
            Some(Tree::Text(attempt.step.verb))
        } else if key == "error"@ {
            Some(Tree::Text(attempt.answer->Err_0))
        } else {
            None
        },
{
    reveal_strlit("app");
    reveal_strlit("seq");
    reveal_strlit("verb");
    reveal_strlit("error");
    assert("app"@[0] != "seq"@[0]);
    assert("app"@.len() == 3 && "seq"@.len() == 3 && "verb"@.len() == 4 && "error"@.len() == 5);
}

/// The report of an unwind counts the steps whose `undo` succeeded, has an entry for exactly those
/// whose `undo` failed, in the order in which they were undone, each with its app, number, verb and
/// message, and one for exactly those apps whose own `commit` failed. It lists every step in the
/// order in which it was undone, whatever came of it; and it has nothing else.
pub proof fn law_unwind_report_names_each_failure(
    unwind: UnwindView,
    answers: Seq<Result<Tree, Seq<char>>>,
    key: Seq<char>,
)
    requires
        answers.len() == unwind.steps.len() + unwind.apps.len(),
        unwind.steps.len() <= u64::MAX,
    ensures
        ({
            let doc = unwind.report(answers);
            let n = unwind.steps.len() as int;
            let ok_at = |i: int| answers[i] is Ok;
            let failed_at = |i: int| answers[i] is Err;
            let unreleased_at = |i: int| answers[n + i] is Err;
            &&& doc is Object
            &&& json::field(doc, "txn"@) == Some(Tree::Unsigned(unwind.txn))
            &&& json::field(doc, "compensated"@) == Some(
                Tree::Unsigned(how_many(n, ok_at) as u64),
            )
            &&& json::field(doc, "ok"@) == Some(
                Tree::Bool(
                    how_many(n, failed_at) == 0 && how_many(
                        unwind.apps.len() as int,
                        unreleased_at,
                    ) == 0,
                ),
            )
            &&& json::field(doc, "failed"@) matches Some(Tree::Array(failed))
            &&& failed.len() == how_many(n, failed_at)
            &&& forall|i: int|
                0 <= i < n && (#[trigger] answers[i]) is Err ==> {
                    let entry = failed[how_many(i, failed_at) as int];
                    &&& entry is Object
                    &&& json::field(entry, key) == if key == "app"@ {
                        Some(Tree::Text(unwind.steps[i].app))
                    } else if key == "seq"@ {
                        Some(Tree::Unsigned(unwind.steps[i].seq))
                    } else if key == "verb"@ {
                        Some(Tree::Text(unwind.steps[i].verb))
                    } else if key == "error"@ {
                        Some(Tree::Text(answers[i]->Err_0))
                    } else {
                        None
                    }
                }
            &&& json::field(doc, "releaseFailed"@) matches Some(Tree::Array(unreleased))
            &&& unreleased.len() == how_many(unwind.apps.len() as int, unreleased_at)
            &&& forall|i: int|
                0 <= i < unwind.apps.len() && (#[trigger] unreleased_at(i)) ==> {
                    let entry = unreleased[how_many(i, unreleased_at) as int];
                    &&& entry is Object
                    &&& json::field(entry, key) == if key == "app"@ {
                        Some(Tree::Text(unwind.apps[i]))
                    } else if key == "error"@ {
                        Some(Tree::Text(answers[n + i]->Err_0))
                    } else {
                        None
                    }
                }
            &&& json::field(doc, "order"@) matches Some(Tree::Array(order))
            &&& order.len() == n
            &&& forall|i: int|
                0 <= i < n ==> {
                    &&& (#[trigger] order[i]) is Object
                    &&& json::field(order[i], key) == if key == "seq"@ {
                        Some(Tree::Unsigned(unwind.steps[i].seq))
                    } else if key == "app"@ {
                        Some(Tree::Text(unwind.steps[i].app))
                    } else if key == "verb"@ {
                        Some(Tree::Text(unwind.steps[i].verb))
                    } else {
                        None
                    }
                }
            &&& json::field(doc, key) is Some ==> key == "txn"@ || key == "ok"@ || key
                == "compensated"@ || key == "order"@ || key == "failed"@ || key == "apps"@ || key
                == "releaseFailed"@
        }),
{
    reveal_strlit("txn");
    reveal_strlit("ok");
    reveal_strlit("compensated");
    reveal_strlit("order");
    reveal_strlit("failed");
    reveal_strlit("apps");
    reveal_strlit("releaseFailed");
    reveal_strlit("app");
    reveal_strlit("error");
    assert("txn"@.len() == 3 && "ok"@.len() == 2 && "compensated"@.len() == 11 && "order"@.len()
        == 5 && "failed"@.len() == 6 && "apps"@.len() == 4 && "releaseFailed"@.len() == 13
        && "app"@.len() == 3 && "error"@.len() == 5);
    let n = unwind.steps.len() as int;
    let ok_at = |i: int| answers[i] is Ok;
    let failed_at = |i: int| answers[i] is Err;
    let unreleased_at = |i: int| answers[n + i] is Err;
    let attempts = unwind.attempts(answers);
    let releases = unwind.releases(answers);
    lemma_attempt_places(attempts, ok_at, failed_at);
    lemma_undelivered_places(releases, unreleased_at);
    law_steps_are_listed(unwind.steps, key);
    assert(attempts.map_values(|a: Attempt| a.step) =~= unwind.steps);
    assert forall|i: int| 0 <= i < n && (#[trigger] answers[i]) is Err implies report::failures(
        attempts,
    )[how_many(i, failed_at) as int] == report::failure_doc(attempts[i]) by {
        assert(failed_at(i));
    }
    assert forall|i: int| 0 <= i < n && attempts[i].answer is Err implies json::field(
        #[trigger] report::failure_doc(attempts[i]),
        key,
    ) == if key == "app"@ {
        Some(Tree::Text(unwind.steps[i].app))
    } else if key == "seq"@ {
        Some(Tree::Unsigned(unwind.steps[i].seq))
    } else if key == "verb"@ {
        Some(Tree::Text(unwind.steps[i].verb))
    } else if key == "error"@ {
        Some(Tree::Text(answers[i]->Err_0))
    } else {
        None
    } by {
        lemma_failure_doc(attempts[i], key);
    }
}

/// Steps are listed one by one, in order, each with its number, its app and its verb, and nothing
/// else.
pub proof fn law_steps_are_listed(steps: Seq<StepView>, key: Seq<char>)
    ensures
        report::steps_doc(steps) matches Tree::Array(items) && {
            &&& items.len() == steps.len()
            &&& forall|i: int|
                0 <= i < steps.len() ==> {
                    &&& (#[trigger] items[i]) is Object
                    &&& json::field(items[i], key) == if key == "seq"@ {
                        Some(Tree::Unsigned(steps[i].seq))
                    } else if key == "app"@ {
                        Some(Tree::Text(steps[i].app))
                    } else if key == "verb"@ {
                        Some(Tree::Text(steps[i].verb))
                    } else {
                        None
                    }
                }
        },
{
    reveal_strlit("app");
    reveal_strlit("seq");
    reveal_strlit("verb");
    assert("app"@[0] != "seq"@[0]);
    assert("app"@.len() == 3 && "seq"@.len() == 3 && "verb"@.len() == 4);
}

proof fn lemma_within_places(
    unwind: UnwindView,
    answers: Seq<Result<Tree, Seq<char>>>,
    app: Seq<char>,
    mine_at: spec_fn(int) -> bool,
    ok_at: spec_fn(int) -> bool,
    failed_at: spec_fn(int) -> bool,
)
    requires
        forall|i: int|
            0 <= i < unwind.steps.len() ==> #[trigger] mine_at(i) == (unwind.steps[i].app == app),
        forall|i: int|
            0 <= i < unwind.steps.len() ==> #[trigger] ok_at(i) == (unwind.steps[i].app == app
                && answers[i] is Ok),
        forall|i: int|
            0 <= i < unwind.steps.len() ==> #[trigger] failed_at(i) == (unwind.steps[i].app == app
                && answers[i] is Err),
    ensures
        ({
            let n = unwind.steps.len() as int;
            let attempts = unwind.attempts(answers);
            let mine = report::within(attempts, app);
            &&& mine.len() == how_many(n, mine_at)
            &&& report::took_part(attempts, app) <==> how_many(n, mine_at) > 0
            &&& report::compensated(mine) == how_many(n, ok_at)
            &&& report::failures(mine).len() == how_many(n, failed_at)
            &&& forall|i: int|
                0 <= i < n && #[trigger] failed_at(i) ==> {
                    &&& how_many(i, failed_at) < report::failures(mine).len()
                    &&& report::failures(mine)[how_many(i, failed_at) as int]
                        == report::failure_doc(attempts[i])
                }
        }),
{
    let attempts = unwind.attempts(answers);
    let of_app = |a: Attempt| a.step.app == app;
    let good = |a: Attempt| a.answer is Ok;
    let bad = |a: Attempt| a.answer is Err;
    lemma_filter_places(attempts, of_app, mine_at);
    lemma_filter_twice(attempts, of_app, good);
    lemma_filter_twice(attempts, of_app, bad);
    lemma_filter_places(attempts, |a: Attempt| of_app(a) && good(a), ok_at);
    lemma_filter_places(attempts, |a: Attempt| of_app(a) && bad(a), failed_at);
    if report::took_part(attempts, app) {
        let i = choose|i: int| 0 <= i < attempts.len() && (#[trigger] attempts[i]).step.app == app;
        assert(mine_at(i));
        lemma_how_many_below(attempts.len() as int, i, mine_at);
    }
    if how_many(attempts.len() as int, mine_at) > 0 {
        let i = lemma_how_many_found(attempts.len() as int, mine_at);
        assert(attempts[i].step.app == app);
    }
}

proof fn lemma_how_many_found(n: int, pred: spec_fn(int) -> bool) -> (i: int)
    requires
        how_many(n, pred) > 0,
    ensures
        0 <= i < n,
        pred(i),
    decreases n,
{
    if pred(n - 1) {
        n - 1
    } else {
        lemma_how_many_found(n - 1, pred)
    }
}

/// Under each app that ran a step, and under no other name, the report of an unwind tells how many
/// of that app's steps were undone, and has an entry for exactly those of its steps whose `undo`
/// failed, in order and with their own messages. The two add up to the app's steps.
pub proof fn law_unwind_report_tells_each_app(
    unwind: UnwindView,
    answers: Seq<Result<Tree, Seq<char>>>,
    app: Seq<char>,
    key: Seq<char>,
)
    requires
        answers.len() == unwind.steps.len() + unwind.apps.len(),
        unwind.steps.len() <= u64::MAX,
    ensures
        ({
            let n = unwind.steps.len() as int;
            let mine_at = |i: int| unwind.steps[i].app == app;
            let ok_at = |i: int| unwind.steps[i].app == app && answers[i] is Ok;
            let failed_at = |i: int| unwind.steps[i].app == app && answers[i] is Err;
            &&& json::field(unwind.report(answers), "apps"@) matches Some(apps)
            &&& apps is Object
            &&& how_many(n, mine_at) == 0 ==> json::field(apps, app) is None
            &&& how_many(n, mine_at) > 0 ==> {
                &&& json::field(apps, app) matches Some(told)
                &&& told is Object
                &&& json::field(told, "compensated"@) matches Some(Tree::Unsigned(undone))
                &&& undone == how_many(n, ok_at)
                &&& json::field(told, "failed"@) matches Some(Tree::Array(failed))
                &&& failed.len() == how_many(n, failed_at)
                &&& undone + failed.len() == how_many(n, mine_at)
                &&& forall|i: int|
                    0 <= i < n && #[trigger] failed_at(i) ==> {
                        let entry = failed[how_many(i, failed_at) as int];
                        &&& entry is Object
                        &&& json::field(entry, key) == if key == "app"@ {
                            Some(Tree::Text(app))
                        } else if key == "seq"@ {
                            Some(Tree::Unsigned(unwind.steps[i].seq))
                        } else if key == "verb"@ {
                            Some(Tree::Text(unwind.steps[i].verb))
                        } else if key == "error"@ {
                            Some(Tree::Text(answers[i]->Err_0))
                        } else {
                            None
                        }
                    }
                &&& json::field(told, key) is Some ==> key == "compensated"@ || key == "failed"@
            }
        }),
{
    reveal_strlit("txn");
    reveal_strlit("ok");
    reveal_strlit("compensated");
    reveal_strlit("order");
    reveal_strlit("failed");
    reveal_strlit("apps");
    reveal_strlit("releaseFailed");
    assert("txn"@.len() == 3 && "ok"@.len() == 2 && "compensated"@.len() == 11 && "order"@.len()
        == 5 && "failed"@.len() == 6 && "apps"@.len() == 4 && "releaseFailed"@.len() == 13);
    let n = unwind.steps.len() as int;
    let mine_at = |i: int| unwind.steps[i].app == app;
    let ok_at = |i: int| unwind.steps[i].app == app && answers[i] is Ok;
    let failed_at = |i: int| unwind.steps[i].app == app && answers[i] is Err;
    let attempts = unwind.attempts(answers);
    lemma_within_places(unwind, answers, app, mine_at, ok_at, failed_at);
    lemma_split(n, mine_at, ok_at, failed_at);
    lemma_how_many_bounded(n, mine_at);
    assert forall|i: int| 0 <= i < n && attempts[i].answer is Err implies json::field(
        #[trigger] report::failure_doc(attempts[i]),
        key,
    ) == if key == "app"@ {
        Some(Tree::Text(unwind.steps[i].app))
    } else if key == "seq"@ {
        Some(Tree::Unsigned(unwind.steps[i].seq))
    } else if key == "verb"@ {
        Some(Tree::Text(unwind.steps[i].verb))
    } else if key == "error"@ {
        Some(Tree::Text(answers[i]->Err_0))
    } else {
        None
    } by {
        lemma_failure_doc(attempts[i], key);
    }
}

proof fn lemma_how_many_bounded(n: int, pred: spec_fn(int) -> bool)
    requires
        0 <= n,
    ensures
        how_many(n, pred) <= n,
    decreases n,
{
    if n > 0 {
        lemma_how_many_bounded(n - 1, pred);
    }
}

proof fn lemma_split(
    n: int,
    whole: spec_fn(int) -> bool,
    one: spec_fn(int) -> bool,
    other: spec_fn(int) -> bool,
)
    requires
        forall|i: int| 0 <= i < n ==> #[trigger] whole(i) == (one(i) || other(i)),
        forall|i: int| 0 <= i < n ==> !(#[trigger] one(i) && other(i)),
    ensures
        how_many(n, whole) == how_many(n, one) + how_many(n, other),
    decreases n,
{
    if n > 0 {
        lemma_split(n - 1, whole, one, other);
        assert(whole(n - 1) == (one(n - 1) || other(n - 1)));
        assert(!(one(n - 1) && other(n - 1)));
    }
}

/// What the report of an unwind tells as `compensated` under the apps `names`, added up.
pub open spec fn told_in_all(report: Tree, names: Seq<Seq<char>>) -> int
    decreases names.len(),
{
    if names.len() == 0 {
        0
    } else {
        told_in_all(report, names.drop_last()) + match json::field(report, "apps"@) {
            Some(apps) => match json::field(apps, names.last()) {
                Some(told) => match json::field(told, "compensated"@) {
                    Some(Tree::Unsigned(n)) => n as int,
                    _ => 0,
                },
                None => 0,
            },
            None => 0,
        }
    }
}

spec fn counted(
    unwind: UnwindView,
    answers: Seq<Result<Tree, Seq<char>>>,
    names: Seq<Seq<char>>,
    n: int,
) -> int
    decreases names.len(),
{
    if names.len() == 0 {
        0
    } else {
        counted(unwind, answers, names.drop_last(), n) + how_many(
            n,
            |i: int| unwind.steps[i].app == names.last() && answers[i] is Ok,
        )
    }
}

proof fn lemma_counted_step(
    unwind: UnwindView,
    answers: Seq<Result<Tree, Seq<char>>>,
    names: Seq<Seq<char>>,
    n: int,
)
    requires
        0 < n,
        names.no_duplicates(),
    ensures
        counted(unwind, answers, names, n) == counted(unwind, answers, names, n - 1) + if answers[n
            - 1] is Ok && names.contains(unwind.steps[n - 1].app) {
            1int
        } else {
            0int
        },
    decreases names.len(),
{
    if names.len() > 0 {
        let rest = names.drop_last();
        let app = unwind.steps[n - 1].app;
        lemma_counted_step(unwind, answers, rest, n);
        if names.contains(app) {
            let k = choose|k: int| 0 <= k < names.len() && names[k] == app;
            if k < names.len() - 1 {
                assert(rest[k] == app);
            }
        }
        if rest.contains(app) {
            let k = choose|k: int| 0 <= k < rest.len() && rest[k] == app;
            assert(names[k] == app);
            assert(names[names.len() - 1] != app);
        }
        assert(names[names.len() - 1] == names.last());
    }
}

proof fn lemma_counted(
    unwind: UnwindView,
    answers: Seq<Result<Tree, Seq<char>>>,
    names: Seq<Seq<char>>,
    n: int,
)
    requires
        0 <= n <= unwind.steps.len(),
        names.no_duplicates(),
        forall|i: int|
            0 <= i < unwind.steps.len() ==> names.contains((#[trigger] unwind.steps[i]).app),
    ensures
        counted(unwind, answers, names, n) == how_many(n, |i: int| answers[i] is Ok),
    decreases n,
{
    if n > 0 {
        lemma_counted(unwind, answers, names, n - 1);
        lemma_counted_step(unwind, answers, names, n);
        assert(names.contains(unwind.steps[n - 1].app));
    } else {
        lemma_counted_nothing(unwind, answers, names, n);
    }
}

proof fn lemma_counted_nothing(
    unwind: UnwindView,
    answers: Seq<Result<Tree, Seq<char>>>,
    names: Seq<Seq<char>>,
    n: int,
)
    requires
        n <= 0,
    ensures
        counted(unwind, answers, names, n) == 0,
    decreases names.len(),
{
    if names.len() > 0 {
        lemma_counted_nothing(unwind, answers, names.drop_last(), n);
    }
}

proof fn lemma_told_in_all(
    unwind: UnwindView,
    answers: Seq<Result<Tree, Seq<char>>>,
    names: Seq<Seq<char>>,
)
    requires
        answers.len() == unwind.steps.len() + unwind.apps.len(),
        unwind.steps.len() <= u64::MAX,
    ensures
        told_in_all(unwind.report(answers), names) == counted(
            unwind,
            answers,
            names,
            unwind.steps.len() as int,
        ),
    decreases names.len(),
{
    if names.len() > 0 {
        let n = unwind.steps.len() as int;
        let app = names.last();
        lemma_told_in_all(unwind, answers, names.drop_last());
        law_unwind_report_tells_each_app(unwind, answers, app, "compensated"@);
        let mine_at = |i: int| unwind.steps[i].app == app;
        let ok_at = |i: int| unwind.steps[i].app == app && answers[i] is Ok;
        let failed_at = |i: int| unwind.steps[i].app == app && answers[i] is Err;
        lemma_split(n, mine_at, ok_at, failed_at);
        lemma_how_many_same(
            n,
            ok_at,
            |i: int| unwind.steps[i].app == names.last() && answers[i] is Ok,
        );
    }
}

/// What is told as compensated under the apps adds up, over all apps that ran a step, to what the
/// report tells as compensated itself, which is the number of steps whose `undo` succeeded.
pub proof fn law_apps_add_up_to_the_whole(
    unwind: UnwindView,
    answers: Seq<Result<Tree, Seq<char>>>,
    names: Seq<Seq<char>>,
)
    requires
        answers.len() == unwind.steps.len() + unwind.apps.len(),
        unwind.steps.len() <= u64::MAX,
        names.no_duplicates(),
        forall|i: int|
            0 <= i < unwind.steps.len() ==> names.contains((#[trigger] unwind.steps[i]).app),
    ensures
        json::field(unwind.report(answers), "compensated"@) matches Some(Tree::Unsigned(n)) && n
            == told_in_all(unwind.report(answers), names) && n == how_many(
            unwind.steps.len() as int,
            |i: int| answers[i] is Ok,
        ),
{
    let n = unwind.steps.len() as int;
    lemma_told_in_all(unwind, answers, names);
    lemma_counted(unwind, answers, names, n);
    law_unwind_report_names_each_failure(unwind, answers, "compensated"@);
    lemma_how_many_bounded(n, |i: int| answers[i] is Ok);
}

/// What an abort of a saga undoes and releases is what its report speaks of: the steps and the apps
/// of the saga, backwards.
pub proof fn law_unwinds_have_the_saga_backwards(saga: SagaView, i: int)
    ensures
        saga.unwind().txn == saga.txn,
        saga.unwind().steps.len() == saga.steps.len(),
        0 <= i < saga.steps.len() ==> saga.unwind().steps[i] == saga.steps[saga.steps.len() - 1
            - i],
        saga.unwind().apps.len() == saga.joined.len(),
        0 <= i < saga.joined.len() ==> saga.unwind().apps[i] == saga.joined[saga.joined.len() - 1
            - i],
{
}

/// What goes out for an unwind: to each of its steps an `undo` that quotes it, and then to each of
/// its apps a `commit`, each at the place at which the report looks for its answer.
pub proof fn law_unwind_plans_follow_their_steps(unwind: UnwindView, i: int)
    ensures
        unwind.plan().len() == unwind.steps.len() + unwind.apps.len(),
        0 <= i < unwind.steps.len() ==> unwind.plan()[i] == (OperationView::Undo {
            app: unwind.steps[i].app,
            verb: unwind.steps[i].verb,
            args: unwind.steps[i].args,
            result: unwind.steps[i].result,
        }),
        0 <= i < unwind.apps.len() ==> unwind.plan()[unwind.steps.len() + i] == (
        OperationView::Commit { app: unwind.apps[i], txn: unwind.txn }),
{
}

} // verus!
