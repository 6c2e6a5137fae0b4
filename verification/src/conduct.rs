//! What holds of a single round: which place a request names, what becomes of an activity that is
//! found, and in which order things are done and told.
use crate::api::{error_text, ErrView, ReqView, ResultView};
use crate::clock::Moment;
use crate::engine::{due_part, later_part, targets_of, EventView, PendingView, TargetView};
use crate::filter::qualified_rows;
use crate::laws::{is_target, waits_in};
use crate::models::{activity_of, ActivityView, CoordinatesView, CourseView, RowView, SignType};
use crate::number::{decimal_text, integer_text};
use crate::round::{
    after_activity, after_courses, after_list, after_lists, after_results, after_rows,
    courses_joined, earliest, earliest_is_least, found_event, lists_taken, paired, pending_signed,
    place_for, place_questions, queue_known, refreshes, requests_for, retries_signed, round,
    round_begun, sign_phase, stopped, wait_until_due, Answers, EngineView, Exchange, Harvest,
    Progress, SignAnswers,
};
use crate::runner::{rest_after, RunnerView};
use vstd::prelude::*;

verus! {

// ---------------------------------------------------------------------------------------
// Requests

/// A request for an activity by place names the place that the activity tells, else the one that
/// the service told, else the one that is kept under the course's name, else none; any other
/// request names none.
pub proof fn place_is_chosen_in_order(
    activity: ActivityView,
    answer: Option<CoordinatesView>,
    table: Map<Seq<char>, CoordinatesView>,
    name: Seq<char>,
)
    ensures
        activity.kind != SignType::Locate ==> place_for(activity, answer, table, name) is None,
        activity.kind == SignType::Locate ==> {
            let place = place_for(activity, answer, table, name);
            &&& activity.coordinate is Some ==> place == activity.coordinate
            &&& activity.coordinate is None && answer is Some ==> place == answer
            &&& activity.coordinate is None && answer is None ==> (place is Some)
                == table.contains_key(name)
            &&& activity.coordinate is None && answer is None && table.contains_key(name) ==> place
                == Some(table[name])
        },
{
}

/// The service is asked for a place exactly for an activity by place that does not tell one.
pub proof fn only_unknown_place_is_asked(
    engine: EngineView,
    targets: Seq<TargetView>,
    answers: Seq<Option<CoordinatesView>>,
    n: int,
    exchange: Exchange,
)
    requires
        0 <= n <= targets.len(),
    ensures
        place_questions(engine, targets, answers, n).contains(exchange) == exists|i: int|
            0 <= i < n && (#[trigger] targets[i]).activity.kind == SignType::Locate
                && targets[i].activity.coordinate is None && exchange == (Exchange::Place {
                activity: targets[i].activity,
                course: engine.watched[targets[i].course_index],
                reply: answers[i],
            }),
    decreases n,
{
    let questions = place_questions(engine, targets, answers, n);
    if n > 0 {
        only_unknown_place_is_asked(engine, targets, answers, n - 1, exchange);
        let earlier = place_questions(engine, targets, answers, n - 1);
        let target = targets[n - 1];
        let last = Exchange::Place {
            activity: target.activity,
            course: engine.watched[target.course_index],
            reply: answers[n - 1],
        };
        if target.activity.kind == SignType::Locate && target.activity.coordinate is None {
            assert(questions == earlier.push(last));
            if exchange == last {
                assert(questions[earlier.len() as int] == exchange);
            }
            if earlier.contains(exchange) {
                let i = choose|i: int| 0 <= i < earlier.len() && earlier[i] == exchange;
                assert(questions[i] == exchange);
            }
        } else {
            assert(questions == earlier);
        }
    }
}

/// A request is for the target's activity in the course that the target belongs to, and names the
/// place for it.
pub proof fn request_is_of_its_target(
    engine: EngineView,
    targets: Seq<TargetView>,
    answers: Seq<Option<CoordinatesView>>,
    i: int,
)
    requires
        0 <= i < targets.len(),
    ensures
        requests_for(engine, targets, answers).len() == targets.len(),
        ({
            let request = requests_for(engine, targets, answers)[i];
            let course = engine.watched[targets[i].course_index];
            &&& request.activity == targets[i].activity
            &&& request.course == course
            &&& request.coords == place_for(
                targets[i].activity,
                answers[i],
                engine.coords,
                course.name,
            )
        }),
{
}

// ---------------------------------------------------------------------------------------
// Waiting

/// Something is due at the second and nanosecond that it waits for, and from then on. What is due
/// leaves the queue, all else stays in it, and both keep their order.
pub proof fn queue_is_parted_by_time(queue: Seq<PendingView>, item: PendingView, now: Moment)
    ensures
        ({
            let is_due = item.due.seconds < now.seconds || (item.due.seconds == now.seconds
                && item.due.nanos <= now.nanos);
            &&& due_part(queue, now).contains(item) == (queue.contains(item) && is_due)
            &&& later_part(queue, now).contains(item) == (queue.contains(item) && !is_due)
            &&& due_part(queue.push(item), now) == if is_due {
                due_part(queue, now).push(item)
            } else {
                due_part(queue, now)
            }
            &&& later_part(queue.push(item), now) == if is_due {
                later_part(queue, now)
            } else {
                later_part(queue, now).push(item)
            }
            &&& targets_of(queue.push(item)) == targets_of(queue).push(item.target)
        }),
        due_part(Seq::empty(), now).len() == 0,
        later_part(Seq::empty(), now).len() == 0,
{
    let is_due = |item: PendingView| item.due.no_later(now);
    let is_later = |item: PendingView| !item.due.no_later(now);
    if queue.contains(item) {
        let i = choose|i: int| 0 <= i < queue.len() && queue[i] == item;
        if item.due.no_later(now) {
            queue.lemma_filter_contains(is_due, i);
        } else {
            queue.lemma_filter_contains(is_later, i);
        }
    }
    if due_part(queue, now).contains(item) {
        queue.lemma_filter_contains_rev(is_due, item);
        let i = choose|i: int|
            0 <= i < due_part(queue, now).len() && due_part(queue, now)[i] == item;
        queue.lemma_filter_pred(is_due, i);
    }
    if later_part(queue, now).contains(item) {
        queue.lemma_filter_contains_rev(is_later, item);
        let i = choose|i: int|
            0 <= i < later_part(queue, now).len() && later_part(queue, now)[i] == item;
        queue.lemma_filter_pred(is_later, i);
    }
    reveal(Seq::filter);
    assert(queue.push(item).drop_last() =~= queue);
    assert(targets_of(queue.push(item)) =~= targets_of(queue).push(item.target));
}

/// The wait is over where anything in the queues is due, and else lasts until the first of them is.
pub proof fn wait_is_for_the_first(engine: EngineView, now: Moment, k: int)
    requires
        queue_known(engine.pending, engine.watched.len()),
        queue_known(engine.retries, engine.watched.len()),
        now.in_range(),
        now.is_plain(),
        0 <= k < (engine.pending + engine.retries).len(),
    ensures
        wait_until_due(engine, now) is Some,
        ({
            let due = (engine.pending + engine.retries)[k].due;
            let wait = wait_until_due(engine, now)->0;
            let own = (due.seconds - now.seconds) * 1000000000 + due.nanos - now.nanos;
            &&& 0 <= wait
            &&& own <= 0 ==> wait == 0
            &&& own > 0 ==> wait <= own
        }),
        wait_until_due(engine, now)->0 > 0 ==> exists|i: int|
            {
                &&& 0 <= i < (engine.pending + engine.retries).len()
                &&& wait_until_due(engine, now)->0 == ((
                #[trigger] (engine.pending + engine.retries)[i]).due.seconds - now.seconds)
                    * 1000000000 + (engine.pending + engine.retries)[i].due.nanos - now.nanos
            },
{
    let queue = engine.pending + engine.retries;
    earliest_is_least(queue);
    assert forall|i: int| 0 <= i < queue.len() implies (#[trigger] queue[i]).due.in_range()
        && queue[i].due.is_plain() by {
        if i < engine.pending.len() {
            assert(queue[i] == engine.pending[i]);
        } else {
            assert(queue[i] == engine.retries[i - engine.pending.len()]);
        }
    }
    let first = earliest(queue)->0;
    let i = choose|i: int| 0 <= i < queue.len() && (#[trigger] queue[i]).due == first;
    assert(first.no_later(queue[k].due));
    assert(queue[i].due == first);
}

/// The rest after a round lasts no longer than the interval and no longer than the wait, and is
/// as long as one of the two.
pub proof fn rest_is_the_shorter(runner: RunnerView, now: Moment)
    requires
        runner.interval >= 0,
    ensures
        rest_after(runner, now) <= runner.interval,
        wait_until_due(runner.engine, now) matches Some(wait) ==> rest_after(runner, now) <= wait
            && (rest_after(runner, now) == wait || rest_after(runner, now) == runner.interval),
        wait_until_due(runner.engine, now) is None ==> rest_after(runner, now) == runner.interval,
{
}

// ---------------------------------------------------------------------------------------
// Finding

/// An activity that was met before changes nothing.
pub proof fn met_activity_is_passed_over(
    harvest: Harvest,
    activity: ActivityView,
    course_index: int,
    now: Moment,
)
    requires
        harvest.progress.engine.seen.contains(activity.id),
    ensures
        after_activity(harvest, activity, course_index, now) == harvest,
{
}

/// A new activity is reported and met. With a delay it comes to wait for so many seconds, which
/// is told; without one it is signed in this round.
pub proof fn new_activity_is_taken(
    harvest: Harvest,
    activity: ActivityView,
    course_index: int,
    now: Moment,
)
    requires
        !harvest.progress.engine.seen.contains(activity.id),
        now.seconds + harvest.progress.engine.delay_seconds <= i64::MAX,
        harvest.progress.engine.delay_seconds >= i64::MIN,
    ensures
        ({
            let engine = harvest.progress.engine;
            let after = after_activity(harvest, activity, course_index, now);
            let name = engine.watched[course_index].name;
            let count = harvest.progress.events.len() as int;
            let events = after.progress.events;
            &&& forall|id: Seq<char>| #[trigger]
                after.progress.engine.seen.contains(id) == (engine.seen.contains(id) || id
                    == activity.id)
            &&& events.len() > count && events.take(count) == harvest.progress.events
            &&& events[count] matches EventView::Found {
                course_name,
                activity_id,
                kind,
                code,
            } && course_name == name && activity_id == activity.id && code == activity.code
            &&& engine.delay_seconds > 0 ==> {
                let pending = after.progress.engine.pending;
                &&& pending.len() == engine.pending.len() + 1
                &&& pending.drop_last() == engine.pending
                &&& pending.last().target.activity == activity
                &&& pending.last().target.course_index == course_index
                &&& pending.last().due.seconds == now.seconds + engine.delay_seconds
                &&& now.is_plain() ==> pending.last().due.nanos == now.nanos
                &&& after.immediate == harvest.immediate
                &&& events.len() == count + 2
                &&& events.last() == EventView::Info(
                    "将在 "@ + integer_text(engine.delay_seconds) + " 秒后自动签到 ["@ + name
                        + "]"@,
                )
            }
            &&& engine.delay_seconds <= 0 ==> {
                &&& after.progress.engine.pending == engine.pending
                &&& after.immediate.len() == harvest.immediate.len() + 1
                &&& after.immediate.drop_last() == harvest.immediate
                &&& after.immediate.last().activity == activity
                &&& after.immediate.last().course_index == course_index
                &&& events.len() == count + 1
            }
        }),
{
    let engine = harvest.progress.engine;
    let after = after_activity(harvest, activity, course_index, now);
    let count = harvest.progress.events.len() as int;
    assert(after.progress.events.take(count) =~= harvest.progress.events);
    if engine.delay_seconds > 0 {
        assert(after.progress.engine.pending.drop_last() =~= engine.pending);
    } else {
        assert(after.immediate.drop_last() =~= harvest.immediate);
    }
}

/// The kind of a new activity is told by its name: signing by code, by scan, by place, or an
/// unknown one.
pub proof fn found_activity_names_kind(activity: ActivityView, name: Seq<char>)
    ensures
        found_event(activity, name) matches EventView::Found { kind, .. } && {
            &&& activity.kind == SignType::Code ==> kind == "数字码"@
            &&& activity.kind == SignType::Qr ==> kind == "二维码"@
            &&& activity.kind == SignType::Locate ==> kind == "定位"@
            &&& activity.kind == SignType::Unknown ==> kind == "未知"@
        },
{
}

/// Every open row of a list is met, and nothing else is. What was new among it waits where there
/// is a delay, and is signed in this round where there is none.
pub proof fn open_rows_are_taken(
    harvest: Harvest,
    rows: Seq<RowView>,
    course_index: int,
    now: Moment,
    n: int,
    id: Seq<char>,
)
    requires
        0 <= n <= rows.len(),
    ensures
        ({
            let engine = harvest.progress.engine;
            let after = after_rows(harvest, rows, course_index, now, n);
            let is_row = exists|i: int| 0 <= i < n && (#[trigger] rows[i]).id == id;
            let is_new = is_row && !engine.seen.contains(id);
            &&& after.progress.engine.delay_seconds == engine.delay_seconds
            &&& after.progress.engine.watched == engine.watched
            &&& after.progress.engine.seen.contains(id) == (engine.seen.contains(id) || is_row)
            &&& engine.delay_seconds > 0 ==> after.immediate == harvest.immediate && waits_in(
                after.progress.engine.pending,
                id,
            ) == (waits_in(engine.pending, id) || is_new)
            &&& engine.delay_seconds <= 0 ==> after.progress.engine.pending == engine.pending
                && is_target(after.immediate, id) == (is_target(harvest.immediate, id) || is_new)
        }),
    decreases n,
{
    if n > 0 {
        open_rows_are_taken(harvest, rows, course_index, now, n - 1, id);
        let earlier = after_rows(harvest, rows, course_index, now, n - 1);
        let after = after_rows(harvest, rows, course_index, now, n);
        let engine = earlier.progress.engine;
        let activity = activity_of(rows[n - 1]);
        let target = TargetView { activity, course_index };
        assert(activity.id == rows[n - 1].id);
        if !engine.seen.contains(activity.id) {
            if engine.delay_seconds > 0 {
                let item = PendingView { target, due: now.later_by(engine.delay_seconds) };
                assert(after.progress.engine.pending == engine.pending.push(item));
                waits_after_one_more(engine.pending, item, id);
            } else {
                assert(after.immediate == earlier.immediate.push(target));
                target_after_one_more(earlier.immediate, target, id);
            }
        }
        if engine.seen.contains(activity.id) && activity.id == id {
            open_rows_are_taken(harvest, rows, course_index, now, n - 1, activity.id);
        }
    }
}

proof fn waits_after_one_more(queue: Seq<PendingView>, item: PendingView, id: Seq<char>)
    ensures
        waits_in(queue.push(item), id) == (waits_in(queue, id) || item.target.activity.id == id),
{
    let more = queue.push(item);
    if waits_in(queue, id) {
        let i = choose|i: int|
            0 <= i < queue.len() && (#[trigger] queue[i]).target.activity.id == id;
        assert(more[i].target.activity.id == id);
    }
    if item.target.activity.id == id {
        assert(more[queue.len() as int].target.activity.id == id);
    }
    if waits_in(more, id) {
        let i = choose|i: int|
            0 <= i < more.len() && (#[trigger] more[i]).target.activity.id == id;
        if i < queue.len() {
            assert(queue[i].target.activity.id == id);
        }
    }
}

proof fn target_after_one_more(targets: Seq<TargetView>, target: TargetView, id: Seq<char>)
    ensures
        is_target(targets.push(target), id) == (is_target(targets, id) || target.activity.id == id),
{
    let more = targets.push(target);
    if is_target(targets, id) {
        let i = choose|i: int| 0 <= i < targets.len() && (#[trigger] targets[i]).activity.id == id;
        assert(more[i].activity.id == id);
    }
    if target.activity.id == id {
        assert(more[targets.len() as int].activity.id == id);
    }
    if is_target(more, id) {
        let i = choose|i: int| 0 <= i < more.len() && (#[trigger] more[i]).activity.id == id;
        if i < targets.len() {
            assert(targets[i].activity.id == id);
        }
    }
}

/// A list that could not be had is warned of in the first round and in every tenth after it, by the
/// course's name and the reason, and otherwise passed over in silence.
pub proof fn failed_list_is_told_now_and_then(
    harvest: Harvest,
    error: ErrView,
    course_index: int,
    now: Moment,
)
    requires
        harvest.progress.engine.tick_no >= 1,
    ensures
        ({
            let engine = harvest.progress.engine;
            let after = after_list(harvest, Err(error), course_index, now).progress.events;
            &&& (engine.tick_no - 1) % 10 == 0 ==> after == harvest.progress.events.push(
                EventView::Warn(
                    "课程 "@ + engine.watched[course_index].name + " 拉取失败: "@ + error_text(
                        error,
                    ),
                ),
            )
            &&& (engine.tick_no - 1) % 10 != 0 ==> after == harvest.progress.events
        }),
{
}

// ---------------------------------------------------------------------------------------
// Order

/// The results are told one by one, each with the course and the activity that its request was for.
pub proof fn results_are_told_in_order(
    progress: Progress,
    targets: Seq<TargetView>,
    answers: SignAnswers,
    now: Moment,
)
    ensures
        ({
            let after = sign_phase(progress, targets, answers, now);
            after.events == progress.events + told_results(
                progress.engine,
                targets,
                answers.results,
            )
        }),
{
    if targets.len() > 0 {
        let engine = progress.engine;
        let requests = requests_for(engine, targets, answers.places);
        let questions = place_questions(engine, targets, answers.places, targets.len() as int);
        let asked = EngineView {
            trace: (engine.trace + questions).push(
                Exchange::Sign { requests, reply: answers.results },
            ),
            ..engine
        };
        let n = paired(targets, answers.results);
        results_told_so_far(
            Progress { engine: asked, ..progress },
            engine,
            targets,
            answers,
            requests,
            now,
            n,
        );
        assert(told_results(engine, targets, answers.results).take(n) =~= told_results(
            engine,
            targets,
            answers.results,
        ));
    } else {
        assert(told_results(progress.engine, targets, answers.results) =~= Seq::empty());
        assert(progress.events + Seq::<EventView>::empty() =~= progress.events);
    }
}

/// What is told of results: as many as there are both targets and results, each with the name of
/// the target's course and the identity of its activity.
pub open spec fn told_results(
    engine: EngineView,
    targets: Seq<TargetView>,
    results: Seq<ResultView>,
) -> Seq<EventView> {
    Seq::new(
        if targets.len() < results.len() {
            targets.len()
        } else {
            results.len()
        },
        |i: int|
            EventView::Signed {
                course_name: engine.watched[targets[i].course_index].name,
                activity_id: targets[i].activity.id,
                result: results[i],
            },
    )
}

proof fn results_told_so_far(
    progress: Progress,
    engine: EngineView,
    targets: Seq<TargetView>,
    answers: SignAnswers,
    requests: Seq<ReqView>,
    now: Moment,
    n: int,
)
    requires
        requests == requests_for(engine, targets, answers.places),
        0 <= n <= targets.len(),
        n <= answers.results.len(),
    ensures
        after_results(progress, targets, requests, answers.results, now, n).events
            == progress.events + told_results(engine, targets, answers.results).take(n),
    decreases n,
{
    let told = told_results(engine, targets, answers.results);
    if n > 0 {
        results_told_so_far(progress, engine, targets, answers, requests, now, n - 1);
        assert(told.take(n) =~= told.take(n - 1).push(told[n - 1]));
        assert(progress.events + told.take(n) =~= (progress.events + told.take(n - 1)).push(
            told[n - 1],
        ));
    } else {
        assert(progress.events + told.take(0) =~= progress.events);
    }
}

/// In a round the results of what waited are told first, then those of what is tried again, then
/// what is new, then the results of what was found; and the first round ends by telling how many
/// courses are watched.
pub proof fn round_tells_in_order(engine: EngineView, now: Moment, answers: Answers)
    requires
        engine.running,
        answers.login is Ok,
    ensures
        ({
            let begun = round_begun(engine, answers);
            let second = retries_signed(pending_signed(begun, now, answers), now, answers);
            let taken = lists_taken(courses_joined(second, answers), now, answers);
            let after = round(engine, now, answers);
            let waited = told_results(
                engine,
                targets_of(due_part(engine.pending, now)),
                answers.due.results,
            );
            let found = told_results(
                taken.progress.engine,
                taken.immediate,
                answers.found.results,
            );
            &&& waited.is_prefix_of(after.events)
            &&& second.events.is_prefix_of(after.events)
            &&& taken.progress.events.is_prefix_of(after.events)
            &&& second.events == waited + told_results(
                engine,
                targets_of(
                    due_part(pending_signed(begun, now, answers).engine.retries, now),
                ),
                answers.again.results,
            )
            &&& engine.tick_no == 0 ==> after.events == (taken.progress.events + found).push(
                EventView::Info(
                    "持续监控中,共 "@ + decimal_text(after.engine.watched.len()) + " 门课"@,
                ),
            )
            &&& engine.tick_no != 0 ==> after.events == taken.progress.events + found
        }),
{
    let begun = round_begun(engine, answers);
    let parted = EngineView { pending: later_part(begun.pending, now), ..begun };
    let due = targets_of(due_part(begun.pending, now));
    let first = pending_signed(begun, now, answers);
    let start = Progress { engine: parted, events: Seq::empty() };
    results_are_told_in_order(start, due, answers.due, now);
    signing_keeps_courses(start, due, answers.due, now);
    assert(told_results(parted, due, answers.due.results) =~= told_results(
        engine,
        due,
        answers.due.results,
    ));
    let waited = told_results(engine, due, answers.due.results);
    assert(first.events =~= waited);
    let parted2 = EngineView { retries: later_part(first.engine.retries, now), ..first.engine };
    let again = targets_of(due_part(first.engine.retries, now));
    let start2 = Progress { engine: parted2, ..first };
    results_are_told_in_order(start2, again, answers.again, now);
    signing_keeps_courses(start2, again, answers.again, now);
    assert(told_results(parted2, again, answers.again.results) =~= told_results(
        engine,
        again,
        answers.again.results,
    ));
    let second = retries_signed(first, now, answers);
    assert(second.events =~= waited + told_results(engine, again, answers.again.results));
    let third = courses_joined(second, answers);
    joining_adds_events(second, answers);
    let taken = lists_taken(third, now, answers);
    lists_add_events(third, now, answers);
    results_are_told_in_order(taken.progress, taken.immediate, answers.found, now);
    signing_keeps_courses(taken.progress, taken.immediate, answers.found, now);
    let after = round(engine, now, answers);
    let found = told_results(taken.progress.engine, taken.immediate, answers.found.results);
    assert(taken.progress.events.is_prefix_of(taken.progress.events + found));
    assert(taken.progress.events.is_prefix_of(after.events));
    assert(second.events.is_prefix_of(after.events)) by {
        prefix_of_prefix(second.events, third.events, taken.progress.events);
        prefix_of_prefix(second.events, taken.progress.events, after.events);
    }
    assert(waited.is_prefix_of(second.events));
    prefix_of_prefix(waited, second.events, after.events);
}

proof fn prefix_of_prefix(a: Seq<EventView>, b: Seq<EventView>, c: Seq<EventView>)
    requires
        a.is_prefix_of(b),
        b.is_prefix_of(c),
    ensures
        a.is_prefix_of(c),
{
    assert(a =~= c.subrange(0, a.len() as int)) by {
        assert forall|i: int| 0 <= i < a.len() implies a[i] == c[i] by {
            assert(a[i] == b.subrange(0, a.len() as int)[i]);
            assert(b[i] == c.subrange(0, b.len() as int)[i]);
        }
    }
}

/// Signing changes neither the watch list nor the number of the round.
proof fn signing_keeps_courses(
    progress: Progress,
    targets: Seq<TargetView>,
    answers: SignAnswers,
    now: Moment,
)
    ensures
        sign_phase(progress, targets, answers, now).engine.watched == progress.engine.watched,
        sign_phase(progress, targets, answers, now).engine.tick_no == progress.engine.tick_no,
{
    if targets.len() > 0 {
        let engine = progress.engine;
        let requests = requests_for(engine, targets, answers.places);
        let questions = place_questions(engine, targets, answers.places, targets.len() as int);
        let asked = EngineView {
            trace: (engine.trace + questions).push(
                Exchange::Sign { requests, reply: answers.results },
            ),
            ..engine
        };
        results_keep_courses(
            Progress { engine: asked, ..progress },
            targets,
            requests,
            answers.results,
            now,
            paired(targets, answers.results),
        );
    }
}

proof fn results_keep_courses(
    progress: Progress,
    targets: Seq<TargetView>,
    requests: Seq<ReqView>,
    results: Seq<ResultView>,
    now: Moment,
    n: int,
)
    ensures
        after_results(progress, targets, requests, results, now, n).engine.watched
            == progress.engine.watched,
        after_results(progress, targets, requests, results, now, n).engine.tick_no
            == progress.engine.tick_no,
    decreases n,
{
    if n > 0 {
        results_keep_courses(progress, targets, requests, results, now, n - 1);
    }
}

proof fn joining_adds_events(progress: Progress, answers: Answers)
    ensures
        progress.events.is_prefix_of(courses_joined(progress, answers).events),
        courses_joined(progress, answers).engine.tick_no == progress.engine.tick_no,
{
    assert(progress.events.is_prefix_of(progress.events));
    if refreshes(progress.engine) {
        if let Ok(courses) = answers.courses {
            crate::laws::joining_is_sound(
                Progress {
                    engine: crate::round::asking(
                        progress.engine,
                        Exchange::Courses { reply: answers.courses },
                    ),
                    ..progress
                },
                courses,
                courses.len() as int,
            );
        }
    }
}

proof fn lists_add_events(progress: Progress, now: Moment, answers: Answers)
    ensures
        progress.events.is_prefix_of(lists_taken(progress, now, answers).progress.events),
        lists_taken(progress, now, answers).progress.engine.tick_no == progress.engine.tick_no,
{
    let engine = progress.engine;
    let asked = crate::round::asking(
        engine,
        Exchange::Rows { courses: engine.watched, reply: answers.fetched },
    );
    let start = Harvest {
        progress: Progress { engine: asked, ..progress },
        immediate: Seq::empty(),
    };
    lists_add(start, answers.fetched, now, crate::round::answered(engine.watched, answers.fetched));
}

proof fn lists_add(
    start: Harvest,
    fetched: Seq<Result<Seq<RowView>, ErrView>>,
    now: Moment,
    n: int,
)
    ensures
        start.progress.events.is_prefix_of(after_lists(start, fetched, now, n).progress.events),
        after_lists(start, fetched, now, n).progress.engine.tick_no
            == start.progress.engine.tick_no,
    decreases n,
{
    assert(start.progress.events.is_prefix_of(start.progress.events));
    if n > 0 {
        lists_add(start, fetched, now, n - 1);
        let earlier = after_lists(start, fetched, now, n - 1);
        let after = after_lists(start, fetched, now, n);
        if let Ok(rows) = fetched[n - 1] {
            let open = qualified_rows(rows, earlier.progress.engine.seen, now);
            rows_add(earlier, open, n - 1, now, open.len() as int);
        }
        assert(earlier.progress.events.is_prefix_of(after.progress.events));
        prefix_of_prefix(
            start.progress.events,
            earlier.progress.events,
            after.progress.events,
        );
    }
}

proof fn rows_add(start: Harvest, rows: Seq<RowView>, course_index: int, now: Moment, n: int)
    ensures
        start.progress.events.is_prefix_of(
            after_rows(start, rows, course_index, now, n).progress.events,
        ),
        after_rows(start, rows, course_index, now, n).progress.engine.tick_no
            == start.progress.engine.tick_no,
    decreases n,
{
    assert(start.progress.events.is_prefix_of(start.progress.events));
    if n > 0 {
        rows_add(start, rows, course_index, now, n - 1);
        let earlier = after_rows(start, rows, course_index, now, n - 1);
        let after = after_rows(start, rows, course_index, now, n);
        assert(earlier.progress.events.is_prefix_of(after.progress.events));
        prefix_of_prefix(
            start.progress.events,
            earlier.progress.events,
            after.progress.events,
        );
    }
}

// ---------------------------------------------------------------------------------------
// Courses

/// A course that is on the list and not watched comes to be watched, at the end, and is announced
/// by its name; one whose class is watched changes nothing.
pub proof fn new_course_joins(progress: Progress, courses: Seq<CourseView>, course: CourseView)
    ensures
        ({
            let earlier = after_courses(progress, courses, courses.len() as int);
            let after = after_courses(progress, courses.push(course), courses.len() as int + 1);
            let known = exists|i: int|
                0 <= i < earlier.engine.watched.len() && (
                #[trigger] earlier.engine.watched[i]).tclass_id == course.tclass_id;
            &&& known ==> after == earlier
            &&& !known ==> after.engine.watched == earlier.engine.watched.push(course)
            &&& !known ==> after.events == earlier.events.push(
                EventView::Info("已自动加入课程 "@ + course.name),
            )
        }),
{
    let more = courses.push(course);
    assert(more.take(courses.len() as int) =~= courses);
    courses_up_to(progress, more, courses.len() as int);
    assert(more[courses.len() as int] == course);
}

proof fn courses_up_to(progress: Progress, courses: Seq<CourseView>, n: int)
    requires
        0 <= n <= courses.len(),
    ensures
        after_courses(progress, courses, n) == after_courses(progress, courses.take(n), n),
    decreases n,
{
    if n > 0 {
        courses_up_to(progress, courses, n - 1);
        courses_up_to(progress, courses.take(n), n - 1);
        assert(courses.take(n).take(n - 1) =~= courses.take(n - 1));
        assert(courses.take(n)[n - 1] == courses[n - 1]);
    }
}

// ---------------------------------------------------------------------------------------
// Stopping

/// An engine that was stopped makes no more rounds and waits for nothing. It still knows what it
/// watched, what it met and how often what failed, and stopping it again changes nothing.
pub proof fn stopping_forgets_what_waits(engine: EngineView, now: Moment, answers: Answers)
    ensures
        ({
            let after = stopped(engine);
            &&& !after.running
            &&& after.pending.len() == 0 && after.retries.len() == 0
            &&& after.watched == engine.watched && after.seen == engine.seen && after.attempts
                == engine.attempts
            &&& after.tick_no == engine.tick_no && after.trace == engine.trace && after.coords
                == engine.coords
            &&& after.delay_seconds == engine.delay_seconds && after.refresh_every
                == engine.refresh_every
            &&& stopped(after) == after
            &&& round(after, now, answers) == (Progress { engine: after, events: Seq::empty() })
            &&& wait_until_due(after, now) is None
        }),
{
}

} // verus!
