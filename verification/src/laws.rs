//! What holds of the watch over many rounds: nothing is found twice, nothing waits twice, and
//! what is settled stays so.
use crate::api::{error_text, ErrView, ReqView, ResultView};
use crate::clock::Moment;
use crate::engine::{
    due_part, later_part, targets_of, EventView, PendingView, TargetView, MAX_SIGN_ATTEMPTS,
};
use crate::filter::qualified_rows;
use crate::models::{activity_of, ActivityView, CourseView, RowView};
use crate::round::{
    after_activity, after_courses, after_list, after_lists, after_result, after_results,
    after_rows, answered, asking, asks_patience, calendar_allows, courses_joined, failures_of,
    is_watched, keeps_nothing_idle, lists_taken, paired, pending_signed, place_questions,
    refreshes, requests_for, retries_signed, round, round_begun, round_ended, sign_phase,
    wait_until_due, Answers, EngineView, Exchange, Harvest, Progress, SignAnswers,
};
use crate::text::contains_text;
use vstd::prelude::*;

verus! {

/// An activity waits in a queue.
pub open spec fn waits_in(queue: Seq<PendingView>, id: Seq<char>) -> bool {
    exists|i: int| 0 <= i < queue.len() && (#[trigger] queue[i]).target.activity.id == id
}

/// An activity is among targets.
pub open spec fn is_target(targets: Seq<TargetView>, id: Seq<char>) -> bool {
    exists|i: int| 0 <= i < targets.len() && (#[trigger] targets[i]).activity.id == id
}

/// No activity waits in a queue twice.
pub open spec fn waits_once(queue: Seq<PendingView>) -> bool {
    forall|i: int, j: int|
        0 <= i < j < queue.len() ==> (#[trigger] queue[i]).target.activity.id != (
        #[trigger] queue[j]).target.activity.id
}

/// No activity is among targets twice.
pub open spec fn targeted_once(targets: Seq<TargetView>) -> bool {
    forall|i: int, j: int|
        0 <= i < j < targets.len() ==> (#[trigger] targets[i]).activity.id != (
        #[trigger] targets[j]).activity.id
}

/// An activity waits, for its time or to be tried again.
pub open spec fn waits(engine: EngineView, id: Seq<char>) -> bool {
    waits_in(engine.pending, id) || waits_in(engine.retries, id)
}

/// No activity waits twice, and whatever waits was met.
pub open spec fn is_sound(engine: EngineView) -> bool {
    &&& waits_once(engine.pending)
    &&& waits_once(engine.retries)
    &&& forall|id: Seq<char>|
        #![trigger waits_in(engine.pending, id)]
        #![trigger waits_in(engine.retries, id)]
        !(waits_in(engine.pending, id) && waits_in(engine.retries, id))
    &&& forall|id: Seq<char>| #[trigger] waits(engine, id) ==> engine.seen.contains(id)
}

/// The activity that an event reports as found.
pub open spec fn found_id(event: EventView) -> Option<Seq<char>> {
    match event {
        EventView::Found { activity_id, .. } => Some(activity_id),
        _ => None,
    }
}

/// The activity that an event reports as tried.
pub open spec fn signed_id(event: EventView) -> Option<Seq<char>> {
    match event {
        EventView::Signed { activity_id, .. } => Some(activity_id),
        _ => None,
    }
}

/// The activity that an event reports as tried and not failed.
pub open spec fn settled_id(event: EventView) -> Option<Seq<char>> {
    match event {
        EventView::Signed { activity_id, result, .. } => if result is Failed {
            None
        } else {
            Some(activity_id)
        },
        _ => None,
    }
}

/// Events report as found only activities that were met since `before`, each once.
pub open spec fn found_once(
    events: Seq<EventView>,
    before: Set<Seq<char>>,
    after: Set<Seq<char>>,
) -> bool {
    &&& forall|i: int|
        0 <= i < events.len() && found_id(#[trigger] events[i]) is Some ==> !before.contains(
            found_id(events[i])->0,
        ) && after.contains(found_id(events[i])->0)
    &&& forall|i: int, j: int|
        0 <= i < j < events.len() && found_id(#[trigger] events[i]) is Some && found_id(
            #[trigger] events[j],
        ) is Some ==> found_id(events[i]) != found_id(events[j])
}

/// No event reports an activity as tried.
pub open spec fn never_tried(events: Seq<EventView>, id: Seq<char>) -> bool {
    forall|i: int| 0 <= i < events.len() ==> signed_id(#[trigger] events[i]) != Some(id)
}

// ---------------------------------------------------------------------------------------
// Queues

proof fn waits_after_push(queue: Seq<PendingView>, item: PendingView, id: Seq<char>)
    ensures
        waits_in(queue.push(item), id) == (waits_in(queue, id) || item.target.activity.id == id),
{
    let more = queue.push(item);
    if waits_in(queue, id) {
        let i = choose|i: int|
            0 <= i < queue.len() && (#[trigger] queue[i]).target.activity.id == id;
        assert(more[i].target.activity.id == id);
    }
    if item.target.activity.id == id {
        assert(more[queue.len() as int].target.activity.id == id);
    }
    if waits_in(more, id) {
        let i = choose|i: int|
            0 <= i < more.len() && (#[trigger] more[i]).target.activity.id == id;
        if i < queue.len() {
            assert(queue[i].target.activity.id == id);
        }
    }
}

proof fn once_after_push(queue: Seq<PendingView>, item: PendingView)
    requires
        waits_once(queue),
        !waits_in(queue, item.target.activity.id),
    ensures
        waits_once(queue.push(item)),
{
    let more = queue.push(item);
    assert forall|i: int, j: int| 0 <= i < j < more.len() implies (
    #[trigger] more[i]).target.activity.id != (#[trigger] more[j]).target.activity.id by {
        assert(queue[i] == more[i]);
        if j < queue.len() {
            assert(queue[j] == more[j]);
        }
    }
}

/// Parting a queue by time puts each item into one part.
pub proof fn parts_of_queue(queue: Seq<PendingView>, now: Moment)
    requires
        waits_once(queue),
    ensures
        targeted_once(targets_of(due_part(queue, now))),
        waits_once(later_part(queue, now)),
        forall|id: Seq<char>| #[trigger]
            is_target(targets_of(due_part(queue, now)), id) ==> waits_in(queue, id) && !waits_in(
                later_part(queue, now),
                id,
            ),
        forall|id: Seq<char>| #[trigger]
            waits_in(later_part(queue, now), id) ==> waits_in(queue, id),
    decreases queue.len(),
{
    reveal(Seq::filter);
    let due = due_part(queue, now);
    let later = later_part(queue, now);
    if queue.len() > 0 {
        let rest = queue.drop_last();
        let last = queue.last();
        let rest_due = due_part(rest, now);
        let rest_later = later_part(rest, now);
        assert(queue =~= rest.push(last));
        assert(waits_once(rest)) by {
            assert forall|i: int, j: int| 0 <= i < j < rest.len() implies (
            #[trigger] rest[i]).target.activity.id != (#[trigger] rest[j]).target.activity.id by {
                assert(rest[i] == queue[i] && rest[j] == queue[j]);
            }
        }
        assert(!waits_in(rest, last.target.activity.id)) by {
            if waits_in(rest, last.target.activity.id) {
                let i = choose|i: int|
                    0 <= i < rest.len() && (#[trigger] rest[i]).target.activity.id
                        == last.target.activity.id;
                assert(queue[i] == rest[i]);
                assert(queue[queue.len() - 1] == last);
            }
        }
        parts_of_queue(rest, now);
        assert forall|id: Seq<char>| waits_in(queue, id) == (waits_in(rest, id)
            || last.target.activity.id == id) by {
            waits_after_push(rest, last, id);
        }
        let last_id = last.target.activity.id;
        if last.due.no_later(now) {
            assert(due =~= rest_due.push(last));
            assert(later =~= rest_later);
            let targets = targets_of(due);
            assert(targets =~= targets_of(rest_due).push(last.target));
            assert(!is_target(targets_of(rest_due), last_id));
            targets_after_push(targets_of(rest_due), last.target);
            assert forall|id: Seq<char>| #[trigger] is_target(targets, id) implies waits_in(
                queue,
                id,
            ) && !waits_in(later, id) by {
                if id != last_id {
                    assert(is_target(targets_of(rest_due), id));
                } else {
                    assert(!waits_in(rest_later, last_id));
                }
            }
        } else {
            assert(due =~= rest_due);
            assert(later =~= rest_later.push(last));
            assert(!waits_in(rest_later, last_id));
            once_after_push(rest_later, last);
            assert forall|id: Seq<char>| waits_in(later, id) == (waits_in(rest_later, id)
                || last_id == id) by {
                waits_after_push(rest_later, last, id);
            }
            assert forall|id: Seq<char>| #[trigger] is_target(
                targets_of(due),
                id,
            ) implies waits_in(queue, id) && !waits_in(later, id) by {
                assert(is_target(targets_of(rest_due), id));
            }
        }
    }
}

proof fn targets_after_push(targets: Seq<TargetView>, target: TargetView)
    requires
        targeted_once(targets),
        !is_target(targets, target.activity.id),
    ensures
        targeted_once(targets.push(target)),
        forall|id: Seq<char>| #[trigger]
            is_target(targets.push(target), id) == (is_target(targets, id)
                || target.activity.id == id),
{
    let more = targets.push(target);
    assert forall|i: int, j: int| 0 <= i < j < more.len() implies (#[trigger] more[i]).activity.id
        != (#[trigger] more[j]).activity.id by {
        assert(targets[i] == more[i]);
        if j < targets.len() {
            assert(targets[j] == more[j]);
        }
    }
    assert forall|id: Seq<char>| #[trigger] is_target(more, id) == (is_target(targets, id)
        || target.activity.id == id) by {
        if is_target(targets, id) {
            let i = choose|i: int|
                0 <= i < targets.len() && (#[trigger] targets[i]).activity.id == id;
            assert(more[i].activity.id == id);
        }
        if target.activity.id == id {
            assert(more[targets.len() as int].activity.id == id);
        }
        if is_target(more, id) {
            let i = choose|i: int| 0 <= i < more.len() && (#[trigger] more[i]).activity.id == id;
            if i < targets.len() {
                assert(targets[i].activity.id == id);
            }
        }
    }
}

// ---------------------------------------------------------------------------------------
// Checking in

/// What checking in leaves as it is: all but the queue of what is tried again, the failures,
/// and the record of what was asked.
pub open spec fn only_retries_differ(before: EngineView, after: EngineView) -> bool {
    after == EngineView {
        retries: after.retries,
        attempts: after.attempts,
        trace: after.trace,
        ..before
    }
}

/// Targets can be checked in to together: none is there twice, and none waits.
pub open spec fn fit_to_sign(engine: EngineView, targets: Seq<TargetView>) -> bool {
    &&& is_sound(engine)
    &&& targeted_once(targets)
    &&& forall|id: Seq<char>| #[trigger]
        is_target(targets, id) ==> !waits(engine, id) && engine.seen.contains(id)
}

proof fn target_stands(targets: Seq<TargetView>, i: int)
    requires
        0 <= i < targets.len(),
    ensures
        is_target(targets, targets[i].activity.id),
{
    assert(targets[i].activity.id == targets[i].activity.id);
}

/// What the first results do: nothing comes to wait twice, only what was tried comes to wait,
/// and each result is reported.
proof fn results_are_sound(
    progress: Progress,
    targets: Seq<TargetView>,
    requests: Seq<ReqView>,
    results: Seq<ResultView>,
    now: Moment,
    n: int,
)
    requires
        fit_to_sign(progress.engine, targets),
        requests.len() == targets.len(),
        forall|i: int|
            0 <= i < targets.len() ==> (#[trigger] requests[i]).activity == targets[i].activity,
        0 <= n <= targets.len(),
        n <= results.len(),
    ensures
        ({
            let after = after_results(progress, targets, requests, results, now, n);
            &&& only_retries_differ(progress.engine, after.engine)
            &&& is_sound(after.engine)
            &&& forall|id: Seq<char>| #[trigger]
                waits_in(after.engine.retries, id) ==> waits_in(progress.engine.retries, id)
                    || is_target(targets.take(n), id)
            &&& after.events.len() == progress.events.len() + n
            &&& forall|i: int|
                0 <= i < progress.events.len() ==> #[trigger] after.events[i]
                    == progress.events[i]
            &&& forall|i: int|
                progress.events.len() <= i < after.events.len() ==> found_id(
                    #[trigger] after.events[i],
                ) is None && signed_id(after.events[i]) is Some && is_target(
                    targets.take(n),
                    signed_id(after.events[i])->0,
                )
            &&& forall|i: int|
                progress.events.len() <= i < after.events.len() && settled_id(
                    #[trigger] after.events[i],
                ) is Some ==> !waits_in(after.engine.retries, settled_id(after.events[i])->0)
            &&& now.seconds + 60 <= i64::MAX ==> due_part(after.engine.retries, now) == due_part(
                progress.engine.retries,
                now,
            )
        }),
    decreases n,
{
    if n > 0 {
        results_are_sound(progress, targets, requests, results, now, n - 1);
        let before = after_results(progress, targets, requests, results, now, n - 1);
        let after = after_results(progress, targets, requests, results, now, n);
        let target = targets[n - 1];
        let id = target.activity.id;
        assert(requests[n - 1].activity == target.activity);
        target_stands(targets, n - 1);
        let earlier = targets.take(n - 1);
        assert(targets.take(n) =~= earlier.push(target));
        assert(!is_target(earlier, id)) by {
            if is_target(earlier, id) {
                let i = choose|i: int|
                    0 <= i < earlier.len() && (#[trigger] earlier[i]).activity.id == id;
                assert(targets[i].activity.id == id);
            }
        }
        assert(targeted_once(earlier)) by {
            assert forall|i: int, j: int| 0 <= i < j < earlier.len() implies (
            #[trigger] earlier[i]).activity.id != (#[trigger] earlier[j]).activity.id by {
                assert(earlier[i] == targets[i] && earlier[j] == targets[j]);
            }
        }
        targets_after_push(earlier, target);
        assert(!waits(progress.engine, id));
        assert(!waits_in(before.engine.retries, id));
        assert(!waits_in(before.engine.pending, id));
        if after.engine.retries != before.engine.retries {
            let item = after.engine.retries.last();
            assert(after.engine.retries =~= before.engine.retries.push(item));
            once_after_push(before.engine.retries, item);
            assert forall|other: Seq<char>| waits_in(after.engine.retries, other) == (waits_in(
                before.engine.retries,
                other,
            ) || id == other) by {
                waits_after_push(before.engine.retries, item, other);
            }
            assert forall|other: Seq<char>| #[trigger]
                waits(after.engine, other) implies after.engine.seen.contains(other) by {
                if other != id {
                    assert(waits(before.engine, other));
                }
            }
        } else {
            assert forall|other: Seq<char>| #[trigger]
                waits(after.engine, other) implies after.engine.seen.contains(other) by {
                assert(waits(before.engine, other));
            }
        }
        assert forall|i: int|
            progress.events.len() <= i < after.events.len() implies found_id(
            #[trigger] after.events[i],
        ) is None && signed_id(after.events[i]) is Some && is_target(
            targets.take(n),
            signed_id(after.events[i])->0,
        ) by {
            if i < before.events.len() {
                assert(after.events[i] == before.events[i]);
                assert(is_target(earlier, signed_id(after.events[i])->0));
            }
        }
        assert forall|i: int|
            progress.events.len() <= i < after.events.len() && settled_id(
                #[trigger] after.events[i],
            ) is Some implies !waits_in(
            after.engine.retries,
            settled_id(after.events[i])->0,
        ) by {
            if i < before.events.len() {
                assert(after.events[i] == before.events[i]);
                assert(is_target(earlier, signed_id(after.events[i])->0));
                assert(settled_id(before.events[i]) == signed_id(before.events[i]));
                assert(signed_id(before.events[i])->0 != id);
            }
        }
        if now.seconds + 60 <= i64::MAX && after.engine.retries != before.engine.retries {
            reveal(Seq::filter);
            let item = after.engine.retries.last();
            assert(after.engine.retries.drop_last() =~= before.engine.retries);
            assert(now.before(item.due));
        }
        assert forall|i: int| 0 <= i < progress.events.len() implies #[trigger] after.events[i]
            == progress.events[i] by {
            assert(after.events[i] == before.events[i]);
        }
    }
}

/// What checking in to targets does.
pub open spec fn signs_soundly(
    before: Progress,
    targets: Seq<TargetView>,
    after: Progress,
) -> bool {
    &&& only_retries_differ(before.engine, after.engine)
    &&& is_sound(after.engine)
    &&& forall|id: Seq<char>| #[trigger]
        waits_in(after.engine.retries, id) ==> waits_in(before.engine.retries, id) || is_target(
            targets,
            id,
        )
    &&& before.events.len() <= after.events.len()
    &&& forall|i: int|
        0 <= i < before.events.len() ==> #[trigger] after.events[i] == before.events[i]
    &&& forall|i: int|
        before.events.len() <= i < after.events.len() ==> found_id(#[trigger] after.events[i])
            is None && signed_id(after.events[i]) is Some && is_target(
            targets,
            signed_id(after.events[i])->0,
        )
    &&& forall|i: int|
        before.events.len() <= i < after.events.len() && settled_id(#[trigger] after.events[i])
            is Some ==> !waits(after.engine, settled_id(after.events[i])->0)
}

/// Checking in to targets that fit leaves nothing waiting twice, puts off only what was tried,
/// and reports only what was tried.
pub proof fn signing_is_sound(
    progress: Progress,
    targets: Seq<TargetView>,
    answers: SignAnswers,
    now: Moment,
)
    requires
        fit_to_sign(progress.engine, targets),
    ensures
        signs_soundly(progress, targets, sign_phase(progress, targets, answers, now)),
        now.seconds + 60 <= i64::MAX ==> due_part(
            sign_phase(progress, targets, answers, now).engine.retries,
            now,
        ) == due_part(progress.engine.retries, now),
{
    if targets.len() > 0 {
        let engine = progress.engine;
        let requests = requests_for(engine, targets, answers.places);
        let questions = place_questions(engine, targets, answers.places, targets.len() as int);
        let asked = EngineView {
            trace: (engine.trace + questions).push(
                Exchange::Sign { requests, reply: answers.results },
            ),
            ..engine
        };
        let start = Progress { engine: asked, ..progress };
        let n = paired(targets, answers.results);
        assert(fit_to_sign(asked, targets)) by {
            assert forall|id: Seq<char>| #[trigger]
                waits(asked, id) implies asked.seen.contains(id) by {
                assert(waits(engine, id));
            }
            assert forall|id: Seq<char>| #[trigger] is_target(targets, id) implies !waits(
                asked,
                id,
            ) && asked.seen.contains(id) by {
                assert(!waits(engine, id));
            }
        }
        results_are_sound(start, targets, requests, answers.results, now, n);
        let after = sign_phase(progress, targets, answers, now);
        assert(after == after_results(start, targets, requests, answers.results, now, n));
        assert forall|id: Seq<char>| is_target(targets.take(n), id) implies is_target(
            targets,
            id,
        ) by {
            let some = targets.take(n);
            let i = choose|i: int| 0 <= i < some.len() && (#[trigger] some[i]).activity.id == id;
            assert(targets[i].activity.id == id);
        }
        assert forall|id: Seq<char>| #[trigger]
            waits_in(after.engine.retries, id) implies waits_in(progress.engine.retries, id)
            || is_target(targets, id) by {
            assert(is_target(targets.take(n), id) ==> is_target(targets, id));
        }
        assert forall|i: int|
            progress.events.len() <= i < after.events.len() && settled_id(
                #[trigger] after.events[i],
            ) is Some implies !waits(after.engine, settled_id(after.events[i])->0) by {
            let id = settled_id(after.events[i])->0;
            assert(signed_id(after.events[i]) == Some(id));
            assert(is_target(targets.take(n), id));
            assert(is_target(targets, id));
            assert(!waits(progress.engine, id));
        }
    }
}

// ---------------------------------------------------------------------------------------
// Taking in the lists

/// Taking in lists changes only what was met and what waits for its time. Nothing comes to wait
/// or to be checked in to twice, and only what was not met before comes to do so; what is found
/// is reported once.
pub open spec fn takes_soundly(before: Harvest, met: Set<Seq<char>>, after: Harvest) -> bool {
    &&& fit_to_sign(after.progress.engine, after.immediate)
    &&& after.progress.engine == EngineView {
        seen: after.progress.engine.seen,
        pending: after.progress.engine.pending,
        ..before.progress.engine
    }
    &&& before.progress.engine.seen.subset_of(after.progress.engine.seen)
    &&& found_once(after.progress.events, met, after.progress.engine.seen)
    &&& before.progress.events.len() <= after.progress.events.len()
    &&& forall|i: int|
        0 <= i < before.progress.events.len() ==> #[trigger] after.progress.events[i]
            == before.progress.events[i]
    &&& forall|i: int|
        before.progress.events.len() <= i < after.progress.events.len() ==> signed_id(
            #[trigger] after.progress.events[i],
        ) is None
    &&& forall|id: Seq<char>| #[trigger]
        waits(after.progress.engine, id) ==> waits(before.progress.engine, id) || !met.contains(id)
    &&& forall|id: Seq<char>| #[trigger]
        is_target(after.immediate, id) ==> is_target(before.immediate, id) || !met.contains(id)
}

/// Lists can be taken in: what is at hand is sound, and what was met still counts as met.
pub open spec fn fit_to_take(harvest: Harvest, met: Set<Seq<char>>) -> bool {
    &&& fit_to_sign(harvest.progress.engine, harvest.immediate)
    &&& met.subset_of(harvest.progress.engine.seen)
    &&& found_once(harvest.progress.events, met, harvest.progress.engine.seen)
}

proof fn found_after_push(
    events: Seq<EventView>,
    met: Set<Seq<char>>,
    seen: Set<Seq<char>>,
    more: Set<Seq<char>>,
    event: EventView,
)
    requires
        found_once(events, met, seen),
        seen.subset_of(more),
        met.subset_of(seen),
        found_id(event) matches Some(id) ==> !seen.contains(id) && more.contains(id),
    ensures
        found_once(events.push(event), met, more),
{
    let all = events.push(event);
    assert forall|i: int|
        0 <= i < all.len() && found_id(#[trigger] all[i]) is Some implies !met.contains(
        found_id(all[i])->0,
    ) && more.contains(found_id(all[i])->0) by {
        if i < events.len() {
            assert(all[i] == events[i]);
        }
    }
    assert forall|i: int, j: int|
        0 <= i < j < all.len() && found_id(#[trigger] all[i]) is Some && found_id(
            #[trigger] all[j],
        ) is Some implies found_id(all[i]) != found_id(all[j]) by {
        assert(all[i] == events[i]);
        if j < events.len() {
            assert(all[j] == events[j]);
        }
    }
}

proof fn activity_is_sound(
    start: Harvest,
    before: Harvest,
    met: Set<Seq<char>>,
    activity: ActivityView,
    course_index: int,
    now: Moment,
)
    requires
        fit_to_take(start, met),
        takes_soundly(start, met, before),
    ensures
        takes_soundly(start, met, after_activity(before, activity, course_index, now)),
{
    let after = after_activity(before, activity, course_index, now);
    let engine = before.progress.engine;
    let id = activity.id;
    if !engine.seen.contains(id) {
        let name = engine.watched[course_index].name;
        let seen = engine.seen.insert(id);
        let target = TargetView { activity, course_index };
        assert(!waits(engine, id));
        assert(!is_target(before.immediate, id));
        let found = crate::round::found_event(activity, name);
        found_after_push(before.progress.events, met, engine.seen, seen, found);
        if engine.delay_seconds > 0 {
            let item = after.progress.engine.pending.last();
            assert(after.progress.engine.pending =~= engine.pending.push(item));
            let notice = crate::round::delay_event(engine.delay_seconds, name);
            found_after_push(before.progress.events.push(found), met, seen, seen, notice);
            once_after_push(engine.pending, item);
            assert forall|other: Seq<char>| waits_in(after.progress.engine.pending, other) == (
            waits_in(engine.pending, other) || id == other) by {
                waits_after_push(engine.pending, item, other);
            }
            assert forall|other: Seq<char>| waits(after.progress.engine, other) == (waits(
                engine,
                other,
            ) || id == other) by {}
        } else {
            targets_after_push(before.immediate, target);
            assert forall|other: Seq<char>| waits(after.progress.engine, other) == waits(
                engine,
                other,
            ) by {}
        }
        let done = after.progress.engine;
        assert(done.seen == seen);
        assert forall|other: Seq<char>| #[trigger] waits(done, other) implies done.seen.contains(
            other,
        ) && (waits(start.progress.engine, other) || !met.contains(other)) by {
            assert(waits(engine, other) || other == id);
        }
        assert(is_sound(done));
        assert forall|other: Seq<char>| #[trigger] is_target(after.immediate, other) implies !waits(
            done,
            other,
        ) && done.seen.contains(other) && (is_target(start.immediate, other) || !met.contains(
            other,
        )) by {
            assert(is_target(before.immediate, other) || other == id);
            assert(waits(done, other) ==> waits(engine, other) || other == id);
        }
        assert(fit_to_sign(done, after.immediate));
        assert(found_once(after.progress.events, met, done.seen));
    }
}

proof fn rows_are_sound(
    start: Harvest,
    before: Harvest,
    met: Set<Seq<char>>,
    rows: Seq<RowView>,
    course_index: int,
    now: Moment,
    n: int,
)
    requires
        fit_to_take(start, met),
        takes_soundly(start, met, before),
    ensures
        takes_soundly(start, met, after_rows(before, rows, course_index, now, n)),
    decreases n,
{
    if n > 0 {
        rows_are_sound(start, before, met, rows, course_index, now, n - 1);
        activity_is_sound(
            start,
            after_rows(before, rows, course_index, now, n - 1),
            met,
            activity_of(rows[n - 1]),
            course_index,
            now,
        );
    }
}

/// Taking in check-in lists is sound.
pub proof fn lists_are_sound(
    start: Harvest,
    met: Set<Seq<char>>,
    fetched: Seq<Result<Seq<RowView>, ErrView>>,
    now: Moment,
    n: int,
)
    requires
        fit_to_take(start, met),
    ensures
        takes_soundly(start, met, after_lists(start, fetched, now, n)),
    decreases n,
{
    if n > 0 {
        lists_are_sound(start, met, fetched, now, n - 1);
        let before = after_lists(start, fetched, now, n - 1);
        match fetched[n - 1] {
            Ok(rows) => {
                let candidates = qualified_rows(rows, before.progress.engine.seen, now);
                rows_are_sound(
                    start,
                    before,
                    met,
                    candidates,
                    n - 1,
                    now,
                    candidates.len() as int,
                );
            },
            Err(error) => {
                if before.progress.engine.tick_no % 10 == 1 {
                    let seen = before.progress.engine.seen;
                    let warning = crate::round::fetch_warning(
                        before.progress.engine.watched[n - 1].name,
                        error,
                    );
                    found_after_push(before.progress.events, met, seen, seen, warning);
                }
            },
        }
    }
}

// ---------------------------------------------------------------------------------------
// Joining courses

/// Joining courses changes only which courses are watched, and drops none of them.
pub open spec fn joins_soundly(before: Progress, after: Progress) -> bool {
    &&& after.engine == EngineView { watched: after.engine.watched, ..before.engine }
    &&& before.engine.watched.is_prefix_of(after.engine.watched)
    &&& before.events.len() <= after.events.len()
    &&& forall|i: int|
        0 <= i < before.events.len() ==> #[trigger] after.events[i] == before.events[i]
    &&& forall|i: int|
        before.events.len() <= i < after.events.len() ==> signed_id(#[trigger] after.events[i])
            is None && found_id(after.events[i]) is None
}

/// Joining courses is sound.
pub proof fn joining_is_sound(progress: Progress, courses: Seq<CourseView>, n: int)
    ensures
        joins_soundly(progress, after_courses(progress, courses, n)),
    decreases n,
{
    if n > 0 {
        joining_is_sound(progress, courses, n - 1);
        let before = after_courses(progress, courses, n - 1);
        let after = after_courses(progress, courses, n);
        assert(progress.engine.watched.is_prefix_of(after.engine.watched)) by {
            if after != before {
                let w = progress.engine.watched;
                assert(after.engine.watched.take(w.len() as int)
                    =~= before.engine.watched.take(w.len() as int));
            }
        }
    }
}

// ---------------------------------------------------------------------------------------
// Rounds

/// What an activity must be to be tried in a round: it waited and its time has come, or it was
/// not met before.
pub open spec fn may_be_tried(engine: EngineView, now: Moment, id: Seq<char>) -> bool {
    ||| is_target(targets_of(due_part(engine.pending, now)), id)
    ||| is_target(targets_of(due_part(engine.retries, now)), id)
    ||| !engine.seen.contains(id)
}

/// What a round does as a whole.
pub open spec fn rounds_soundly(engine: EngineView, now: Moment, after: Progress) -> bool {
    &&& is_sound(after.engine)
    &&& engine.seen.subset_of(after.engine.seen)
    &&& engine.watched.is_prefix_of(after.engine.watched)
    &&& found_once(after.events, engine.seen, after.engine.seen)
    &&& forall|i: int|
        0 <= i < after.events.len() && signed_id(#[trigger] after.events[i]) is Some
            ==> may_be_tried(engine, now, signed_id(after.events[i])->0)
            && after.engine.seen.contains(signed_id(after.events[i])->0)
    &&& forall|i: int|
        0 <= i < after.events.len() && settled_id(#[trigger] after.events[i]) is Some ==> !waits(
            after.engine,
            settled_id(after.events[i])->0,
        )
    &&& forall|id: Seq<char>| #[trigger]
        waits(after.engine, id) ==> waits(engine, id) || !engine.seen.contains(id)
}

/// After the targets whose time had come: what the first two steps of a round keep.
pub open spec fn signing_kept(engine: EngineView, now: Moment, after: Progress) -> bool {
    &&& is_sound(after.engine)
    &&& after.engine.seen == engine.seen
    &&& after.engine.watched == engine.watched
    &&& forall|i: int|
        0 <= i < after.events.len() ==> found_id(#[trigger] after.events[i]) is None && signed_id(
            after.events[i],
        ) is Some && may_be_tried(engine, now, signed_id(after.events[i])->0)
            && engine.seen.contains(signed_id(after.events[i])->0)
    &&& forall|i: int|
        0 <= i < after.events.len() && settled_id(#[trigger] after.events[i]) is Some ==> !waits(
            after.engine,
            settled_id(after.events[i])->0,
        )
    &&& forall|id: Seq<char>| #[trigger] waits(after.engine, id) ==> waits(engine, id)
}

proof fn parting_pending(engine: EngineView, now: Moment)
    requires
        is_sound(engine),
    ensures
        ({
            let parted = EngineView { pending: later_part(engine.pending, now), ..engine };
            &&& fit_to_sign(parted, targets_of(due_part(engine.pending, now)))
            &&& forall|id: Seq<char>| #[trigger] waits(parted, id) ==> waits(engine, id)
        }),
{
    let parted = EngineView { pending: later_part(engine.pending, now), ..engine };
    let targets = targets_of(due_part(engine.pending, now));
    parts_of_queue(engine.pending, now);
    assert forall|id: Seq<char>| #[trigger] waits(parted, id) implies waits(engine, id) by {}
    assert forall|id: Seq<char>| #[trigger] waits(parted, id) implies parted.seen.contains(id) by {
        assert(waits(engine, id));
    }
    assert forall|id: Seq<char>|
        #![trigger waits_in(parted.pending, id)]
        !(waits_in(parted.pending, id) && waits_in(parted.retries, id)) by {
        assert(waits_in(parted.pending, id) ==> waits_in(engine.pending, id));
    }
    assert forall|id: Seq<char>| #[trigger] is_target(targets, id) implies !waits(parted, id)
        && parted.seen.contains(id) by {
        assert(waits_in(engine.pending, id));
        assert(waits(engine, id));
    }
}

proof fn parting_retries(engine: EngineView, now: Moment)
    requires
        is_sound(engine),
    ensures
        ({
            let parted = EngineView { retries: later_part(engine.retries, now), ..engine };
            &&& fit_to_sign(parted, targets_of(due_part(engine.retries, now)))
            &&& forall|id: Seq<char>| #[trigger] waits(parted, id) ==> waits(engine, id)
            &&& forall|id: Seq<char>| #[trigger]
                is_target(targets_of(due_part(engine.retries, now)), id) ==> waits(engine, id)
        }),
{
    let parted = EngineView { retries: later_part(engine.retries, now), ..engine };
    let targets = targets_of(due_part(engine.retries, now));
    parts_of_queue(engine.retries, now);
    assert forall|id: Seq<char>| #[trigger] waits(parted, id) implies waits(engine, id) by {}
    assert forall|id: Seq<char>| #[trigger] waits(parted, id) implies parted.seen.contains(id) by {
        assert(waits(engine, id));
    }
    assert forall|id: Seq<char>|
        #![trigger waits_in(parted.retries, id)]
        !(waits_in(parted.pending, id) && waits_in(parted.retries, id)) by {
        assert(waits_in(parted.retries, id) ==> waits_in(engine.retries, id));
    }
    assert forall|id: Seq<char>| #[trigger] is_target(targets, id) implies !waits(parted, id)
        && parted.seen.contains(id) && waits(engine, id) by {
        assert(waits_in(engine.retries, id));
        assert(waits(engine, id));
    }
}

proof fn first_step(engine: EngineView, now: Moment, answers: Answers)
    requires
        is_sound(engine),
        calendar_allows(engine, now),
    ensures
        signing_kept(engine, now, pending_signed(engine, now, answers)),
        due_part(pending_signed(engine, now, answers).engine.retries, now) == due_part(
            engine.retries,
            now,
        ),
{
    parting_pending(engine, now);
    parts_of_queue(engine.pending, now);
    let parted = EngineView { pending: later_part(engine.pending, now), ..engine };
    let targets = targets_of(due_part(engine.pending, now));
    let start = Progress { engine: parted, events: Seq::empty() };
    signing_is_sound(start, targets, answers.due, now);
    let after = pending_signed(engine, now, answers);
    assert forall|id: Seq<char>| #[trigger] waits(after.engine, id) implies waits(engine, id) by {
        if waits_in(after.engine.retries, id) && is_target(targets, id) {
            assert(waits_in(engine.pending, id));
        } else {
            assert(waits(parted, id));
        }
    }
    assert forall|i: int| 0 <= i < after.events.len() implies found_id(#[trigger] after.events[i])
        is None && signed_id(after.events[i]) is Some && may_be_tried(
        engine,
        now,
        signed_id(after.events[i])->0,
    ) && engine.seen.contains(signed_id(after.events[i])->0) by {}
}

proof fn second_step(engine: EngineView, first: Progress, now: Moment, answers: Answers)
    requires
        signing_kept(engine, now, first),
        due_part(first.engine.retries, now) == due_part(engine.retries, now),
    ensures
        signing_kept(engine, now, retries_signed(first, now, answers)),
{
    parting_retries(first.engine, now);
    let parted = EngineView {
        retries: later_part(first.engine.retries, now),
        ..first.engine
    };
    let targets = targets_of(due_part(first.engine.retries, now));
    let start = Progress { engine: parted, ..first };
    signing_is_sound(start, targets, answers.again, now);
    let after = retries_signed(first, now, answers);
    assert forall|id: Seq<char>| #[trigger] waits(after.engine, id) implies waits(
        first.engine,
        id,
    ) by {
        if !(waits_in(after.engine.retries, id) && is_target(targets, id)) {
            assert(waits(parted, id));
        }
    }
    assert forall|i: int| 0 <= i < after.events.len() implies found_id(#[trigger] after.events[i])
        is None && signed_id(after.events[i]) is Some && may_be_tried(
        engine,
        now,
        signed_id(after.events[i])->0,
    ) && engine.seen.contains(signed_id(after.events[i])->0) by {
        if i < first.events.len() {
            assert(after.events[i] == first.events[i]);
        }
    }
    assert forall|i: int|
        0 <= i < after.events.len() && settled_id(#[trigger] after.events[i]) is Some implies !waits(
        after.engine,
        settled_id(after.events[i])->0,
    ) by {
        if i < first.events.len() {
            assert(after.events[i] == first.events[i]);
            assert(!waits(first.engine, settled_id(after.events[i])->0));
        }
    }
}

proof fn last_steps(engine: EngineView, second: Progress, now: Moment, answers: Answers)
    requires
        signing_kept(engine, now, second),
    ensures
        ({
            let third = courses_joined(second, answers);
            let taken = lists_taken(third, now, answers);
            rounds_soundly(
                engine,
                now,
                sign_phase(taken.progress, taken.immediate, answers.found, now),
            )
        }),
{
    let third = courses_joined(second, answers);
    if refreshes(second.engine) {
        let asked = Progress {
            engine: asking(second.engine, Exchange::Courses { reply: answers.courses }),
            ..second
        };
        if let Ok(courses) = answers.courses {
            joining_is_sound(asked, courses, courses.len() as int);
        }
    }
    assert(second.engine.watched.is_prefix_of(third.engine.watched));
    assert forall|i: int| 0 <= i < second.events.len() implies #[trigger] third.events[i]
        == second.events[i] by {}
    assert forall|i: int| second.events.len() <= i < third.events.len() implies signed_id(
        #[trigger] third.events[i],
    ) is None && found_id(third.events[i]) is None by {}
    let asked = Progress {
        engine: asking(
            third.engine,
            Exchange::Rows { courses: third.engine.watched, reply: answers.fetched },
        ),
        ..third
    };
    let start = Harvest { progress: asked, immediate: Seq::empty() };
    assert forall|id: Seq<char>| waits(asked.engine, id) == waits(second.engine, id) by {}
    assert(is_sound(asked.engine)) by {
        assert forall|id: Seq<char>| #[trigger]
            waits(asked.engine, id) implies asked.engine.seen.contains(id) by {
            assert(waits(second.engine, id));
        }
    }
    assert(found_once(asked.events, engine.seen, engine.seen)) by {
        assert forall|i: int| 0 <= i < asked.events.len() implies found_id(
            #[trigger] asked.events[i],
        ) is None by {
            if i < second.events.len() {
                assert(asked.events[i] == second.events[i]);
            }
        }
    }
    assert(fit_to_take(start, engine.seen));
    lists_are_sound(
        start,
        engine.seen,
        answers.fetched,
        now,
        answered(third.engine.watched, answers.fetched),
    );
    let taken = lists_taken(third, now, answers);
    assert(takes_soundly(start, engine.seen, taken));
    signing_is_sound(taken.progress, taken.immediate, answers.found, now);
    let after = sign_phase(taken.progress, taken.immediate, answers.found, now);
    assert forall|id: Seq<char>| #[trigger] waits(after.engine, id) implies waits(engine, id)
        || !engine.seen.contains(id) by {
        if waits_in(after.engine.retries, id) && is_target(taken.immediate, id) {
            assert(!is_target(start.immediate, id));
        } else {
            assert(waits(taken.progress.engine, id));
        }
    }
    assert forall|i: int| 0 <= i < taken.progress.events.len() implies #[trigger] after.events[i]
        == taken.progress.events[i] by {}
    assert forall|i: int| 0 <= i < third.events.len() implies #[trigger] after.events[i]
        == third.events[i] by {
        assert(after.events[i] == taken.progress.events[i]);
    }
    assert forall|i: int|
        0 <= i < after.events.len() && signed_id(
            #[trigger] after.events[i],
        ) is Some implies may_be_tried(engine, now, signed_id(after.events[i])->0)
        && after.engine.seen.contains(signed_id(after.events[i])->0) by {
        if i < second.events.len() {
            assert(after.events[i] == third.events[i]);
            assert(third.events[i] == second.events[i]);
        } else if i < third.events.len() {
            assert(after.events[i] == third.events[i]);
        } else if i < taken.progress.events.len() {
            assert(after.events[i] == taken.progress.events[i]);
        } else {
            let id = signed_id(after.events[i])->0;
            assert(is_target(taken.immediate, id));
            assert(!is_target(start.immediate, id));
        }
    }
    assert forall|i: int|
        0 <= i < after.events.len() && settled_id(#[trigger] after.events[i]) is Some implies !waits(
        after.engine,
        settled_id(after.events[i])->0,
    ) by {
        let id = settled_id(after.events[i])->0;
        assert(signed_id(after.events[i]) == Some(id));
        if i < taken.progress.events.len() {
            assert(after.events[i] == taken.progress.events[i]);
            if i < third.events.len() {
                assert(after.events[i] == third.events[i]);
                if i < second.events.len() {
                    assert(third.events[i] == second.events[i]);
                    assert(!waits(second.engine, id));
                    assert(engine.seen.contains(id));
                    assert(!is_target(start.immediate, id));
                    assert(!is_target(taken.immediate, id));
                    assert(!waits(taken.progress.engine, id));
                    assert(!waits_in(after.engine.retries, id));
                }
            }
        }
    }
    assert(found_once(after.events, engine.seen, after.engine.seen)) by {
        assert forall|i: int|
            0 <= i < after.events.len() && found_id(#[trigger] after.events[i]) is Some implies i
            < taken.progress.events.len() && after.events[i] == taken.progress.events[i] by {}
    }
}

/// In every round: nothing comes to wait twice; what was met stays met; the courses that are
/// watched stay watched; what is found was not met before and is reported once; what is tried
/// either waited and its time has come, or was not met before; what was tried and did not fail
/// waits no longer; and nothing comes to wait that was met before and did not wait.
pub proof fn round_is_sound(engine: EngineView, now: Moment, answers: Answers)
    requires
        is_sound(engine),
        calendar_allows(engine, now),
    ensures
        rounds_soundly(engine, now, round(engine, now, answers)),
{
    let after = round(engine, now, answers);
    if !engine.running {
        assert(engine.watched.is_prefix_of(engine.watched));
    } else {
        let begun = round_begun(engine, answers);
        assert forall|id: Seq<char>| waits(begun, id) == waits(engine, id) by {}
        assert(is_sound(begun)) by {
            assert forall|id: Seq<char>| #[trigger] waits(begun, id) implies begun.seen.contains(
                id,
            ) by {
                assert(waits(engine, id));
            }
        }
        if answers.login is Err {
            assert(engine.watched.is_prefix_of(engine.watched));
            assert forall|id: Seq<char>| !waits(after.engine, id) by {}
            assert(waits_once(after.engine.pending));
        } else {
            first_step(begun, now, answers);
            let first = pending_signed(begun, now, answers);
            second_step(begun, first, now, answers);
            let second = retries_signed(first, now, answers);
            last_steps(begun, second, now, answers);
            let third = courses_joined(second, answers);
            let taken = lists_taken(third, now, answers);
            let ended = sign_phase(taken.progress, taken.immediate, answers.found, now);
            assert(after == round_ended(ended));
            assert(rounds_soundly(begun, now, ended));
            assert forall|i: int| 0 <= i < ended.events.len() implies #[trigger] after.events[i]
                == ended.events[i] by {}
            assert forall|i: int| ended.events.len() <= i < after.events.len() implies signed_id(
                #[trigger] after.events[i],
            ) is None && found_id(after.events[i]) is None by {}
            assert(after.engine == ended.engine);
            assert forall|id: Seq<char>| may_be_tried(begun, now, id) == may_be_tried(
                engine,
                now,
                id,
            ) by {}
        }
    }
}

/// An engine that has met nothing is sound.
pub proof fn fresh_engine_is_sound(engine: EngineView)
    requires
        engine.pending.len() == 0,
        engine.retries.len() == 0,
    ensures
        is_sound(engine),
{
}

/// An activity that was met and does not wait is settled: no round tries it, and it does not
/// come to wait again.
pub proof fn settled_stays_settled(
    engine: EngineView,
    now: Moment,
    answers: Answers,
    id: Seq<char>,
)
    requires
        is_sound(engine),
        calendar_allows(engine, now),
        engine.seen.contains(id),
        !waits(engine, id),
    ensures
        !waits(round(engine, now, answers).engine, id),
        never_tried(round(engine, now, answers).events, id),
        round(engine, now, answers).engine.seen.contains(id),
{
    round_is_sound(engine, now, answers);
    let after = round(engine, now, answers);
    parts_of_queue(engine.pending, now);
    parts_of_queue(engine.retries, now);
    assert(!may_be_tried(engine, now, id));
    assert forall|i: int| 0 <= i < after.events.len() implies signed_id(#[trigger] after.events[i])
        != Some(id) by {}
}

/// Where the session is lost the engine stops: it reports so, nothing waits any longer, and the
/// service is asked for nothing else.
pub proof fn lost_session_stops(engine: EngineView, now: Moment, answers: Answers, error: ErrView)
    requires
        engine.running,
        answers.login == Err::<(), ErrView>(error),
    ensures
        !round(engine, now, answers).engine.running,
        round(engine, now, answers).engine.pending.len() == 0,
        round(engine, now, answers).engine.retries.len() == 0,
        round(engine, now, answers).events == seq![
            EventView::Warn("登录失效,已自动停止: "@ + error_text(error)),
        ],
        round(engine, now, answers).engine.trace == engine.trace.push(
            Exchange::Login { reply: answers.login },
        ),
{
}

/// An engine that does not run stays so: its rounds ask nothing, report nothing and change
/// nothing, and there is nothing to wait for.
pub proof fn stopped_engine_rests(engine: EngineView, now: Moment, answers: Answers)
    requires
        !engine.running,
        keeps_nothing_idle(engine),
    ensures
        round(engine, now, answers) == (Progress { engine, events: Seq::empty() }),
        wait_until_due(engine, now) is None,
{
}

/// The third failure is the last, unless the refusal asks for patience.
pub proof fn third_failure_gives_up(
    engine: EngineView,
    request: ReqView,
    course_index: int,
    message: Seq<char>,
    now: Moment,
)
    requires
        failures_of(engine.attempts, request.activity.id) >= MAX_SIGN_ATTEMPTS - 1,
        !asks_patience(message),
    ensures
        after_result(
            engine,
            request,
            course_index,
            ResultView::Failed(message),
            now,
        ).retries == engine.retries,
{
}

/// The first and the second failure, and every refusal that asks for patience, are tried again
/// after a minute.
pub proof fn failure_is_tried_again(
    engine: EngineView,
    request: ReqView,
    course_index: int,
    message: Seq<char>,
    now: Moment,
)
    requires
        failures_of(engine.attempts, request.activity.id) < MAX_SIGN_ATTEMPTS - 1
            || asks_patience(message),
    ensures
        after_result(
            engine,
            request,
            course_index,
            ResultView::Failed(message),
            now,
        ).retries == engine.retries.push(
            PendingView {
                target: TargetView { activity: request.activity, course_index },
                due: now.later_by(60),
            },
        ),
{
}

/// Every failure is counted.
pub proof fn failure_is_counted(
    engine: EngineView,
    request: ReqView,
    course_index: int,
    message: Seq<char>,
    now: Moment,
)
    requires
        failures_of(engine.attempts, request.activity.id) < u32::MAX,
    ensures
        failures_of(
            after_result(
                engine,
                request,
                course_index,
                ResultView::Failed(message),
                now,
            ).attempts,
            request.activity.id,
        ) == failures_of(engine.attempts, request.activity.id) + 1,
{
}

/// The record of what was asked only grows while results are kept.
proof fn results_keep_trace(
    progress: Progress,
    targets: Seq<TargetView>,
    requests: Seq<ReqView>,
    results: Seq<ResultView>,
    now: Moment,
    n: int,
)
    ensures
        after_results(progress, targets, requests, results, now, n).engine.trace
            == progress.engine.trace,
    decreases n,
{
    if n > 0 {
        results_keep_trace(progress, targets, requests, results, now, n - 1);
    }
}

/// Every target that is checked in to is in the one request that is made for all of them, in the
/// order of the targets, each with its own course. Before it nothing is asked but the places that
/// are not known; where there is no target nothing is asked at all.
pub proof fn every_target_is_requested(
    progress: Progress,
    targets: Seq<TargetView>,
    answers: SignAnswers,
    now: Moment,
)
    ensures
        targets.len() == 0 ==> sign_phase(progress, targets, answers, now) == progress,
        targets.len() > 0 ==> {
            let trace = sign_phase(progress, targets, answers, now).engine.trace;
            &&& trace.len() > 0
            &&& trace.drop_last() == progress.engine.trace + place_questions(
                progress.engine,
                targets,
                answers.places,
                targets.len() as int,
            )
            &&& trace.last() matches Exchange::Sign { requests, reply } && {
                &&& reply == answers.results
                &&& requests.len() == targets.len()
                &&& forall|i: int|
                    0 <= i < targets.len() ==> (#[trigger] requests[i]).activity
                        == targets[i].activity && requests[i].course
                        == progress.engine.watched[targets[i].course_index]
            }
        },
{
    let engine = progress.engine;
    let requests = requests_for(engine, targets, answers.places);
    let questions = place_questions(engine, targets, answers.places, targets.len() as int);
    let asked = EngineView {
        trace: (engine.trace + questions).push(
            Exchange::Sign { requests, reply: answers.results },
        ),
        ..engine
    };
    results_keep_trace(
        Progress { engine: asked, ..progress },
        targets,
        requests,
        answers.results,
        now,
        paired(targets, answers.results),
    );
    if targets.len() > 0 {
        assert(sign_phase(progress, targets, answers, now).engine.trace.drop_last()
            =~= engine.trace + questions);
    }
}

/// Whatever has waited for its time is a target of the round in which the time has come, and
/// nothing else of what waited is.
pub proof fn due_is_target(queue: Seq<PendingView>, now: Moment, i: int)
    requires
        0 <= i < queue.len(),
    ensures
        queue[i].due.no_later(now) ==> targets_of(due_part(queue, now)).contains(queue[i].target),
        !queue[i].due.no_later(now) ==> later_part(queue, now).contains(queue[i]),
{
    let is_due = |item: PendingView| item.due.no_later(now);
    let is_later = |item: PendingView| !item.due.no_later(now);
    if queue[i].due.no_later(now) {
        assert(is_due(queue[i]));
        queue.lemma_filter_contains(is_due, i);
        let due = due_part(queue, now);
        let k = choose|k: int| 0 <= k < due.len() && due[k] == queue[i];
        assert(targets_of(due)[k] == queue[i].target);
    } else {
        assert(is_later(queue[i]));
        queue.lemma_filter_contains(is_later, i);
    }
}

/// A check-in list that cannot be had changes nothing but the report.
pub proof fn failed_list_blocks_nothing(
    harvest: Harvest,
    error: ErrView,
    course_index: int,
    now: Moment,
)
    ensures
        after_list(harvest, Err(error), course_index, now).progress.engine
            == harvest.progress.engine,
        after_list(harvest, Err(error), course_index, now).immediate == harvest.immediate,
{
}

/// No two watched courses have one class.
pub open spec fn watched_once(watched: Seq<CourseView>) -> bool {
    forall|i: int, j: int|
        0 <= i < j < watched.len() ==> (#[trigger] watched[i]).tclass_id != (
        #[trigger] watched[j]).tclass_id
}

/// Every course of a list that is joined is watched afterwards, and where no class was watched
/// twice none is.
pub proof fn joined_courses_are_watched(progress: Progress, courses: Seq<CourseView>, n: int)
    requires
        0 <= n <= courses.len(),
    ensures
        forall|i: int|
            0 <= i < n ==> is_watched(
                after_courses(progress, courses, n).engine.watched,
                #[trigger] courses[i],
            ),
        watched_once(progress.engine.watched) ==> watched_once(
            after_courses(progress, courses, n).engine.watched,
        ),
    decreases n,
{
    if n > 0 {
        joined_courses_are_watched(progress, courses, n - 1);
        let before = after_courses(progress, courses, n - 1).engine.watched;
        let after = after_courses(progress, courses, n).engine.watched;
        assert forall|i: int| 0 <= i < n implies is_watched(after, #[trigger] courses[i]) by {
            if i < n - 1 {
                assert(is_watched(before, courses[i]));
                let k = choose|k: int|
                    0 <= k < before.len() && before[k].tclass_id == courses[i].tclass_id;
                assert(after[k].tclass_id == courses[i].tclass_id);
            } else if !is_watched(before, courses[n - 1]) {
                assert(after[before.len() as int].tclass_id == courses[n - 1].tclass_id);
            }
        }
        if watched_once(before) && !is_watched(before, courses[n - 1]) {
            assert forall|i: int, j: int| 0 <= i < j < after.len() implies (
            #[trigger] after[i]).tclass_id != (#[trigger] after[j]).tclass_id by {
                assert(after[i] == before[i]);
                if j < before.len() {
                    assert(after[j] == before[j]);
                }
            }
        }
    }
}

// ---------------------------------------------------------------------------------------
// Many rounds

/// One round of many: when it is made, and what the service answers in it.
pub ghost struct Step {
    pub now: Moment,
    pub answers: Answers,
}

/// The engine after the first `n` rounds.
pub open spec fn after_rounds(engine: EngineView, steps: Seq<Step>, n: int) -> EngineView
    decreases n,
{
    if n <= 0 {
        engine
    } else {
        round(after_rounds(engine, steps, n - 1), steps[n - 1].now, steps[n - 1].answers).engine
    }
}

/// What the round with number `n` reports.
pub open spec fn events_of_round(engine: EngineView, steps: Seq<Step>, n: int) -> Seq<EventView> {
    round(after_rounds(engine, steps, n), steps[n].now, steps[n].answers).events
}

/// Every round is made at a time that the calendar allows.
pub open spec fn rounds_allowed(engine: EngineView, steps: Seq<Step>) -> bool {
    forall|i: int|
        0 <= i < steps.len() ==> calendar_allows(
            after_rounds(engine, steps, i),
            (#[trigger] steps[i]).now,
        )
}

/// An engine stays sound, and what it has met stays met, however many rounds it makes.
pub proof fn rounds_are_sound(engine: EngineView, steps: Seq<Step>, m: int, n: int)
    requires
        is_sound(engine),
        rounds_allowed(engine, steps),
        0 <= m <= n <= steps.len(),
    ensures
        is_sound(after_rounds(engine, steps, n)),
        after_rounds(engine, steps, m).seen.subset_of(after_rounds(engine, steps, n).seen),
    decreases n,
{
    if m < n {
        rounds_are_sound(engine, steps, m, n - 1);
        let before = after_rounds(engine, steps, n - 1);
        assert(calendar_allows(before, steps[n - 1].now));
        round_is_sound(before, steps[n - 1].now, steps[n - 1].answers);
    } else if n > 0 {
        rounds_are_sound(engine, steps, n - 1, n - 1);
        let before = after_rounds(engine, steps, n - 1);
        assert(calendar_allows(before, steps[n - 1].now));
        round_is_sound(before, steps[n - 1].now, steps[n - 1].answers);
    }
}

/// However many rounds are made, no activity is reported as found in two of them.
pub proof fn found_at_most_once(
    engine: EngineView,
    steps: Seq<Step>,
    m: int,
    n: int,
    i: int,
    j: int,
)
    requires
        is_sound(engine),
        rounds_allowed(engine, steps),
        0 <= m < n < steps.len(),
        0 <= i < events_of_round(engine, steps, m).len(),
        0 <= j < events_of_round(engine, steps, n).len(),
        found_id(events_of_round(engine, steps, m)[i]) is Some,
        found_id(events_of_round(engine, steps, n)[j]) is Some,
    ensures
        found_id(events_of_round(engine, steps, m)[i]) != found_id(
            events_of_round(engine, steps, n)[j],
        ),
{
    let before = after_rounds(engine, steps, m);
    assert(calendar_allows(before, steps[m].now));
    rounds_are_sound(engine, steps, m, m);
    round_is_sound(before, steps[m].now, steps[m].answers);
    rounds_are_sound(engine, steps, m + 1, n);
    let later = after_rounds(engine, steps, n);
    assert(calendar_allows(later, steps[n].now));
    round_is_sound(later, steps[n].now, steps[n].answers);
}

/// An activity that was tried and did not fail is tried in no later round.
pub proof fn settled_for_good(
    engine: EngineView,
    steps: Seq<Step>,
    m: int,
    n: int,
    i: int,
    id: Seq<char>,
)
    requires
        is_sound(engine),
        rounds_allowed(engine, steps),
        0 <= m < n < steps.len(),
        0 <= i < events_of_round(engine, steps, m).len(),
        settled_id(events_of_round(engine, steps, m)[i]) == Some(id),
    ensures
        never_tried(events_of_round(engine, steps, n), id),
{
    let before = after_rounds(engine, steps, m);
    assert(calendar_allows(before, steps[m].now));
    rounds_are_sound(engine, steps, m, m);
    round_is_sound(before, steps[m].now, steps[m].answers);
    let after = round(before, steps[m].now, steps[m].answers);
    assert(settled_id(after.events[i]) == Some(id));
    assert(!waits(after.engine, id));
    assert(signed_id(after.events[i]) == Some(id));
    stays_settled(engine, steps, m + 1, n, id);
    let later = after_rounds(engine, steps, n);
    rounds_are_sound(engine, steps, n, n);
    assert(calendar_allows(later, steps[n].now));
    settled_stays_settled(later, steps[n].now, steps[n].answers, id);
}

proof fn stays_settled(engine: EngineView, steps: Seq<Step>, m: int, n: int, id: Seq<char>)
    requires
        is_sound(engine),
        rounds_allowed(engine, steps),
        0 <= m <= n <= steps.len(),
        after_rounds(engine, steps, m).seen.contains(id),
        !waits(after_rounds(engine, steps, m), id),
    ensures
        after_rounds(engine, steps, n).seen.contains(id),
        !waits(after_rounds(engine, steps, n), id),
    decreases n,
{
    if m < n {
        stays_settled(engine, steps, m, n - 1, id);
        let before = after_rounds(engine, steps, n - 1);
        rounds_are_sound(engine, steps, n - 1, n - 1);
        assert(calendar_allows(before, steps[n - 1].now));
        settled_stays_settled(before, steps[n - 1].now, steps[n - 1].answers, id);
    }
}

/// A refusal that says that it was asked too often is queued again for a minute later, however
/// many failures came before; and so is, by itself, one that asks to come back later.
pub proof fn busy_service_is_asked_again(
    engine: EngineView,
    request: ReqView,
    course_index: int,
    message: Seq<char>,
    now: Moment,
)
    requires
        contains_text(message, "过于频繁"@) || contains_text(message, "稍后"@),
        now.seconds + 60 <= i64::MAX,
    ensures
        ({
            let after = after_result(
                engine,
                request,
                course_index,
                ResultView::Failed(message),
                now,
            );
            &&& after.retries.len() == engine.retries.len() + 1
            &&& after.retries.drop_last() == engine.retries
            &&& after.retries.last().target.activity == request.activity
            &&& after.retries.last().target.course_index == course_index
            &&& after.retries.last().due.seconds == now.seconds + 60
        }),
{
    let after = after_result(engine, request, course_index, ResultView::Failed(message), now);
    assert(after.retries.drop_last() =~= engine.retries);
}

/// Any other refusal is queued again for a minute later after the first and the second failure,
/// and after the third and every later one no more.
pub proof fn plain_refusal_is_tried_three_times(
    engine: EngineView,
    request: ReqView,
    course_index: int,
    message: Seq<char>,
    now: Moment,
)
    requires
        !contains_text(message, "过于频繁"@),
        !contains_text(message, "稍后"@),
        now.seconds + 60 <= i64::MAX,
    ensures
        ({
            let after = after_result(
                engine,
                request,
                course_index,
                ResultView::Failed(message),
                now,
            );
            let id = request.activity.id;
            let failed_before = if engine.attempts.contains_key(id) {
                engine.attempts[id] as int
            } else {
                0
            };
            &&& failed_before >= 2 ==> after.retries == engine.retries
            &&& failed_before < 2 ==> after.retries.len() == engine.retries.len() + 1
                && after.retries.drop_last() == engine.retries
                && after.retries.last().target.activity == request.activity
                && after.retries.last().target.course_index == course_index
                && after.retries.last().due.seconds == now.seconds + 60
        }),
{
    let after = after_result(engine, request, course_index, ResultView::Failed(message), now);
    if after.retries != engine.retries {
        assert(after.retries.drop_last() =~= engine.retries);
    }
}

/// A failure is counted for its own activity and for no other; nothing else of the engine changes
/// but what is tried again. A success and an end change nothing at all.
pub proof fn result_concerns_its_activity(
    engine: EngineView,
    request: ReqView,
    course_index: int,
    result: ResultView,
    now: Moment,
    other: Seq<char>,
)
    ensures
        ({
            let after = after_result(engine, request, course_index, result, now);
            &&& !(result is Failed) ==> after == engine
            &&& result is Failed ==> after.attempts.contains_key(request.activity.id)
            &&& result is Failed && !engine.attempts.contains_key(request.activity.id)
                ==> after.attempts[request.activity.id] == 1
            &&& result is Failed && engine.attempts.contains_key(request.activity.id)
                && engine.attempts[request.activity.id] < u32::MAX
                ==> after.attempts[request.activity.id] == engine.attempts[request.activity.id] + 1
            &&& other != request.activity.id ==> after.attempts.contains_key(other)
                == engine.attempts.contains_key(other) && (engine.attempts.contains_key(other)
                ==> after.attempts[other] == engine.attempts[other])
            &&& after == EngineView {
                attempts: after.attempts,
                retries: after.retries,
                ..engine
            }
        }),
{
}

/// The count of failures goes no further than it can, and then stays.
pub proof fn failures_stay_at_most(
    engine: EngineView,
    request: ReqView,
    course_index: int,
    message: Seq<char>,
    now: Moment,
)
    requires
        failures_of(engine.attempts, request.activity.id) == u32::MAX,
    ensures
        failures_of(
            after_result(
                engine,
                request,
                course_index,
                ResultView::Failed(message),
                now,
            ).attempts,
            request.activity.id,
        ) == u32::MAX,
{
}

} // verus!
