//! What one round of the watch does: the engine's state, and how each answer of the service
//! changes it.
use crate::api::{error_text, ApiErr, ErrView, ReqView, ResultView};
use crate::clock::{Moment, LAST_SECOND};
use crate::engine::{
    due_part, later_part, targets_of, EventView, PendingView, TargetView, MAX_SIGN_ATTEMPTS,
    RETRY_INTERVAL_SECONDS,
};
use crate::filter::qualified_rows;
use crate::models::{
    activity_of, kind_name, views, ActivityView, CoordinatesView, Course, CourseView, RawRow,
    RowView, SignType,
};
use crate::number::{decimal_text, integer_text};
use crate::text::contains_text;
use vstd::prelude::*;

verus! {

/// The place of a course, where a table has it.
pub open spec fn place_in(table: Map<Seq<char>, CoordinatesView>, name: Seq<char>) -> Option<
    CoordinatesView,
> {
    if table.contains_key(name) {
        Some(table[name])
    } else {
        None
    }
}

/// A question to the service together with its answer.
#[allow(inconsistent_fields)]
#[verifier::ext_equal]
pub ghost enum Exchange {
    Login { reply: Result<(), ErrView> },
    Courses { reply: Result<Seq<CourseView>, ErrView> },
    Rows { courses: Seq<CourseView>, reply: Seq<Result<Seq<RowView>, ErrView>> },
    Place { activity: ActivityView, course: CourseView, reply: Option<CoordinatesView> },
    Sign { requests: Seq<ReqView>, reply: Seq<ResultView> },
}

/// The state of an engine: the courses that it watches, how it works, what it has met, what
/// waits for its time, what waits to be tried again, how often each activity has failed, whether
/// it runs, how many rounds it has made, and all that its client was asked and answered.
#[verifier::ext_equal]
pub ghost struct EngineView {
    pub watched: Seq<CourseView>,
    pub delay_seconds: int,
    pub coords: Map<Seq<char>, CoordinatesView>,
    pub refresh_every: int,
    pub seen: Set<Seq<char>>,
    pub pending: Seq<PendingView>,
    pub retries: Seq<PendingView>,
    pub attempts: Map<Seq<char>, u32>,
    pub running: bool,
    pub tick_no: int,
    pub trace: Seq<Exchange>,
}

/// What the service can answer when it is asked for courses.
pub open spec fn courses_reply(reply: Result<Vec<Course>, ApiErr>) -> Result<
    Seq<CourseView>,
    ErrView,
> {
    match reply {
        Ok(courses) => Ok(views(courses@)),
        Err(error) => Err(error@),
    }
}

/// What the service can answer when it is asked for the check-in list of a course.
pub open spec fn rows_reply(reply: Result<Vec<RawRow>, ApiErr>) -> Result<Seq<RowView>, ErrView> {
    match reply {
        Ok(rows) => Ok(views(rows@)),
        Err(error) => Err(error@),
    }
}

/// What the service can answer when it is asked for the check-in lists of some courses.
pub open spec fn fetched_reply(reply: Seq<Result<Vec<RawRow>, ApiErr>>) -> Seq<
    Result<Seq<RowView>, ErrView>,
> {
    reply.map_values(|rows: Result<Vec<RawRow>, ApiErr>| rows_reply(rows))
}

/// What the service can answer when it is asked for the session.
pub open spec fn login_reply(reply: Result<(), ApiErr>) -> Result<(), ErrView> {
    match reply {
        Ok(()) => Ok(()),
        Err(error) => Err(error@),
    }
}

// ---------------------------------------------------------------------------------------
// What a round does

/// A round under way: the engine's state, and what was reported.
#[verifier::ext_equal]
pub ghost struct Progress {
    pub engine: EngineView,
    pub events: Seq<EventView>,
}

impl Progress {
    /// The same with one event more.
    pub open spec fn reporting(self, event: EventView) -> Progress {
        Progress { events: self.events.push(event), ..self }
    }
}

/// The service is asked for the place of an activity only where it is checked in to by being at
/// a place, and the activity itself names none.
pub open spec fn asks_place(activity: ActivityView) -> bool {
    activity.kind == SignType::Locate && activity.coordinate is None
}

/// The place that is given for an activity: none unless it is checked in to by being at a place;
/// then the activity's own, for want of it the service's, for want of it the configured one.
pub open spec fn place_for(
    activity: ActivityView,
    answer: Option<CoordinatesView>,
    table: Map<Seq<char>, CoordinatesView>,
    course_name: Seq<char>,
) -> Option<CoordinatesView> {
    if activity.kind != SignType::Locate {
        None
    } else if activity.coordinate is Some {
        activity.coordinate
    } else if answer is Some {
        answer
    } else {
        place_in(table, course_name)
    }
}

/// The request that is made for a target, where the service answers so when asked for the place.
pub open spec fn request_for(
    engine: EngineView,
    target: TargetView,
    answer: Option<CoordinatesView>,
) -> ReqView {
    let course = engine.watched[target.course_index];
    ReqView {
        activity: target.activity,
        course,
        coords: place_for(target.activity, answer, engine.coords, course.name),
    }
}

/// The requests that are made for targets, where the service answers so when asked for places.
pub open spec fn requests_for(
    engine: EngineView,
    targets: Seq<TargetView>,
    answers: Seq<Option<CoordinatesView>>,
) -> Seq<ReqView> {
    Seq::new(targets.len(), |i: int| request_for(engine, targets[i], answers[i]))
}

/// The questions for the places of the first `n` targets, with their answers.
pub open spec fn place_questions(
    engine: EngineView,
    targets: Seq<TargetView>,
    answers: Seq<Option<CoordinatesView>>,
    n: int,
) -> Seq<Exchange>
    decreases n,
{
    if n <= 0 {
        Seq::empty()
    } else {
        let earlier = place_questions(engine, targets, answers, n - 1);
        let target = targets[n - 1];
        if asks_place(target.activity) {
            earlier.push(
                Exchange::Place {
                    activity: target.activity,
                    course: engine.watched[target.course_index],
                    reply: answers[n - 1],
                },
            )
        } else {
            earlier
        }
    }
}

/// A refusal that asks for patience: it is tried again however often it comes.
pub open spec fn asks_patience(message: Seq<char>) -> bool {
    contains_text(message, "过于频繁"@) || contains_text(message, "稍后"@)
}

/// How often an activity has failed so far.
pub open spec fn failures_of(attempts: Map<Seq<char>, u32>, id: Seq<char>) -> int {
    if attempts.contains_key(id) {
        attempts[id] as int
    } else {
        0
    }
}

/// One failure more; the count stays at the largest number that it can hold.
pub open spec fn one_more(failures: int) -> int {
    if failures < u32::MAX {
        failures + 1
    } else {
        failures
    }
}

/// What the engine keeps of the result of one request: a failure is counted, and the activity is
/// put off for a minute unless it has now failed three times. Where the refusal asks for
/// patience the activity is put off in any case.
pub open spec fn after_result(
    engine: EngineView,
    request: ReqView,
    course_index: int,
    result: ResultView,
    now: Moment,
) -> EngineView {
    match result {
        ResultView::Failed(message) => {
            let id = request.activity.id;
            let failures = one_more(failures_of(engine.attempts, id));
            let again = asks_patience(message) || failures < MAX_SIGN_ATTEMPTS;
            EngineView {
                attempts: engine.attempts.insert(id, failures as u32),
                retries: if again {
                    engine.retries.push(
                        PendingView {
                            target: TargetView { activity: request.activity, course_index },
                            due: now.later_by(RETRY_INTERVAL_SECONDS as int),
                        },
                    )
                } else {
                    engine.retries
                },
                ..engine
            }
        },
        _ => engine,
    }
}

/// The report on the result of one request.
pub open spec fn signed_event(request: ReqView, result: ResultView) -> EventView {
    EventView::Signed {
        course_name: request.course.name,
        activity_id: request.activity.id,
        result,
    }
}

/// What the first `n` results do.
pub open spec fn after_results(
    progress: Progress,
    targets: Seq<TargetView>,
    requests: Seq<ReqView>,
    results: Seq<ResultView>,
    now: Moment,
    n: int,
) -> Progress
    decreases n,
{
    if n <= 0 {
        progress
    } else {
        let earlier = after_results(progress, targets, requests, results, now, n - 1);
        Progress {
            engine: after_result(
                earlier.engine,
                requests[n - 1],
                targets[n - 1].course_index,
                results[n - 1],
                now,
            ),
            events: earlier.events.push(signed_event(requests[n - 1], results[n - 1])),
        }
    }
}

/// How many requests have a result.
pub open spec fn paired(targets: Seq<TargetView>, results: Seq<ResultView>) -> int {
    if targets.len() <= results.len() {
        targets.len() as int
    } else {
        results.len() as int
    }
}

/// What the service answers while targets are checked in to: the place of each target that it is
/// asked for, and the results.
#[verifier::ext_equal]
pub ghost struct SignAnswers {
    pub places: Seq<Option<CoordinatesView>>,
    pub results: Seq<ResultView>,
}

/// Checks in to targets: the places are found, all requests are made together, and each result
/// is kept and reported. Nothing is asked where there is no target.
pub open spec fn sign_phase(
    progress: Progress,
    targets: Seq<TargetView>,
    answers: SignAnswers,
    now: Moment,
) -> Progress {
    if targets.len() == 0 {
        progress
    } else {
        let engine = progress.engine;
        let requests = requests_for(engine, targets, answers.places);
        let questions = place_questions(engine, targets, answers.places, targets.len() as int);
        let asked = EngineView {
            trace: (engine.trace + questions).push(
                Exchange::Sign { requests, reply: answers.results },
            ),
            ..engine
        };
        after_results(
            Progress { engine: asked, ..progress },
            targets,
            requests,
            answers.results,
            now,
            paired(targets, answers.results),
        )
    }
}

/// A course is among those that are watched already.
pub open spec fn is_watched(watched: Seq<CourseView>, course: CourseView) -> bool {
    exists|i: int| 0 <= i < watched.len() && watched[i].tclass_id == course.tclass_id
}

/// The report that a course has joined those that are watched.
pub open spec fn joined_event(course: CourseView) -> EventView {
    EventView::Info("已自动加入课程 "@ + course.name)
}

/// Joins the first `n` courses of a list to those that are watched, each unless it is among them
/// already.
pub open spec fn after_courses(progress: Progress, courses: Seq<CourseView>, n: int) -> Progress
    decreases n,
{
    if n <= 0 {
        progress
    } else {
        let earlier = after_courses(progress, courses, n - 1);
        let course = courses[n - 1];
        if is_watched(earlier.engine.watched, course) {
            earlier
        } else {
            Progress {
                engine: EngineView {
                    watched: earlier.engine.watched.push(course),
                    ..earlier.engine
                },
                events: earlier.events.push(joined_event(course)),
            }
        }
    }
}

/// The report on an activity that was found.
pub open spec fn found_event(activity: ActivityView, course_name: Seq<char>) -> EventView {
    EventView::Found {
        course_name,
        activity_id: activity.id,
        kind: kind_name(activity.kind),
        code: activity.code,
    }
}

/// The report that an activity waits for its time.
pub open spec fn delay_event(delay_seconds: int, course_name: Seq<char>) -> EventView {
    EventView::Info(
        "将在 "@ + integer_text(delay_seconds) + " 秒后自动签到 ["@ + course_name + "]"@,
    )
}

/// The check-in lists as they are taken in: the round so far, and what was found and is to be
/// checked in to at once.
#[verifier::ext_equal]
pub ghost struct Harvest {
    pub progress: Progress,
    pub immediate: Seq<TargetView>,
}

/// Meets an activity: unless it was met before it is reported, and then waits for its time or,
/// where there is no delay, is to be checked in to at once.
pub open spec fn after_activity(
    harvest: Harvest,
    activity: ActivityView,
    course_index: int,
    now: Moment,
) -> Harvest {
    let engine = harvest.progress.engine;
    let course_name = engine.watched[course_index].name;
    let target = TargetView { activity, course_index };
    if engine.seen.contains(activity.id) {
        harvest
    } else {
        let met = EngineView { seen: engine.seen.insert(activity.id), ..engine };
        let reported = harvest.progress.events.push(found_event(activity, course_name));
        if engine.delay_seconds > 0 {
            Harvest {
                progress: Progress {
                    engine: EngineView {
                        pending: engine.pending.push(
                            PendingView { target, due: now.later_by(engine.delay_seconds) },
                        ),
                        ..met
                    },
                    events: reported.push(delay_event(engine.delay_seconds, course_name)),
                },
                immediate: harvest.immediate,
            }
        } else {
            Harvest {
                progress: Progress { engine: met, events: reported },
                immediate: harvest.immediate.push(target),
            }
        }
    }
}

/// Meets the activities of the first `n` rows.
pub open spec fn after_rows(
    harvest: Harvest,
    rows: Seq<RowView>,
    course_index: int,
    now: Moment,
    n: int,
) -> Harvest
    decreases n,
{
    if n <= 0 {
        harvest
    } else {
        after_activity(
            after_rows(harvest, rows, course_index, now, n - 1),
            activity_of(rows[n - 1]),
            course_index,
            now,
        )
    }
}

/// The report that a check-in list could not be had.
pub open spec fn fetch_warning(course_name: Seq<char>, error: ErrView) -> EventView {
    EventView::Warn("课程 "@ + course_name + " 拉取失败: "@ + error_text(error))
}

/// Takes in the check-in list of one course: the rows that are worth it are met in their order;
/// where the list could not be had this is reported, in one round of ten.
pub open spec fn after_list(
    harvest: Harvest,
    reply: Result<Seq<RowView>, ErrView>,
    course_index: int,
    now: Moment,
) -> Harvest {
    let engine = harvest.progress.engine;
    match reply {
        Ok(rows) => {
            let candidates = qualified_rows(rows, engine.seen, now);
            after_rows(harvest, candidates, course_index, now, candidates.len() as int)
        },
        Err(error) => if engine.tick_no % 10 == 1 {
            Harvest {
                progress: harvest.progress.reporting(
                    fetch_warning(engine.watched[course_index].name, error),
                ),
                ..harvest
            }
        } else {
            harvest
        },
    }
}

/// Takes in the check-in lists of the first `n` courses.
pub open spec fn after_lists(
    harvest: Harvest,
    fetched: Seq<Result<Seq<RowView>, ErrView>>,
    now: Moment,
    n: int,
) -> Harvest
    decreases n,
{
    if n <= 0 {
        harvest
    } else {
        after_list(after_lists(harvest, fetched, now, n - 1), fetched[n - 1], n - 1, now)
    }
}

/// How many watched courses have an answer.
pub open spec fn answered(
    watched: Seq<CourseView>,
    fetched: Seq<Result<Seq<RowView>, ErrView>>,
) -> int {
    if watched.len() <= fetched.len() {
        watched.len() as int
    } else {
        fetched.len() as int
    }
}

/// An engine that was stopped: nothing waits any longer.
pub open spec fn stopped(engine: EngineView) -> EngineView {
    EngineView { running: false, pending: Seq::empty(), retries: Seq::empty(), ..engine }
}

/// The engine with one exchange more.
pub open spec fn asking(engine: EngineView, exchange: Exchange) -> EngineView {
    EngineView { trace: engine.trace.push(exchange), ..engine }
}

/// The course list is looked at in this round.
pub open spec fn refreshes(engine: EngineView) -> bool {
    engine.refresh_every != 0 && engine.tick_no % engine.refresh_every == 0
}

/// All that the service answers in one round.
#[verifier::ext_equal]
pub ghost struct Answers {
    pub login: Result<(), ErrView>,
    pub due: SignAnswers,
    pub again: SignAnswers,
    pub courses: Result<Seq<CourseView>, ErrView>,
    pub fetched: Seq<Result<Seq<RowView>, ErrView>>,
    pub found: SignAnswers,
}

/// A round begins: it is counted, and the service is asked whether the session holds.
pub open spec fn round_begun(engine: EngineView, answers: Answers) -> EngineView {
    asking(
        EngineView { tick_no: engine.tick_no + 1, ..engine },
        Exchange::Login { reply: answers.login },
    )
}

/// The targets whose time has come are checked in to.
pub open spec fn pending_signed(engine: EngineView, now: Moment, answers: Answers) -> Progress {
    let parted = EngineView { pending: later_part(engine.pending, now), ..engine };
    sign_phase(
        Progress { engine: parted, events: Seq::empty() },
        targets_of(due_part(engine.pending, now)),
        answers.due,
        now,
    )
}

/// The targets that are to be tried again are checked in to.
pub open spec fn retries_signed(progress: Progress, now: Moment, answers: Answers) -> Progress {
    let engine = progress.engine;
    let parted = EngineView { retries: later_part(engine.retries, now), ..engine };
    sign_phase(
        Progress { engine: parted, ..progress },
        targets_of(due_part(engine.retries, now)),
        answers.again,
        now,
    )
}

/// The course list is looked at, where it is time for it.
pub open spec fn courses_joined(progress: Progress, answers: Answers) -> Progress {
    if refreshes(progress.engine) {
        let asked = Progress {
            engine: asking(progress.engine, Exchange::Courses { reply: answers.courses }),
            ..progress
        };
        match answers.courses {
            Ok(courses) => after_courses(asked, courses, courses.len() as int),
            Err(_) => asked,
        }
    } else {
        progress
    }
}

/// The check-in lists of all watched courses are taken in.
pub open spec fn lists_taken(progress: Progress, now: Moment, answers: Answers) -> Harvest {
    let engine = progress.engine;
    let asked = asking(
        engine,
        Exchange::Rows { courses: engine.watched, reply: answers.fetched },
    );
    after_lists(
        Harvest {
            progress: Progress { engine: asked, ..progress },
            immediate: Seq::empty(),
        },
        answers.fetched,
        now,
        answered(engine.watched, answers.fetched),
    )
}

/// The first round ends with a word on what is watched.
pub open spec fn round_ended(progress: Progress) -> Progress {
    if progress.engine.tick_no == 1 {
        progress.reporting(
            EventView::Info(
                "持续监控中,共 "@ + decimal_text(progress.engine.watched.len()) + " 门课"@,
            ),
        )
    } else {
        progress
    }
}

/// What one round does, where the service answers so. An engine that does not run does nothing.
/// Where the session is lost the engine stops. Otherwise the targets whose time has come are
/// checked in to, then those that are to be tried again; the course list is looked at where it
/// is time; the check-in lists are taken in; and what was found is checked in to at once unless
/// there is a delay.
pub open spec fn round(engine: EngineView, now: Moment, answers: Answers) -> Progress {
    if !engine.running {
        Progress { engine, events: Seq::empty() }
    } else {
        let begun = round_begun(engine, answers);
        match answers.login {
            Err(error) => Progress {
                engine: stopped(begun),
                events: seq![EventView::Warn("登录失效,已自动停止: "@ + error_text(error))],
            },
            Ok(()) => {
                let first = pending_signed(begun, now, answers);
                let second = retries_signed(first, now, answers);
                let third = courses_joined(second, answers);
                let taken = lists_taken(third, now, answers);
                round_ended(sign_phase(taken.progress, taken.immediate, answers.found, now))
            },
        }
    }
}

// ---------------------------------------------------------------------------------------
// What always holds of an engine

/// A target belongs to one of so many courses.
pub open spec fn target_known(target: TargetView, courses: nat) -> bool {
    0 <= target.course_index < courses
}

/// Every target belongs to one of so many courses.
pub open spec fn targets_known(targets: Seq<TargetView>, courses: nat) -> bool {
    forall|i: int| 0 <= i < targets.len() ==> target_known(#[trigger] targets[i], courses)
}

/// Every item of a queue belongs to one of so many courses, and has its time in the calendar, in
/// no leap second.
pub open spec fn queue_known(queue: Seq<PendingView>, courses: nat) -> bool {
    forall|i: int|
        0 <= i < queue.len() ==> target_known((#[trigger] queue[i]).target, courses)
            && queue[i].due.in_range() && queue[i].due.is_plain()
}

/// Nothing waits once the engine does not run.
pub open spec fn keeps_nothing_idle(engine: EngineView) -> bool {
    !engine.running ==> engine.pending.len() == 0 && engine.retries.len() == 0
}

/// The calendar knows the times that a round can set.
pub open spec fn calendar_allows(engine: EngineView, now: Moment) -> bool {
    &&& now.in_range()
    &&& now.seconds + RETRY_INTERVAL_SECONDS <= LAST_SECOND
    &&& now.seconds + engine.delay_seconds <= LAST_SECOND
}

/// The earliest time in a queue.
pub open spec fn earliest(queue: Seq<PendingView>) -> Option<Moment>
    decreases queue.len(),
{
    if queue.len() == 0 {
        None
    } else {
        match earliest(queue.drop_last()) {
            Some(due) if !queue.last().due.before(due) => Some(due),
            _ => Some(queue.last().due),
        }
    }
}

/// The earliest time in a queue is that of one of its items, and no item has an earlier one.
pub proof fn earliest_is_least(queue: Seq<PendingView>)
    ensures
        match earliest(queue) {
            Some(due) => {
                &&& exists|i: int| 0 <= i < queue.len() && (#[trigger] queue[i]).due == due
                &&& forall|i: int| 0 <= i < queue.len() ==> due.no_later((#[trigger] queue[i]).due)
            },
            None => queue.len() == 0,
        },
    decreases queue.len(),
{
    if queue.len() > 0 {
        let rest = queue.drop_last();
        earliest_is_least(rest);
        if earliest(rest) is Some {
            let due = earliest(rest)->0;
            let i = choose|i: int| 0 <= i < rest.len() && (#[trigger] rest[i]).due == due;
            assert(queue[i].due == due);
        }
        assert(queue[queue.len() - 1] == queue.last());
        assert forall|i: int| 0 <= i < queue.len() implies (earliest(queue)->0).no_later(
            (#[trigger] queue[i]).due,
        ) by {
            if i < rest.len() {
                assert(rest[i] == queue[i]);
            }
        }
    }
}

/// How long it is until something waits no longer, in nanoseconds: nothing where its time has
/// passed, and `None` where nothing waits.
pub open spec fn wait_until_due(engine: EngineView, now: Moment) -> Option<int> {
    match earliest(engine.pending + engine.retries) {
        Some(due) => Some(
            if due.since(now) < 0 {
                0
            } else {
                due.since(now)
            },
        ),
        None => None,
    }
}

/// There is a wait exactly while something waits. As time passes the wait gets no longer, as long
/// as nothing comes to wait. Left out are times less than three seconds apart of which one lies in
/// a leap second and the other does not lie in the same one: between them the wait can come out
/// longer.
pub proof fn wait_only_shrinks(engine: EngineView, now: Moment, later: Moment)
    requires
        queue_known(engine.pending, engine.watched.len()),
        queue_known(engine.retries, engine.watched.len()),
        now.in_range(),
        later.in_range(),
        now.no_later(later),
        now.passes_steadily_to(later),
    ensures
        wait_until_due(engine, now) is None == (engine.pending.len() == 0 && engine.retries.len()
            == 0),
        wait_until_due(engine, later) is None == wait_until_due(engine, now) is None,
        wait_until_due(engine, now) matches Some(wait) ==> 0 <= wait_until_due(engine, later)->0
            <= wait,
{
    let all = engine.pending + engine.retries;
    earliest_is_least(all);
    if let Some(due) = earliest(all) {
        let i = choose|i: int| 0 <= i < all.len() && (#[trigger] all[i]).due == due;
        if i < engine.pending.len() {
            assert(all[i] == engine.pending[i]);
        } else {
            assert(all[i] == engine.retries[i - engine.pending.len()]);
        }
        assert(due.is_plain());
    }
}

} // verus!
