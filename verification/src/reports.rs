//! What one round finds and asks as a whole: which rows it reports, when it looks at the course
//! list, and which lists it asks for.
use crate::api::{ErrView, ReqView, ResultView};
use crate::clock::Moment;
use crate::engine::{due_part, later_part, targets_of, EventView, TargetView};
use crate::filter::{is_qualified, qualified_rows};
use crate::laws::{after_rounds, events_of_round, found_id, Step};
use crate::models::{activity_of, CoordinatesView, CourseView, RowView};
use crate::round::{
    after_activity, after_courses, after_lists, after_results, after_rows, answered, asking,
    courses_joined, delay_event, fetch_warning, found_event, is_watched, joined_event,
    keeps_nothing_idle, lists_taken, paired, pending_signed, place_questions, refreshes,
    requests_for, retries_signed, round, round_begun, round_ended, sign_phase, Answers, EngineView,
    Exchange, Harvest, Progress, SignAnswers,
};
use vstd::prelude::*;

verus! {

// ---------------------------------------------------------------------------------------
// Rows, reports and questions

/// A row that is worth checking in to, on the check-in list of a course.
#[verifier::ext_equal]
pub ghost struct Sighting {
    pub course_index: int,
    pub row: RowView,
}

/// The rows on the list of one course that are worth checking in to, in their order.
pub open spec fn sightings_on(
    reply: Result<Seq<RowView>, ErrView>,
    course_index: int,
    seen: Set<Seq<char>>,
    now: Moment,
) -> Seq<Sighting> {
    match reply {
        Ok(rows) => qualified_rows(rows, seen, now).map_values(
            |row: RowView| Sighting { course_index, row },
        ),
        Err(_) => Seq::empty(),
    }
}

/// The rows on the lists of the first `n` courses that are worth checking in to, in the order of
/// the courses and then of the rows.
pub open spec fn sightings(
    fetched: Seq<Result<Seq<RowView>, ErrView>>,
    seen: Set<Seq<char>>,
    now: Moment,
    n: int,
) -> Seq<Sighting>
    decreases n,
{
    if n <= 0 {
        Seq::empty()
    } else {
        sightings(fetched, seen, now, n - 1) + sightings_on(fetched[n - 1], n - 1, seen, now)
    }
}

/// An activity is among sightings.
pub open spec fn is_sighted(all: Seq<Sighting>, id: Seq<char>) -> bool {
    exists|i: int| 0 <= i < all.len() && (#[trigger] all[i]).row.id == id
}

/// The sightings without those of an activity that was sighted before.
pub open spec fn first_sightings(all: Seq<Sighting>) -> Seq<Sighting>
    decreases all.len(),
{
    if all.len() == 0 {
        Seq::empty()
    } else if is_sighted(all.drop_last(), all.last().row.id) {
        first_sightings(all.drop_last())
    } else {
        first_sightings(all.drop_last()).push(all.last())
    }
}

/// The reports on sightings, each with the name of its course.
pub open spec fn reports_on(all: Seq<Sighting>, watched: Seq<CourseView>) -> Seq<EventView> {
    all.map_values(
        |sighting: Sighting|
            found_event(activity_of(sighting.row), watched[sighting.course_index].name),
    )
}

/// Of some events those that report an activity as found.
pub open spec fn found_reports(events: Seq<EventView>) -> Seq<EventView> {
    events.filter(|event: EventView| event is Found)
}

/// Events report an activity as found.
pub open spec fn is_reported(events: Seq<EventView>, id: Seq<char>) -> bool {
    exists|i: int| 0 <= i < events.len() && found_id(#[trigger] events[i]) == Some(id)
}

/// An event says that a course has joined those that are watched.
pub open spec fn is_announcement(event: EventView) -> bool {
    event matches EventView::Info(text) && "已自动加入课程 "@.is_prefix_of(text)
}

/// Of some events those that say that a course has joined.
pub open spec fn announcements(events: Seq<EventView>) -> Seq<EventView> {
    events.filter(|event: EventView| is_announcement(event))
}

/// Of the first `n` courses of a list those that join the watched ones, in their order: each
/// whose class is neither watched nor has joined before it.
pub open spec fn newcomers(watched: Seq<CourseView>, courses: Seq<CourseView>, n: int) -> Seq<
    CourseView,
>
    decreases n,
{
    if n <= 0 {
        Seq::empty()
    } else {
        let earlier = newcomers(watched, courses, n - 1);
        if is_watched(watched + earlier, courses[n - 1]) {
            earlier
        } else {
            earlier.push(courses[n - 1])
        }
    }
}

/// Of some questions those that belong to no check-in: for the session, the course list and the
/// check-in lists.
pub open spec fn general_questions(questions: Seq<Exchange>) -> Seq<Exchange> {
    questions.filter(|question: Exchange| !(question is Place) && !(question is Sign))
}

/// What is asked while targets are checked in to.
pub open spec fn sign_questions(
    engine: EngineView,
    targets: Seq<TargetView>,
    answers: SignAnswers,
) -> Seq<Exchange> {
    if targets.len() == 0 {
        Seq::empty()
    } else {
        place_questions(engine, targets, answers.places, targets.len() as int).push(
            Exchange::Sign {
                requests: requests_for(engine, targets, answers.places),
                reply: answers.results,
            },
        )
    }
}

proof fn filter_of_push<T>(all: Seq<T>, item: T, keeps: spec_fn(T) -> bool)
    ensures
        all.push(item).filter(keeps) == if keeps(item) {
            all.filter(keeps).push(item)
        } else {
            all.filter(keeps)
        },
{
    reveal(Seq::filter);
    assert(all.push(item).drop_last() =~= all);
}

/// One event more, among what is found and among what has joined.
proof fn report_of_push(events: Seq<EventView>, event: EventView)
    ensures
        found_reports(events.push(event)) == if event is Found {
            found_reports(events).push(event)
        } else {
            found_reports(events)
        },
        announcements(events.push(event)) == if is_announcement(event) {
            announcements(events).push(event)
        } else {
            announcements(events)
        },
{
    filter_of_push(events, event, |event: EventView| event is Found);
    filter_of_push(events, event, |event: EventView| is_announcement(event));
}

/// A word on a delay says of no course that it has joined.
proof fn delay_is_no_announcement(delay_seconds: int, course_name: Seq<char>)
    ensures
        !is_announcement(delay_event(delay_seconds, course_name)),
{
    reveal_strlit("已自动加入课程 ");
    reveal_strlit("将在 ");
    if let EventView::Info(text) = delay_event(delay_seconds, course_name) {
        assert(text[0] == "将在 "@[0]);
        if "已自动加入课程 "@.is_prefix_of(text) {
            assert(text.subrange(0, "已自动加入课程 "@.len() as int)[0] == text[0]);
        }
    }
}

// ---------------------------------------------------------------------------------------
// Checking in and joining

/// Checking in finds nothing and lets no course join.
proof fn results_report_nothing_else(
    progress: Progress,
    targets: Seq<TargetView>,
    requests: Seq<ReqView>,
    results: Seq<ResultView>,
    now: Moment,
    n: int,
)
    ensures
        ({
            let after = after_results(progress, targets, requests, results, now, n);
            &&& found_reports(after.events) == found_reports(progress.events)
            &&& announcements(after.events) == announcements(progress.events)
            &&& after.engine == EngineView {
                retries: after.engine.retries,
                attempts: after.engine.attempts,
                ..progress.engine
            }
        }),
    decreases n,
{
    if n > 0 {
        results_report_nothing_else(progress, targets, requests, results, now, n - 1);
        let before = after_results(progress, targets, requests, results, now, n - 1);
        let after = after_results(progress, targets, requests, results, now, n);
        report_of_push(before.events, after.events.last());
        assert(after.events =~= before.events.push(after.events.last()));
    }
}

proof fn places_are_asked_alone(
    engine: EngineView,
    targets: Seq<TargetView>,
    answers: Seq<Option<CoordinatesView>>,
    n: int,
)
    ensures
        general_questions(place_questions(engine, targets, answers, n)) == Seq::<
            Exchange,
        >::empty(),
    decreases n,
{
    reveal(Seq::filter);
    if n > 0 {
        places_are_asked_alone(engine, targets, answers, n - 1);
        let earlier = place_questions(engine, targets, answers, n - 1);
        let all = place_questions(engine, targets, answers, n);
        if all != earlier {
            filter_of_push(
                earlier,
                all.last(),
                |question: Exchange| !(question is Place) && !(question is Sign),
            );
            assert(all =~= earlier.push(all.last()));
        }
    }
}

/// What checking in to targets does: it finds nothing, lets no course join, and asks only for
/// places and for the check-ins themselves.
proof fn signing_reports_nothing_else(
    progress: Progress,
    targets: Seq<TargetView>,
    answers: SignAnswers,
    now: Moment,
)
    ensures
        ({
            let after = sign_phase(progress, targets, answers, now);
            let questions = sign_questions(progress.engine, targets, answers);
            &&& found_reports(after.events) == found_reports(progress.events)
            &&& announcements(after.events) == announcements(progress.events)
            &&& after.engine == EngineView {
                retries: after.engine.retries,
                attempts: after.engine.attempts,
                trace: progress.engine.trace + questions,
                ..progress.engine
            }
            &&& general_questions(questions) == Seq::<Exchange>::empty()
        }),
{
    reveal(Seq::filter);
    if targets.len() > 0 {
        let engine = progress.engine;
        let requests = requests_for(engine, targets, answers.places);
        let places = place_questions(engine, targets, answers.places, targets.len() as int);
        let sign = Exchange::Sign { requests, reply: answers.results };
        places_are_asked_alone(engine, targets, answers.places, targets.len() as int);
        filter_of_push(
            places,
            sign,
            |question: Exchange| !(question is Place) && !(question is Sign),
        );
        assert((engine.trace + places).push(sign) =~= engine.trace + places.push(sign));
        let asked = EngineView { trace: (engine.trace + places).push(sign), ..engine };
        results_report_nothing_else(
            Progress { engine: asked, ..progress },
            targets,
            requests,
            answers.results,
            now,
            paired(targets, answers.results),
        );
    } else {
        assert(progress.engine.trace + Seq::<Exchange>::empty() =~= progress.engine.trace);
    }
}

/// What joining courses does: the newcomers stand behind the courses that were watched, and each
/// is announced.
proof fn joining_announces(progress: Progress, courses: Seq<CourseView>, n: int)
    ensures
        ({
            let after = after_courses(progress, courses, n);
            let joined = newcomers(progress.engine.watched, courses, n);
            &&& after.engine == EngineView {
                watched: progress.engine.watched + joined,
                ..progress.engine
            }
            &&& announcements(after.events) == announcements(progress.events)
                + joined.map_values(|course: CourseView| joined_event(course))
            &&& found_reports(after.events) == found_reports(progress.events)
        }),
    decreases n,
{
    let watched = progress.engine.watched;
    let event_of = |course: CourseView| joined_event(course);
    if n > 0 {
        joining_announces(progress, courses, n - 1);
        let before = after_courses(progress, courses, n - 1);
        let earlier = newcomers(watched, courses, n - 1);
        let course = courses[n - 1];
        if !is_watched(watched + earlier, course) {
            let event = joined_event(course);
            report_of_push(before.events, event);
            let prefix = "已自动加入课程 "@;
            assert((prefix + course.name).subrange(0, prefix.len() as int) =~= prefix);
            assert(is_announcement(event));
            assert((watched + earlier).push(course) =~= watched + earlier.push(course));
            assert(earlier.push(course).map_values(event_of) =~= earlier.map_values(event_of).push(
                event,
            ));
            assert(announcements(before.events).push(event) =~= announcements(progress.events)
                + earlier.push(course).map_values(event_of));
        }
    } else {
        assert(watched + Seq::<CourseView>::empty() =~= watched);
        assert(Seq::<CourseView>::empty().map_values(event_of) =~= Seq::<EventView>::empty());
        assert(announcements(progress.events) + Seq::<EventView>::empty() =~= announcements(
            progress.events,
        ));
    }
}

// ---------------------------------------------------------------------------------------
// Taking in the lists

/// Lists were taken in since `start`, and these rows were worth checking in to: what was met is
/// what was met before and what they show, the first row of each activity is reported, and
/// nothing was asked and no course has joined meanwhile.
spec fn is_harvest_of(
    harvest: Harvest,
    start: Harvest,
    seen: Set<Seq<char>>,
    all: Seq<Sighting>,
) -> bool {
    let engine = harvest.progress.engine;
    &&& engine == EngineView {
        seen: engine.seen,
        pending: engine.pending,
        ..start.progress.engine
    }
    &&& forall|id: Seq<char>| #[trigger]
        engine.seen.contains(id) == (seen.contains(id) || is_sighted(all, id))
    &&& found_reports(harvest.progress.events) == reports_on(first_sightings(all), engine.watched)
    &&& announcements(harvest.progress.events) == announcements(start.progress.events)
}

proof fn sighted_after_push(all: Seq<Sighting>, sighting: Sighting, id: Seq<char>)
    ensures
        is_sighted(all.push(sighting), id) == (is_sighted(all, id) || sighting.row.id == id),
{
    let more = all.push(sighting);
    if is_sighted(all, id) {
        let i = choose|i: int| 0 <= i < all.len() && (#[trigger] all[i]).row.id == id;
        assert(more[i].row.id == id);
    }
    if sighting.row.id == id {
        assert(more[all.len() as int].row.id == id);
    }
    if is_sighted(more, id) {
        let i = choose|i: int| 0 <= i < more.len() && (#[trigger] more[i]).row.id == id;
        if i < all.len() {
            assert(all[i].row.id == id);
        }
    }
}

proof fn row_is_harvested(
    harvest: Harvest,
    start: Harvest,
    seen: Set<Seq<char>>,
    all: Seq<Sighting>,
    row: RowView,
    course_index: int,
    now: Moment,
)
    requires
        is_harvest_of(harvest, start, seen, all),
        !seen.contains(row.id),
    ensures
        is_harvest_of(
            after_activity(harvest, activity_of(row), course_index, now),
            start,
            seen,
            all.push(Sighting { course_index, row }),
        ),
{
    let engine = harvest.progress.engine;
    let sighting = Sighting { course_index, row };
    let more = all.push(sighting);
    let after = after_activity(harvest, activity_of(row), course_index, now);
    assert(more.drop_last() =~= all);
    assert forall|id: Seq<char>| #[trigger] after.progress.engine.seen.contains(id) == (
    seen.contains(id) || is_sighted(more, id)) by {
        sighted_after_push(all, sighting, id);
        assert(engine.seen.contains(id) == (seen.contains(id) || is_sighted(all, id)));
    }
    assert(engine.seen.contains(row.id) == is_sighted(all, row.id));
    if !engine.seen.contains(row.id) {
        let name = engine.watched[course_index].name;
        let found = found_event(activity_of(row), name);
        let events = harvest.progress.events;
        report_of_push(events, found);
        report_of_push(events.push(found), delay_event(engine.delay_seconds, name));
        delay_is_no_announcement(engine.delay_seconds, name);
        let firsts = first_sightings(all);
        assert(first_sightings(more) == firsts.push(sighting));
        assert(reports_on(firsts.push(sighting), engine.watched) =~= reports_on(
            firsts,
            engine.watched,
        ).push(found));
    }
}

proof fn same_rows(
    harvest: Harvest,
    rows: Seq<RowView>,
    more: Seq<RowView>,
    course_index: int,
    now: Moment,
    n: int,
)
    requires
        n <= rows.len() <= more.len(),
        forall|i: int| 0 <= i < n ==> rows[i] == more[i],
    ensures
        after_rows(harvest, rows, course_index, now, n) == after_rows(
            harvest,
            more,
            course_index,
            now,
            n,
        ),
    decreases n,
{
    if n > 0 {
        same_rows(harvest, rows, more, course_index, now, n - 1);
    }
}

proof fn sighted_in_sum(all: Seq<Sighting>, more: Seq<Sighting>, id: Seq<char>)
    requires
        is_sighted(all, id),
    ensures
        is_sighted(all + more, id),
{
    let i = choose|i: int| 0 <= i < all.len() && (#[trigger] all[i]).row.id == id;
    assert((all + more)[i].row.id == id);
}

proof fn rows_are_harvested(
    harvest: Harvest,
    start: Harvest,
    seen: Set<Seq<char>>,
    all: Seq<Sighting>,
    rows: Seq<RowView>,
    course_index: int,
    now: Moment,
)
    requires
        is_harvest_of(harvest, start, seen, all),
    ensures
        ({
            let candidates = qualified_rows(rows, harvest.progress.engine.seen, now);
            is_harvest_of(
                after_rows(harvest, candidates, course_index, now, candidates.len() as int),
                start,
                seen,
                all + sightings_on(Ok(rows), course_index, seen, now),
            )
        }),
    decreases rows.len(),
{
    reveal(Seq::filter);
    let met = harvest.progress.engine.seen;
    let candidates = qualified_rows(rows, met, now);
    let sighted = sightings_on(Ok(rows), course_index, seen, now);
    if rows.len() == 0 {
        assert(all + sighted =~= all);
    } else {
        let rest = rows.drop_last();
        let last = rows.last();
        let rest_candidates = qualified_rows(rest, met, now);
        let rest_sighted = sightings_on(Ok(rest), course_index, seen, now);
        let sighting = Sighting { course_index, row: last };
        rows_are_harvested(harvest, start, seen, all, rest, course_index, now);
        let n = rest_candidates.len() as int;
        let before = after_rows(harvest, rest_candidates, course_index, now, n);
        assert(met.contains(last.id) == (seen.contains(last.id) || is_sighted(all, last.id)));
        if is_qualified(last, seen, now) {
            assert(sighted =~= rest_sighted.push(sighting));
            assert(all + sighted =~= (all + rest_sighted).push(sighting));
            row_is_harvested(
                before,
                start,
                seen,
                all + rest_sighted,
                last,
                course_index,
                now,
            );
            if is_qualified(last, met, now) {
                assert(candidates =~= rest_candidates.push(last));
                same_rows(harvest, rest_candidates, candidates, course_index, now, n);
            } else {
                assert(candidates =~= rest_candidates);
                assert(met.contains(last.id));
                sighted_in_sum(all, rest_sighted, last.id);
                assert(before.progress.engine.seen.contains(last.id));
            }
        } else {
            assert(sighted =~= rest_sighted);
            assert(candidates =~= rest_candidates);
        }
    }
}

proof fn lists_are_harvested(
    start: Harvest,
    fetched: Seq<Result<Seq<RowView>, ErrView>>,
    now: Moment,
    n: int,
)
    requires
        found_reports(start.progress.events).len() == 0,
    ensures
        is_harvest_of(
            after_lists(start, fetched, now, n),
            start,
            start.progress.engine.seen,
            sightings(fetched, start.progress.engine.seen, now, n),
        ),
    decreases n,
{
    let seen = start.progress.engine.seen;
    if n <= 0 {
        assert(reports_on(Seq::empty(), start.progress.engine.watched) =~= Seq::empty());
        assert(found_reports(start.progress.events) =~= Seq::empty());
    } else {
        lists_are_harvested(start, fetched, now, n - 1);
        let before = after_lists(start, fetched, now, n - 1);
        let all = sightings(fetched, seen, now, n - 1);
        match fetched[n - 1] {
            Ok(rows) => {
                rows_are_harvested(before, start, seen, all, rows, n - 1, now);
            },
            Err(error) => {
                assert(all + Seq::<Sighting>::empty() =~= all);
                report_of_push(
                    before.progress.events,
                    fetch_warning(before.progress.engine.watched[n - 1].name, error),
                );
            },
        }
    }
}

// ---------------------------------------------------------------------------------------
// Rounds

/// The courses that join in a round: the newcomers of the course list, where the round looks at
/// it and it can be had.
pub open spec fn joined_in_round(engine: EngineView, answers: Answers) -> Seq<CourseView> {
    match answers.courses {
        Ok(courses) if looks_at_courses(engine) => newcomers(
            engine.watched,
            courses,
            courses.len() as int,
        ),
        _ => Seq::empty(),
    }
}

/// The next round looks at the course list: every so many rounds, and never where that number is
/// zero.
pub open spec fn looks_at_courses(engine: EngineView) -> bool {
    engine.refresh_every != 0 && (engine.tick_no + 1) % engine.refresh_every == 0
}

/// What a round asks when it looks at the course list.
pub open spec fn look_questions(engine: EngineView, answers: Answers) -> Seq<Exchange> {
    if looks_at_courses(engine) {
        seq![Exchange::Courses { reply: answers.courses }]
    } else {
        Seq::empty()
    }
}

/// What a round asks besides what its check-ins need: for the session, for the course list where
/// it looks at it, and for the check-in lists of the courses that were watched and of those that
/// have joined.
pub open spec fn asked_in_round(engine: EngineView, answers: Answers) -> Seq<Exchange> {
    let courses = engine.watched + joined_in_round(engine, answers);
    seq![Exchange::Login { reply: answers.login }] + look_questions(engine, answers) + seq![
        Exchange::Rows { courses, reply: answers.fetched },
    ]
}

/// What a round finds, announces and asks.
spec fn round_does(engine: EngineView, now: Moment, answers: Answers, after: Progress) -> bool {
    let watched = engine.watched + joined_in_round(engine, answers);
    let all = sightings(answers.fetched, engine.seen, now, answered(watched, answers.fetched));
    &&& after.engine.running
    &&& after.engine.watched == watched
    &&& after.engine.tick_no == engine.tick_no + 1
    &&& after.engine.refresh_every == engine.refresh_every
    &&& forall|id: Seq<char>| #[trigger]
        after.engine.seen.contains(id) == (engine.seen.contains(id) || is_sighted(all, id))
    &&& found_reports(after.events) == reports_on(first_sightings(all), watched)
    &&& announcements(after.events) == joined_in_round(engine, answers).map_values(
        |course: CourseView| joined_event(course),
    )
    &&& engine.trace.is_prefix_of(after.engine.trace)
    &&& general_questions(after.engine.trace.skip(engine.trace.len() as int)) == asked_in_round(
        engine,
        answers,
    )
}

proof fn general_of_sum(questions: Seq<Exchange>, more: Seq<Exchange>)
    ensures
        general_questions(questions + more) == general_questions(questions) + general_questions(
            more,
        ),
{
    Seq::filter_distributes_over_add(
        questions,
        more,
        |question: Exchange| !(question is Place) && !(question is Sign),
    );
}

proof fn general_of_one(question: Exchange)
    requires
        !(question is Place),
        !(question is Sign),
    ensures
        general_questions(seq![question]) == seq![question],
{
    let keeps = |question: Exchange| !(question is Place) && !(question is Sign);
    reveal(Seq::filter);
    filter_of_push(Seq::empty(), question, keeps);
    assert(seq![question] =~= Seq::empty().push(question));
    assert(Seq::<Exchange>::empty().filter(keeps) =~= Seq::empty());
}

/// What a round does before it asks for check-in lists, and what it asks in doing so.
proof fn signed_before_lists(engine: EngineView, now: Moment, answers: Answers) -> (questions: Seq<
    Exchange,
>)
    ensures
        ({
            let begun = round_begun(engine, answers);
            let after = retries_signed(pending_signed(begun, now, answers), now, answers);
            &&& found_reports(after.events) == Seq::<EventView>::empty()
            &&& announcements(after.events) == Seq::<EventView>::empty()
            &&& after.engine == EngineView {
                pending: after.engine.pending,
                retries: after.engine.retries,
                attempts: after.engine.attempts,
                trace: engine.trace + questions,
                ..begun
            }
            &&& general_questions(questions) == seq![Exchange::Login { reply: answers.login }]
        }),
{
    let begun = round_begun(engine, answers);
    let login = seq![Exchange::Login { reply: answers.login }];
    assert(begun.trace =~= engine.trace + login);
    let parted = EngineView { pending: later_part(begun.pending, now), ..begun };
    let due = targets_of(due_part(begun.pending, now));
    signing_reports_nothing_else(
        Progress { engine: parted, events: Seq::empty() },
        due,
        answers.due,
        now,
    );
    let first = pending_signed(begun, now, answers);
    let first_questions = sign_questions(parted, due, answers.due);
    let parted = EngineView { retries: later_part(first.engine.retries, now), ..first.engine };
    let again = targets_of(due_part(first.engine.retries, now));
    signing_reports_nothing_else(
        Progress { engine: parted, ..first },
        again,
        answers.again,
        now,
    );
    let second = retries_signed(first, now, answers);
    let second_questions = sign_questions(parted, again, answers.again);
    assert(found_reports(Seq::empty()) == Seq::<EventView>::empty()) by {
        reveal(Seq::filter);
    }
    assert(announcements(Seq::empty()) == Seq::<EventView>::empty()) by {
        reveal(Seq::filter);
    }
    let questions = login + first_questions + second_questions;
    assert(second.engine.trace =~= engine.trace + questions);
    general_of_one(login[0]);
    assert(login =~= seq![login[0]]);
    general_of_sum(login, first_questions);
    general_of_sum(login + first_questions, second_questions);
    assert(general_questions(questions) =~= login);
    questions
}

/// What a round does when it looks at the course list.
proof fn courses_are_joined(engine: EngineView, second: Progress, answers: Answers)
    requires
        found_reports(second.events).len() == 0,
        announcements(second.events).len() == 0,
        second.engine.watched == engine.watched,
        second.engine.tick_no == engine.tick_no + 1,
        second.engine.refresh_every == engine.refresh_every,
    ensures
        ({
            let after = courses_joined(second, answers);
            let joined = joined_in_round(engine, answers);
            &&& found_reports(after.events).len() == 0
            &&& announcements(after.events) == joined.map_values(
                |course: CourseView| joined_event(course),
            )
            &&& after.engine == EngineView {
                watched: engine.watched + joined,
                trace: second.engine.trace + look_questions(engine, answers),
                ..second.engine
            }
            &&& general_questions(look_questions(engine, answers)) == look_questions(
                engine,
                answers,
            )
        }),
{
    let event_of = |course: CourseView| joined_event(course);
    let joined = joined_in_round(engine, answers);
    let look = look_questions(engine, answers);
    let after = courses_joined(second, answers);
    assert(refreshes(second.engine) == looks_at_courses(engine));
    assert(Seq::<CourseView>::empty().map_values(event_of) =~= Seq::<EventView>::empty());
    assert(engine.watched + Seq::<CourseView>::empty() =~= engine.watched);
    assert(announcements(second.events) =~= Seq::empty());
    if refreshes(second.engine) {
        let question = Exchange::Courses { reply: answers.courses };
        general_of_one(question);
        let asked = Progress { engine: asking(second.engine, question), ..second };
        assert(asked.engine.trace =~= second.engine.trace + look);
        if let Ok(courses) = answers.courses {
            joining_announces(asked, courses, courses.len() as int);
            assert(announcements(after.events) =~= joined.map_values(event_of));
        }
    } else {
        assert(second.engine.trace + look =~= second.engine.trace);
        assert(general_questions(look) =~= look) by {
            reveal(Seq::filter);
        }
    }
}

/// The word on what is watched says of no course that it has joined.
proof fn end_reports_nothing_else(progress: Progress)
    ensures
        found_reports(round_ended(progress).events) == found_reports(progress.events),
        announcements(round_ended(progress).events) == announcements(progress.events),
{
    let after = round_ended(progress);
    if progress.engine.tick_no == 1 {
        let word = after.events.last();
        report_of_push(progress.events, word);
        assert(after.events =~= progress.events.push(word));
        reveal_strlit("已自动加入课程 ");
        reveal_strlit("持续监控中,共 ");
        if let EventView::Info(text) = word {
            assert(text[0] == "持续监控中,共 "@[0]);
            if "已自动加入课程 "@.is_prefix_of(text) {
                assert(text.subrange(0, "已自动加入课程 "@.len() as int)[0] == text[0]);
            }
        }
    }
}

proof fn round_is_done(engine: EngineView, now: Moment, answers: Answers)
    requires
        engine.running,
        answers.login is Ok,
    ensures
        round_does(engine, now, answers, round(engine, now, answers)),
{
    let begun = round_begun(engine, answers);
    let second = retries_signed(pending_signed(begun, now, answers), now, answers);
    let questions = signed_before_lists(engine, now, answers);
    courses_are_joined(engine, second, answers);
    let third = courses_joined(second, answers);
    let look = look_questions(engine, answers);
    let rows = Exchange::Rows { courses: third.engine.watched, reply: answers.fetched };
    let start = Harvest {
        progress: Progress { engine: asking(third.engine, rows), ..third },
        immediate: Seq::empty(),
    };
    let n = answered(third.engine.watched, answers.fetched);
    lists_are_harvested(start, answers.fetched, now, n);
    let taken = lists_taken(third, now, answers);
    assert(taken == after_lists(start, answers.fetched, now, n));
    signing_reports_nothing_else(taken.progress, taken.immediate, answers.found, now);
    let ended = sign_phase(taken.progress, taken.immediate, answers.found, now);
    let last_questions = sign_questions(taken.progress.engine, taken.immediate, answers.found);
    end_reports_nothing_else(ended);
    let after = round(engine, now, answers);
    assert(after == round_ended(ended));
    assert(after.engine == ended.engine);

    let parts = questions + look + seq![rows] + last_questions;
    assert(after.engine.trace =~= engine.trace + parts);
    assert(after.engine.trace.skip(engine.trace.len() as int) =~= parts);
    assert(engine.trace.is_prefix_of(after.engine.trace));
    general_of_one(rows);
    general_of_sum(questions, look);
    general_of_sum(questions + look, seq![rows]);
    general_of_sum(questions + look + seq![rows], last_questions);
    assert(general_questions(parts) =~= seq![Exchange::Login { reply: answers.login }] + look
        + seq![rows]);
}

/// A round reports as found exactly the first row of each activity that is worth checking in to
/// and was not met before, in the order of the courses and then of the rows, each with the name
/// of its course. What was met afterwards is what was met before and what was found.
pub proof fn open_rows_are_found(engine: EngineView, now: Moment, answers: Answers)
    requires
        engine.running,
        answers.login is Ok,
    ensures
        ({
            let after = round(engine, now, answers);
            let all = sightings(
                answers.fetched,
                engine.seen,
                now,
                answered(after.engine.watched, answers.fetched),
            );
            &&& found_reports(after.events) == reports_on(
                first_sightings(all),
                after.engine.watched,
            )
            &&& forall|id: Seq<char>| #[trigger]
                after.engine.seen.contains(id) == (engine.seen.contains(id) || is_sighted(all, id))
        }),
{
    round_is_done(engine, now, answers);
}

/// A round that the session allows asks once whether the session holds and once for check-in
/// lists. It asks for the course list, once, exactly where the round is one of so many; the lists
/// that it asks for are those of the courses that were watched, followed by the newcomers in
/// their order, each of which is announced. Where the course list cannot be had, or is not looked
/// at, nothing joins. No course is dropped, and the courses asked for are watched from then on.
pub proof fn course_list_is_refreshed(engine: EngineView, now: Moment, answers: Answers)
    requires
        engine.running,
        answers.login is Ok,
    ensures
        ({
            let after = round(engine, now, answers);
            let joined = joined_in_round(engine, answers);
            let watched = engine.watched + joined;
            let asked = after.engine.trace.skip(engine.trace.len() as int);
            &&& engine.trace.is_prefix_of(after.engine.trace)
            &&& general_questions(asked) == asked_in_round(engine, answers)
            &&& announcements(after.events) == joined.map_values(
                |course: CourseView| joined_event(course),
            )
            &&& after.engine.watched == watched
            &&& after.engine.tick_no == engine.tick_no + 1
            &&& after.engine.refresh_every == engine.refresh_every
        }),
{
    round_is_done(engine, now, answers);
}

proof fn first_is_sighted(all: Seq<Sighting>, id: Seq<char>)
    ensures
        is_sighted(first_sightings(all), id) == is_sighted(all, id),
    decreases all.len(),
{
    if all.len() > 0 {
        let rest = all.drop_last();
        let last = all.last();
        first_is_sighted(rest, id);
        assert(all =~= rest.push(last));
        sighted_after_push(rest, last, id);
        if !is_sighted(rest, last.row.id) {
            sighted_after_push(first_sightings(rest), last, id);
        }
    } else {
        assert(first_sightings(all) =~= all);
    }
}

/// An activity is reported exactly where one of the reports on it is among those on what was
/// found.
proof fn report_is_kept(events: Seq<EventView>, id: Seq<char>)
    ensures
        is_reported(events, id) == is_reported(found_reports(events), id),
{
    let keeps = |event: EventView| event is Found;
    let kept = found_reports(events);
    if is_reported(events, id) {
        let i = choose|i: int| 0 <= i < events.len() && found_id(#[trigger] events[i]) == Some(id);
        assert(keeps(events[i]));
        events.lemma_filter_contains(keeps, i);
        let k = choose|k: int| 0 <= k < kept.len() && kept[k] == events[i];
        assert(found_id(kept[k]) == Some(id));
    }
    if is_reported(kept, id) {
        let k = choose|k: int| 0 <= k < kept.len() && found_id(#[trigger] kept[k]) == Some(id);
        assert(kept.contains(kept[k]));
        events.lemma_filter_contains_rev(keeps, kept[k]);
        let i = choose|i: int| 0 <= i < events.len() && events[i] == kept[k];
        assert(found_id(events[i]) == Some(id));
    }
}

proof fn sighted_is_reported(all: Seq<Sighting>, watched: Seq<CourseView>, id: Seq<char>)
    ensures
        is_reported(reports_on(all, watched), id) == is_sighted(all, id),
{
    let reports = reports_on(all, watched);
    if is_sighted(all, id) {
        let i = choose|i: int| 0 <= i < all.len() && (#[trigger] all[i]).row.id == id;
        assert(found_id(reports[i]) == Some(id));
    }
    if is_reported(reports, id) {
        let i = choose|i: int|
            0 <= i < reports.len() && found_id(#[trigger] reports[i]) == Some(id);
        assert(all[i].row.id == id);
    }
}

/// What a round comes to have met is exactly what it reports as found.
pub proof fn met_is_reported(engine: EngineView, now: Moment, answers: Answers, id: Seq<char>)
    ensures
        round(engine, now, answers).engine.seen.contains(id) == (engine.seen.contains(id)
            || is_reported(round(engine, now, answers).events, id)),
{
    let after = round(engine, now, answers);
    if engine.running && answers.login is Ok {
        round_is_done(engine, now, answers);
        let all = sightings(
            answers.fetched,
            engine.seen,
            now,
            answered(after.engine.watched, answers.fetched),
        );
        report_is_kept(after.events, id);
        sighted_is_reported(first_sightings(all), after.engine.watched, id);
        first_is_sighted(all, id);
    }
}

proof fn row_is_sighted(
    fetched: Seq<Result<Seq<RowView>, ErrView>>,
    seen: Set<Seq<char>>,
    now: Moment,
    n: int,
    i: int,
    k: int,
)
    requires
        0 <= i < n,
        fetched[i] is Ok,
        0 <= k < fetched[i]->Ok_0.len(),
        is_qualified(fetched[i]->Ok_0[k], seen, now),
    ensures
        is_sighted(sightings(fetched, seen, now, n), fetched[i]->Ok_0[k].id),
    decreases n,
{
    let earlier = sightings(fetched, seen, now, n - 1);
    let here = sightings_on(fetched[n - 1], n - 1, seen, now);
    let id = fetched[i]->Ok_0[k].id;
    if i < n - 1 {
        row_is_sighted(fetched, seen, now, n - 1, i, k);
        sighted_in_sum(earlier, here, id);
    } else {
        let rows = fetched[i]->Ok_0;
        let keeps = |row: RowView| is_qualified(row, seen, now);
        assert(keeps(rows[k]));
        rows.lemma_filter_contains(keeps, k);
        let kept = qualified_rows(rows, seen, now);
        let m = choose|m: int| 0 <= m < kept.len() && kept[m] == rows[k];
        assert((earlier + here)[earlier.len() + m].row.id == id);
    }
}

/// No row that is worth checking in to is missed: in the round that sees it, its activity is
/// reported as found.
pub proof fn no_open_row_is_missed(
    engine: EngineView,
    now: Moment,
    answers: Answers,
    i: int,
    k: int,
)
    requires
        engine.running,
        answers.login is Ok,
        0 <= i < answered(round(engine, now, answers).engine.watched, answers.fetched),
        answers.fetched[i] is Ok,
        0 <= k < answers.fetched[i]->Ok_0.len(),
        is_qualified(answers.fetched[i]->Ok_0[k], engine.seen, now),
    ensures
        is_reported(round(engine, now, answers).events, answers.fetched[i]->Ok_0[k].id),
{
    let after = round(engine, now, answers);
    let id = answers.fetched[i]->Ok_0[k].id;
    round_is_done(engine, now, answers);
    row_is_sighted(
        answers.fetched,
        engine.seen,
        now,
        answered(after.engine.watched, answers.fetched),
        i,
        k,
    );
    met_is_reported(engine, now, answers, id);
}

/// A round stops the engine exactly where the session is lost, and an engine that does not run
/// keeps nothing waiting.
pub proof fn only_lost_session_stops(engine: EngineView, now: Moment, answers: Answers)
    requires
        keeps_nothing_idle(engine),
    ensures
        round(engine, now, answers).engine.running == (engine.running && answers.login is Ok),
        keeps_nothing_idle(round(engine, now, answers).engine),
{
    if engine.running && answers.login is Ok {
        round_is_done(engine, now, answers);
    }
}

/// What an engine that had met nothing has met after some rounds is exactly what those rounds
/// have reported as found.
pub proof fn met_is_what_was_found(engine: EngineView, steps: Seq<Step>, n: int, id: Seq<char>)
    requires
        engine.seen == Set::<Seq<char>>::empty(),
        0 <= n <= steps.len(),
    ensures
        after_rounds(engine, steps, n).seen.contains(id) == exists|m: int|
            0 <= m < n && is_reported(#[trigger] events_of_round(engine, steps, m), id),
    decreases n,
{
    if n > 0 {
        met_is_what_was_found(engine, steps, n - 1, id);
        met_is_reported(
            after_rounds(engine, steps, n - 1),
            steps[n - 1].now,
            steps[n - 1].answers,
            id,
        );
        let last = events_of_round(engine, steps, n - 1);
        assert(is_reported(last, id) ==> exists|m: int|
            0 <= m < n && is_reported(#[trigger] events_of_round(engine, steps, m), id));
    }
}

} // verus!
