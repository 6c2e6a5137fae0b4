//! The watch over the check-in lists: what is found, when it is checked in to, and when it is
//! tried again.
use crate::api::{ApiErr, CheckInResult, Client, ErrView, ResultView, SignReq};
use crate::clock::{Moment, LAST_SECOND};
use crate::filter::{qualified_activities, qualified_rows, IdSet};
use crate::models::{
    activity_of, copy_of_opt, kind_label, opt_view, views, ActivityView, Coordinates,
    CoordinatesView, Course, RawRow, RowView, SignActivity, SignType,
};
use crate::number::{decimal, integer};
use crate::round::{
    after_activity, after_courses, after_list, after_lists, after_result, after_results,
    after_rows, answered, asking, asks_place, calendar_allows, courses_joined, courses_reply,
    earliest, earliest_is_least, fetched_reply, is_watched, keeps_nothing_idle, lists_taken,
    login_reply, paired, pending_signed, place_for, place_in, place_questions, queue_known,
    request_for, requests_for, retries_signed, round, round_begun, rows_reply, sign_phase, stopped,
    target_known, targets_known, wait_until_due, Answers, EngineView, Exchange, Harvest, Progress,
    SignAnswers,
};
use crate::text::{concat2, concat3, copy_of, has_text, same_text};
use vstd::hash_map::StringHashMap;
use vstd::prelude::*;

verus! {

/// How often an activity is tried before it is given up.
pub const MAX_SIGN_ATTEMPTS: u32 = 3;

/// How long to wait before an activity is tried again.
pub const RETRY_INTERVAL_SECONDS: i64 = 60;

// ---------------------------------------------------------------------------------------
// Configuration

/// The places of courses, by the courses' names.
pub struct CoordinateTable {
    places: StringHashMap<Coordinates>,
}

impl View for CoordinateTable {
    type V = Map<Seq<char>, CoordinatesView>;

    closed spec fn view(&self) -> Map<Seq<char>, CoordinatesView> {
        self.places@.map_values(|place: Coordinates| place@)
    }
}

impl CoordinateTable {
    /// A table without places.
    pub fn new() -> (r: CoordinateTable)
        ensures
            r@ == Map::<Seq<char>, CoordinatesView>::empty(),
    {
        let r = CoordinateTable { places: StringHashMap::new() };
        assert(r@ =~= Map::<Seq<char>, CoordinatesView>::empty());
        r
    }

    /// Puts the place of a course into the table.
    pub fn insert(&mut self, name: String, place: Coordinates)
        ensures
            final(self)@ == old(self)@.insert(name@, place@),
    {
        self.places.insert(name, place);
        assert(self@ =~= old(self)@.insert(name@, place@));
    }

    /// The place of a course, where the table has it.
    pub fn get(&self, name: &str) -> (r: Option<Coordinates>)
        ensures
            opt_view(r) == place_in(self@, name@),
    {
        match self.places.get(name) {
            Some(place) => Some(place.clone()),
            None => None,
        }
    }
}

/// How the engine works: how long it waits before it checks in, the places that it gives for
/// want of better ones, and how many rounds lie between two looks at the course list (none is
/// taken where the number is zero).
pub struct EngineConfig {
    pub delay_seconds: i64,
    pub coords: CoordinateTable,
    pub refresh_every: u64,
}

impl Default for EngineConfig {
    fn default() -> (r: Self)
        ensures
            r.delay_seconds == 0,
            r.coords@ == Map::<Seq<char>, CoordinatesView>::empty(),
            r.refresh_every == 300,
    {
        EngineConfig { delay_seconds: 0, coords: CoordinateTable::new(), refresh_every: 300 }
    }
}

// ---------------------------------------------------------------------------------------
// Events

/// What the engine reports.
#[derive(Debug)]
pub enum Event {
    Info(String),
    Warn(String),
    Found { course_name: String, activity_id: String, kind: String, code: Option<String> },
    Signed { course_name: String, activity_id: String, result: CheckInResult },
}

/// What an event holds.
#[verifier::ext_equal]
pub ghost enum EventView {
    Info(Seq<char>),
    Warn(Seq<char>),
    Found {
        course_name: Seq<char>,
        activity_id: Seq<char>,
        kind: Seq<char>,
        code: Option<Seq<char>>,
    },
    Signed { course_name: Seq<char>, activity_id: Seq<char>, result: ResultView },
}

impl View for Event {
    type V = EventView;

    open spec fn view(&self) -> EventView {
        match *self {
            Event::Info(text) => EventView::Info(text@),
            Event::Warn(text) => EventView::Warn(text@),
            Event::Found { course_name, activity_id, kind, code } => EventView::Found {
                course_name: course_name@,
                activity_id: activity_id@,
                kind: kind@,
                code: opt_view(code),
            },
            Event::Signed { course_name, activity_id, result } => EventView::Signed {
                course_name: course_name@,
                activity_id: activity_id@,
                result: result@,
            },
        }
    }
}

/// Adds an event to the report.
fn report(events: &mut Vec<Event>, event: Event)
    ensures
        views(final(events)@) == views(old(events)@).push(event@),
{
    events.push(event);
    assert(views(events@) =~= views(old(events)@).push(event@));
}

// ---------------------------------------------------------------------------------------
// Queues

/// An activity that is to be checked in to, and the course that it belongs to.
pub struct Target {
    pub activity: SignActivity,
    pub course_index: usize,
}

/// What a target holds.
#[verifier::ext_equal]
pub ghost struct TargetView {
    pub activity: ActivityView,
    pub course_index: int,
}

impl View for Target {
    type V = TargetView;

    open spec fn view(&self) -> TargetView {
        TargetView { activity: self.activity@, course_index: self.course_index as int }
    }
}

impl Clone for Target {
    fn clone(&self) -> (r: Self)
        ensures
            r@ == self@,
    {
        Target { activity: self.activity.clone(), course_index: self.course_index }
    }
}

/// A target that waits for its time.
pub struct Pending {
    pub target: Target,
    pub due: Moment,
}

/// What a waiting target holds.
#[verifier::ext_equal]
pub ghost struct PendingView {
    pub target: TargetView,
    pub due: Moment,
}

impl View for Pending {
    type V = PendingView;

    open spec fn view(&self) -> PendingView {
        PendingView { target: self.target@, due: self.due }
    }
}

impl Clone for Pending {
    fn clone(&self) -> (r: Self)
        ensures
            r@ == self@,
    {
        Pending { target: self.target.clone(), due: self.due }
    }
}

/// The waiting targets whose time has come, in their order.
pub open spec fn due_part(queue: Seq<PendingView>, now: Moment) -> Seq<PendingView> {
    queue.filter(|item: PendingView| item.due.no_later(now))
}

/// The waiting targets whose time has not come, in their order.
pub open spec fn later_part(queue: Seq<PendingView>, now: Moment) -> Seq<PendingView> {
    queue.filter(|item: PendingView| !item.due.no_later(now))
}

/// The targets of a queue.
pub open spec fn targets_of(queue: Seq<PendingView>) -> Seq<TargetView> {
    queue.map_values(|item: PendingView| item.target)
}

/// Parts a queue into the targets whose time has come and the items whose time has not.
pub fn split_due(queue: &Vec<Pending>, now: Moment) -> (r: (Vec<Target>, Vec<Pending>))
    ensures
        views(r.0@) == targets_of(due_part(views(queue@), now)),
        views(r.1@) == later_part(views(queue@), now),
{
    let mut due: Vec<Target> = Vec::new();
    let mut later: Vec<Pending> = Vec::new();
    let ghost all = views(queue@);
    let ghost is_due = |item: PendingView| item.due.no_later(now);
    let ghost is_later = |item: PendingView| !item.due.no_later(now);
    let mut i: usize = 0;
    proof {
        reveal(Seq::filter);
        assert(all.take(0) =~= Seq::empty());
        assert(views(due@) =~= targets_of(all.take(0).filter(is_due)));
        assert(views(later@) =~= all.take(0).filter(is_later));
    }
    while i < queue.len()
        invariant
            i <= queue@.len(),
            all == views(queue@),
            is_due == (|item: PendingView| item.due.no_later(now)),
            is_later == (|item: PendingView| !item.due.no_later(now)),
            views(due@) == targets_of(all.take(i as int).filter(is_due)),
            views(later@) == all.take(i as int).filter(is_later),
        decreases queue@.len() - i,
    {
        let ghost due_before = due@;
        let ghost later_before = later@;
        proof {
            reveal(Seq::filter);
            assert(all.take(i + 1).drop_last() =~= all.take(i as int));
            assert(all.take(i + 1).last() == queue@[i as int]@);
        }
        if now.is_before(&queue[i].due) {
            later.push(queue[i].clone());
            assert(views(later@) =~= views(later_before).push(queue@[i as int]@));
        } else {
            due.push(queue[i].target.clone());
            assert(views(due@) =~= views(due_before).push(queue@[i as int]@.target));
            assert(targets_of(all.take(i + 1).filter(is_due)) =~= targets_of(
                all.take(i as int).filter(is_due),
            ).push(queue@[i as int]@.target));
        }
        i = i + 1;
    }
    assert(all.take(queue@.len() as int) =~= all);
    (due, later)
}

// ---------------------------------------------------------------------------------------
// The engine's state

/// A value that is held just as it was given.
struct Held<T> {
    value: T,
}

/// The watch over the check-in lists of some courses.
pub struct Engine {
    client: Held<Box<dyn Client>>,
    watched: Vec<Course>,
    config: EngineConfig,
    seen: IdSet,
    pending: Vec<Pending>,
    retries: Vec<Pending>,
    attempts: StringHashMap<u32>,
    running: bool,
    tick_no: u64,
}

impl View for Engine {
    type V = EngineView;

    closed spec fn view(&self) -> EngineView {
        EngineView {
            watched: views(self.watched@),
            delay_seconds: self.config.delay_seconds as int,
            coords: self.config.coords@,
            refresh_every: self.config.refresh_every as int,
            seen: self.seen@,
            pending: views(self.pending@),
            retries: views(self.retries@),
            attempts: self.attempts@,
            running: self.running,
            tick_no: self.tick_no as int,
            trace: self.client.value.asked(),
        }
    }
}

// ---------------------------------------------------------------------------------------
// The engine at work

impl Engine {
    /// What waits belongs to courses that the engine watches.
    pub open spec fn waits_known(&self) -> bool {
        &&& queue_known(self@.pending, self@.watched.len())
        &&& queue_known(self@.retries, self@.watched.len())
    }

    /// What always holds of an engine: what waits belongs to courses that it watches, and nothing
    /// waits once it does not run.
    pub open spec fn wf(&self) -> bool {
        &&& self.waits_known()
        &&& keeps_nothing_idle(self@)
    }

    /// An engine that watches some courses. It runs, and has met nothing yet; on record is what
    /// the client was asked before.
    pub fn new(client: Box<dyn Client>, courses: Vec<Course>, config: EngineConfig) -> (r: Self)
        ensures
            r.wf(),
            r@ == (EngineView {
                watched: views(courses@),
                delay_seconds: config.delay_seconds as int,
                coords: config.coords@,
                refresh_every: config.refresh_every as int,
                seen: Set::empty(),
                pending: Seq::empty(),
                retries: Seq::empty(),
                attempts: Map::empty(),
                running: true,
                tick_no: 0,
                trace: client.asked(),
            }),
    {
        let held = Held { value: client };
        let r = Engine {
            client: held,
            watched: courses,
            config,
            seen: IdSet::new(),
            pending: Vec::new(),
            retries: Vec::new(),
            attempts: StringHashMap::new(),
            running: true,
            tick_no: 0,
        };
        assert(r@.pending =~= Seq::empty());
        assert(r@.retries =~= Seq::empty());
        r
    }

    /// Whether the engine runs.
    pub fn running(&self) -> (r: bool)
        ensures
            r == self@.running,
    {
        self.running
    }

    /// Stops the engine. What waited is dropped.
    pub fn stop(&mut self)
        ensures
            final(self)@ == stopped(old(self)@),
            final(self).wf(),
    {
        self.running = false;
        self.pending = Vec::new();
        self.retries = Vec::new();
        assert(self@.pending =~= Seq::empty());
        assert(self@.retries =~= Seq::empty());
    }

    /// How long it is until something waits no longer, in nanoseconds.
    pub fn earliest_due(&self, now: Moment) -> (r: Option<u128>)
        requires
            self.waits_known(),
            now.in_range(),
        ensures
            match r {
                Some(nanos) => wait_until_due(self@, now) == Some(nanos as int),
                None => wait_until_due(self@, now) is None,
            },
    {
        let ghost all = self@.pending + self@.retries;
        let mut found: Option<Moment> = None;
        let mut i: usize = 0;
        while i < self.pending.len()
            invariant
                i <= self.pending@.len(),
                all == self@.pending + self@.retries,
                self@.pending == views(self.pending@),
                found == earliest(all.take(i as int)),
            decreases self.pending@.len() - i,
        {
            proof {
                assert(all.take(i + 1).drop_last() =~= all.take(i as int));
                assert(all.take(i + 1).last() == self.pending@[i as int]@);
            }
            found = earlier_of(found, self.pending[i].due);
            i = i + 1;
        }
        let mut j: usize = 0;
        while j < self.retries.len()
            invariant
                j <= self.retries@.len(),
                all == self@.pending + self@.retries,
                self@.pending == views(self.pending@),
                self@.retries == views(self.retries@),
                found == earliest(all.take(self.pending@.len() + j)),
            decreases self.retries@.len() - j,
        {
            proof {
                let k = self.pending@.len() + j;
                assert(all.take(k + 1).drop_last() =~= all.take(k));
                assert(all.take(k + 1).last() == self.retries@[j as int]@);
            }
            found = earlier_of(found, self.retries[j].due);
            j = j + 1;
        }
        assert(all.take(all.len() as int) =~= all);
        match found {
            None => None,
            Some(due) => {
                proof {
                    earliest_is_least(all);
                    let k = choose|k: int| 0 <= k < all.len() && (#[trigger] all[k]).due == due;
                    if k < self@.pending.len() {
                        assert(all[k] == self@.pending[k]);
                    } else {
                        assert(all[k] == self@.retries[k - self@.pending.len()]);
                    }
                }
                let remaining: i128 = due.nanos_since(&now);
                if remaining < 0 {
                    Some(0)
                } else {
                    Some(remaining as u128)
                }
            },
        }
    }

    /// Asks the service whether the session holds.
    fn ask_login(&mut self) -> (r: Result<(), ApiErr>)
        ensures
            final(self)@ == asking(old(self)@, Exchange::Login { reply: login_reply(r) }),
    {
        self.client.value.check_login()
    }

    /// Asks the service for the course list.
    fn ask_courses(&mut self) -> (r: Result<Vec<Course>, ApiErr>)
        ensures
            final(self)@ == asking(old(self)@, Exchange::Courses { reply: courses_reply(r) }),
    {
        self.client.value.fetch_courses()
    }

    /// Asks the service for the check-in lists of all watched courses.
    fn ask_rows(&mut self) -> (r: Vec<Result<Vec<RawRow>, ApiErr>>)
        ensures
            final(self)@ == asking(
                old(self)@,
                Exchange::Rows { courses: old(self)@.watched, reply: fetched_reply(r@) },
            ),
    {
        self.client.value.fetch_all(self.watched.as_slice())
    }

    /// Asks the service for the place of an activity.
    fn ask_place(&mut self, activity: &SignActivity, course: &Course) -> (r: Option<Coordinates>)
        ensures
            final(self)@ == asking(
                old(self)@,
                Exchange::Place { activity: activity@, course: course@, reply: opt_view(r) },
            ),
    {
        self.client.value.activity_coords(activity, course)
    }

    /// Has the service make check-ins.
    fn ask_sign(&mut self, requests: &Vec<SignReq>) -> (r: Vec<CheckInResult>)
        ensures
            final(self)@ == asking(
                old(self)@,
                Exchange::Sign { requests: views(requests@), reply: views(r@) },
            ),
    {
        self.client.value.sign_many(requests.as_slice())
    }

    /// The place that is given for an activity, where the service answers so when it is asked.
    pub fn choose_place(
        &self,
        activity: &SignActivity,
        answer: Option<Coordinates>,
        course: &Course,
    ) -> (r: Option<Coordinates>)
        ensures
            opt_view(r) == place_for(activity@, opt_view(answer), self@.coords, course@.name),
    {
        if activity.kind != SignType::Locate {
            return None;
        }
        if let Some(place) = &activity.coordinate {
            return Some(place.clone());
        }
        if answer.is_some() {
            return answer;
        }
        self.config.coords.get(course.name.as_str())
    }

    /// Finds the place of an activity, and keeps what the service answered.
    fn find_place(&mut self, activity: &SignActivity, course: &Course) -> (r: (
        Option<Coordinates>,
        Ghost<Option<CoordinatesView>>,
    ))
        ensures
            opt_view(r.0) == place_for(activity@, r.1@, old(self)@.coords, course@.name),
            final(self)@ == if asks_place(activity@) {
                asking(
                    old(self)@,
                    Exchange::Place { activity: activity@, course: course@, reply: r.1@ },
                )
            } else {
                old(self)@
            },
    {
        if activity.kind == SignType::Locate && activity.coordinate.is_none() {
            let answer: Option<Coordinates> = self.ask_place(activity, course);
            let ghost reply = opt_view(answer);
            (self.choose_place(activity, answer, course), Ghost(reply))
        } else {
            (self.choose_place(activity, None, course), Ghost(None))
        }
    }

    /// Finds the place that is given for an activity. The service is asked for it where the
    /// activity is checked in to by being at a place and names none itself; what comes of its
    /// answer, `place_for` says.
    pub fn resolve_coords(&mut self, activity: &SignActivity, course: &Course) -> (r: Option<
        Coordinates,
    >)
        ensures
            !asks_place(activity@) ==> final(self)@ == old(self)@ && opt_view(r) == place_for(
                activity@,
                None,
                old(self)@.coords,
                course@.name,
            ),
            asks_place(activity@) ==> exists|answer: Option<CoordinatesView>|
                {
                    &&& final(self)@ == #[trigger] asking(
                        old(self)@,
                        Exchange::Place { activity: activity@, course: course@, reply: answer },
                    )
                    &&& opt_view(r) == place_for(
                        activity@,
                        answer,
                        old(self)@.coords,
                        course@.name,
                    )
                },
            old(self).wf() ==> final(self).wf(),
    {
        let (place, Ghost(answer)) = self.find_place(activity, course);
        assert(asks_place(activity@) ==> self@ == asking(
            old(self)@,
            Exchange::Place { activity: activity@, course: course@, reply: answer },
        ));
        place
    }

    /// Makes the requests for targets.
    fn sign_requests(&mut self, targets: &Vec<Target>) -> (r: (
        Vec<SignReq>,
        Ghost<Seq<Option<CoordinatesView>>>,
    ))
        requires
            targets_known(views(targets@), old(self)@.watched.len()),
        ensures
            views(r.0@) == requests_for(old(self)@, views(targets@), r.1@),
            final(self)@ == (EngineView {
                trace: old(self)@.trace + place_questions(
                    old(self)@,
                    views(targets@),
                    r.1@,
                    targets@.len() as int,
                ),
                ..old(self)@
            }),
    {
        let ghost engine = self@;
        let ghost all = views(targets@);
        let ghost mut answers: Seq<Option<CoordinatesView>> = Seq::empty();
        let mut requests: Vec<SignReq> = Vec::new();
        let mut i: usize = 0;
        assert(engine.trace + Seq::<Exchange>::empty() =~= engine.trace);
        while i < targets.len()
            invariant
                i <= targets@.len(),
                all == views(targets@),
                targets_known(all, engine.watched.len()),
                answers.len() == i,
                requests@.len() == i,
                forall|k: int|
                    0 <= k < i ==> (#[trigger] requests@[k])@ == request_for(
                        engine,
                        all[k],
                        answers[k],
                    ),
                self@ == (EngineView {
                    trace: engine.trace + place_questions(engine, all, answers, i as int),
                    ..engine
                }),
            decreases targets@.len() - i,
        {
            assert(target_known(all[i as int], engine.watched.len()));
            let course: Course = self.watched[targets[i].course_index].clone();
            assert(course@ == engine.watched[all[i as int].course_index]);
            let (coords, Ghost(answer)) = self.find_place(&targets[i].activity, &course);
            let activity: SignActivity = targets[i].activity.clone();
            requests.push(SignReq { activity, course, coords });
            proof {
                let more = answers.push(answer);
                same_questions(engine, all, answers, more, i as int);
                answers = more;
                assert(self@.trace =~= engine.trace + place_questions(
                    engine,
                    all,
                    answers,
                    i + 1,
                ));
            }
            i = i + 1;
        }
        assert(views(requests@) =~= requests_for(engine, all, answers));
        (requests, Ghost(answers))
    }

    /// Keeps and reports the results of requests.
    pub fn record_results(
        &mut self,
        targets: &Vec<Target>,
        requests: &Vec<SignReq>,
        results: &Vec<CheckInResult>,
        now: Moment,
        events: &mut Vec<Event>,
    )
        requires
            old(self).waits_known(),
            targets@.len() == requests@.len(),
            targets_known(views(targets@), old(self)@.watched.len()),
            now.in_range(),
            now.seconds + RETRY_INTERVAL_SECONDS <= LAST_SECOND,
        ensures
            final(self).waits_known(),
            final(self)@.running == old(self)@.running,
            final(self)@.watched == old(self)@.watched,
            final(self)@.delay_seconds == old(self)@.delay_seconds,
            (Progress { engine: final(self)@, events: views(final(events)@) }) == after_results(
                Progress { engine: old(self)@, events: views(old(events)@) },
                views(targets@),
                views(requests@),
                views(results@),
                now,
                paired(views(targets@), views(results@)),
            ),
    {
        let ghost start = Progress { engine: self@, events: views(events@) };
        let ghost watched = self@.watched;
        let mut i: usize = 0;
        while i < targets.len() && i < results.len()
            invariant
                i <= targets@.len(),
                i <= results@.len(),
                targets@.len() == requests@.len(),
                self.waits_known(),
                self@.running == start.engine.running,
                self@.watched == watched,
                self@.delay_seconds == start.engine.delay_seconds,
                targets_known(views(targets@), watched.len()),
                now.in_range(),
                now.seconds + RETRY_INTERVAL_SECONDS <= LAST_SECOND,
                (Progress { engine: self@, events: views(events@) }) == after_results(
                    start,
                    views(targets@),
                    views(requests@),
                    views(results@),
                    now,
                    i as int,
                ),
            decreases targets@.len() - i,
        {
            assert(target_known(views(targets@)[i as int], watched.len()));
            self.record_result(&requests[i], targets[i].course_index, &results[i], now);
            report(
                events,
                Event::Signed {
                    course_name: copy_of(requests[i].course.name.as_str()),
                    activity_id: copy_of(requests[i].activity.id.as_str()),
                    result: results[i].clone(),
                },
            );
            i = i + 1;
        }
    }

    /// Keeps the result of one request.
    pub fn record_result(
        &mut self,
        request: &SignReq,
        course_index: usize,
        result: &CheckInResult,
        now: Moment,
    )
        requires
            old(self).waits_known(),
            course_index < old(self)@.watched.len(),
            now.in_range(),
            now.seconds + RETRY_INTERVAL_SECONDS <= LAST_SECOND,
        ensures
            final(self).waits_known(),
            final(self)@ == after_result(
                old(self)@,
                request@,
                course_index as int,
                result@,
                now,
            ),
    {
        if let CheckInResult::Failed(message) = result {
            let patient: bool = has_text(message.as_str(), "过于频繁") || has_text(
                message.as_str(),
                "稍后",
            );
            let earlier: u32 = match self.attempts.get(request.activity.id.as_str()) {
                Some(count) => *count,
                None => 0,
            };
            let failures: u32 = if earlier < u32::MAX {
                earlier + 1
            } else {
                earlier
            };
            self.attempts.insert(copy_of(request.activity.id.as_str()), failures);
            if patient || failures < MAX_SIGN_ATTEMPTS {
                let due: Moment = now.plus_seconds(RETRY_INTERVAL_SECONDS);
                let item = Pending {
                    target: Target { activity: request.activity.clone(), course_index },
                    due,
                };
                let ghost before = self@.retries;
                self.retries.push(item);
                assert(self@.retries =~= before.push(item@));
            }
        }
    }

    /// Checks in to targets: finds their places, makes all requests together, and keeps and
    /// reports the results.
    fn sign_all(&mut self, targets: &Vec<Target>, now: Moment, events: &mut Vec<Event>) -> (r:
        Ghost<SignAnswers>)
        requires
            old(self).waits_known(),
            targets_known(views(targets@), old(self)@.watched.len()),
            now.in_range(),
            now.seconds + RETRY_INTERVAL_SECONDS <= LAST_SECOND,
        ensures
            final(self).waits_known(),
            final(self)@.running == old(self)@.running,
            final(self)@.watched == old(self)@.watched,
            final(self)@.delay_seconds == old(self)@.delay_seconds,
            (Progress { engine: final(self)@, events: views(final(events)@) }) == sign_phase(
                Progress { engine: old(self)@, events: views(old(events)@) },
                views(targets@),
                r@,
                now,
            ),
    {
        if targets.len() == 0 {
            return Ghost(SignAnswers { places: Seq::empty(), results: Seq::empty() });
        }
        let (requests, Ghost(places)) = self.sign_requests(targets);
        let results: Vec<CheckInResult> = self.ask_sign(&requests);
        let ghost answers = SignAnswers { places, results: views(results@) };
        assert(views(requests@).len() == views(targets@).len());
        self.record_results(targets, &requests, &results, now, events);
        Ghost(answers)
    }

    /// Joins courses to those that are watched, each unless it is among them already.
    pub fn admit_courses(&mut self, courses: &Vec<Course>, events: &mut Vec<Event>)
        requires
            old(self).waits_known(),
        ensures
            final(self).waits_known(),
            final(self)@.running == old(self)@.running,
            final(self)@.delay_seconds == old(self)@.delay_seconds,
            (Progress { engine: final(self)@, events: views(final(events)@) }) == after_courses(
                Progress { engine: old(self)@, events: views(old(events)@) },
                views(courses@),
                courses@.len() as int,
            ),
    {
        let ghost start = Progress { engine: self@, events: views(events@) };
        let mut i: usize = 0;
        while i < courses.len()
            invariant
                i <= courses@.len(),
                self.waits_known(),
                self@.running == start.engine.running,
                self@.delay_seconds == start.engine.delay_seconds,
                (Progress { engine: self@, events: views(events@) }) == after_courses(
                    start,
                    views(courses@),
                    i as int,
                ),
            decreases courses@.len() - i,
        {
            if !self.watches(&courses[i]) {
                let ghost before = self@.watched;
                self.watched.push(courses[i].clone());
                assert(self@.watched =~= before.push(courses@[i as int]@));
                report(
                    events,
                    Event::Info(concat2("已自动加入课程 ", courses[i].name.as_str())),
                );
            }
            i = i + 1;
        }
    }

    /// Whether a course is among those that are watched.
    pub fn watches(&self, course: &Course) -> (r: bool)
        ensures
            r == is_watched(self@.watched, course@),
    {
        let mut i: usize = 0;
        while i < self.watched.len()
            invariant
                i <= self.watched@.len(),
                self@.watched == views(self.watched@),
                forall|k: int| 0 <= k < i ==> self@.watched[k].tclass_id != course@.tclass_id,
            decreases self.watched@.len() - i,
        {
            if same_text(self.watched[i].tclass_id.as_str(), course.tclass_id.as_str()) {
                assert(self@.watched[i as int].tclass_id == course@.tclass_id);
                return true;
            }
            i = i + 1;
        }
        false
    }

    /// Meets an activity.
    fn meet_activity(
        &mut self,
        activity: SignActivity,
        course_index: usize,
        now: Moment,
        immediate: &mut Vec<Target>,
        events: &mut Vec<Event>,
    )
        requires
            old(self).waits_known(),
            course_index < old(self)@.watched.len(),
            calendar_allows(old(self)@, now),
        ensures
            final(self).waits_known(),
            (Harvest {
                progress: Progress { engine: final(self)@, events: views(final(events)@) },
                immediate: views(final(immediate)@),
            }) == after_activity(
                Harvest {
                    progress: Progress { engine: old(self)@, events: views(old(events)@) },
                    immediate: views(old(immediate)@),
                },
                activity@,
                course_index as int,
                now,
            ),
    {
        if !self.seen.insert(copy_of(activity.id.as_str())) {
            assert(self@.seen =~= old(self)@.seen);
            return;
        }
        let course_name: String = copy_of(self.watched[course_index].name.as_str());
        assert(course_name@ == self@.watched[course_index as int].name);
        report(
            events,
            Event::Found {
                course_name: copy_of(course_name.as_str()),
                activity_id: copy_of(activity.id.as_str()),
                kind: copy_of(kind_label(activity.kind)),
                code: copy_of_opt(&activity.code),
            },
        );
        let target = Target { activity, course_index };
        if self.config.delay_seconds > 0 {
            let due: Moment = now.plus_seconds(self.config.delay_seconds);
            let item = Pending { target, due };
            let ghost before = self@.pending;
            self.pending.push(item);
            assert(self@.pending =~= before.push(item@));
            let mut notice: String = concat3(
                "将在 ",
                integer(self.config.delay_seconds).as_str(),
                " 秒后自动签到 [",
            );
            notice.append(course_name.as_str());
            notice.append("]");
            report(events, Event::Info(notice));
        } else {
            immediate.push(target);
            assert(views(immediate@) =~= views(old(immediate)@).push(target@));
        }
    }

    /// Takes in the check-in list of one course.
    fn take_list(
        &mut self,
        reply: &Result<Vec<RawRow>, ApiErr>,
        course_index: usize,
        now: Moment,
        immediate: &mut Vec<Target>,
        events: &mut Vec<Event>,
    )
        requires
            old(self).waits_known(),
            course_index < old(self)@.watched.len(),
            calendar_allows(old(self)@, now),
        ensures
            final(self).waits_known(),
            final(self)@.running == old(self)@.running,
            final(self)@.watched == old(self)@.watched,
            final(self)@.delay_seconds == old(self)@.delay_seconds,
            (Harvest {
                progress: Progress { engine: final(self)@, events: views(final(events)@) },
                immediate: views(final(immediate)@),
            }) == after_list(
                Harvest {
                    progress: Progress { engine: old(self)@, events: views(old(events)@) },
                    immediate: views(old(immediate)@),
                },
                rows_reply(*reply),
                course_index as int,
                now,
            ),
    {
        let ghost start = Harvest {
            progress: Progress { engine: self@, events: views(events@) },
            immediate: views(immediate@),
        };
        match reply {
            Ok(rows) => {
                let candidates: Vec<&RawRow> = qualified_activities(rows, &self.seen, now);
                let ghost picked = views(candidates@);
                let mut i: usize = 0;
                while i < candidates.len()
                    invariant
                        i <= candidates@.len(),
                        picked == views(candidates@),
                        self.waits_known(),
                        self@.running == start.progress.engine.running,
                        course_index < self@.watched.len(),
                        calendar_allows(self@, now),
                        self@.watched == start.progress.engine.watched,
                        self@.delay_seconds == start.progress.engine.delay_seconds,
                        (Harvest {
                            progress: Progress { engine: self@, events: views(events@) },
                            immediate: views(immediate@),
                        }) == after_rows(start, picked, course_index as int, now, i as int),
                    decreases candidates@.len() - i,
                {
                    let activity: SignActivity = SignActivity::from_raw(candidates[i]);
                    assert(activity@ == activity_of(picked[i as int]));
                    self.meet_activity(activity, course_index, now, immediate, events);
                    i = i + 1;
                }
            },
            Err(error) => {
                if self.tick_no % 10 == 1 {
                    let mut notice: String = concat3(
                        "课程 ",
                        self.watched[course_index].name.as_str(),
                        " 拉取失败: ",
                    );
                    notice.append(error.message().as_str());
                    assert(self.watched@[course_index as int]@
                        == self@.watched[course_index as int]);
                    report(events, Event::Warn(notice));
                }
            },
        }
    }

    /// Takes in the check-in lists of the watched courses. What is to be checked in to at once
    /// is added to `immediate`.
    pub fn take_lists(
        &mut self,
        fetched: &Vec<Result<Vec<RawRow>, ApiErr>>,
        now: Moment,
        immediate: &mut Vec<Target>,
        events: &mut Vec<Event>,
    )
        requires
            old(self).waits_known(),
            calendar_allows(old(self)@, now),
            targets_known(views(old(immediate)@), old(self)@.watched.len()),
        ensures
            final(self).waits_known(),
            final(self)@.running == old(self)@.running,
            final(self)@.watched == old(self)@.watched,
            targets_known(views(final(immediate)@), final(self)@.watched.len()),
            (Harvest {
                progress: Progress { engine: final(self)@, events: views(final(events)@) },
                immediate: views(final(immediate)@),
            }) == after_lists(
                Harvest {
                    progress: Progress { engine: old(self)@, events: views(old(events)@) },
                    immediate: views(old(immediate)@),
                },
                fetched_reply(fetched@),
                now,
                answered(old(self)@.watched, fetched_reply(fetched@)),
            ),
    {
        let ghost start = Harvest {
            progress: Progress { engine: self@, events: views(events@) },
            immediate: views(immediate@),
        };
        let mut i: usize = 0;
        while i < self.watched.len() && i < fetched.len()
            invariant
                i <= self@.watched.len(),
                i <= fetched@.len(),
                self@.watched == views(self.watched@),
                self.waits_known(),
                self@.running == start.progress.engine.running,
                calendar_allows(self@, now),
                self@.watched == start.progress.engine.watched,
                self@.delay_seconds == start.progress.engine.delay_seconds,
                targets_known(views(immediate@), self@.watched.len()),
                (Harvest {
                    progress: Progress { engine: self@, events: views(events@) },
                    immediate: views(immediate@),
                }) == after_lists(start, fetched_reply(fetched@), now, i as int),
            decreases fetched@.len() - i,
        {
            let ghost before = Harvest {
                progress: Progress { engine: self@, events: views(events@) },
                immediate: views(immediate@),
            };
            self.take_list(&fetched[i], i, now, immediate, events);
            proof {
                list_keeps_targets(before, fetched_reply(fetched@)[i as int], i as int, now);
            }
            i = i + 1;
        }
    }

    /// The engine can make a round at this time: the round can be counted, and the calendar
    /// knows the times that the round can set.
    pub open spec fn can_tick(&self, now: Moment) -> bool {
        self@.running ==> self@.tick_no < u64::MAX && calendar_allows(self@, now)
    }

    /// Whether the engine can make a round at this time.
    pub fn ready(&self, now: Moment) -> (r: bool)
        ensures
            r == self.can_tick(now),
    {
        !self.running || (self.tick_no < u64::MAX && now.is_in_range() && now.seconds
            <= LAST_SECOND - RETRY_INTERVAL_SECONDS && now.seconds as i128
            + self.config.delay_seconds as i128 <= LAST_SECOND as i128)
    }

    /// Makes one round, and reports on it. What the round does with each answer of the service,
    /// `round` says.
    pub fn tick(&mut self, now: Moment) -> (r: Vec<Event>)
        requires
            old(self).wf(),
            old(self).can_tick(now),
        ensures
            final(self).wf(),
            exists|answers: Answers|
                (Progress { engine: final(self)@, events: views(r@) }) == #[trigger] round(
                    old(self)@,
                    now,
                    answers,
                ),
            !old(self)@.running ==> final(self)@ == old(self)@ && r@.len() == 0,
    {
        let mut events: Vec<Event> = Vec::new();
        let ghost start = self@;
        let ghost nothing = SignAnswers { places: Seq::empty(), results: Seq::empty() };
        let ghost mut answers = Answers {
            login: Ok(()),
            due: nothing,
            again: nothing,
            courses: Ok(Seq::empty()),
            fetched: Seq::empty(),
            found: nothing,
        };
        assert(views(events@) =~= Seq::empty());
        if !self.running {
            assert((Progress { engine: self@, events: views(events@) }) == round(
                start,
                now,
                answers,
            ));
            return events;
        }
        self.tick_no = self.tick_no + 1;
        let session: Result<(), ApiErr> = self.ask_login();
        proof {
            answers = Answers { login: login_reply(session), ..answers };
        }
        assert(self@ == round_begun(start, answers));
        if let Err(error) = session {
            report(
                &mut events,
                Event::Warn(concat2("登录失效,已自动停止: ", error.message().as_str())),
            );
            self.stop();
            assert((Progress { engine: self@, events: views(events@) }) == round(
                start,
                now,
                answers,
            ));
            return events;
        }
        let ghost begun = self@;
        let (due, later): (Vec<Target>, Vec<Pending>) = split_due(&self.pending, now);
        proof {
            parts_are_known(self@.pending, now, self@.watched.len());
        }
        self.pending = later;
        let Ghost(due_answers) = self.sign_all(&due, now, &mut events);
        proof {
            answers = Answers { due: due_answers, ..answers };
        }
        let ghost first = Progress { engine: self@, events: views(events@) };
        assert(first == pending_signed(begun, now, answers));

        let (again, later): (Vec<Target>, Vec<Pending>) = split_due(&self.retries, now);
        proof {
            parts_are_known(self@.retries, now, self@.watched.len());
        }
        self.retries = later;
        let Ghost(again_answers) = self.sign_all(&again, now, &mut events);
        proof {
            answers = Answers { again: again_answers, ..answers };
        }
        let ghost second = Progress { engine: self@, events: views(events@) };
        assert(second == retries_signed(first, now, answers));

        if self.config.refresh_every != 0 && self.tick_no % self.config.refresh_every == 0 {
            let reply: Result<Vec<Course>, ApiErr> = self.ask_courses();
            proof {
                answers = Answers { courses: courses_reply(reply), ..answers };
            }
            if let Ok(courses) = reply {
                self.admit_courses(&courses, &mut events);
            }
        }
        let ghost third = Progress { engine: self@, events: views(events@) };
        assert(third == courses_joined(second, answers));

        let fetched: Vec<Result<Vec<RawRow>, ApiErr>> = self.ask_rows();
        let mut immediate: Vec<Target> = Vec::new();
        assert(views(immediate@) =~= Seq::empty());
        proof {
            answers = Answers { fetched: fetched_reply(fetched@), ..answers };
        }
        self.take_lists(&fetched, now, &mut immediate, &mut events);
        let ghost taken = Harvest {
            progress: Progress { engine: self@, events: views(events@) },
            immediate: views(immediate@),
        };
        assert(taken == lists_taken(third, now, answers));

        let Ghost(found_answers) = self.sign_all(&immediate, now, &mut events);
        proof {
            answers = Answers { found: found_answers, ..answers };
        }
        if self.tick_no == 1 {
            report(
                &mut events,
                Event::Info(
                    concat3(
                        "持续监控中,共 ",
                        decimal(self.watched.len() as u64).as_str(),
                        " 门课",
                    ),
                ),
            );
        }
        assert(first == pending_signed(begun, now, answers));
        assert(second == retries_signed(first, now, answers));
        assert(third == courses_joined(second, answers));
        assert(taken == lists_taken(third, now, answers));
        assert((Progress { engine: self@, events: views(events@) }) == round(
            start,
            now,
            answers,
        ));
        events
    }
}

/// The parts of a queue belong to the courses that the queue belongs to.
proof fn parts_are_known(queue: Seq<PendingView>, now: Moment, courses: nat)
    requires
        queue_known(queue, courses),
    ensures
        targets_known(targets_of(due_part(queue, now)), courses),
        queue_known(later_part(queue, now), courses),
{
    let is_due = |item: PendingView| item.due.no_later(now);
    let is_later = |item: PendingView| !item.due.no_later(now);
    let due = due_part(queue, now);
    let later = later_part(queue, now);
    assert forall|i: int| 0 <= i < targets_of(due).len() implies target_known(
        #[trigger] targets_of(due)[i],
        courses,
    ) by {
        assert(due.contains(due[i]));
        queue.lemma_filter_contains_rev(is_due, due[i]);
        let k = choose|k: int| 0 <= k < queue.len() && queue[k] == due[i];
        assert(target_known(queue[k].target, courses));
    }
    assert forall|i: int| 0 <= i < later.len() implies target_known(
        (#[trigger] later[i]).target,
        courses,
    ) && later[i].due.in_range() && later[i].due.is_plain() by {
        assert(later.contains(later[i]));
        queue.lemma_filter_contains_rev(is_later, later[i]);
        let k = choose|k: int| 0 <= k < queue.len() && queue[k] == later[i];
        assert(target_known(queue[k].target, courses));
    }
}

/// What a check-in list adds to the targets belongs to its course.
proof fn list_keeps_targets(
    harvest: Harvest,
    reply: Result<Seq<RowView>, ErrView>,
    course_index: int,
    now: Moment,
)
    requires
        targets_known(harvest.immediate, harvest.progress.engine.watched.len()),
        0 <= course_index < harvest.progress.engine.watched.len(),
    ensures
        targets_known(
            after_list(harvest, reply, course_index, now).immediate,
            harvest.progress.engine.watched.len(),
        ),
{
    if let Ok(rows) = reply {
        let candidates = qualified_rows(rows, harvest.progress.engine.seen, now);
        rows_keep_targets(harvest, candidates, course_index, now, candidates.len() as int);
    }
}

/// What rows add to the targets belongs to their course.
proof fn rows_keep_targets(
    harvest: Harvest,
    rows: Seq<RowView>,
    course_index: int,
    now: Moment,
    n: int,
)
    requires
        targets_known(harvest.immediate, harvest.progress.engine.watched.len()),
        0 <= course_index < harvest.progress.engine.watched.len(),
    ensures
        targets_known(
            after_rows(harvest, rows, course_index, now, n).immediate,
            harvest.progress.engine.watched.len(),
        ),
    decreases n,
{
    if n > 0 {
        rows_keep_targets(harvest, rows, course_index, now, n - 1);
    }
}

/// The questions for the places of the first targets depend on their own answers alone.
proof fn same_questions(
    engine: EngineView,
    targets: Seq<TargetView>,
    answers: Seq<Option<CoordinatesView>>,
    more: Seq<Option<CoordinatesView>>,
    n: int,
)
    requires
        n <= answers.len() <= more.len(),
        forall|i: int| 0 <= i < n ==> answers[i] == more[i],
    ensures
        place_questions(engine, targets, answers, n) == place_questions(engine, targets, more, n),
    decreases n,
{
    if n > 0 {
        same_questions(engine, targets, answers, more, n - 1);
    }
}

/// The earlier of a time that may be there and another.
fn earlier_of(found: Option<Moment>, due: Moment) -> (r: Option<Moment>)
    ensures
        r == match found {
            Some(first) if !due.before(first) => Some(first),
            _ => Some(due),
        },
{
    match found {
        Some(first) => if due.is_before(&first) {
            Some(due)
        } else {
            Some(first)
        },
        None => Some(due),
    }
}

} // verus!
