//! What the monitor window shows, and how messages from its workers change it.
use crate::api::{error_text, ApiErr, CheckInResult, ErrView, ResultView};
use crate::engine::{Event, EventView};
use crate::models::{views, Course, CourseView};
use crate::number::{padded, two_digits};
use crate::round::{courses_reply, login_reply};
use crate::text::{concat2, concat3, contains_text, copy_of, has_text, is_empty, same_text};
use vstd::prelude::*;

verus! {

/// How many system messages are kept.
pub const MAX_EVENTS: usize = 200;

/// How many activities are kept when another is found.
pub const MAX_ACTIVITIES: usize = 10;

/// The kind of a system message.
#[derive(Clone, Copy, Debug, PartialEq, Eq, Structural)]
pub enum EventKind {
    Good,
    Warn,
    Info,
}

/// The name of a kind of system message.
pub open spec fn event_kind_name(kind: EventKind) -> Seq<char> {
    match kind {
        EventKind::Good => "成功"@,
        EventKind::Warn => "警告"@,
        EventKind::Info => "信息"@,
    }
}

impl EventKind {
    /// The name of the kind.
    pub fn label(self) -> (r: &'static str)
        ensures
            r@ == event_kind_name(self),
    {
        match self {
            EventKind::Good => "成功",
            EventKind::Warn => "警告",
            EventKind::Info => "信息",
        }
    }
}

/// A system message: its number, the time of day, its kind, what it is about, and its text.
pub struct EventLine {
    pub id: u64,
    pub time: String,
    pub kind: EventKind,
    pub course: String,
    pub text: String,
}

/// What a system message holds.
#[verifier::ext_equal]
pub ghost struct LineView {
    pub id: int,
    pub time: Seq<char>,
    pub kind: EventKind,
    pub course: Seq<char>,
    pub text: Seq<char>,
}

impl View for EventLine {
    type V = LineView;

    open spec fn view(&self) -> LineView {
        LineView {
            id: self.id as int,
            time: self.time@,
            kind: self.kind,
            course: self.course@,
            text: self.text@,
        }
    }
}

/// How far an activity has come.
#[derive(Clone, Copy, Debug, PartialEq, Eq, Structural)]
pub enum ActivityStatus {
    Detected,
    Success,
    Failed,
    Gone,
}

/// An activity as the window shows it.
pub struct ActivityRow {
    pub id: String,
    pub course: String,
    pub kind: String,
    pub time: String,
    pub detail: String,
    pub status: ActivityStatus,
}

/// What an activity as the window shows it holds.
#[verifier::ext_equal]
pub ghost struct ActivityRowView {
    pub id: Seq<char>,
    pub course: Seq<char>,
    pub kind: Seq<char>,
    pub time: Seq<char>,
    pub detail: Seq<char>,
    pub status: ActivityStatus,
}

impl View for ActivityRow {
    type V = ActivityRowView;

    open spec fn view(&self) -> ActivityRowView {
        ActivityRowView {
            id: self.id@,
            course: self.course@,
            kind: self.kind@,
            time: self.time@,
            detail: self.detail@,
            status: self.status,
        }
    }
}

/// How far an activity has come, in words.
pub open spec fn status_text(row: ActivityRowView) -> Seq<char> {
    match row.status {
        ActivityStatus::Detected => "检测中"@,
        ActivityStatus::Success => "已签"@,
        ActivityStatus::Failed => "失败: "@ + row.detail,
        ActivityStatus::Gone => "已结束"@,
    }
}

/// The kind of an activity, or a word where it is not known.
pub open spec fn kind_or_unknown(kind: Seq<char>) -> Seq<char> {
    if kind.len() == 0 {
        "未知"@
    } else {
        kind
    }
}

impl ActivityRow {
    /// How far the activity has come, in words.
    pub fn status_label(&self) -> (r: String)
        ensures
            r@ == status_text(self@),
    {
        match self.status {
            ActivityStatus::Detected => copy_of("检测中"),
            ActivityStatus::Success => copy_of("已签"),
            ActivityStatus::Failed => concat2("失败: ", self.detail.as_str()),
            ActivityStatus::Gone => copy_of("已结束"),
        }
    }

    /// The kind of the activity, or a word where it is not known.
    pub fn kind_label(&self) -> (r: String)
        ensures
            r@ == kind_or_unknown(self@.kind),
    {
        if is_empty(self.kind.as_str()) {
            copy_of("未知")
        } else {
            copy_of(self.kind.as_str())
        }
    }
}

// ---------------------------------------------------------------------------------------
// The window's state

/// What the window shows: whether a watch goes on, whether messages of workers are listened to,
/// the system messages and the activities with the newest first, the courses, how many of them
/// are watched, how often something was found and checked in to, how the session stands, and
/// the number of the next system message.
pub struct Monitor {
    pub monitoring: bool,
    pub listening: bool,
    pub events: Vec<EventLine>,
    pub courses_count: usize,
    pub courses: Vec<Course>,
    pub activities: Vec<ActivityRow>,
    pub found_count: u32,
    pub signed_count: u32,
    pub has_cookie: bool,
    pub session_valid: bool,
    pub login_name: String,
    pub next_event_id: u64,
}

/// What the window's state holds.
#[verifier::ext_equal]
pub ghost struct MonitorView {
    pub monitoring: bool,
    pub listening: bool,
    pub events: Seq<LineView>,
    pub courses_count: int,
    pub courses: Seq<CourseView>,
    pub activities: Seq<ActivityRowView>,
    pub found_count: int,
    pub signed_count: int,
    pub has_cookie: bool,
    pub session_valid: bool,
    pub login_name: Seq<char>,
    pub next_event_id: int,
}

impl View for Monitor {
    type V = MonitorView;

    open spec fn view(&self) -> MonitorView {
        MonitorView {
            monitoring: self.monitoring,
            listening: self.listening,
            events: views(self.events@),
            courses_count: self.courses_count as int,
            courses: views(self.courses@),
            activities: views(self.activities@),
            found_count: self.found_count as int,
            signed_count: self.signed_count as int,
            has_cookie: self.has_cookie,
            session_valid: self.session_valid,
            login_name: self.login_name@,
            next_event_id: self.next_event_id as int,
        }
    }
}

/// A message for the window from its workers.
pub enum GuiMessage {
    Core(Event),
    Courses(Vec<Course>),
    MonitorStopped(String),
    SessionCheck(bool),
    LoginName(String),
}

/// What a message to the window holds.
#[verifier::ext_equal]
pub ghost enum MessageView {
    Core(EventView),
    Courses(Seq<CourseView>),
    MonitorStopped(Seq<char>),
    SessionCheck(bool),
    LoginName(Seq<char>),
}

impl View for GuiMessage {
    type V = MessageView;

    open spec fn view(&self) -> MessageView {
        match *self {
            GuiMessage::Core(event) => MessageView::Core(event@),
            GuiMessage::Courses(courses) => MessageView::Courses(views(courses@)),
            GuiMessage::MonitorStopped(reason) => MessageView::MonitorStopped(reason@),
            GuiMessage::SessionCheck(valid) => MessageView::SessionCheck(valid),
            GuiMessage::LoginName(name) => MessageView::LoginName(name@),
        }
    }
}

/// What the window has done for it: nothing, the courses are fetched, or the messages that are
/// left wait for the next time.
#[derive(Clone, Copy, Debug, PartialEq, Eq, Structural)]
pub enum Effect {
    Nothing,
    FetchCourses,
    Rest,
}

/// The first items of a list, no more than so many.
pub open spec fn at_most<T>(items: Seq<T>, n: int) -> Seq<T> {
    if items.len() <= n {
        items
    } else {
        items.take(n)
    }
}

/// A system message is added before all others; no more than two hundred are kept.
pub open spec fn with_row(
    monitor: MonitorView,
    kind: EventKind,
    course: Seq<char>,
    text: Seq<char>,
    time: Seq<char>,
) -> MonitorView {
    let line = LineView { id: monitor.next_event_id, time, kind, course, text };
    MonitorView {
        events: at_most(seq![line] + monitor.events, MAX_EVENTS as int),
        next_event_id: monitor.next_event_id + 1,
        ..monitor
    }
}

/// The watch is stopped: messages of workers are no longer listened to.
pub open spec fn watch_stopped(monitor: MonitorView) -> MonitorView {
    MonitorView { monitoring: false, listening: false, courses_count: 0, ..monitor }
}

/// The session is lost: the watch is stopped, and this is said.
pub open spec fn session_lost(
    monitor: MonitorView,
    reason: Seq<char>,
    time: Seq<char>,
) -> MonitorView {
    with_row(
        watch_stopped(MonitorView { session_valid: false, ..monitor }),
        EventKind::Warn,
        "会话"@,
        "登录状态失效: "@ + reason,
        time,
    )
}

/// An activity was found: it comes before all others, of which no more than nine are kept.
pub open spec fn with_found(
    monitor: MonitorView,
    course_name: Seq<char>,
    activity_id: Seq<char>,
    kind: Seq<char>,
    code: Option<Seq<char>>,
    time: Seq<char>,
) -> MonitorView {
    let row = ActivityRowView {
        id: activity_id,
        course: course_name,
        kind,
        time,
        detail: match code {
            Some(code) => kind + " · "@ + code,
            None => kind,
        },
        status: ActivityStatus::Detected,
    };
    MonitorView {
        found_count: monitor.found_count + 1,
        activities: at_most(seq![row] + monitor.activities, MAX_ACTIVITIES as int),
        ..monitor
    }
}

/// The position of the first activity with a number.
pub open spec fn row_of(rows: Seq<ActivityRowView>, id: Seq<char>, from: int) -> Option<int>
    decreases rows.len() - from,
{
    if from < 0 || from >= rows.len() {
        None
    } else if rows[from].id == id {
        Some(from)
    } else {
        row_of(rows, id, from + 1)
    }
}

/// How far an activity has come after a result.
pub open spec fn status_of(result: ResultView) -> ActivityStatus {
    match result {
        ResultView::Success(_) => ActivityStatus::Success,
        ResultView::Gone(_) => ActivityStatus::Gone,
        ResultView::Failed(_) => ActivityStatus::Failed,
    }
}

/// The message of a result.
pub open spec fn message_of(result: ResultView) -> Seq<char> {
    match result {
        ResultView::Success(message) => message,
        ResultView::Gone(message) => message,
        ResultView::Failed(message) => message,
    }
}

/// An activity was tried: its row shows the result; for want of a row one is added before all
/// others.
pub open spec fn with_result(
    monitor: MonitorView,
    course_name: Seq<char>,
    activity_id: Seq<char>,
    result: ResultView,
    time: Seq<char>,
) -> MonitorView {
    let counted = MonitorView {
        signed_count: if result is Success {
            monitor.signed_count + 1
        } else {
            monitor.signed_count
        },
        ..monitor
    };
    MonitorView {
        activities: match row_of(monitor.activities, activity_id, 0) {
            Some(i) => monitor.activities.update(
                i,
                ActivityRowView {
                    status: status_of(result),
                    detail: message_of(result),
                    ..monitor.activities[i]
                },
            ),
            None => seq![
                ActivityRowView {
                    id: activity_id,
                    course: course_name,
                    kind: Seq::empty(),
                    time,
                    detail: message_of(result),
                    status: status_of(result),
                },
            ] + monitor.activities,
        },
        ..counted
    }
}

/// What an event of the engine does. A warning that speaks of a lost session also loses it here.
pub open spec fn after_event(
    monitor: MonitorView,
    event: EventView,
    time: Seq<char>,
) -> MonitorView {
    match event {
        EventView::Info(message) => with_row(monitor, EventKind::Info, "系统"@, message, time),
        EventView::Warn(message) => {
            let warned = with_row(monitor, EventKind::Warn, "系统"@, message, time);
            if contains_text(message, "登录失效"@) {
                session_lost(warned, message, time)
            } else {
                warned
            }
        },
        EventView::Found { course_name, activity_id, kind, code } => with_found(
            monitor,
            course_name,
            activity_id,
            kind,
            code,
            time,
        ),
        EventView::Signed { course_name, activity_id, result } => with_result(
            monitor,
            course_name,
            activity_id,
            result,
            time,
        ),
    }
}

/// What a message of a worker does.
pub open spec fn after_message(
    monitor: MonitorView,
    message: MessageView,
    time: Seq<char>,
) -> (MonitorView, Effect) {
    match message {
        MessageView::Core(event) => (after_event(monitor, event, time), Effect::Nothing),
        MessageView::SessionCheck(valid) => {
            let told = MonitorView { session_valid: valid, ..monitor };
            if valid {
                (
                    with_row(told, EventKind::Good, "会话"@, "已恢复登录状态"@, time),
                    Effect::FetchCourses,
                )
            } else {
                (
                    with_row(
                        told,
                        EventKind::Warn,
                        "会话"@,
                        "保存的会话已失效,请重新登录"@,
                        time,
                    ),
                    Effect::Nothing,
                )
            }
        },
        MessageView::LoginName(name) => (
            MonitorView { login_name: name, ..monitor },
            Effect::Nothing,
        ),
        MessageView::Courses(courses) => (
            MonitorView { courses, courses_count: courses.len() as int, ..monitor },
            Effect::Nothing,
        ),
        MessageView::MonitorStopped(reason) => (
            if monitor.monitoring {
                with_row(
                    MonitorView { monitoring: false, courses_count: 0, ..monitor },
                    EventKind::Warn,
                    "系统"@,
                    reason,
                    time,
                )
            } else {
                monitor
            },
            Effect::Rest,
        ),
    }
}

/// What the end of a login does: `failure` is why it failed, where it did.
pub open spec fn after_login(
    monitor: MonitorView,
    failure: Option<Seq<char>>,
    time: Seq<char>,
) -> (MonitorView, Effect) {
    match failure {
        None => (
            with_row(
                MonitorView { has_cookie: true, session_valid: true, ..monitor },
                EventKind::Good,
                "会话"@,
                "微信登录成功"@,
                time,
            ),
            Effect::FetchCourses,
        ),
        Some(reason) => (
            with_row(monitor, EventKind::Warn, "会话"@, "登录失败: "@ + reason, time),
            Effect::Nothing,
        ),
    }
}

/// What a logout does: all that belongs to the session is forgotten.
pub open spec fn after_logout(monitor: MonitorView, time: Seq<char>) -> MonitorView {
    with_row(
        MonitorView {
            has_cookie: false,
            session_valid: false,
            login_name: Seq::empty(),
            courses: Seq::empty(),
            courses_count: 0,
            activities: Seq::empty(),
            events: Seq::empty(),
            found_count: 0,
            signed_count: 0,
            ..monitor
        },
        EventKind::Info,
        "会话"@,
        "已退出登录"@,
        time,
    )
}

/// What the button does: it stops a watch that goes on, and otherwise begins one.
pub open spec fn after_toggle(monitor: MonitorView) -> (MonitorView, bool) {
    if monitor.monitoring {
        (watch_stopped(monitor), false)
    } else {
        (
            MonitorView { monitoring: true, session_valid: monitor.has_cookie, ..monitor },
            true,
        )
    }
}

/// How the session stands, in words.
pub open spec fn session_text(has_cookie: bool, session_valid: bool) -> Seq<char> {
    if !has_cookie {
        "未登录"@
    } else if !session_valid {
        "会话失效"@
    } else {
        "已登录"@
    }
}

fn first_rows<T: View>(rows: &mut Vec<T>, n: usize)
    ensures
        views(final(rows)@) == at_most(views(old(rows)@), n as int),
{
    if rows.len() > n {
        rows.truncate(n);
        assert(views(rows@) =~= views(old(rows)@).take(n as int));
    }
}

impl Monitor {
    /// The counts can still go up.
    pub open spec fn can_count(&self) -> bool {
        &&& self@.next_event_id + 2 <= u64::MAX
        &&& self@.found_count < u32::MAX
        &&& self@.signed_count < u32::MAX
    }

    /// The window before anything was shown.
    pub fn new(has_cookie: bool) -> (r: Monitor)
        ensures
            r.can_count(),
            r@ == (MonitorView {
                monitoring: false,
                listening: true,
                events: Seq::empty(),
                courses_count: 0,
                courses: Seq::empty(),
                activities: Seq::empty(),
                found_count: 0,
                signed_count: 0,
                has_cookie,
                session_valid: false,
                login_name: Seq::empty(),
                next_event_id: 1,
            }),
    {
        let r = Monitor {
            monitoring: false,
            listening: true,
            events: Vec::new(),
            courses_count: 0,
            courses: Vec::new(),
            activities: Vec::new(),
            found_count: 0,
            signed_count: 0,
            has_cookie,
            session_valid: false,
            login_name: String::new(),
            next_event_id: 1,
        };
        assert(r@.events =~= Seq::empty());
        assert(r@.courses =~= Seq::empty());
        assert(r@.activities =~= Seq::empty());
        assert(r@.login_name =~= Seq::empty());
        r
    }

    /// Whether the counts can still go up.
    pub fn has_room(&self) -> (r: bool)
        ensures
            r == self.can_count(),
    {
        self.next_event_id <= u64::MAX - 2 && self.found_count < u32::MAX && self.signed_count
            < u32::MAX
    }

    /// Adds a system message.
    pub fn push_row(&mut self, kind: EventKind, course: &str, text: String, time: &str)
        requires
            old(self)@.next_event_id < u64::MAX,
        ensures
            final(self)@ == with_row(old(self)@, kind, course@, text@, time@),
    {
        let line = EventLine {
            id: self.next_event_id,
            time: copy_of(time),
            kind,
            course: copy_of(course),
            text,
        };
        let ghost shown = line@;
        self.events.insert(0, line);
        assert(views(self.events@) =~= seq![shown] + old(self)@.events);
        self.next_event_id = self.next_event_id + 1;
        first_rows(&mut self.events, MAX_EVENTS);
    }

    /// Stops the watch.
    pub fn stop_monitor(&mut self)
        ensures
            final(self)@ == watch_stopped(old(self)@),
    {
        self.monitoring = false;
        self.listening = false;
        self.courses_count = 0;
    }

    /// Loses the session.
    pub fn handle_session_lost(&mut self, reason: &str, time: &str)
        requires
            old(self)@.next_event_id < u64::MAX,
        ensures
            final(self)@ == session_lost(old(self)@, reason@, time@),
    {
        self.session_valid = false;
        self.stop_monitor();
        self.push_row(EventKind::Warn, "会话", concat2("登录状态失效: ", reason), time);
    }

    /// Takes in an event of the engine.
    pub fn apply_core_event(&mut self, event: Event, time: &str)
        requires
            old(self).can_count(),
        ensures
            final(self)@ == after_event(old(self)@, event@, time@),
    {
        match event {
            Event::Info(message) => {
                self.push_row(EventKind::Info, "系统", message, time);
            },
            Event::Warn(message) => {
                let lost: bool = has_text(message.as_str(), "登录失效");
                self.push_row(EventKind::Warn, "系统", copy_of(message.as_str()), time);
                if lost {
                    self.handle_session_lost(message.as_str(), time);
                }
            },
            Event::Found { course_name, activity_id, kind, code } => {
                self.found_count = self.found_count + 1;
                let detail: String = match &code {
                    Some(code) => concat3(kind.as_str(), " · ", code.as_str()),
                    None => copy_of(kind.as_str()),
                };
                let row = ActivityRow {
                    id: activity_id,
                    course: course_name,
                    kind,
                    time: copy_of(time),
                    detail,
                    status: ActivityStatus::Detected,
                };
                let ghost shown = row@;
                self.activities.insert(0, row);
                assert(views(self.activities@) =~= seq![shown] + old(self)@.activities);
                first_rows(&mut self.activities, MAX_ACTIVITIES);
            },
            Event::Signed { course_name, activity_id, result } => {
                self.show_result(course_name, activity_id, result, time);
            },
        }
    }

    fn show_result(
        &mut self,
        course_name: String,
        activity_id: String,
        result: CheckInResult,
        time: &str,
    )
        requires
            old(self).can_count(),
        ensures
            final(self)@ == with_result(
                old(self)@,
                course_name@,
                activity_id@,
                result@,
                time@,
            ),
    {
        let ghost outcome = result@;
        let (status, detail): (ActivityStatus, String) = match result {
            CheckInResult::Success(message) => {
                self.signed_count = self.signed_count + 1;
                (ActivityStatus::Success, message)
            },
            CheckInResult::Gone(message) => (ActivityStatus::Gone, message),
            CheckInResult::Failed(message) => (ActivityStatus::Failed, message),
        };
        let ghost rows = old(self)@.activities;
        let mut i: usize = 0;
        while i < self.activities.len()
            invariant
                i <= self.activities@.len(),
                rows == views(self.activities@),
                row_of(rows, activity_id@, 0) == row_of(rows, activity_id@, i as int),
                self@ == (MonitorView {
                    signed_count: if outcome is Success {
                        old(self)@.signed_count + 1
                    } else {
                        old(self)@.signed_count
                    },
                    ..old(self)@
                }),
                rows == old(self)@.activities,
                outcome == result@,
                status == status_of(outcome),
                detail@ == message_of(outcome),
            decreases self.activities@.len() - i,
        {
            assert(rows[i as int] == self.activities@[i as int]@);
            if same_text(self.activities[i].id.as_str(), activity_id.as_str()) {
                let row = ActivityRow {
                    id: copy_of(self.activities[i].id.as_str()),
                    course: copy_of(self.activities[i].course.as_str()),
                    kind: copy_of(self.activities[i].kind.as_str()),
                    time: copy_of(self.activities[i].time.as_str()),
                    detail,
                    status,
                };
                let ghost shown = row@;
                self.activities.set(i, row);
                assert(views(self.activities@) =~= rows.update(i as int, shown));
                return;
            }
            i = i + 1;
        }
        let row = ActivityRow {
            id: activity_id,
            course: course_name,
            kind: String::new(),
            time: copy_of(time),
            detail,
            status,
        };
        let ghost shown = row@;
        assert(row.kind@ =~= Seq::empty());
        self.activities.insert(0, row);
        assert(views(self.activities@) =~= seq![shown] + rows);
    }

    /// Takes in a message of a worker, and says what has to be done for the window.
    pub fn on_message(&mut self, message: GuiMessage, time: &str) -> (r: Effect)
        requires
            old(self).can_count(),
        ensures
            (final(self)@, r) == after_message(old(self)@, message@, time@),
    {
        match message {
            GuiMessage::Core(event) => {
                self.apply_core_event(event, time);
                Effect::Nothing
            },
            GuiMessage::SessionCheck(valid) => {
                self.session_valid = valid;
                if valid {
                    self.push_row(EventKind::Good, "会话", copy_of("已恢复登录状态"), time);
                    Effect::FetchCourses
                } else {
                    self.push_row(
                        EventKind::Warn,
                        "会话",
                        copy_of("保存的会话已失效,请重新登录"),
                        time,
                    );
                    Effect::Nothing
                }
            },
            GuiMessage::LoginName(name) => {
                self.login_name = name;
                Effect::Nothing
            },
            GuiMessage::Courses(courses) => {
                self.courses_count = courses.len();
                self.courses = courses;
                Effect::Nothing
            },
            GuiMessage::MonitorStopped(reason) => {
                if self.monitoring {
                    self.monitoring = false;
                    self.courses_count = 0;
                    self.push_row(EventKind::Warn, "系统", reason, time);
                }
                Effect::Rest
            },
        }
    }

    /// Takes in the end of a login.
    pub fn on_login(&mut self, failure: Option<String>, time: &str) -> (r: Effect)
        requires
            old(self)@.next_event_id < u64::MAX,
        ensures
            (final(self)@, r) == after_login(
                old(self)@,
                crate::models::opt_view(failure),
                time@,
            ),
    {
        match failure {
            None => {
                self.has_cookie = true;
                self.session_valid = true;
                self.push_row(EventKind::Good, "会话", copy_of("微信登录成功"), time);
                Effect::FetchCourses
            },
            Some(reason) => {
                self.push_row(
                    EventKind::Warn,
                    "会话",
                    concat2("登录失败: ", reason.as_str()),
                    time,
                );
                Effect::Nothing
            },
        }
    }

    /// Logs out.
    pub fn logout(&mut self, time: &str)
        requires
            old(self)@.next_event_id < u64::MAX,
        ensures
            final(self)@ == after_logout(old(self)@, time@),
    {
        self.has_cookie = false;
        self.session_valid = false;
        self.login_name = String::new();
        self.courses = Vec::new();
        self.courses_count = 0;
        self.activities = Vec::new();
        self.events = Vec::new();
        self.found_count = 0;
        self.signed_count = 0;
        assert(self@.login_name =~= Seq::empty());
        assert(self@.courses =~= Seq::empty());
        assert(self@.activities =~= Seq::empty());
        assert(self@.events =~= Seq::empty());
        self.push_row(EventKind::Info, "会话", copy_of("已退出登录"), time);
    }

    /// Presses the button, and says whether a watch is to begin.
    pub fn toggle(&mut self) -> (r: bool)
        ensures
            (final(self)@, r) == after_toggle(old(self)@),
    {
        if self.monitoring {
            self.stop_monitor();
            false
        } else {
            self.monitoring = true;
            self.session_valid = self.has_cookie;
            true
        }
    }

    /// How the session stands, in words.
    pub fn status_label(&self) -> (r: &'static str)
        ensures
            r@ == session_text(self@.has_cookie, self@.session_valid),
    {
        if !self.has_cookie {
            "未登录"
        } else if !self.session_valid {
            "会话失效"
        } else {
            "已登录"
        }
    }

    /// The name of the account, or a word where it is not known.
    pub fn account_label(&self) -> (r: String)
        ensures
            r@ == if self@.login_name.len() == 0 {
                "账号"@
            } else {
                self@.login_name
            },
    {
        if is_empty(self.login_name.as_str()) {
            copy_of("账号")
        } else {
            copy_of(self.login_name.as_str())
        }
    }
}

/// What comes next when a watch is to begin: the service is asked whether the session holds, it
/// is asked for the courses, the watch is refused for a reason, or it begins.
pub enum Opening {
    AskSession,
    AskCourses,
    Refused(String),
    Begin,
}

/// What an opening holds.
#[verifier::ext_equal]
pub ghost enum OpeningView {
    AskSession,
    AskCourses,
    Refused(Seq<char>),
    Begin,
}

impl View for Opening {
    type V = OpeningView;

    open spec fn view(&self) -> OpeningView {
        match *self {
            Opening::AskSession => OpeningView::AskSession,
            Opening::AskCourses => OpeningView::AskCourses,
            Opening::Refused(reason) => OpeningView::Refused(reason@),
            Opening::Begin => OpeningView::Begin,
        }
    }
}

/// The answer on the session, where it was asked for.
pub open spec fn session_answer(session: Option<Result<(), ApiErr>>) -> Option<
    Result<(), ErrView>,
> {
    match session {
        Some(reply) => Some(login_reply(reply)),
        None => None,
    }
}

/// The answer on the courses, where it was asked for.
pub open spec fn courses_answer(courses: Option<Result<Vec<Course>, ApiErr>>) -> Option<
    Result<Seq<CourseView>, ErrView>,
> {
    match courses {
        Some(reply) => Some(courses_reply(reply)),
        None => None,
    }
}

/// What comes next when a watch is to begin, by what is known so far. Without a session it is
/// refused at once; then the session must hold, and then the courses must be had.
pub open spec fn opening_by(
    has_cookie: bool,
    session: Option<Result<(), ErrView>>,
    courses: Option<Result<Seq<CourseView>, ErrView>>,
) -> OpeningView {
    if !has_cookie {
        OpeningView::Refused("未登录"@)
    } else {
        match session {
            None => OpeningView::AskSession,
            Some(Err(error)) => OpeningView::Refused("登录状态失效: "@ + error_text(error)),
            Some(Ok(())) => match courses {
                None => OpeningView::AskCourses,
                Some(Err(error)) => OpeningView::Refused("获取课程失败: "@ + error_text(error)),
                Some(Ok(_)) => OpeningView::Begin,
            },
        }
    }
}

/// What comes next when a watch is to begin, by what is known so far.
pub fn opening(
    has_cookie: bool,
    session: &Option<Result<(), ApiErr>>,
    courses: &Option<Result<Vec<Course>, ApiErr>>,
) -> (r: Opening)
    ensures
        r@ == opening_by(has_cookie, session_answer(*session), courses_answer(*courses)),
{
    if !has_cookie {
        return Opening::Refused(copy_of("未登录"));
    }
    match session {
        None => Opening::AskSession,
        Some(Err(error)) => Opening::Refused(lost_session_reason(error)),
        Some(Ok(())) => match courses {
            None => Opening::AskCourses,
            Some(Err(error)) => Opening::Refused(no_courses_reason(error)),
            Some(Ok(_)) => Opening::Begin,
        },
    }
}

/// Why a watch does not begin where the service says that the session is lost.
pub fn lost_session_reason(error: &ApiErr) -> (r: String)
    ensures
        r@ == "登录状态失效: "@ + error_text(error@),
{
    concat2("登录状态失效: ", error.message().as_str())
}

/// Why a watch does not begin where the courses cannot be had.
pub fn no_courses_reason(error: &ApiErr) -> (r: String)
    ensures
        r@ == "获取课程失败: "@ + error_text(error@),
{
    concat2("获取课程失败: ", error.message().as_str())
}

/// A watch begins only with a session that holds and courses that were had.
pub proof fn watch_begins_with_all(
    has_cookie: bool,
    session: Option<Result<(), ErrView>>,
    courses: Option<Result<Seq<CourseView>, ErrView>>,
)
    ensures
        (opening_by(has_cookie, session, courses) is Begin) == (has_cookie && session is Some
            && session->0 is Ok && courses is Some && courses->0 is Ok),
{
}

/// A time span in hours, minutes and seconds.
pub open spec fn elapsed_text(seconds: nat) -> Seq<char> {
    two_digits(seconds / 3600) + ":"@ + two_digits((seconds % 3600) / 60) + ":"@ + two_digits(
        seconds % 60,
    )
}

/// A time span in hours, minutes and seconds.
pub fn format_elapsed(total_seconds: u64) -> (r: String)
    ensures
        r@ == elapsed_text(total_seconds as nat),
{
    let mut text: String = padded(total_seconds / 3600);
    text.append(":");
    text.append(padded((total_seconds % 3600) / 60).as_str());
    text.append(":");
    text.append(padded(total_seconds % 60).as_str());
    text
}

// ---------------------------------------------------------------------------------------
// What holds of the window

/// System messages are numbered downwards from the newest, and there are no more than are kept.
pub open spec fn is_orderly(monitor: MonitorView) -> bool {
    &&& monitor.events.len() <= MAX_EVENTS
    &&& forall|i: int|
        0 <= i < monitor.events.len() ==> (#[trigger] monitor.events[i]).id
            < monitor.next_event_id
    &&& forall|i: int, j: int|
        0 <= i < j < monitor.events.len() ==> (#[trigger] monitor.events[i]).id > (
        #[trigger] monitor.events[j]).id
}

/// A new system message keeps the messages orderly.
pub proof fn rows_stay_orderly(
    monitor: MonitorView,
    kind: EventKind,
    course: Seq<char>,
    text: Seq<char>,
    time: Seq<char>,
)
    requires
        is_orderly(monitor),
    ensures
        is_orderly(with_row(monitor, kind, course, text, time)),
        with_row(monitor, kind, course, text, time).events[0].text == text,
{
    let line = LineView { id: monitor.next_event_id, time, kind, course, text };
    let all = seq![line] + monitor.events;
    assert forall|i: int| 0 < i < all.len() implies #[trigger] all[i] == monitor.events[i - 1] by {}
    assert forall|i: int, j: int| 0 <= i < j < all.len() implies (#[trigger] all[i]).id > (
    #[trigger] all[j]).id by {
        assert(all[j] == monitor.events[j - 1]);
        if i > 0 {
            assert(all[i] == monitor.events[i - 1]);
        }
    }
}

/// Whatever a worker says, the system messages stay orderly.
pub proof fn messages_stay_orderly(monitor: MonitorView, message: MessageView, time: Seq<char>)
    requires
        is_orderly(monitor),
    ensures
        is_orderly(after_message(monitor, message, time).0),
{
    match message {
        MessageView::Core(EventView::Info(text)) => {
            rows_stay_orderly(monitor, EventKind::Info, "系统"@, text, time);
        },
        MessageView::Core(EventView::Warn(text)) => {
            rows_stay_orderly(monitor, EventKind::Warn, "系统"@, text, time);
            let warned = with_row(monitor, EventKind::Warn, "系统"@, text, time);
            rows_stay_orderly(
                watch_stopped(MonitorView { session_valid: false, ..warned }),
                EventKind::Warn,
                "会话"@,
                "登录状态失效: "@ + text,
                time,
            );
        },
        MessageView::SessionCheck(valid) => {
            let told = MonitorView { session_valid: valid, ..monitor };
            rows_stay_orderly(told, EventKind::Good, "会话"@, "已恢复登录状态"@, time);
            rows_stay_orderly(
                told,
                EventKind::Warn,
                "会话"@,
                "保存的会话已失效,请重新登录"@,
                time,
            );
        },
        MessageView::MonitorStopped(reason) => {
            rows_stay_orderly(
                MonitorView { monitoring: false, courses_count: 0, ..monitor },
                EventKind::Warn,
                "系统"@,
                reason,
                time,
            );
        },
        _ => {},
    }
}

/// A watch that was stopped stays so whatever the workers still say.
pub proof fn stopped_watch_stays_stopped(
    monitor: MonitorView,
    message: MessageView,
    time: Seq<char>,
)
    requires
        !monitor.monitoring,
    ensures
        !after_message(monitor, message, time).0.monitoring,
{
}

/// After a logout nothing of the session is left, and one system message says so.
pub proof fn logout_forgets(monitor: MonitorView, time: Seq<char>)
    ensures
        ({
            let after = after_logout(monitor, time);
            &&& !after.has_cookie && !after.session_valid
            &&& after.courses.len() == 0 && after.activities.len() == 0
            &&& after.found_count == 0 && after.signed_count == 0
            &&& after.events.len() == 1
        }),
{
}

// ---------------------------------------------------------------------------------------
// What a reader sees

/// A new line comes first, with the next number; the others keep their order, and the oldest goes
/// where there are more than two hundred. Nothing else changes.
pub proof fn newest_line_comes_first(
    monitor: MonitorView,
    kind: EventKind,
    course: Seq<char>,
    text: Seq<char>,
    time: Seq<char>,
)
    ensures
        ({
            let after = with_row(monitor, kind, course, text, time);
            &&& after.events.len() == if monitor.events.len() < 200 {
                monitor.events.len() + 1
            } else {
                200
            }
            &&& after.events[0].id == monitor.next_event_id
            &&& after.events[0].kind == kind && after.events[0].course == course
            &&& after.events[0].text == text && after.events[0].time == time
            &&& forall|i: int|
                1 <= i < after.events.len() ==> #[trigger] after.events[i] == monitor.events[i - 1]
            &&& after.next_event_id == monitor.next_event_id + 1
            &&& after == (MonitorView {
                events: after.events,
                next_event_id: after.next_event_id,
                ..monitor
            })
        }),
{
}

/// Found activities are shown newest first, ten at most, as detected, with their code where they
/// have one; each is counted.
pub proof fn found_activity_is_shown(
    monitor: MonitorView,
    course: Seq<char>,
    id: Seq<char>,
    kind: Seq<char>,
    code: Option<Seq<char>>,
    time: Seq<char>,
)
    ensures
        ({
            let event = EventView::Found { course_name: course, activity_id: id, kind, code };
            let after = after_event(monitor, event, time);
            let row = after.activities[0];
            &&& after.found_count == monitor.found_count + 1
            &&& after.activities.len() == if monitor.activities.len() < 10 {
                monitor.activities.len() + 1
            } else {
                10
            }
            &&& row.id == id && row.course == course && row.kind == kind && row.time == time
            &&& row.status == ActivityStatus::Detected
            &&& code matches Some(shown) ==> row.detail == kind + " · "@ + shown
            &&& code is None ==> row.detail == kind
            &&& forall|i: int|
                1 <= i < after.activities.len() ==> #[trigger] after.activities[i]
                    == monitor.activities[i - 1]
            &&& after == (MonitorView {
                found_count: after.found_count,
                activities: after.activities,
                ..monitor
            })
        }),
{
}

/// The first row of an activity, where it has one.
pub proof fn row_is_the_first(rows: Seq<ActivityRowView>, id: Seq<char>, from: int)
    requires
        0 <= from,
    ensures
        match row_of(rows, id, from) {
            Some(i) => from <= i < rows.len() && rows[i].id == id && forall|k: int|
                from <= k < i ==> (#[trigger] rows[k]).id != id,
            None => forall|k: int| from <= k < rows.len() ==> (#[trigger] rows[k]).id != id,
        },
    decreases rows.len() - from,
{
    if from < rows.len() && rows[from].id != id {
        row_is_the_first(rows, id, from + 1);
    }
}

/// A result is shown on the activity's row, with what was said; the rest of the row and all other
/// rows stay. An activity without a row gets one, at the top. Only a success is counted.
pub proof fn result_is_shown_on_its_row(
    monitor: MonitorView,
    course: Seq<char>,
    id: Seq<char>,
    result: ResultView,
    time: Seq<char>,
    k: int,
)
    ensures
        ({
            let event = EventView::Signed { course_name: course, activity_id: id, result };
            let after = after_event(monitor, event, time);
            let rows = monitor.activities;
            let known = exists|i: int| 0 <= i < rows.len() && (#[trigger] rows[i]).id == id;
            let said = match result {
                ResultView::Success(message) => (ActivityStatus::Success, message),
                ResultView::Failed(message) => (ActivityStatus::Failed, message),
                ResultView::Gone(message) => (ActivityStatus::Gone, message),
            };
            &&& result is Success ==> after.signed_count == monitor.signed_count + 1
            &&& !(result is Success) ==> after.signed_count == monitor.signed_count
            &&& after == (MonitorView {
                signed_count: after.signed_count,
                activities: after.activities,
                ..monitor
            })
            &&& !known ==> {
                let row = after.activities[0];
                &&& after.activities.len() == rows.len() + 1
                &&& row.id == id && row.course == course && row.time == time
                &&& row.kind.len() == 0
                &&& row.status == said.0 && row.detail == said.1
                &&& after.activities.drop_first() == rows
            }
            &&& known ==> after.activities.len() == rows.len()
            &&& known && 0 <= k < rows.len() && rows[k].id != id ==> after.activities[k] == rows[k]
            &&& 0 <= k < rows.len() && rows[k].id == id && (forall|i: int|
                0 <= i < k ==> (#[trigger] rows[i]).id != id) ==> {
                let row = after.activities[k];
                &&& row.status == said.0 && row.detail == said.1
                &&& row.id == id && row.course == rows[k].course && row.kind == rows[k].kind
                    && row.time == rows[k].time
            }
        }),
{
    let rows = monitor.activities;
    row_is_the_first(rows, id, 0);
    let event = EventView::Signed { course_name: course, activity_id: id, result };
    let after = after_event(monitor, event, time);
    if row_of(rows, id, 0) is None {
        assert(after.activities.drop_first() =~= rows);
    } else {
        let i = row_of(rows, id, 0)->0;
        assert(rows[i].id == id);
    }
}

/// What is told is shown as a line of the system. A warning that the login does not hold ends the
/// watch and the session too, and a second line says why.
pub proof fn lost_login_ends_watch(monitor: MonitorView, message: Seq<char>, time: Seq<char>)
    ensures
        ({
            let told = after_event(monitor, EventView::Info(message), time);
            &&& told == with_row(monitor, EventKind::Info, "系统"@, message, time)
            &&& told.monitoring == monitor.monitoring && told.session_valid
                == monitor.session_valid
        }),
        ({
            let warned = after_event(monitor, EventView::Warn(message), time);
            let lost = contains_text(message, "登录失效"@);
            &&& lost ==> !warned.monitoring && !warned.listening && !warned.session_valid
                && warned.courses_count == 0
            &&& lost ==> warned.events[0].kind == EventKind::Warn && warned.events[0].course
                == "会话"@ && warned.events[0].text == "登录状态失效: "@ + message
            &&& lost ==> warned.events[1].kind == EventKind::Warn && warned.events[1].course
                == "系统"@ && warned.events[1].text == message
            &&& lost ==> warned.next_event_id == monitor.next_event_id + 2
            &&& !lost ==> warned == with_row(monitor, EventKind::Warn, "系统"@, message, time)
            &&& warned.courses == monitor.courses && warned.activities == monitor.activities
                && warned.login_name == monitor.login_name && warned.has_cookie
                == monitor.has_cookie
        }),
{
}

/// A session that holds has the courses fetched, one that does not is told; the name and the
/// courses are taken as they come; a watch that was stopped is told once.
pub proof fn messages_are_taken(monitor: MonitorView, time: Seq<char>, message: MessageView)
    ensures
        message matches MessageView::Core(event) ==> after_message(monitor, message, time) == (
            after_event(monitor, event, time),
            Effect::Nothing,
        ),
        message matches MessageView::SessionCheck(valid) ==> {
            let (after, effect) = after_message(monitor, message, time);
            &&& after.session_valid == valid
            &&& (effect == Effect::FetchCourses) == valid
            &&& effect != Effect::Rest
            &&& after.events[0].course == "会话"@ && after.events[0].time == time
            &&& valid ==> after.events[0].kind == EventKind::Good && after.events[0].text
                == "已恢复登录状态"@
            &&& !valid ==> after.events[0].kind == EventKind::Warn && after.events[0].text
                == "保存的会话已失效,请重新登录"@
            &&& after.has_cookie == monitor.has_cookie && after.monitoring == monitor.monitoring
        },
        message matches MessageView::LoginName(name) ==> after_message(monitor, message, time) == (
            MonitorView { login_name: name, ..monitor },
            Effect::Nothing,
        ),
        message matches MessageView::Courses(courses) ==> {
            let (after, effect) = after_message(monitor, message, time);
            &&& after.courses == courses && after.courses_count == courses.len()
            &&& effect == Effect::Nothing
            &&& after == (MonitorView {
                courses: after.courses,
                courses_count: after.courses_count,
                ..monitor
            })
        },
        message matches MessageView::MonitorStopped(reason) ==> {
            let (after, effect) = after_message(monitor, message, time);
            &&& effect == Effect::Rest
            &&& !after.monitoring
            &&& !monitor.monitoring ==> after == monitor
            &&& monitor.monitoring ==> after.courses_count == 0 && after.events[0].text == reason
                && after.events[0].kind == EventKind::Warn && after.events[0].course == "系统"@
            &&& after.session_valid == monitor.session_valid && after.listening
                == monitor.listening
        },
{
}

/// A login that succeeded gives a session and has the courses fetched; one that failed changes
/// nothing but that it is told why.
pub proof fn login_gives_session(monitor: MonitorView, reason: Seq<char>, time: Seq<char>)
    ensures
        ({
            let (after, effect) = after_login(monitor, None, time);
            &&& after.has_cookie && after.session_valid
            &&& effect == Effect::FetchCourses
            &&& after.events[0].kind == EventKind::Good && after.events[0].course == "会话"@
                && after.events[0].text == "微信登录成功"@
            &&& after.courses == monitor.courses && after.monitoring == monitor.monitoring
        }),
        ({
            let (after, effect) = after_login(monitor, Some(reason), time);
            &&& after.has_cookie == monitor.has_cookie && after.session_valid
                == monitor.session_valid
            &&& effect == Effect::Nothing
            &&& after.events[0].kind == EventKind::Warn && after.events[0].course == "会话"@
                && after.events[0].text == "登录失败: "@ + reason
        }),
{
}

/// A logout leaves one line, and forgets the name and all that was counted and shown; the
/// numbering goes on.
pub proof fn logout_leaves_one_line(monitor: MonitorView, time: Seq<char>)
    ensures
        ({
            let after = after_logout(monitor, time);
            &&& after.login_name.len() == 0 && after.courses_count == 0
            &&& after.events.len() == 1 && after.events[0].text == "已退出登录"@
                && after.events[0].kind == EventKind::Info && after.events[0].course == "会话"@
                && after.events[0].time == time && after.events[0].id == monitor.next_event_id
            &&& after.next_event_id == monitor.next_event_id + 1
            &&& after.monitoring == monitor.monitoring && after.listening == monitor.listening
        }),
{
}

/// The switch begins a watch where there was none and ends the one that there was; what begins
/// counts the session as held where a cookie is kept.
pub proof fn switch_turns_watch(monitor: MonitorView)
    ensures
        after_toggle(monitor).1 == !monitor.monitoring,
        after_toggle(monitor).0.monitoring == !monitor.monitoring,
        !monitor.monitoring ==> after_toggle(monitor).0.session_valid == monitor.has_cookie
            && after_toggle(monitor).0.listening == monitor.listening,
        monitor.monitoring ==> !after_toggle(monitor).0.listening
            && after_toggle(monitor).0.courses_count == 0 && after_toggle(monitor).0.session_valid
            == monitor.session_valid,
        after_toggle(monitor).0.events == monitor.events,
        after_toggle(monitor).0.activities == monitor.activities,
        after_toggle(monitor).0.courses == monitor.courses,
        after_toggle(monitor).0.has_cookie == monitor.has_cookie,
{
}

/// The words for a session, a kind of line, a kind of activity and the state of an activity.
pub proof fn words_are_told_apart(row: ActivityRowView, has_cookie: bool, valid: bool)
    ensures
        has_cookie && valid ==> session_text(has_cookie, valid) == "已登录"@,
        has_cookie && !valid ==> session_text(has_cookie, valid) == "会话失效"@,
        !has_cookie ==> session_text(has_cookie, valid) == "未登录"@,
        event_kind_name(EventKind::Good) == "成功"@,
        event_kind_name(EventKind::Warn) == "警告"@,
        event_kind_name(EventKind::Info) == "信息"@,
        row.kind.len() > 0 ==> kind_or_unknown(row.kind) == row.kind,
        row.kind.len() == 0 ==> kind_or_unknown(row.kind) == "未知"@,
        row.status == ActivityStatus::Detected ==> status_text(row) == "检测中"@,
        row.status == ActivityStatus::Success ==> status_text(row) == "已签"@,
        row.status == ActivityStatus::Gone ==> status_text(row) == "已结束"@,
        row.status == ActivityStatus::Failed ==> status_text(row) == "失败: "@ + row.detail,
{
}

/// A watch is refused for the first thing that is missing, and tells which; what is not known yet
/// is asked for, the session before the courses.
pub proof fn watch_is_refused_with_reason(
    session: Option<Result<(), ErrView>>,
    courses: Option<Result<Seq<CourseView>, ErrView>>,
    error: ErrView,
)
    ensures
        opening_by(false, session, courses) == OpeningView::Refused("未登录"@),
        opening_by(true, None, courses) is AskSession,
        opening_by(true, Some(Err(error)), courses) == OpeningView::Refused(
            "登录状态失效: "@ + error_text(error),
        ),
        opening_by(true, Some(Ok(())), None) is AskCourses,
        opening_by(true, Some(Ok(())), Some(Err(error))) == OpeningView::Refused(
            "获取课程失败: "@ + error_text(error),
        ),
{
}

/// The time that has passed is written as hours, minutes and seconds, of which the last two stay
/// below sixty.
pub proof fn elapsed_is_hours_minutes_seconds(hours: nat, minutes: nat, seconds: nat)
    requires
        minutes < 60,
        seconds < 60,
    ensures
        elapsed_text(hours * 3600 + minutes * 60 + seconds) == two_digits(hours) + ":"@ + two_digits(
            minutes,
        ) + ":"@ + two_digits(seconds),
{
    let total = hours * 3600 + minutes * 60 + seconds;
    assert(total / 3600 == hours);
    assert(total % 3600 == minutes * 60 + seconds);
    assert((minutes * 60 + seconds) / 60 == minutes);
    assert(total % 60 == seconds);
}

} // verus!
