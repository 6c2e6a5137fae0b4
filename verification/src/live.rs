//! The client of the live service, without its wires: which requests it makes in which order,
//! and what it makes of the answers.
use crate::api::{ApiErr, CheckInResult, ErrView, ReqView, ResultView, SignReq};
use crate::cookies::{header_of, names_of, with_cookies, CookieStore, CookieView};
use crate::filter::IdSet;
use crate::html::{
    code_in, extract_login_name, extract_wechat_code, first_text_snippet, literals, login_name_in,
    look_up_by_keyword, look_up_input, look_up_room, room_in, snippet_of, value_by_name,
    value_of_input, Lookup, LookupView, PlaceLookup, PlaceView,
};
use crate::json::{field, rows_from_json, rows_in, text_in, Json};
use crate::models::{
    copy_of_opt, copy_of_place, opt_view, views, ActivityView, Coordinates, CoordinatesView,
    Course, CourseView, RawRow, RowView, SignActivity, SignType,
};
use crate::number::is_float_text;
use crate::replies::{
    json_reply, page_reply, posted_outcome, posted_result, scan_outcome, scan_result, SignReply,
};
use crate::requests::{
    activity_plan, activity_request, code_plan, code_request, entry_plan, entry_request,
    exchange_plan, exchange_request, home_plan, home_request, missed_plan, missed_request,
    probe_plan, probe_request, scan_plan, scan_request, session_plan, session_request,
};
use crate::round::{login_reply, rows_reply};
use crate::text::{
    concat3, contains_text, copy_of, has_text, is_empty, joined, same_text, segments, texts,
};
use crate::transport::{
    after_reply, sent, Journey, Outgoing, PlanView, ReplyHead, RequestPlan, Step,
};
use vstd::prelude::*;

verus! {

// ---------------------------------------------------------------------------------------
// The client's memory

/// What the client remembers: the session's cookies, the student's number, the courses whose
/// check-in list was seen to exist, and the place that was learned last.
pub struct LiveClient {
    cookies: CookieStore,
    uid: Option<String>,
    discovered: IdSet,
    learned_center: Option<Coordinates>,
}

/// What the client's memory holds.
#[verifier::ext_equal]
pub ghost struct LiveView {
    pub cookies: Seq<CookieView>,
    pub uid: Option<Seq<char>>,
    pub discovered: Set<Seq<char>>,
    pub learned_center: Option<CoordinatesView>,
}

impl View for LiveClient {
    type V = LiveView;

    closed spec fn view(&self) -> LiveView {
        LiveView {
            cookies: self.cookies@,
            uid: opt_view(self.uid),
            discovered: self.discovered@,
            learned_center: opt_view(self.learned_center),
        }
    }
}

/// A client without a session.
pub open spec fn without_session(learned_center: Option<CoordinatesView>) -> LiveView {
    LiveView { cookies: Seq::empty(), uid: None, discovered: Set::empty(), learned_center }
}

/// A reply to a request for a page: it came, and can be read or not; or it did not come.
pub enum PageReply {
    Came(Result<String, ApiErr>),
    Lost(ApiErr),
}

// ---------------------------------------------------------------------------------------
// Session

/// Whether the session holds, by the service's answer: it says so with a one; otherwise the
/// answer's message is the reason.
pub open spec fn session_verdict_of(
    reply: Result<Json, ErrView>,
    failure_prefix: Seq<char>,
) -> Result<(), ErrView> {
    match reply {
        Err(error) => Err(error),
        Ok(json) => if text_in(field(json, "msg"@)) == Some("1"@) {
            Ok(())
        } else {
            Err(
                ErrView::Msg(
                    failure_prefix + ": "@ + match text_in(field(json, "msgbox"@)) {
                        Some(message) => message,
                        None => "未知原因"@,
                    },
                ),
            )
        },
    }
}

/// Whether the session holds, by the service's answer.
pub fn session_verdict(reply: &Result<Json, ApiErr>, failure_prefix: &str) -> (r: Result<
    (),
    ApiErr,
>)
    ensures
        login_reply(r) == session_verdict_of(json_reply(*reply), failure_prefix@),
{
    match reply {
        Err(error) => Err(error.clone()),
        Ok(json) => {
            if let Some(word) = json.get_text("msg") {
                if same_text(word.as_str(), "1") {
                    return Ok(());
                }
            }
            match json.get_text("msgbox") {
                Some(message) => Err(
                    ApiErr::Msg(concat3(failure_prefix, ": ", message.as_str())),
                ),
                None => Err(ApiErr::Msg(concat3(failure_prefix, ": ", "未知原因"))),
            }
        },
    }
}

/// The answer to the question whether the session holds that every round begins with.
pub fn check_login(reply: &Result<Json, ApiErr>) -> (r: Result<(), ApiErr>)
    ensures
        login_reply(r) == session_verdict_of(json_reply(*reply), "登录已失效"@),
{
    session_verdict(reply, "登录已失效")
}

/// What the login still waits for: the exchange of the code, or the question whether the session
/// holds, with a word on the cookies and on the page that came before.
pub enum LoginStage {
    Exchange,
    Verify { summary: String, snippet: String },
}

/// What a stage of the login holds.
#[verifier::ext_equal]
pub ghost enum LoginStageView {
    Exchange,
    Verify { summary: Seq<char>, snippet: Seq<char> },
}

impl View for LoginStage {
    type V = LoginStageView;

    open spec fn view(&self) -> LoginStageView {
        match *self {
            LoginStage::Exchange => LoginStageView::Exchange,
            LoginStage::Verify { summary, snippet } => LoginStageView::Verify {
                summary: summary@,
                snippet: snippet@,
            },
        }
    }
}

/// What the login does next.
pub enum LoginStep {
    Ask { stage: LoginStage, request: RequestPlan },
    Done(Result<(), ApiErr>),
}

/// What a step of the login holds.
#[verifier::ext_equal]
pub ghost enum LoginStepView {
    Ask { stage: LoginStageView, request: PlanView },
    Done(Result<(), ErrView>),
}

impl View for LoginStep {
    type V = LoginStepView;

    open spec fn view(&self) -> LoginStepView {
        match *self {
            LoginStep::Ask { stage, request } => LoginStepView::Ask {
                stage: stage@,
                request: request@,
            },
            LoginStep::Done(result) => LoginStepView::Done(login_reply(result)),
        }
    }
}

/// The names of cookies in one text, or a word where there are none.
pub open spec fn summary_of(cookies: Seq<CookieView>) -> Seq<char> {
    if cookies.len() == 0 {
        "无"@
    } else {
        joined(names_of(cookies), ","@)
    }
}

/// A login begins: the code is taken from the link, and the session's cookies are forgotten.
/// Without a code nothing is done.
pub open spec fn login_begun(client: LiveView, link: Seq<char>) -> (LiveView, LoginStepView) {
    match code_in(link) {
        None => (client, LoginStepView::Done(Err(ErrView::Parse("无法提取授权码"@)))),
        Some(code) => (
            LiveView { cookies: Seq::empty(), ..client },
            LoginStepView::Ask {
                stage: LoginStageView::Exchange,
                request: exchange_plan(code),
            },
        ),
    }
}

/// The code was exchanged: whatever page came, the service is asked whether the session holds.
pub open spec fn code_exchanged(client: LiveView, reply: PageReply) -> LoginStepView {
    match reply {
        PageReply::Lost(error) => LoginStepView::Done(Err(error@)),
        PageReply::Came(body) => LoginStepView::Ask {
            stage: LoginStageView::Verify {
                summary: summary_of(client.cookies),
                snippet: match body {
                    Ok(html) => snippet_of(html@),
                    Err(_) => Seq::empty(),
                },
            },
            request: session_plan(),
        },
    }
}

/// The login's outcome: where the session does not hold, the reason tells of the cookies and of
/// the page that came before.
pub open spec fn login_outcome(
    summary: Seq<char>,
    snippet: Seq<char>,
    reply: Result<Json, ErrView>,
) -> Result<(), ErrView> {
    match session_verdict_of(reply, "微信登录后会话未生效"@) {
        Err(ErrView::Msg(message)) => Err(
            ErrView::Msg(
                message + "; 交换后 cookie: "@ + summary + "; 交换页: "@ + snippet,
            ),
        ),
        other => other,
    }
}

/// The login's outcome.
pub fn finish_login(summary: &str, snippet: &str, reply: &Result<Json, ApiErr>) -> (r: Result<
    (),
    ApiErr,
>)
    ensures
        login_reply(r) == login_outcome(summary@, snippet@, json_reply(*reply)),
{
    match session_verdict(reply, "微信登录后会话未生效") {
        Err(ApiErr::Msg(message)) => {
            let mut reason: String = concat3(message.as_str(), "; 交换后 cookie: ", summary);
            reason.append("; 交换页: ");
            reason.append(snippet);
            Err(ApiErr::Msg(reason))
        },
        other => other,
    }
}

/// The login name on the page of personal details.
pub open spec fn login_name_of(page: Result<Seq<char>, ErrView>) -> Result<Seq<char>, ErrView> {
    match page {
        Err(error) => Err(error),
        Ok(html) => match login_name_in(html) {
            Some(name) => Ok(name),
            None => Err(ErrView::Parse("无法获取登录名"@)),
        },
    }
}

/// The login name on the page of personal details.
pub fn login_name(page: &Result<String, ApiErr>) -> (r: Result<String, ApiErr>)
    ensures
        page_reply(r) == login_name_of(page_reply(*page)),
{
    match page {
        Err(error) => Err(error.clone()),
        Ok(html) => match extract_login_name(html.as_str()) {
            Some(name) => Ok(name),
            None => Err(ApiErr::Parse(copy_of("无法获取登录名"))),
        },
    }
}

// ---------------------------------------------------------------------------------------
// The student's number

/// The identities of the field with the student's number on the home page.
pub open spec fn uid_ids() -> Seq<Seq<char>> {
    seq!["hidUID"@, "hidUid"@, "hidUserId"@, "hidSID"@, "studentId"@]
}

/// The words by which the name of that field is known.
pub open spec fn uid_keywords() -> Seq<Seq<char>> {
    seq!["uid"@, "userid"@, "studentid"@]
}

/// The student's number on the home page.
pub open spec fn uid_in_home(html: Seq<char>) -> LookupView {
    value_of_input(html, uid_ids()).or(value_by_name(html, uid_keywords(), 0))
}

/// The student's number on the home page.
pub fn look_up_uid(html: &str) -> (r: Lookup)
    ensures
        r@ == uid_in_home(html@),
{
    let ids: [&str; 5] = ["hidUID", "hidUid", "hidUserId", "hidSID", "studentId"];
    let keywords: [&str; 3] = ["uid", "userid", "studentid"];
    assert(literals(ids@) =~= uid_ids());
    assert(literals(keywords@) =~= uid_keywords());
    match look_up_input(html, ids.as_slice()) {
        Lookup::Missing => look_up_by_keyword(html, keywords.as_slice()),
        other => other,
    }
}

/// The student's number on the page of a course on missed check-ins.
pub open spec fn uid_in_missed(html: Seq<char>) -> LookupView {
    value_of_input(html, uid_ids().push("HidStudentID"@))
}

/// The student's number on the page of a course on missed check-ins.
pub fn look_up_missed_uid(html: &str) -> (r: Lookup)
    ensures
        r@ == uid_in_missed(html@),
{
    let ids: [&str; 6] = [
        "hidUID",
        "hidUid",
        "hidUserId",
        "hidSID",
        "studentId",
        "HidStudentID",
    ];
    assert(literals(ids@) =~= uid_ids().push("HidStudentID"@));
    look_up_input(html, ids.as_slice())
}

/// What a page says of a value, or why there is no page.
pub open spec fn found_reply(found: Result<Lookup, ApiErr>) -> Result<LookupView, ErrView> {
    match found {
        Ok(lookup) => Ok(lookup@),
        Err(error) => Err(error@),
    }
}

/// The page can be told: no stretch of it would be cut inside a character.
pub open spec fn is_told(found: Result<Lookup, ApiErr>) -> bool {
    !(found matches Ok(Lookup::Cut))
}

/// The number that was found on the home page: it must not be empty.
pub open spec fn uid_found(found: Result<LookupView, ErrView>) -> Result<Seq<char>, ErrView> {
    match found {
        Err(error) => Err(error),
        Ok(LookupView::Found(uid)) if uid.len() > 0 => Ok(uid),
        Ok(_) => Err(ErrView::Parse("无法获取学生ID"@)),
    }
}

// ---------------------------------------------------------------------------------------
// Discovering a course

/// What the discovery of a course waits for.
#[derive(Clone, Copy, Debug, PartialEq, Eq, Structural)]
pub enum DiscoveryStage {
    Missed,
    Home,
    Probe,
}

/// What the discovery of a course does next.
pub enum DiscoveryStep {
    Ask { stage: DiscoveryStage, request: RequestPlan },
    Done(Result<(), ApiErr>),
}

/// What a step of the discovery holds.
#[verifier::ext_equal]
pub ghost enum DiscoveryStepView {
    Ask { stage: DiscoveryStage, request: PlanView },
    Done(Result<(), ErrView>),
}

impl View for DiscoveryStep {
    type V = DiscoveryStepView;

    open spec fn view(&self) -> DiscoveryStepView {
        match *self {
            DiscoveryStep::Ask { stage, request } => DiscoveryStepView::Ask {
                stage,
                request: request@,
            },
            DiscoveryStep::Done(result) => DiscoveryStepView::Done(login_reply(result)),
        }
    }
}

/// The discovery of a course begins: a course that was discovered is not asked for again.
pub open spec fn discovery_begun(client: LiveView, course: CourseView) -> DiscoveryStepView {
    if client.discovered.contains(course.tclass_id) {
        DiscoveryStepView::Done(Ok(()))
    } else {
        DiscoveryStepView::Ask {
            stage: DiscoveryStage::Missed,
            request: missed_plan(course.tclass_id),
        }
    }
}

/// The check-in list of a course is asked for.
pub open spec fn probing(course: CourseView, uid: Seq<char>) -> DiscoveryStepView {
    DiscoveryStepView::Ask {
        stage: DiscoveryStage::Probe,
        request: probe_plan(course.tclass_id, uid),
    }
}

/// The page on missed check-ins came. The number on it counts, and is remembered where none was
/// known; for want of it the known number counts, and for want of that the home page is asked
/// for.
pub open spec fn missed_page_came(
    client: LiveView,
    course: CourseView,
    found: Result<LookupView, ErrView>,
) -> (LiveView, DiscoveryStepView) {
    match found {
        Err(error) => (client, DiscoveryStepView::Done(Err(error))),
        Ok(LookupView::Found(uid)) if uid.len() > 0 => (
            LiveView {
                uid: if client.uid is None {
                    Some(uid)
                } else {
                    client.uid
                },
                ..client
            },
            probing(course, uid),
        ),
        Ok(_) => match client.uid {
            Some(uid) => (client, probing(course, uid)),
            None => (
                client,
                DiscoveryStepView::Ask { stage: DiscoveryStage::Home, request: home_plan() },
            ),
        },
    }
}

/// The home page came.
pub open spec fn home_page_came(
    client: LiveView,
    course: CourseView,
    found: Result<LookupView, ErrView>,
) -> (LiveView, DiscoveryStepView) {
    match uid_found(found) {
        Err(error) => (client, DiscoveryStepView::Done(Err(error))),
        Ok(uid) => (LiveView { uid: Some(uid), ..client }, probing(course, uid)),
    }
}

/// The check-in list came: a course that has one is discovered.
pub open spec fn probe_came(
    client: LiveView,
    course: CourseView,
    reply: Result<Json, ErrView>,
) -> (LiveView, Result<(), ErrView>) {
    match reply {
        Err(error) => (client, Err(error)),
        Ok(json) => if field(json, "rows"@) is Some {
            (LiveView { discovered: client.discovered.insert(course.tclass_id), ..client }, Ok(()))
        } else {
            (client, Err(ErrView::Parse("签到接口探测失败"@)))
        },
    }
}

// ---------------------------------------------------------------------------------------
// The place of an activity

/// Whether a course was entered: its number stands on the page.
pub open spec fn entered(course: CourseView, page: Result<Seq<char>, ErrView>) -> Result<
    (),
    ErrView,
> {
    match page {
        Err(error) => Err(error),
        Ok(html) => if contains_text(html, course.class_id) {
            Ok(())
        } else {
            Err(ErrView::Msg("进入课程页面失败"@))
        },
    }
}

/// Whether a course was entered.
pub fn enter_course(course: &Course, page: &Result<String, ApiErr>) -> (r: Result<(), ApiErr>)
    ensures
        login_reply(r) == entered(course@, page_reply(*page)),
{
    match page {
        Err(error) => Err(error.clone()),
        Ok(html) => if has_text(html.as_str(), course.class_id.as_str()) {
            Ok(())
        } else {
            Err(ApiErr::Msg(copy_of("进入课程页面失败")))
        },
    }
}

/// What the search for an activity's place waits for: the course's page, or one of two pages on
/// the check-in that is open.
#[derive(Clone, Copy, Debug, PartialEq, Eq, Structural)]
pub enum PlaceStage {
    Entry,
    First,
    Second,
}

/// What the search for an activity's place does next.
pub enum PlaceStep {
    Ask { stage: PlaceStage, request: RequestPlan },
    Done(Option<Coordinates>),
}

/// What a step of the search holds.
#[verifier::ext_equal]
pub ghost enum PlaceStepView {
    Ask { stage: PlaceStage, request: PlanView },
    Done(Option<CoordinatesView>),
}

impl View for PlaceStep {
    type V = PlaceStepView;

    open spec fn view(&self) -> PlaceStepView {
        match *self {
            PlaceStep::Ask { stage, request } => PlaceStepView::Ask { stage, request: request@ },
            PlaceStep::Done(place) => PlaceStepView::Done(opt_view(place)),
        }
    }
}

/// The search for an activity's place begins: a place that the activity names is taken; one that
/// is not checked in to by being at a place has none.
pub open spec fn place_search_begun(activity: ActivityView, course: CourseView) -> PlaceStepView {
    if activity.coordinate is Some {
        PlaceStepView::Done(activity.coordinate)
    } else if activity.kind != SignType::Locate {
        PlaceStepView::Done(None)
    } else {
        PlaceStepView::Ask { stage: PlaceStage::Entry, request: entry_plan(course.class_id) }
    }
}

/// The course's page came: unless the course was entered the search is over.
pub open spec fn entry_came(course: CourseView, page: Result<Seq<char>, ErrView>) -> PlaceStepView {
    if entered(course, page) is Err {
        PlaceStepView::Done(None)
    } else {
        PlaceStepView::Ask {
            stage: PlaceStage::First,
            request: activity_plan(course.tclass_id, false),
        }
    }
}

/// The place that a page on an open check-in gives for an activity: none where the page is on
/// another activity.
pub open spec fn place_on_page(html: Seq<char>, activity_id: Seq<char>) -> PlaceView {
    match value_of_input(html, seq!["HFCheckInID"@]) {
        LookupView::Cut => PlaceView::Cut,
        LookupView::Found(id) if id != activity_id => PlaceView::Missing,
        _ => room_in(html),
    }
}

/// The place that a page on an open check-in gives for an activity.
pub fn look_up_place(html: &str, activity_id: &str) -> (r: PlaceLookup)
    ensures
        r@ == place_on_page(html@, activity_id@),
{
    let ids: [&str; 1] = ["HFCheckInID"];
    assert(literals(ids@) =~= seq!["HFCheckInID"@]);
    match look_up_input(html, ids.as_slice()) {
        Lookup::Cut => PlaceLookup::Cut,
        Lookup::Found(id) => if same_text(id.as_str(), activity_id) {
            look_up_room(html)
        } else {
            PlaceLookup::Missing
        },
        Lookup::Missing => look_up_room(html),
    }
}

/// What a page says of a place, or why there is no page.
pub open spec fn place_reply(found: Result<PlaceLookup, ApiErr>) -> Result<PlaceView, ErrView> {
    match found {
        Ok(place) => Ok(place@),
        Err(error) => Err(error@),
    }
}

/// A page on the open check-in came: its place is taken; for want of one the second page is
/// asked for, and after that the search is over.
pub open spec fn activity_page_came(
    stage: PlaceStage,
    course: CourseView,
    found: Result<PlaceView, ErrView>,
) -> PlaceStepView {
    match found {
        Ok(PlaceView::Found(place)) => PlaceStepView::Done(Some(place)),
        _ => if stage == PlaceStage::First {
            PlaceStepView::Ask {
                stage: PlaceStage::Second,
                request: activity_plan(course.tclass_id, true),
            }
        } else {
            PlaceStepView::Done(None)
        },
    }
}

/// The search for an activity's place begins.
pub fn activity_coords(activity: &SignActivity, course: &Course) -> (r: PlaceStep)
    ensures
        r@ == place_search_begun(activity@, course@),
{
    if activity.coordinate.is_some() {
        return PlaceStep::Done(copy_of_place(&activity.coordinate));
    }
    if activity.kind != SignType::Locate {
        return PlaceStep::Done(None);
    }
    PlaceStep::Ask {
        stage: PlaceStage::Entry,
        request: entry_request(course.class_id.as_str()),
    }
}

/// Takes in the course's page.
pub fn on_entry(course: &Course, page: &Result<String, ApiErr>) -> (r: PlaceStep)
    ensures
        r@ == entry_came(course@, page_reply(*page)),
{
    match enter_course(course, page) {
        Err(_) => PlaceStep::Done(None),
        Ok(()) => PlaceStep::Ask {
            stage: PlaceStage::First,
            request: activity_request(course.tclass_id.as_str(), false),
        },
    }
}

/// Takes in a page on the open check-in.
pub fn on_activity_page(
    stage: PlaceStage,
    course: &Course,
    found: Result<PlaceLookup, ApiErr>,
) -> (r: PlaceStep)
    requires
        !(found matches Ok(PlaceLookup::Cut)),
    ensures
        r@ == activity_page_came(stage, course@, place_reply(found)),
{
    match found {
        Ok(PlaceLookup::Found(place)) => PlaceStep::Done(Some(place)),
        _ => if stage == PlaceStage::First {
            PlaceStep::Ask {
                stage: PlaceStage::Second,
                request: activity_request(course.tclass_id.as_str(), true),
            }
        } else {
            PlaceStep::Done(None)
        },
    }
}

// ---------------------------------------------------------------------------------------
// The check-in lists

/// The rows in the answer to the question for a check-in list: none unless it answers with a
/// one.
pub open spec fn list_rows(reply: Result<Json, ErrView>) -> Result<Seq<RowView>, ErrView> {
    match reply {
        Err(error) => Err(error),
        Ok(json) => if text_in(field(json, "msg"@)) == Some("1"@) {
            Ok(rows_in(json))
        } else {
            Ok(Seq::empty())
        },
    }
}

/// The rows in the answer to the question for a check-in list.
pub fn rows_of_list(reply: &Result<Json, ApiErr>) -> (r: Result<Vec<RawRow>, ApiErr>)
    ensures
        rows_reply(r) == list_rows(json_reply(*reply)),
{
    match reply {
        Err(error) => Err(error.clone()),
        Ok(json) => {
            if let Some(word) = json.get_text("msg") {
                if same_text(word.as_str(), "1") {
                    return Ok(rows_from_json(json));
                }
            }
            let none: Vec<RawRow> = Vec::new();
            assert(views(none@) =~= Seq::empty());
            Ok(none)
        },
    }
}

/// What came of asking for a check-in list: it was not asked for because the course could not be
/// discovered, the asking broke off, or there is an answer.
pub enum Fetched {
    Undiscovered(ApiErr),
    Broken,
    Answered(Result<Json, ApiErr>),
}

/// The check-in list of a course, or why there is none.
pub open spec fn list_of_course(fetched: Fetched) -> Result<Seq<RowView>, ErrView> {
    match fetched {
        Fetched::Undiscovered(error) => Err(error@),
        Fetched::Broken => Err(ErrView::Msg("拉取线程异常"@)),
        Fetched::Answered(reply) => list_rows(json_reply(reply)),
    }
}

/// The check-in list of a course, or why there is none.
pub fn fetch_outcome(fetched: &Fetched) -> (r: Result<Vec<RawRow>, ApiErr>)
    ensures
        rows_reply(r) == list_of_course(*fetched),
{
    match fetched {
        Fetched::Undiscovered(error) => Err(error.clone()),
        Fetched::Broken => Err(ApiErr::Msg(copy_of("拉取线程异常"))),
        Fetched::Answered(reply) => rows_of_list(reply),
    }
}

/// The check-in lists of courses, in their order.
pub fn fetch_outcomes(fetched: &Vec<Fetched>) -> (r: Vec<Result<Vec<RawRow>, ApiErr>>)
    ensures
        r@.len() == fetched@.len(),
        forall|i: int|
            0 <= i < r@.len() ==> rows_reply(#[trigger] r@[i]) == list_of_course(fetched@[i]),
{
    let mut outcomes: Vec<Result<Vec<RawRow>, ApiErr>> = Vec::new();
    let mut i: usize = 0;
    while i < fetched.len()
        invariant
            i <= fetched@.len(),
            outcomes@.len() == i,
            forall|k: int|
                0 <= k < i ==> rows_reply(#[trigger] outcomes@[k]) == list_of_course(fetched@[k]),
        decreases fetched@.len() - i,
    {
        outcomes.push(fetch_outcome(&fetched[i]));
        i = i + 1;
    }
    outcomes
}

/// The answer for each of so many courses where the student's number cannot be had.
pub fn fetch_without_uid(courses: usize) -> (r: Vec<Result<Vec<RawRow>, ApiErr>>)
    ensures
        r@.len() == courses,
        forall|i: int|
            0 <= i < r@.len() ==> rows_reply(#[trigger] r@[i]) == Err::<Seq<RowView>, ErrView>(
                ErrView::Msg("无法获取用户ID"@),
            ),
{
    let mut outcomes: Vec<Result<Vec<RawRow>, ApiErr>> = Vec::new();
    let mut i: usize = 0;
    while i < courses
        invariant
            i <= courses,
            outcomes@.len() == i,
            forall|k: int|
                0 <= k < i ==> rows_reply(#[trigger] outcomes@[k]) == Err::<Seq<RowView>, ErrView>(
                    ErrView::Msg("无法获取用户ID"@),
                ),
        decreases courses - i,
    {
        outcomes.push(Err(ApiErr::Msg(copy_of("无法获取用户ID"))));
        i = i + 1;
    }
    outcomes
}

// ---------------------------------------------------------------------------------------
// Checking in

/// How a check-in is made: it is settled already, a form is posted, a code is scanned, a place
/// is given, or the place is searched for.
pub enum SignPlan {
    Settled(CheckInResult),
    Post(RequestPlan),
    Scan(RequestPlan),
    Place(Coordinates),
    Search,
}

/// What a plan for a check-in holds.
#[verifier::ext_equal]
pub ghost enum SignPlanView {
    Settled(ResultView),
    Post(PlanView),
    Scan(PlanView),
    Place(CoordinatesView),
    Search,
}

impl View for SignPlan {
    type V = SignPlanView;

    open spec fn view(&self) -> SignPlanView {
        match *self {
            SignPlan::Settled(result) => SignPlanView::Settled(result@),
            SignPlan::Post(request) => SignPlanView::Post(request@),
            SignPlan::Scan(request) => SignPlanView::Scan(request@),
            SignPlan::Place(place) => SignPlanView::Place(place@),
            SignPlan::Search => SignPlanView::Search,
        }
    }
}

/// How a check-in is made.
pub open spec fn plan_for(uid: Seq<char>, request: ReqView) -> SignPlanView {
    match request.activity.kind {
        SignType::Code => match request.activity.code {
            Some(code) => SignPlanView::Post(code_plan(uid, code)),
            None => SignPlanView::Settled(ResultView::Failed("未获取到签到码"@)),
        },
        SignType::Qr => SignPlanView::Scan(scan_plan(request.activity.id)),
        SignType::Locate => match request.coords {
            Some(place) => SignPlanView::Place(place),
            None => SignPlanView::Search,
        },
        SignType::Unknown => SignPlanView::Settled(ResultView::Failed("未知签到类型"@)),
    }
}

/// How a check-in is made.
pub fn sign_plan(uid: &str, request: &SignReq) -> (r: SignPlan)
    ensures
        r@ == plan_for(uid@, request@),
{
    match request.activity.kind {
        SignType::Code => match &request.activity.code {
            Some(code) => SignPlan::Post(code_request(uid, code.as_str())),
            None => SignPlan::Settled(CheckInResult::Failed(copy_of("未获取到签到码"))),
        },
        SignType::Qr => SignPlan::Scan(scan_request(request.activity.id.as_str())),
        SignType::Locate => match &request.coords {
            Some(place) => SignPlan::Place(place.clone()),
            None => SignPlan::Search,
        },
        SignType::Unknown => SignPlan::Settled(
            CheckInResult::Failed(copy_of("未知签到类型")),
        ),
    }
}

/// What came of a check-in: it was settled already, a form was posted, a code was scanned, the
/// work broke off, or nothing came of it.
pub enum Attempt {
    Settled(CheckInResult),
    Posted(SignReply),
    Scanned(Result<String, ApiErr>),
    Broken,
    Nothing,
}

/// What a check-in comes to.
pub open spec fn attempt_result(attempt: Attempt) -> ResultView {
    match attempt {
        Attempt::Settled(result) => result@,
        Attempt::Posted(reply) => posted_result(reply),
        Attempt::Scanned(page) => scan_result(page_reply(page)),
        Attempt::Broken => ResultView::Failed("签到线程异常"@),
        Attempt::Nothing => ResultView::Failed("未知错误"@),
    }
}

/// What a check-in comes to.
pub fn attempt_outcome(attempt: &Attempt) -> (r: CheckInResult)
    ensures
        r@ == attempt_result(*attempt),
{
    match attempt {
        Attempt::Settled(result) => result.clone(),
        Attempt::Posted(reply) => posted_outcome(reply),
        Attempt::Scanned(page) => scan_outcome(page),
        Attempt::Broken => CheckInResult::Failed(copy_of("签到线程异常")),
        Attempt::Nothing => CheckInResult::Failed(copy_of("未知错误")),
    }
}

/// What check-ins come to, in their order.
pub fn attempt_outcomes(attempts: &Vec<Attempt>) -> (r: Vec<CheckInResult>)
    ensures
        views(r@) == attempts@.map_values(|attempt: Attempt| attempt_result(attempt)),
{
    let mut results: Vec<CheckInResult> = Vec::new();
    let ghost all = attempts@.map_values(|attempt: Attempt| attempt_result(attempt));
    let mut i: usize = 0;
    assert(views(results@) =~= all.take(0));
    while i < attempts.len()
        invariant
            i <= attempts@.len(),
            all == attempts@.map_values(|attempt: Attempt| attempt_result(attempt)),
            views(results@) == all.take(i as int),
        decreases attempts@.len() - i,
    {
        let ghost before = results@;
        let result: CheckInResult = attempt_outcome(&attempts[i]);
        results.push(result);
        assert(views(results@) =~= views(before).push(all[i as int]));
        assert(all.take(i + 1) =~= all.take(i as int).push(all[i as int]));
        i = i + 1;
    }
    assert(all.take(all.len() as int) =~= all);
    results
}

/// The result of each of so many check-ins where the student's number cannot be had.
pub fn sign_without_uid(requests: usize) -> (r: Vec<CheckInResult>)
    ensures
        r@.len() == requests,
        forall|i: int|
            0 <= i < r@.len() ==> (#[trigger] r@[i])@ == ResultView::Failed("无法获取用户ID"@),
{
    let mut results: Vec<CheckInResult> = Vec::new();
    let mut i: usize = 0;
    while i < requests
        invariant
            i <= requests,
            results@.len() == i,
            forall|k: int|
                0 <= k < i ==> (#[trigger] results@[k])@ == ResultView::Failed(
                    "无法获取用户ID"@,
                ),
        decreases requests - i,
    {
        results.push(CheckInResult::Failed(copy_of("无法获取用户ID")));
        i = i + 1;
    }
    results
}

/// The place that a check-in teaches: that of a check-in at a place that succeeded.
pub open spec fn taught_by(request: ReqView, result: ResultView) -> Option<CoordinatesView> {
    if request.activity.kind == SignType::Locate && result is Success {
        request.coords
    } else {
        None
    }
}

/// The place that the first `n` check-ins teach: that of the last one that teaches any.
pub open spec fn last_taught(
    requests: Seq<ReqView>,
    results: Seq<ResultView>,
    n: int,
) -> Option<CoordinatesView>
    decreases n,
{
    if n <= 0 {
        None
    } else {
        match taught_by(requests[n - 1], results[n - 1]) {
            Some(place) => Some(place),
            None => last_taught(requests, results, n - 1),
        }
    }
}

/// The base of the first search for a place, where none was learned yet.
pub open spec fn first_base() -> CoordinatesView {
    CoordinatesView { longitude: "108.0"@, latitude: "34.0"@ }
}

/// Where a search begins: at the place that was learned, else at the first base.
pub open spec fn base_of(client: LiveView) -> CoordinatesView {
    match client.learned_center {
        Some(place) => place,
        None => first_base(),
    }
}

impl LiveClient {
    /// The session's cookies are such as a session can have.
    pub closed spec fn wf(&self) -> bool {
        self.cookies.wf()
    }

    /// A client without a session, that has learned this place before.
    pub fn new(learned_center: Option<Coordinates>) -> (r: LiveClient)
        ensures
            r.wf(),
            r@ == without_session(opt_view(learned_center)),
    {
        LiveClient {
            cookies: CookieStore::new(),
            uid: None,
            discovered: IdSet::new(),
            learned_center,
        }
    }

    /// A client with the session that was kept as one text.
    pub fn from_cookie_string(
        cookie_string: &str,
        learned_center: Option<Coordinates>,
    ) -> (r: LiveClient)
        ensures
            r.wf(),
            r@ == (LiveView {
                cookies: with_cookies(
                    Seq::empty(),
                    segments(cookie_string@, ';'),
                    segments(cookie_string@, ';').len() as int,
                ),
                ..without_session(opt_view(learned_center))
            }),
    {
        let mut client: LiveClient = LiveClient::new(learned_center);
        client.cookies.seed(cookie_string);
        client
    }

    /// The session in one text.
    pub fn cookie_string(&self) -> (r: String)
        ensures
            r@ == header_of(self@.cookies),
    {
        self.cookies.snapshot()
    }

    /// The next request of a journey, with the session's cookies.
    pub fn outgoing(&self, journey: &Journey) -> (r: Outgoing)
        ensures
            r@ == sent(journey@, self@.cookies),
    {
        journey.outgoing(&self.cookies)
    }

    /// Takes in the head of an answer to a request of a journey.
    pub fn on_reply(&mut self, journey: &mut Journey, reply: &ReplyHead) -> (r: Step)
        requires
            old(self).wf(),
            old(journey).wf(),
        ensures
            final(self).wf(),
            (final(journey)@, r@) == after_reply(
                old(journey)@,
                reply.status,
                opt_view(reply.location),
            ),
            final(self)@ == (LiveView {
                cookies: with_cookies(
                    old(self)@.cookies,
                    texts(reply.set_cookies@),
                    reply.set_cookies@.len() as int,
                ),
                ..old(self)@
            }),
            r is Pause || r is Follow || r is Deliver ==> final(journey).wf(),
    {
        journey.on_reply(&mut self.cookies, reply)
    }

    /// Begins a login with an authorisation link.
    pub fn login_wechat(&mut self, authorization_link: &str) -> (r: LoginStep)
        ensures
            (final(self)@, r@) == login_begun(old(self)@, authorization_link@),
            old(self).wf() ==> final(self).wf(),
    {
        match extract_wechat_code(authorization_link) {
            None => LoginStep::Done(Err(ApiErr::Parse(copy_of("无法提取授权码")))),
            Some(code) => {
                self.cookies.clear();
                LoginStep::Ask {
                    stage: LoginStage::Exchange,
                    request: exchange_request(code.as_str()),
                }
            },
        }
    }

    /// Takes in the page that came for the authorisation code.
    pub fn on_exchange(&self, reply: PageReply) -> (r: LoginStep)
        ensures
            r@ == code_exchanged(self@, reply),
    {
        match reply {
            PageReply::Lost(error) => LoginStep::Done(Err(error)),
            PageReply::Came(body) => {
                let snippet: String = match body {
                    Ok(html) => first_text_snippet(html.as_str()),
                    Err(_) => {
                        let empty = String::new();
                        assert(empty@ =~= Seq::empty());
                        empty
                    },
                };
                LoginStep::Ask {
                    stage: LoginStage::Verify { summary: self.cookies.summary(), snippet },
                    request: session_request(),
                }
            },
        }
    }

    /// The student's number, where it is known.
    pub fn known_uid(&self) -> (r: Option<String>)
        ensures
            opt_view(r) == self@.uid,
    {
        copy_of_opt(&self.uid)
    }

    /// Takes in what the home page says of the student's number.
    pub fn learn_uid(&mut self, found: Result<Lookup, ApiErr>) -> (r: Result<String, ApiErr>)
        requires
            is_told(found),
        ensures
            page_reply(r) == uid_found(found_reply(found)),
            final(self)@ == match uid_found(found_reply(found)) {
                Ok(uid) => LiveView { uid: Some(uid), ..old(self)@ },
                Err(_) => old(self)@,
            },
            old(self).wf() ==> final(self).wf(),
    {
        match found {
            Err(error) => Err(error),
            Ok(Lookup::Found(uid)) => {
                if is_empty(uid.as_str()) {
                    return Err(ApiErr::Parse(copy_of("无法获取学生ID")));
                }
                self.uid = Some(copy_of(uid.as_str()));
                Ok(uid)
            },
            Ok(_) => Err(ApiErr::Parse(copy_of("无法获取学生ID"))),
        }
    }

    /// Begins the discovery of a course.
    pub fn ensure_discovered(&self, course: &Course) -> (r: DiscoveryStep)
        ensures
            r@ == discovery_begun(self@, course@),
    {
        if self.discovered.contains(course.tclass_id.as_str()) {
            DiscoveryStep::Done(Ok(()))
        } else {
            DiscoveryStep::Ask {
                stage: DiscoveryStage::Missed,
                request: missed_request(course.tclass_id.as_str()),
            }
        }
    }

    /// Takes in what the page on missed check-ins says of the student's number.
    pub fn on_missed_page(&mut self, course: &Course, found: Result<Lookup, ApiErr>) -> (r:
        DiscoveryStep)
        requires
            is_told(found),
        ensures
            (final(self)@, r@) == missed_page_came(old(self)@, course@, found_reply(found)),
            old(self).wf() ==> final(self).wf(),
    {
        match found {
            Err(error) => {
                return DiscoveryStep::Done(Err(error));
            },
            Ok(Lookup::Found(uid)) => {
                if !is_empty(uid.as_str()) {
                    if self.uid.is_none() {
                        self.uid = Some(copy_of(uid.as_str()));
                    }
                    return DiscoveryStep::Ask {
                        stage: DiscoveryStage::Probe,
                        request: probe_request(course.tclass_id.as_str(), uid.as_str()),
                    };
                }
            },
            Ok(_) => {},
        }
        match &self.uid {
            Some(uid) => DiscoveryStep::Ask {
                stage: DiscoveryStage::Probe,
                request: probe_request(course.tclass_id.as_str(), uid.as_str()),
            },
            None => DiscoveryStep::Ask { stage: DiscoveryStage::Home, request: home_request() },
        }
    }

    /// Takes in what the home page says of the student's number while a course is discovered.
    pub fn on_home_page(&mut self, course: &Course, found: Result<Lookup, ApiErr>) -> (r:
        DiscoveryStep)
        requires
            is_told(found),
        ensures
            (final(self)@, r@) == home_page_came(old(self)@, course@, found_reply(found)),
            old(self).wf() ==> final(self).wf(),
    {
        match self.learn_uid(found) {
            Err(error) => DiscoveryStep::Done(Err(error)),
            Ok(uid) => DiscoveryStep::Ask {
                stage: DiscoveryStage::Probe,
                request: probe_request(course.tclass_id.as_str(), uid.as_str()),
            },
        }
    }

    /// Takes in the check-in list by which a course is discovered.
    pub fn on_probe(&mut self, course: &Course, reply: &Result<Json, ApiErr>) -> (r: Result<
        (),
        ApiErr,
    >)
        ensures
            (final(self)@, login_reply(r)) == probe_came(old(self)@, course@, json_reply(*reply)),
            old(self).wf() ==> final(self).wf(),
    {
        match reply {
            Err(error) => Err(error.clone()),
            Ok(json) => if json.has("rows") {
                self.discovered.insert(copy_of(course.tclass_id.as_str()));
                Ok(())
            } else {
                Err(ApiErr::Parse(copy_of("签到接口探测失败")))
            },
        }
    }

    /// The place that was learned last.
    pub fn learned_center(&self) -> (r: Option<Coordinates>)
        ensures
            opt_view(r) == self@.learned_center,
    {
        copy_of_place(&self.learned_center)
    }

    /// The base of the next search for a place: the place that was learned last, or a fixed one.
    pub fn search_base(&self) -> (r: Coordinates)
        ensures
            r@ == base_of(self@),
    {
        match &self.learned_center {
            Some(place) => place.clone(),
            None => Coordinates { longitude: copy_of("108.0"), latitude: copy_of("34.0") },
        }
    }

    /// Learns a place.
    pub fn learn_center(&mut self, center: Coordinates)
        ensures
            final(self)@ == (LiveView { learned_center: Some(center@), ..old(self)@ }),
            old(self).wf() ==> final(self).wf(),
    {
        self.learned_center = Some(center);
    }

    /// Learns the place that check-ins teach, and says which it is.
    pub fn learn_from(&mut self, requests: &[SignReq], results: &Vec<CheckInResult>) -> (r: Option<
        Coordinates,
    >)
        requires
            requests@.len() == results@.len(),
        ensures
            opt_view(r) == last_taught(
                views(requests@),
                views(results@),
                requests@.len() as int,
            ),
            final(self)@ == match opt_view(r) {
                Some(place) => LiveView { learned_center: Some(place), ..old(self)@ },
                None => old(self)@,
            },
            old(self).wf() ==> final(self).wf(),
    {
        let mut taught: Option<Coordinates> = None;
        let mut i: usize = 0;
        while i < requests.len()
            invariant
                i <= requests@.len(),
                requests@.len() == results@.len(),
                opt_view(taught) == last_taught(views(requests@), views(results@), i as int),
            decreases requests@.len() - i,
        {
            let request: &SignReq = &requests[i];
            assert(views(requests@)[i as int] == request@);
            assert(views(results@)[i as int] == results@[i as int]@);
            if request.activity.kind == SignType::Locate {
                if let CheckInResult::Success(_) = &results[i] {
                    if request.coords.is_some() {
                        taught = copy_of_place(&request.coords);
                    }
                }
            }
            i = i + 1;
        }
        if let Some(place) = &taught {
            self.learned_center = Some(place.clone());
        }
        taught
    }
}

// ---------------------------------------------------------------------------------------
// What holds of the client

/// A link without a code changes nothing and asks for nothing; a link with one begins a session
/// without the cookies of the one before.
pub proof fn login_starts_afresh(client: LiveView, link: Seq<char>)
    ensures
        code_in(link) is None ==> login_begun(client, link).0 == client && login_begun(
            client,
            link,
        ).1 is Done,
        code_in(link) is Some ==> login_begun(client, link).0.cookies.len() == 0,
{
}

/// A course that was discovered is not asked for again.
pub proof fn discovered_once(client: LiveView, course: CourseView, json: Json)
    requires
        field(json, "rows"@) is Some,
    ensures
        discovery_begun(probe_came(client, course, Ok(json)).0, course)
            == DiscoveryStepView::Done(Ok(())),
{
}

/// The student's number, once it is known, is kept while courses are discovered.
pub proof fn known_uid_is_kept(
    client: LiveView,
    course: CourseView,
    found: Result<LookupView, ErrView>,
    reply: Result<Json, ErrView>,
)
    requires
        client.uid is Some,
    ensures
        missed_page_came(client, course, found).0 == client,
        probe_came(client, course, reply).0.uid == client.uid,
        !(missed_page_came(client, course, found).1 matches DiscoveryStepView::Ask { stage, .. }
            && stage == DiscoveryStage::Home),
{
}

/// The page of a course that is entered names it: a page that does not is refused.
pub proof fn entered_page_names_course(course: CourseView, html: Seq<char>)
    ensures
        entered(course, Ok(html)) is Ok == contains_text(html, course.class_id),
{
}

/// The place that a page gives for an activity has as its longitude the value of the input for the
/// room's longitude, and as its latitude that of the input for the room's latitude; and the page
/// names this activity, or none.
pub proof fn place_is_read_from_its_inputs(html: Seq<char>, activity_id: Seq<char>)
    requires
        place_on_page(html, activity_id) is Found,
    ensures
        ({
            let place = place_on_page(html, activity_id)->Found_0;
            &&& value_of_input(html, seq!["HFRoomLongitude"@, "hfroomlongitude"@])
                == LookupView::Found(place.longitude)
            &&& value_of_input(html, seq!["HFRoomLatitude"@, "hfroomlatitude"@])
                == LookupView::Found(place.latitude)
            &&& is_float_text(place.longitude) && is_float_text(place.latitude)
            &&& value_of_input(html, seq!["HFCheckInID"@]) is Missing || value_of_input(
                html,
                seq!["HFCheckInID"@],
            ) == LookupView::Found(activity_id)
        }),
{
}

/// A page on the activity, or on none, that gives both numbers of the room gives its place; a page
/// on another activity gives none, whatever numbers it holds.
pub proof fn page_on_activity_gives_place(
    html: Seq<char>,
    activity_id: Seq<char>,
    longitude: Seq<char>,
    latitude: Seq<char>,
)
    requires
        value_of_input(html, seq!["HFRoomLongitude"@, "hfroomlongitude"@]) == LookupView::Found(
            longitude,
        ),
        value_of_input(html, seq!["HFRoomLatitude"@, "hfroomlatitude"@]) == LookupView::Found(
            latitude,
        ),
    ensures
        is_float_text(longitude) && is_float_text(latitude) && (value_of_input(
            html,
            seq!["HFCheckInID"@],
        ) is Missing || value_of_input(html, seq!["HFCheckInID"@]) == LookupView::Found(
            activity_id,
        )) ==> place_on_page(html, activity_id) == PlaceView::Found(
            CoordinatesView { longitude, latitude },
        ),
        !is_float_text(longitude) || !is_float_text(latitude) ==> !(place_on_page(
            html,
            activity_id,
        ) is Found),
        value_of_input(html, seq!["HFCheckInID"@]) matches LookupView::Found(other) ==> other
            != activity_id ==> place_on_page(html, activity_id) is Missing,
{
}

// ---------------------------------------------------------------------------------------
// What answers mean

/// A session holds exactly where the service says `1`; otherwise the reason names what failed and
/// what the service said of it.
pub proof fn session_holds_by_message(json: Json, prefix: Seq<char>, error: ErrView)
    ensures
        (session_verdict_of(Ok(json), prefix) is Ok) == (text_in(field(json, "msg"@)) == Some(
            "1"@,
        )),
        session_verdict_of(Ok(json), prefix) matches Err(told) ==> {
            &&& text_in(field(json, "msgbox"@)) matches Some(why) ==> told == ErrView::Msg(
                prefix + ": "@ + why,
            )
            &&& text_in(field(json, "msgbox"@)) is None ==> told == ErrView::Msg(
                prefix + ": "@ + "未知原因"@,
            )
        },
        session_verdict_of(Err(error), prefix) == Err::<(), ErrView>(error),
{
}

/// A login asks for nothing but to have the link's code exchanged, and keeps what is known of the
/// student; without a code it asks for nothing.
pub proof fn login_exchanges_code_of_link(client: LiveView, link: Seq<char>)
    ensures
        code_in(link) matches Some(code) ==> login_begun(client, link) == (
            LiveView { cookies: Seq::empty(), ..client },
            LoginStepView::Ask {
                stage: LoginStageView::Exchange,
                request: exchange_plan(code),
            },
        ),
        code_in(link) is None ==> login_begun(client, link).1 == LoginStepView::Done(
            Err(ErrView::Parse("无法提取授权码"@)),
        ),
{
}

/// After the exchange the session is checked, whatever page came; only a request that was lost
/// ends the login. The names of the cookies and the beginning of the page are kept for the case
/// that the session does not hold.
pub proof fn exchange_is_checked(client: LiveView, reply: PageReply)
    ensures
        reply matches PageReply::Lost(error) ==> code_exchanged(client, reply)
            == LoginStepView::Done(Err(error@)),
        reply matches PageReply::Came(body) ==> {
            let summary = if client.cookies.len() == 0 {
                "无"@
            } else {
                joined(
                    Seq::new(client.cookies.len(), |i: int| client.cookies[i].0),
                    ","@,
                )
            };
            let snippet = match body {
                Ok(html) => snippet_of(html@),
                Err(_) => Seq::empty(),
            };
            code_exchanged(client, reply) == (LoginStepView::Ask {
                stage: LoginStageView::Verify { summary, snippet },
                request: session_plan(),
            })
        },
{
    assert(names_of(client.cookies) =~= Seq::new(
        client.cookies.len(),
        |i: int| client.cookies[i].0,
    ));
}

/// A login succeeds exactly where the session holds. Where it does not, the reason tells in this
/// order what the service said, the cookies and the page; an answer that did not come is passed
/// on as it is.
pub proof fn login_succeeds_with_session(
    summary: Seq<char>,
    snippet: Seq<char>,
    json: Json,
    error: ErrView,
)
    ensures
        (login_outcome(summary, snippet, Ok(json)) is Ok) == (text_in(field(json, "msg"@)) == Some(
            "1"@,
        )),
        text_in(field(json, "msg"@)) != Some("1"@) ==> (text_in(field(json, "msgbox"@)) matches Some(
            why,
        ) ==> login_outcome(summary, snippet, Ok(json)) == Err::<(), ErrView>(
            ErrView::Msg(
                "微信登录后会话未生效"@ + ": "@ + why + "; 交换后 cookie: "@ + summary
                    + "; 交换页: "@ + snippet,
            ),
        )),
        !(error is Msg) ==> login_outcome(summary, snippet, Err(error)) == Err::<(), ErrView>(
            error,
        ),
        login_outcome(summary, snippet, Err(error)) is Err,
{
}

/// The login name is the one on the page; a page without one is an error of reading, and one that
/// did not come is passed on.
pub proof fn login_name_is_on_page(html: Seq<char>, error: ErrView)
    ensures
        login_name_in(html) matches Some(name) ==> login_name_of(Ok(html)) == Ok::<
            Seq<char>,
            ErrView,
        >(name),
        login_name_in(html) is None ==> login_name_of(Ok(html)) == Err::<Seq<char>, ErrView>(
            ErrView::Parse("无法获取登录名"@),
        ),
        login_name_of(Err(error)) == Err::<Seq<char>, ErrView>(error),
{
}

/// The student's identity is that of an input which is marked for it, and on the home page for
/// want of one that of a tag whose name says so; on the page of missed activities one more mark
/// counts.
pub proof fn uid_is_of_marked_input(html: Seq<char>)
    ensures
        ({
            let ids = seq!["hidUID"@, "hidUid"@, "hidUserId"@, "hidSID"@, "studentId"@];
            let more = seq![
                "hidUID"@,
                "hidUid"@,
                "hidUserId"@,
                "hidSID"@,
                "studentId"@,
                "HidStudentID"@,
            ];
            let words = seq!["uid"@, "userid"@, "studentid"@];
            &&& value_of_input(html, ids) is Missing ==> uid_in_home(html) == value_by_name(
                html,
                words,
                0,
            )
            &&& !(value_of_input(html, ids) is Missing) ==> uid_in_home(html) == value_of_input(
                html,
                ids,
            )
            &&& uid_in_missed(html) == value_of_input(html, more)
        }),
{
    assert(uid_ids().push("HidStudentID"@) =~= seq![
        "hidUID"@,
        "hidUid"@,
        "hidUserId"@,
        "hidSID"@,
        "studentId"@,
        "HidStudentID"@,
    ]);
}

/// An identity is found where a value was and it is not empty.
pub proof fn empty_uid_is_none(uid: Seq<char>, error: ErrView)
    ensures
        uid.len() > 0 ==> uid_found(Ok(LookupView::Found(uid))) == Ok::<Seq<char>, ErrView>(uid),
        uid.len() == 0 ==> uid_found(Ok(LookupView::Found(uid))) == Err::<Seq<char>, ErrView>(
            ErrView::Parse("无法获取学生ID"@),
        ),
        uid_found(Ok(LookupView::Missing)) == Err::<Seq<char>, ErrView>(
            ErrView::Parse("无法获取学生ID"@),
        ),
        uid_found(Err(error)) == Err::<Seq<char>, ErrView>(error),
{
}

// ---------------------------------------------------------------------------------------
// Discovering a class

/// A class that was not discovered has its page of missed activities asked for.
pub proof fn discovery_asks_for_missed(client: LiveView, course: CourseView)
    ensures
        (discovery_begun(client, course) is Done) == client.discovered.contains(course.tclass_id),
        !client.discovered.contains(course.tclass_id) ==> discovery_begun(client, course)
            == (DiscoveryStepView::Ask {
            stage: DiscoveryStage::Missed,
            request: missed_plan(course.tclass_id),
        }),
{
}

/// The class is probed with the identity that the page of missed activities tells, else with the
/// known one, else with that of the home page. The first identity that is learned stays, and
/// nothing else of the client changes.
pub proof fn probe_uses_best_uid(
    client: LiveView,
    course: CourseView,
    uid: Seq<char>,
    found: LookupView,
    error: ErrView,
)
    requires
        uid.len() > 0,
        !(found is Found) || found->Found_0.len() == 0,
    ensures
        missed_page_came(client, course, Ok(LookupView::Found(uid))).1 == (DiscoveryStepView::Ask {
            stage: DiscoveryStage::Probe,
            request: probe_plan(course.tclass_id, uid),
        }),
        client.uid is None ==> missed_page_came(client, course, Ok(LookupView::Found(uid))).0 == (
        LiveView { uid: Some(uid), ..client }),
        client.uid matches Some(known) ==> missed_page_came(client, course, Ok(found))
            == (
            client,
            DiscoveryStepView::Ask {
                stage: DiscoveryStage::Probe,
                request: probe_plan(course.tclass_id, known),
            },
        ),
        client.uid is None ==> missed_page_came(client, course, Ok(found)) == (
            client,
            DiscoveryStepView::Ask { stage: DiscoveryStage::Home, request: home_plan() },
        ),
        missed_page_came(client, course, Err(error)) == (
            client,
            DiscoveryStepView::Done(Err(error)),
        ),
        home_page_came(client, course, Ok(LookupView::Found(uid))) == (
            LiveView { uid: Some(uid), ..client },
            DiscoveryStepView::Ask {
                stage: DiscoveryStage::Probe,
                request: probe_plan(course.tclass_id, uid),
            },
        ),
        home_page_came(client, course, Ok(found)) == (
            client,
            DiscoveryStepView::Done(Err(ErrView::Parse("无法获取学生ID"@))),
        ),
        home_page_came(client, course, Err(error)) == (
            client,
            DiscoveryStepView::Done(Err(error)),
        ),
{
}

/// A class is discovered exactly by an answer that holds rows, and only this class.
pub proof fn rows_discover_class(client: LiveView, course: CourseView, json: Json, error: ErrView)
    ensures
        (probe_came(client, course, Ok(json)).1 is Ok) == (field(json, "rows"@) is Some),
        field(json, "rows"@) is None ==> probe_came(client, course, Ok(json)) == (
            client,
            Err::<(), ErrView>(ErrView::Parse("签到接口探测失败"@)),
        ),
        field(json, "rows"@) is Some ==> {
            let after = probe_came(client, course, Ok(json)).0;
            &&& forall|id: Seq<char>| #[trigger]
                after.discovered.contains(id) == (client.discovered.contains(id) || id
                    == course.tclass_id)
            &&& after.uid == client.uid && after.cookies == client.cookies && after.learned_center
                == client.learned_center
        },
        probe_came(client, course, Err(error)) == (client, Err::<(), ErrView>(error)),
{
}

// ---------------------------------------------------------------------------------------
// Finding the place of an activity

/// A place that the activity tells is taken at once; of the other activities only those by place
/// have one looked for, beginning with the course page.
pub proof fn told_place_is_taken(activity: ActivityView, course: CourseView, place: CoordinatesView)
    ensures
        activity.coordinate == Some(place) ==> place_search_begun(activity, course)
            == PlaceStepView::Done(Some(place)),
        activity.coordinate is None && activity.kind != SignType::Locate ==> place_search_begun(
            activity,
            course,
        ) == PlaceStepView::Done(None),
        activity.coordinate is None && activity.kind == SignType::Locate ==> place_search_begun(
            activity,
            course,
        ) == (PlaceStepView::Ask { stage: PlaceStage::Entry, request: entry_plan(course.class_id) }),
{
}

/// From the course page the activity's page is asked for as one by code, and then as one by
/// place; the first place that is found ends the search, and so does a course page of another
/// course.
pub proof fn place_is_looked_for_twice(
    course: CourseView,
    html: Seq<char>,
    place: CoordinatesView,
    found: Result<PlaceView, ErrView>,
    stage: PlaceStage,
    error: ErrView,
)
    requires
        !(found matches Ok(PlaceView::Found(_))),
    ensures
        contains_text(html, course.class_id) ==> entry_came(course, Ok(html)) == (PlaceStepView::Ask {
            stage: PlaceStage::First,
            request: activity_plan(course.tclass_id, false),
        }),
        !contains_text(html, course.class_id) ==> entry_came(course, Ok(html))
            == PlaceStepView::Done(None),
        entry_came(course, Err(error)) == PlaceStepView::Done(None),
        activity_page_came(stage, course, Ok(PlaceView::Found(place))) == PlaceStepView::Done(
            Some(place),
        ),
        activity_page_came(PlaceStage::First, course, found) == (PlaceStepView::Ask {
            stage: PlaceStage::Second,
            request: activity_plan(course.tclass_id, true),
        }),
        activity_page_came(PlaceStage::Second, course, found) == PlaceStepView::Done(None),
{
}

/// A course page that names another course tells so, and one that did not come is passed on.
pub proof fn other_course_is_not_entered(course: CourseView, html: Seq<char>, error: ErrView)
    ensures
        !contains_text(html, course.class_id) ==> entered(course, Ok(html)) == Err::<(), ErrView>(
            ErrView::Msg("进入课程页面失败"@),
        ),
        entered(course, Err(error)) == Err::<(), ErrView>(error),
{
}

// ---------------------------------------------------------------------------------------
// Lists and attempts

/// The list of a course is empty unless the service says `1`; what did not come is passed on.
pub proof fn list_counts_by_message(json: Json, error: ErrView)
    ensures
        text_in(field(json, "msg"@)) == Some("1"@) ==> list_rows(Ok(json)) == Ok::<
            Seq<RowView>,
            ErrView,
        >(rows_in(json)),
        text_in(field(json, "msg"@)) != Some("1"@) ==> list_rows(Ok(json)) == Ok::<
            Seq<RowView>,
            ErrView,
        >(Seq::empty()),
        list_rows(Err(error)) == Err::<Seq<RowView>, ErrView>(error),
{
}

/// A course that could not be discovered gives that error, and work that broke off says so.
pub proof fn fetch_passes_errors_on(error: ApiErr, reply: Result<Json, ApiErr>)
    ensures
        list_of_course(Fetched::Undiscovered(error)) == Err::<Seq<RowView>, ErrView>(error@),
        list_of_course(Fetched::Broken) == Err::<Seq<RowView>, ErrView>(
            ErrView::Msg("拉取线程异常"@),
        ),
        reply matches Err(failed) ==> list_of_course(Fetched::Answered(reply)) == Err::<
            Seq<RowView>,
            ErrView,
        >(failed@),
        reply matches Ok(json) ==> list_of_course(Fetched::Answered(reply)) is Ok,
{
}

/// Each kind of activity is signed in its own way: a code is posted, a scan asks for the activity's
/// page, a place is taken where the request has one and searched for otherwise. An activity of an
/// unknown kind and one by code without its code fail at once.
pub proof fn kind_decides_how_to_sign(uid: Seq<char>, request: ReqView, code: Seq<char>)
    ensures
        request.activity.kind == SignType::Code && request.activity.code == Some(code) ==> plan_for(
            uid,
            request,
        ) == SignPlanView::Post(code_plan(uid, code)),
        request.activity.kind == SignType::Code && request.activity.code is None ==> plan_for(
            uid,
            request,
        ) == SignPlanView::Settled(ResultView::Failed("未获取到签到码"@)),
        request.activity.kind == SignType::Qr ==> plan_for(uid, request) == SignPlanView::Scan(
            scan_plan(request.activity.id),
        ),
        request.activity.kind == SignType::Locate ==> (request.coords matches Some(place) ==> plan_for(
            uid,
            request,
        ) == SignPlanView::Place(place)),
        request.activity.kind == SignType::Locate && request.coords is None ==> plan_for(
            uid,
            request,
        ) == SignPlanView::Search,
        request.activity.kind == SignType::Unknown ==> plan_for(uid, request)
            == SignPlanView::Settled(ResultView::Failed("未知签到类型"@)),
{
}

/// An attempt that broke off and one that was never made fail, and say which of the two it was;
/// what was settled before stands.
pub proof fn broken_attempt_fails(result: CheckInResult)
    ensures
        attempt_result(Attempt::Settled(result)) == result@,
        attempt_result(Attempt::Broken) == ResultView::Failed("签到线程异常"@),
        attempt_result(Attempt::Nothing) == ResultView::Failed("未知错误"@),
{
}

/// The place that is learned from a round is the one of its last success by place: what comes
/// after that teaches nothing, and without one nothing is learned.
pub proof fn last_success_teaches(
    requests: Seq<ReqView>,
    results: Seq<ResultView>,
    n: int,
) -> (k: int)
    requires
        0 <= n <= requests.len(),
        requests.len() == results.len(),
    ensures
        -1 <= k < n,
        k >= 0 ==> {
            &&& requests[k].activity.kind == SignType::Locate
            &&& results[k] is Success
            &&& requests[k].coords is Some
            &&& last_taught(requests, results, n) == requests[k].coords
        },
        k < 0 ==> last_taught(requests, results, n) is None,
        forall|i: int|
            k < i < n ==> !((#[trigger] requests[i]).activity.kind == SignType::Locate
                && results[i] is Success && requests[i].coords is Some),
    decreases n,
{
    if n <= 0 {
        -1
    } else if taught_by(requests[n - 1], results[n - 1]) is Some {
        n - 1
    } else {
        last_success_teaches(requests, results, n - 1)
    }
}

/// A search begins where the last one ended, and the first one in the middle of the country.
pub proof fn search_begins_where_taught(client: LiveView, place: CoordinatesView)
    ensures
        base_of(LiveView { learned_center: Some(place), ..client }) == place,
        base_of(LiveView { learned_center: None, ..client }) == (CoordinatesView {
            longitude: "108.0"@,
            latitude: "34.0"@,
        }),
{
}

} // verus!
