//! What the library asks of the service, and what the service can answer.
use crate::models::{
    copy_of_place, opt_view, views, ActivityView, Coordinates, CoordinatesView, Course, CourseView,
    RawRow, SignActivity,
};
use crate::number::{decimal, decimal_text};
use crate::round::{courses_reply, fetched_reply, login_reply, Exchange};
use crate::text::{concat2, copy_of};
use vstd::prelude::*;

verus! {

/// Why a request to the service came to nothing.
#[derive(Debug)]
pub enum ApiErr {
    AuthLost,
    Network(String),
    Http(u16),
    Parse(String),
    Msg(String),
}

/// What an error holds.
#[verifier::ext_equal]
pub ghost enum ErrView {
    AuthLost,
    Network(Seq<char>),
    Http(u16),
    Parse(Seq<char>),
    Msg(Seq<char>),
}

impl View for ApiErr {
    type V = ErrView;

    open spec fn view(&self) -> ErrView {
        match *self {
            ApiErr::AuthLost => ErrView::AuthLost,
            ApiErr::Network(text) => ErrView::Network(text@),
            ApiErr::Http(status) => ErrView::Http(status),
            ApiErr::Parse(text) => ErrView::Parse(text@),
            ApiErr::Msg(text) => ErrView::Msg(text@),
        }
    }
}

impl Clone for ApiErr {
    fn clone(&self) -> (r: Self)
        ensures
            r@ == self@,
    {
        match self {
            ApiErr::AuthLost => ApiErr::AuthLost,
            ApiErr::Network(text) => ApiErr::Network(copy_of(text.as_str())),
            ApiErr::Http(status) => ApiErr::Http(*status),
            ApiErr::Parse(text) => ApiErr::Parse(copy_of(text.as_str())),
            ApiErr::Msg(text) => ApiErr::Msg(copy_of(text.as_str())),
        }
    }
}

/// An error in words.
pub open spec fn error_text(error: ErrView) -> Seq<char> {
    match error {
        ErrView::AuthLost => "登录已失效"@,
        ErrView::Network(text) => "网络错误: "@ + text,
        ErrView::Http(status) => "HTTP 错误: "@ + decimal_text(status as nat),
        ErrView::Parse(text) => "响应解析失败: "@ + text,
        ErrView::Msg(text) => "服务器拒绝: "@ + text,
    }
}

impl ApiErr {
    /// The error in words.
    pub fn message(&self) -> (r: String)
        ensures
            r@ == error_text(self@),
    {
        match self {
            ApiErr::AuthLost => copy_of("登录已失效"),
            ApiErr::Network(text) => concat2("网络错误: ", text.as_str()),
            ApiErr::Http(status) => concat2("HTTP 错误: ", decimal(*status as u64).as_str()),
            ApiErr::Parse(text) => concat2("响应解析失败: ", text.as_str()),
            ApiErr::Msg(text) => concat2("服务器拒绝: ", text.as_str()),
        }
    }
}

/// What came of an attempt to check in, in the service's words: it was accepted, there is no
/// longer anything to check in to, or it failed.
#[derive(Debug)]
pub enum CheckInResult {
    Success(String),
    Gone(String),
    Failed(String),
}

/// What an attempt came to.
#[verifier::ext_equal]
pub ghost enum ResultView {
    Success(Seq<char>),
    Gone(Seq<char>),
    Failed(Seq<char>),
}

impl View for CheckInResult {
    type V = ResultView;

    open spec fn view(&self) -> ResultView {
        match *self {
            CheckInResult::Success(text) => ResultView::Success(text@),
            CheckInResult::Gone(text) => ResultView::Gone(text@),
            CheckInResult::Failed(text) => ResultView::Failed(text@),
        }
    }
}

impl Clone for CheckInResult {
    fn clone(&self) -> (r: Self)
        ensures
            r@ == self@,
    {
        match self {
            CheckInResult::Success(text) => CheckInResult::Success(copy_of(text.as_str())),
            CheckInResult::Gone(text) => CheckInResult::Gone(copy_of(text.as_str())),
            CheckInResult::Failed(text) => CheckInResult::Failed(copy_of(text.as_str())),
        }
    }
}

/// A check-in that is to be made: the activity, its course, and the place to give.
#[derive(Debug)]
pub struct SignReq {
    pub activity: SignActivity,
    pub course: Course,
    pub coords: Option<Coordinates>,
}

/// What a request holds.
#[verifier::ext_equal]
pub ghost struct ReqView {
    pub activity: ActivityView,
    pub course: CourseView,
    pub coords: Option<CoordinatesView>,
}

impl View for SignReq {
    type V = ReqView;

    open spec fn view(&self) -> ReqView {
        ReqView { activity: self.activity@, course: self.course@, coords: opt_view(self.coords) }
    }
}

impl Clone for SignReq {
    fn clone(&self) -> (r: Self)
        ensures
            r@ == self@,
    {
        SignReq {
            activity: self.activity.clone(),
            course: self.course.clone(),
            coords: copy_of_place(&self.coords),
        }
    }
}

/// What was asked of a service and answered by it, in the order of the questions.
pub type Record = Seq<Exchange>;

/// The service, as the engine sees it. Nothing is presumed of its answers: of each question it is
/// said only that it goes on record, with what was asked and what was answered.
pub trait Client {
    /// All that was asked of the service and answered by it. The record is there for proofs:
    /// nothing asks for it when a program runs, and an implementation that is not verified has
    /// none to give.
    spec fn asked(&self) -> Record;

    /// Whether the session still holds.
    fn check_login(&mut self) -> (r: Result<(), ApiErr>)
        ensures
            final(self).asked() == old(self).asked().push(
                Exchange::Login { reply: login_reply(r) },
            ),
    ;

    /// The courses of the current term.
    fn fetch_courses(&mut self) -> (r: Result<Vec<Course>, ApiErr>)
        ensures
            final(self).asked() == old(self).asked().push(
                Exchange::Courses { reply: courses_reply(r) },
            ),
    ;

    /// The check-in list of each course, in the order of the courses.
    fn fetch_all(&mut self, courses: &[Course]) -> (r: Vec<Result<Vec<RawRow>, ApiErr>>)
        ensures
            final(self).asked() == old(self).asked().push(
                Exchange::Rows { courses: views(courses@), reply: fetched_reply(r@) },
            ),
    ;

    /// The place that the service itself gives for an activity.
    fn activity_coords(&mut self, activity: &SignActivity, course: &Course) -> (r: Option<
        Coordinates,
    >)
        ensures
            final(self).asked() == old(self).asked().push(
                Exchange::Place { activity: activity@, course: course@, reply: opt_view(r) },
            ),
    ;

    /// Makes each check-in, and says what came of each, in the order of the requests.
    fn sign_many(&mut self, requests: &[SignReq]) -> (r: Vec<CheckInResult>)
        ensures
            final(self).asked() == old(self).asked().push(
                Exchange::Sign { requests: views(requests@), reply: views(r@) },
            ),
    ;
}

/// Every error is told in words that say of which kind it is, with the text or the number that
/// came with it behind.
pub proof fn error_tells_its_cause(text: Seq<char>, status: u16)
    ensures
        error_text(ErrView::AuthLost) == "登录已失效"@,
        error_text(ErrView::Network(text)) == "网络错误: "@ + text,
        error_text(ErrView::Parse(text)) == "响应解析失败: "@ + text,
        error_text(ErrView::Msg(text)) == "服务器拒绝: "@ + text,
        error_text(ErrView::Http(status)) == "HTTP 错误: "@ + decimal_text(status as nat),
{
}

} // verus!
