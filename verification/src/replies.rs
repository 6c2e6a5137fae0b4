//! What the service's replies come to.
use crate::api::{error_text, ApiErr, CheckInResult, ErrView, ResultView};
use crate::html::{first_text_snippet, snippet_of};
use crate::json::{field, text_in, Json};
use crate::text::{concat2, concat3, contains_text, copy_of, has_text, is_empty};
use vstd::prelude::*;

verus! {

/// The view of a document or of why there is none.
pub open spec fn json_reply(reply: Result<Json, ApiErr>) -> Result<Json, ErrView> {
    match reply {
        Ok(json) => Ok(json),
        Err(error) => Err(error@),
    }
}

/// The view of a page or of why there is none.
pub open spec fn page_reply(reply: Result<String, ApiErr>) -> Result<Seq<char>, ErrView> {
    match reply {
        Ok(page) => Ok(page@),
        Err(error) => Err(error@),
    }
}

/// What a message of the service comes to: a word of success is a success; that it is over, or
/// that there is none, is the end of it; anything else is a failure.
pub open spec fn message_result(message: Seq<char>, failure_prefix: Seq<char>) -> ResultView {
    if contains_text(message, "成功"@) {
        ResultView::Success(message)
    } else if contains_text(message, "已结束"@) || contains_text(message, "没有正在"@) {
        ResultView::Gone(message)
    } else {
        ResultView::Failed(failure_prefix + ": "@ + message)
    }
}

/// What a message of the service comes to.
pub fn classify_message(message: &str, failure_prefix: &str) -> (r: CheckInResult)
    ensures
        r@ == message_result(message@, failure_prefix@),
{
    if has_text(message, "成功") {
        return CheckInResult::Success(copy_of(message));
    }
    if has_text(message, "已结束") || has_text(message, "没有正在") {
        return CheckInResult::Gone(copy_of(message));
    }
    CheckInResult::Failed(concat3(failure_prefix, ": ", message))
}

/// What a reply to a check-in comes to: its message counts; without one, and where it cannot be
/// read, it is a failure.
pub open spec fn sign_json_result(
    reply: Result<Json, ErrView>,
    failure_prefix: Seq<char>,
) -> ResultView {
    match reply {
        Ok(json) => match text_in(field(json, "msgbox"@)) {
            Some(message) if message.len() > 0 => message_result(message, failure_prefix),
            _ => ResultView::Failed(failure_prefix),
        },
        Err(error) => ResultView::Failed(failure_prefix + ": "@ + error_text(error)),
    }
}

/// What a reply to a check-in comes to.
pub fn classify_sign_json(reply: &Result<Json, ApiErr>, failure_prefix: &str) -> (r:
    CheckInResult)
    ensures
        r@ == sign_json_result(json_reply(*reply), failure_prefix@),
{
    match reply {
        Ok(json) => match json.get_text("msgbox") {
            Some(message) => if is_empty(message.as_str()) {
                CheckInResult::Failed(copy_of(failure_prefix))
            } else {
                classify_message(message.as_str(), failure_prefix)
            },
            None => CheckInResult::Failed(copy_of(failure_prefix)),
        },
        Err(error) => CheckInResult::Failed(
            concat3(failure_prefix, ": ", error.message().as_str()),
        ),
    }
}

/// The reply to a request that posts a check-in: it came, and can be read or not; or it did not
/// come.
pub enum SignReply {
    Came(Result<Json, ApiErr>),
    Lost(ApiErr),
}

/// What a posted check-in comes to.
pub open spec fn posted_result(reply: SignReply) -> ResultView {
    match reply {
        SignReply::Came(body) => sign_json_result(json_reply(body), "签到未成功"@),
        SignReply::Lost(error) => ResultView::Failed("签到异常: "@ + error_text(error@)),
    }
}

/// What a posted check-in comes to.
pub fn posted_outcome(reply: &SignReply) -> (r: CheckInResult)
    ensures
        r@ == posted_result(*reply),
{
    match reply {
        SignReply::Came(body) => classify_sign_json(body, "签到未成功"),
        SignReply::Lost(error) => CheckInResult::Failed(
            concat2("签到异常: ", error.message().as_str()),
        ),
    }
}

/// What the page comes to that answers a scanned code.
pub open spec fn scan_result(reply: Result<Seq<char>, ErrView>) -> ResultView {
    match reply {
        Ok(html) => if contains_text(html, "签到成功"@) {
            ResultView::Success("签到成功"@)
        } else if contains_text(html, "非微信"@) {
            ResultView::Failed("非微信链接登录,无法二维码签到"@)
        } else {
            ResultView::Failed("二维码签到未成功: "@ + snippet_of(html))
        },
        Err(error) => ResultView::Failed("二维码签到异常: "@ + error_text(error)),
    }
}

/// What the page comes to that answers a scanned code.
pub fn scan_outcome(reply: &Result<String, ApiErr>) -> (r: CheckInResult)
    ensures
        r@ == scan_result(page_reply(*reply)),
{
    match reply {
        Ok(html) => if has_text(html.as_str(), "签到成功") {
            CheckInResult::Success(copy_of("签到成功"))
        } else if has_text(html.as_str(), "非微信") {
            CheckInResult::Failed(copy_of("非微信链接登录,无法二维码签到"))
        } else {
            CheckInResult::Failed(
                concat2("二维码签到未成功: ", first_text_snippet(html.as_str()).as_str()),
            )
        },
        Err(error) => CheckInResult::Failed(
            concat2("二维码签到异常: ", error.message().as_str()),
        ),
    }
}

/// A message that holds a word of success is never a failure, whatever else it holds.
pub proof fn success_wins(message: Seq<char>, failure_prefix: Seq<char>)
    requires
        contains_text(message, "成功"@),
    ensures
        message_result(message, failure_prefix) == ResultView::Success(message),
{
}

/// The page of a scanned code comes to a success exactly where it holds the whole word of
/// success, whatever else it holds; otherwise it comes to a failure, and never to an end.
pub proof fn scan_needs_whole_word(html: Seq<char>)
    ensures
        contains_text(html, "签到成功"@) ==> scan_result(Ok(html)) == ResultView::Success(
            "签到成功"@,
        ),
        !contains_text(html, "签到成功"@) ==> scan_result(Ok(html)) is Failed,
{
}

/// Why a scan failed is told: that the session is of the wrong kind where the page says so, and
/// otherwise how the page begins.
pub proof fn failed_scan_says_why(html: Seq<char>)
    requires
        !contains_text(html, "签到成功"@),
    ensures
        contains_text(html, "非微信"@) ==> scan_result(Ok(html)) == ResultView::Failed(
            "非微信链接登录,无法二维码签到"@,
        ),
        !contains_text(html, "非微信"@) ==> scan_result(Ok(html)) == ResultView::Failed(
            "二维码签到未成功: "@ + snippet_of(html),
        ),
{
}

/// A message is a success exactly where it holds the word of success; an end exactly where it
/// does not and says that the activity is over or that none is open; and a failure otherwise. A
/// success and an end keep the message as it is, a failure keeps it behind its prefix.
pub proof fn message_is_told_apart(message: Seq<char>, prefix: Seq<char>)
    ensures
        ({
            let good = contains_text(message, "成功"@);
            let over = contains_text(message, "已结束"@);
            let none_open = contains_text(message, "没有正在"@);
            let result = message_result(message, prefix);
            &&& result is Success == good
            &&& result is Gone == (!good && (over || none_open))
            &&& result is Failed == (!good && !over && !none_open)
            &&& result is Success ==> result->Success_0 == message
            &&& result is Gone ==> result->Gone_0 == message
            &&& result is Failed ==> result->Failed_0 == prefix + ": "@ + message
        }),
{
}

/// An answer to a form is judged by the text in its message field alone: two answers with the
/// same message come to the same; without one, or with an empty one, the check-in has failed.
pub proof fn answer_is_judged_by_message(json: Json, message: Seq<char>)
    ensures
        text_in(field(json, "msgbox"@)) == Some(message) && message.len() > 0 ==> posted_result(
            SignReply::Came(Ok(json)),
        ) == message_result(message, "签到未成功"@),
        text_in(field(json, "msgbox"@)) is None || (text_in(field(json, "msgbox"@)) == Some(
            message,
        ) && message.len() == 0) ==> posted_result(SignReply::Came(Ok(json)))
            == ResultView::Failed("签到未成功"@),
{
}

/// Where no answer can be had nothing was checked in to: the check-in has failed, and the error is
/// told.
pub proof fn error_is_failure(error: ApiErr)
    ensures
        posted_result(SignReply::Lost(error)) == ResultView::Failed(
            "签到异常: "@ + error_text(error@),
        ),
        posted_result(SignReply::Came(Err(error))) == ResultView::Failed(
            "签到未成功: "@ + error_text(error@),
        ),
        scan_result(Err(error@)) == ResultView::Failed(
            "二维码签到异常: "@ + error_text(error@),
        ),
{
    reveal_strlit("签到未成功");
    reveal_strlit(": ");
    reveal_strlit("签到未成功: ");
    assert("签到未成功"@ + ": "@ =~= "签到未成功: "@);
}

} // verus!
