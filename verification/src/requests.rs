//! The requests that the service understands.
use crate::cookies::{lacks, segment_ends_there, segments_of_sum};
use crate::models::{Course, CourseView};
use crate::text::{concat2, concat3, copy_of, joined, segments, split_once};
use crate::transport::{headers_of, HeaderView, PlanView, RequestPlan, HOST};
use vstd::prelude::*;

verus! {

/// A request for a page.
pub open spec fn page_plan(path: Seq<char>) -> PlanView {
    PlanView {
        path,
        data: None,
        referer: None,
        extra_headers: Seq::empty(),
        mobile_ua: false,
    }
}

/// A request that posts a form and claims to come from another page of the service.
pub open spec fn form_plan(
    path: Seq<char>,
    data: Seq<char>,
    referer_path: Seq<char>,
    extra_headers: Seq<HeaderView>,
) -> PlanView {
    PlanView {
        path,
        data: Some(data),
        referer: Some(HOST@ + referer_path),
        extra_headers,
        mobile_ua: false,
    }
}

/// A request for a page.
pub fn get(path: String) -> (r: RequestPlan)
    ensures
        r@ == page_plan(path@),
{
    let extra_headers: Vec<(String, String)> = Vec::new();
    assert(headers_of(extra_headers@) =~= Seq::empty());
    RequestPlan { path, data: None, referer: None, extra_headers, mobile_ua: false }
}

/// A request that posts a form and claims to come from another page of the service.
pub fn post_with_headers(
    path: &str,
    data: String,
    referer_path: &str,
    extra_headers: Vec<(String, String)>,
) -> (r: RequestPlan)
    ensures
        r@ == form_plan(path@, data@, referer_path@, headers_of(extra_headers@)),
{
    RequestPlan {
        path: copy_of(path),
        data: Some(data),
        referer: Some(concat2(HOST, referer_path)),
        extra_headers,
        mobile_ua: false,
    }
}

fn post(path: &str, data: String, referer_path: &str) -> (r: RequestPlan)
    ensures
        r@ == form_plan(path@, data@, referer_path@, Seq::empty()),
{
    let extra_headers: Vec<(String, String)> = Vec::new();
    assert(headers_of(extra_headers@) =~= Seq::empty());
    post_with_headers(path, data, referer_path, extra_headers)
}

// ---------------------------------------------------------------------------------------
// Session

/// The exchange of an authorisation code for a session.
pub open spec fn exchange_plan(code: Seq<char>) -> PlanView {
    page_plan("/P.aspx?authtype=1&code="@ + code + "&state=1"@)
}

/// The exchange of an authorisation code for a session.
pub fn exchange_request(code: &str) -> (r: RequestPlan)
    ensures
        r@ == exchange_plan(code@),
{
    get(concat3("/P.aspx?authtype=1&code=", code, "&state=1"))
}

/// The question whether the session holds.
pub open spec fn session_plan() -> PlanView {
    form_plan(
        "/AppCode/LoginInfo.ashx"@,
        "Action=checklogin"@,
        "/_UserCenter/PC/CenterStudent.aspx"@,
        Seq::empty(),
    )
}

/// The question whether the session holds.
pub fn session_request() -> (r: RequestPlan)
    ensures
        r@ == session_plan(),
{
    post(
        "/AppCode/LoginInfo.ashx",
        copy_of("Action=checklogin"),
        "/_UserCenter/PC/CenterStudent.aspx",
    )
}

/// The student's home page.
pub open spec fn home_plan() -> PlanView {
    page_plan("/_UserCenter/MB/index.aspx"@)
}

/// The student's home page.
pub fn home_request() -> (r: RequestPlan)
    ensures
        r@ == home_plan(),
{
    get(copy_of("/_UserCenter/MB/index.aspx"))
}

/// The page of personal details.
pub open spec fn details_plan() -> PlanView {
    page_plan("/_UserCenter/PC/PersonalDetials.aspx"@)
}

/// The page of personal details.
pub fn details_request() -> (r: RequestPlan)
    ensures
        r@ == details_plan(),
{
    get(copy_of("/_UserCenter/PC/PersonalDetials.aspx"))
}

// ---------------------------------------------------------------------------------------
// Courses

/// The question for the course list.
pub open spec fn courses_plan() -> PlanView {
    form_plan(
        "/_UserCenter/CourseInfo.ashx"@,
        "action=getstudentcourse&classtypeid=2"@,
        "/_UserCenter/PC/CenterStudent.aspx"@,
        Seq::empty(),
    )
}

/// The question for the course list.
pub fn courses_request() -> (r: RequestPlan)
    ensures
        r@ == courses_plan(),
{
    post(
        "/_UserCenter/CourseInfo.ashx",
        copy_of("action=getstudentcourse&classtypeid=2"),
        "/_UserCenter/PC/CenterStudent.aspx",
    )
}

/// The page of a course on missed check-ins.
pub open spec fn missed_plan(tclass_id: Seq<char>) -> PlanView {
    page_plan("/_CheckIn/PC/StudentNoCheckCount.aspx?classid="@ + tclass_id)
}

/// The page of a course on missed check-ins.
pub fn missed_request(tclass_id: &str) -> (r: RequestPlan)
    ensures
        r@ == missed_plan(tclass_id@),
{
    get(concat2("/_CheckIn/PC/StudentNoCheckCount.aspx?classid=", tclass_id))
}

/// The form that asks for the check-in list of a course.
pub open spec fn list_form(tclass_id: Seq<char>, uid: Seq<char>) -> Seq<char> {
    "action=getstudentinlogbyday&classid="@ + tclass_id + "&studentid="@ + uid
}

fn list_data(tclass_id: &str, uid: &str) -> (r: String)
    ensures
        r@ == list_form(tclass_id@, uid@),
{
    let mut data: String = concat3(
        "action=getstudentinlogbyday&classid=",
        tclass_id,
        "&studentid=",
    );
    data.append(uid);
    data
}

/// The headers of a question that a script of a page puts.
pub open spec fn script_headers() -> Seq<HeaderView> {
    seq![
        ("X-Requested-With"@, "XMLHttpRequest"@),
        ("Origin"@, HOST@),
        ("Accept"@, "application/json, text/javascript, */*; q=0.01"@),
    ]
}

/// The question for the check-in list of a course, to see whether there is one.
pub open spec fn probe_plan(tclass_id: Seq<char>, uid: Seq<char>) -> PlanView {
    form_plan(
        "/_CheckIn/MBCount.ashx"@,
        list_form(tclass_id, uid),
        "/_CheckIn/PC/StudentNoCheckCount.aspx"@,
        script_headers(),
    )
}

/// The question for the check-in list of a course, to see whether there is one.
pub fn probe_request(tclass_id: &str, uid: &str) -> (r: RequestPlan)
    ensures
        r@ == probe_plan(tclass_id@, uid@),
{
    let mut headers: Vec<(String, String)> = Vec::new();
    headers.push((copy_of("X-Requested-With"), copy_of("XMLHttpRequest")));
    headers.push((copy_of("Origin"), copy_of(HOST)));
    headers.push(
        (copy_of("Accept"), copy_of("application/json, text/javascript, */*; q=0.01")),
    );
    assert(headers_of(headers@) =~= script_headers());
    post_with_headers(
        "/_CheckIn/MBCount.ashx",
        list_data(tclass_id, uid),
        "/_CheckIn/PC/StudentNoCheckCount.aspx",
        headers,
    )
}

/// The question for the check-in list of a course.
pub open spec fn list_plan(tclass_id: Seq<char>, uid: Seq<char>) -> PlanView {
    form_plan(
        "/_CheckIn/MBCount.ashx"@,
        list_form(tclass_id, uid),
        "/_UserCenter/MB/index.aspx"@,
        Seq::empty(),
    )
}

/// The question for the check-in list of a course.
pub fn list_request(tclass_id: &str, uid: &str) -> (r: RequestPlan)
    ensures
        r@ == list_plan(tclass_id@, uid@),
{
    post("/_CheckIn/MBCount.ashx", list_data(tclass_id, uid), "/_UserCenter/MB/index.aspx")
}

/// The page by which a course is entered.
pub open spec fn entry_plan(class_id: Seq<char>) -> PlanView {
    PlanView {
        referer: Some(HOST@ + "/_UserCenter/MB/index.aspx"@),
        ..page_plan("/_UserCenter/MB/Module.aspx?data="@ + class_id)
    }
}

/// The page by which a course is entered.
pub fn entry_request(class_id: &str) -> (r: RequestPlan)
    ensures
        r@ == entry_plan(class_id@),
{
    let mut plan: RequestPlan = get(concat2("/_UserCenter/MB/Module.aspx?data=", class_id));
    plan.referer = Some(concat2(HOST, "/_UserCenter/MB/index.aspx"));
    plan
}

/// The page of the check-in that is open in a course; of the two kinds of it the second is the
/// one for places.
pub open spec fn activity_plan(tclass_id: Seq<char>, by_place: bool) -> PlanView {
    page_plan(
        "/_CheckIn/MB/TeachCheckIn.aspx?classid="@ + tclass_id + if by_place {
            "&temps=0&checktype=3&isrefresh=0&timeinterval=0&roomid=0&match="@
        } else {
            "&temps=0&checktype=1&isrefresh=0&timeinterval=0&roomid=0&match="@
        },
    )
}

/// The page of the check-in that is open in a course.
pub fn activity_request(tclass_id: &str, by_place: bool) -> (r: RequestPlan)
    ensures
        r@ == activity_plan(tclass_id@, by_place),
{
    if by_place {
        get(
            concat3(
                "/_CheckIn/MB/TeachCheckIn.aspx?classid=",
                tclass_id,
                "&temps=0&checktype=3&isrefresh=0&timeinterval=0&roomid=0&match=",
            ),
        )
    } else {
        get(
            concat3(
                "/_CheckIn/MB/TeachCheckIn.aspx?classid=",
                tclass_id,
                "&temps=0&checktype=1&isrefresh=0&timeinterval=0&roomid=0&match=",
            ),
        )
    }
}

// ---------------------------------------------------------------------------------------
// Checking in

/// The page from which check-ins are posted.
pub open spec fn sign_page() -> Seq<char> {
    "/_CheckIn/MB/CheckInStudent.aspx?moduleid=16&pasd="@
}

/// A check-in with a code.
pub open spec fn code_plan(uid: Seq<char>, code: Seq<char>) -> PlanView {
    form_plan(
        "/_CheckIn/CheckIn.ashx"@,
        "action=studentcheckin&studentid="@ + uid + "&checkincode="@ + code,
        sign_page(),
        Seq::empty(),
    )
}

/// A check-in with a code.
pub fn code_request(uid: &str, code: &str) -> (r: RequestPlan)
    ensures
        r@ == code_plan(uid@, code@),
{
    let mut data: String = concat3("action=studentcheckin&studentid=", uid, "&checkincode=");
    data.append(code);
    post("/_CheckIn/CheckIn.ashx", data, "/_CheckIn/MB/CheckInStudent.aspx?moduleid=16&pasd=")
}

/// A check-in by scanning.
pub open spec fn scan_plan(activity_id: Seq<char>) -> PlanView {
    page_plan("/_CheckIn/MB/QrCodeCheckOK.aspx?state="@ + activity_id)
}

/// A check-in by scanning.
pub fn scan_request(activity_id: &str) -> (r: RequestPlan)
    ensures
        r@ == scan_plan(activity_id@),
{
    get(concat2("/_CheckIn/MB/QrCodeCheckOK.aspx?state=", activity_id))
}

/// The form of a check-in at a place, whose longitude and latitude are given in decimal
/// notation.
pub open spec fn location_form(
    uid: Seq<char>,
    course: CourseView,
    longitude: Seq<char>,
    latitude: Seq<char>,
) -> Seq<char> {
    "action=signin&cid="@ + course.class_id + "&tcid="@ + course.tclass_id + "&sid="@ + uid
        + "&latitude="@ + latitude + "&longitude="@ + longitude
}

/// The form of a check-in at a place.
pub fn location_body(uid: &str, course: &Course, longitude: &str, latitude: &str) -> (r: String)
    ensures
        r@ == location_form(uid@, course@, longitude@, latitude@),
{
    let mut body: String = copy_of("action=signin&cid=");
    body.append(course.class_id.as_str());
    body.append("&tcid=");
    body.append(course.tclass_id.as_str());
    body.append("&sid=");
    body.append(uid);
    body.append("&latitude=");
    body.append(latitude);
    body.append("&longitude=");
    body.append(longitude);
    body
}

/// A check-in at a place.
pub open spec fn location_plan(
    uid: Seq<char>,
    course: CourseView,
    longitude: Seq<char>,
    latitude: Seq<char>,
) -> PlanView {
    PlanView {
        mobile_ua: true,
        ..form_plan(
            "/_CheckIn/CheckInRoomHandler.ashx"@,
            location_form(uid, course, longitude, latitude),
            sign_page(),
            seq![("X-Requested-With"@, "XMLHttpRequest"@)],
        )
    }
}

/// A check-in at a place.
pub fn location_request(uid: &str, course: &Course, longitude: &str, latitude: &str) -> (r:
    RequestPlan)
    ensures
        r@ == location_plan(uid@, course@, longitude@, latitude@),
{
    let mut headers: Vec<(String, String)> = Vec::new();
    headers.push((copy_of("X-Requested-With"), copy_of("XMLHttpRequest")));
    assert(headers_of(headers@) =~= seq![("X-Requested-With"@, "XMLHttpRequest"@)]);
    let mut plan: RequestPlan = post_with_headers(
        "/_CheckIn/CheckInRoomHandler.ashx",
        location_body(uid, course, longitude, latitude),
        "/_CheckIn/MB/CheckInStudent.aspx?moduleid=16&pasd=",
        headers,
    );
    plan.mobile_ua = true;
    plan
}

// ---------------------------------------------------------------------------------------
// What the service reads in a request

/// Fields that are joined by ampersands are parted there again.
proof fn fields_are_parted(fields: Seq<Seq<char>>)
    requires
        fields.len() > 0,
        forall|i: int| 0 <= i < fields.len() ==> lacks(#[trigger] fields[i], '&'),
    ensures
        segments(joined(fields, "&"@), '&') == fields,
    decreases fields.len(),
{
    reveal_strlit("&");
    if fields.len() == 1 {
        segments_of_sum(fields[0], '&', Seq::empty());
        assert(fields =~= seq![fields[0]]);
    } else {
        let rest = fields.drop_first();
        assert forall|i: int| 0 <= i < rest.len() implies lacks(#[trigger] rest[i], '&') by {
            assert(rest[i] == fields[i + 1]);
        }
        fields_are_parted(rest);
        assert("&"@ =~= seq!['&']);
        segments_of_sum(fields[0], '&', joined(rest, "&"@));
        assert(fields =~= seq![fields[0]] + rest);
    }
}

/// Who parts a path at its question mark and its query at the ampersands finds this page and these
/// fields.
pub open spec fn asks_page(path: Seq<char>, page: Seq<char>, fields: Seq<Seq<char>>) -> bool {
    split_once(path, '?') matches Some((head, query)) && head == page && segments(query, '&')
        == fields
}

/// Who parts a form at the ampersands finds these fields.
pub open spec fn has_fields(form: Option<Seq<char>>, fields: Seq<Seq<char>>) -> bool {
    form matches Some(text) && segments(text, '&') == fields
}

/// The request claims to come from a page of the service.
pub open spec fn comes_from(plan: PlanView, page: Seq<char>) -> bool {
    plan.referer == Some("https://www.duifene.com"@ + page)
}

/// Asks for a page as a browser on a desk does, without a form and without further headers.
pub open spec fn is_plain_get(plan: PlanView) -> bool {
    plan.data is None && plan.extra_headers.len() == 0 && !plan.mobile_ua
}

proof fn page_is_asked(path: Seq<char>, page: Seq<char>, fields: Seq<Seq<char>>)
    requires
        path == page + seq!['?'] + joined(fields, "&"@),
        lacks(page, '?'),
        fields.len() > 0,
        forall|i: int| 0 <= i < fields.len() ==> lacks(#[trigger] fields[i], '&'),
    ensures
        asks_page(path, page, fields),
{
    let query = joined(fields, "&"@);
    fields_are_parted(fields);
    segment_ends_there(page, '?', query);
    assert(path.take(page.len() as int) =~= page);
    assert(path.skip(page.len() as int + 1) =~= query);
}

/// The code of a link is handed in as the code of the authorisation, and nothing else is told.
pub proof fn exchange_hands_in_code(code: Seq<char>)
    requires
        lacks(code, '&'),
    ensures
        asks_page(
            exchange_plan(code).path,
            "/P.aspx"@,
            seq!["authtype=1"@, "code="@ + code, "state=1"@],
        ),
        is_plain_get(exchange_plan(code)),
        exchange_plan(code).referer is None,
{
    reveal_strlit("/P.aspx?authtype=1&code=");
    reveal_strlit("/P.aspx");
    reveal_strlit("authtype=1");
    reveal_strlit("code=");
    reveal_strlit("state=1");
    reveal_strlit("&state=1");
    reveal_strlit("&");
    reveal_with_fuel(joined, 3);
    let fields = seq!["authtype=1"@, "code="@ + code, "state=1"@];
    assert(fields.drop_first() =~= seq!["code="@ + code, "state=1"@]);
    assert(fields.drop_first().drop_first() =~= seq!["state=1"@]);
    assert(exchange_plan(code).path =~= "/P.aspx"@ + seq!['?'] + joined(fields, "&"@));
    assert(lacks(fields[1], '&')) by {
        assert forall|i: int| 0 <= i < fields[1].len() implies fields[1][i] != '&' by {
            if i >= 5 {
                assert(fields[1][i] == code[i - 5]);
            }
        }
    }
    page_is_asked(exchange_plan(code).path, "/P.aspx"@, fields);
}

/// The pages of a course are asked for by its identities: the course page by that of the course,
/// the pages on attendance by that of the class.
pub proof fn pages_are_asked_by_identity(class_id: Seq<char>, tclass_id: Seq<char>, uid: Seq<char>)
    requires
        lacks(class_id, '&'),
        lacks(tclass_id, '&'),
    ensures
        asks_page(
            missed_plan(tclass_id).path,
            "/_CheckIn/PC/StudentNoCheckCount.aspx"@,
            seq!["classid="@ + tclass_id],
        ),
        is_plain_get(missed_plan(tclass_id)),
        missed_plan(tclass_id).referer is None,
        asks_page(
            entry_plan(class_id).path,
            "/_UserCenter/MB/Module.aspx"@,
            seq!["data="@ + class_id],
        ),
        is_plain_get(entry_plan(class_id)),
        comes_from(entry_plan(class_id), "/_UserCenter/MB/index.aspx"@),
{
    reveal_strlit("/_CheckIn/PC/StudentNoCheckCount.aspx?classid=");
    reveal_strlit("/_CheckIn/PC/StudentNoCheckCount.aspx");
    reveal_strlit("classid=");
    reveal_strlit("/_UserCenter/MB/Module.aspx?data=");
    reveal_strlit("/_UserCenter/MB/Module.aspx");
    reveal_strlit("data=");
    let missed = seq!["classid="@ + tclass_id];
    let entry = seq!["data="@ + class_id];
    assert(missed_plan(tclass_id).path =~= "/_CheckIn/PC/StudentNoCheckCount.aspx"@ + seq!['?']
        + joined(missed, "&"@));
    assert(entry_plan(class_id).path =~= "/_UserCenter/MB/Module.aspx"@ + seq!['?'] + joined(
        entry,
        "&"@,
    ));
    assert(lacks(missed[0], '&')) by {
        assert forall|i: int| 0 <= i < missed[0].len() implies missed[0][i] != '&' by {
            if i >= 8 {
                assert(missed[0][i] == tclass_id[i - 8]);
            }
        }
    }
    assert(lacks(entry[0], '&')) by {
        assert forall|i: int| 0 <= i < entry[0].len() implies entry[0][i] != '&' by {
            if i >= 5 {
                assert(entry[0][i] == class_id[i - 5]);
            }
        }
    }
    page_is_asked(missed_plan(tclass_id).path, "/_CheckIn/PC/StudentNoCheckCount.aspx"@, missed);
    page_is_asked(entry_plan(class_id).path, "/_UserCenter/MB/Module.aspx"@, entry);
}

/// A scanned code is handed in by the identity of its activity.
pub proof fn scan_names_activity(activity_id: Seq<char>)
    requires
        lacks(activity_id, '&'),
    ensures
        asks_page(
            scan_plan(activity_id).path,
            "/_CheckIn/MB/QrCodeCheckOK.aspx"@,
            seq!["state="@ + activity_id],
        ),
        is_plain_get(scan_plan(activity_id)),
        scan_plan(activity_id).referer is None,
{
    reveal_strlit("/_CheckIn/MB/QrCodeCheckOK.aspx?state=");
    reveal_strlit("/_CheckIn/MB/QrCodeCheckOK.aspx");
    reveal_strlit("state=");
    let fields = seq!["state="@ + activity_id];
    assert(scan_plan(activity_id).path =~= "/_CheckIn/MB/QrCodeCheckOK.aspx"@ + seq!['?'] + joined(
        fields,
        "&"@,
    ));
    assert(lacks(fields[0], '&')) by {
        assert forall|i: int| 0 <= i < fields[0].len() implies fields[0][i] != '&' by {
            if i >= 6 {
                assert(fields[0][i] == activity_id[i - 6]);
            }
        }
    }
    page_is_asked(scan_plan(activity_id).path, "/_CheckIn/MB/QrCodeCheckOK.aspx"@, fields);
}

/// The page of an activity is asked for by the class, as one by place or as one by code.
pub proof fn activity_page_tells_kind(tclass_id: Seq<char>, by_place: bool)
    requires
        lacks(tclass_id, '&'),
    ensures
        asks_page(
            activity_plan(tclass_id, by_place).path,
            "/_CheckIn/MB/TeachCheckIn.aspx"@,
            seq![
                "classid="@ + tclass_id,
                "temps=0"@,
                if by_place {
                    "checktype=3"@
                } else {
                    "checktype=1"@
                },
                "isrefresh=0"@,
                "timeinterval=0"@,
                "roomid=0"@,
                "match="@,
            ],
        ),
        is_plain_get(activity_plan(tclass_id, by_place)),
        activity_plan(tclass_id, by_place).referer is None,
{
    reveal_strlit("/_CheckIn/MB/TeachCheckIn.aspx?classid=");
    reveal_strlit("/_CheckIn/MB/TeachCheckIn.aspx");
    reveal_strlit("classid=");
    reveal_strlit("&temps=0&checktype=3&isrefresh=0&timeinterval=0&roomid=0&match=");
    reveal_strlit("&temps=0&checktype=1&isrefresh=0&timeinterval=0&roomid=0&match=");
    reveal_strlit("temps=0");
    reveal_strlit("checktype=3");
    reveal_strlit("checktype=1");
    reveal_strlit("isrefresh=0");
    reveal_strlit("timeinterval=0");
    reveal_strlit("roomid=0");
    reveal_strlit("match=");
    reveal_strlit("&");
    let kind = if by_place {
        "checktype=3"@
    } else {
        "checktype=1"@
    };
    let fields = seq![
        "classid="@ + tclass_id,
        "temps=0"@,
        kind,
        "isrefresh=0"@,
        "timeinterval=0"@,
        "roomid=0"@,
        "match="@,
    ];
    let tail1 = fields.drop_first();
    let tail2 = tail1.drop_first();
    let tail3 = tail2.drop_first();
    let tail4 = tail3.drop_first();
    let tail5 = tail4.drop_first();
    let tail6 = tail5.drop_first();
    assert(joined(tail6, "&"@) == "match="@);
    assert(joined(tail5, "&"@) == "roomid=0"@ + "&"@ + joined(tail6, "&"@));
    assert(joined(tail4, "&"@) == "timeinterval=0"@ + "&"@ + joined(tail5, "&"@));
    assert(joined(tail3, "&"@) == "isrefresh=0"@ + "&"@ + joined(tail4, "&"@));
    assert(joined(tail2, "&"@) == kind + "&"@ + joined(tail3, "&"@));
    assert(joined(tail1, "&"@) == "temps=0"@ + "&"@ + joined(tail2, "&"@));
    let path = activity_plan(tclass_id, by_place).path;
    assert(path =~= "/_CheckIn/MB/TeachCheckIn.aspx"@ + seq!['?'] + joined(fields, "&"@));
    assert(lacks(fields[0], '&')) by {
        assert forall|i: int| 0 <= i < fields[0].len() implies fields[0][i] != '&' by {
            if i >= 8 {
                assert(fields[0][i] == tclass_id[i - 8]);
            }
        }
    }
    page_is_asked(path, "/_CheckIn/MB/TeachCheckIn.aspx"@, fields);
}

proof fn field_lacks(name: Seq<char>, value: Seq<char>)
    requires
        lacks(name, '&'),
        lacks(value, '&'),
    ensures
        lacks(name + value, '&'),
{
}

/// The list of a class is asked for by the class and the student, with the same form before and
/// after the class was discovered; only the page that it claims to come from and the headers of a
/// script differ.
pub proof fn list_names_class_and_student(tclass_id: Seq<char>, uid: Seq<char>)
    requires
        lacks(tclass_id, '&'),
        lacks(uid, '&'),
    ensures
        list_plan(tclass_id, uid).path == "/_CheckIn/MBCount.ashx"@,
        has_fields(
            list_plan(tclass_id, uid).data,
            seq!["action=getstudentinlogbyday"@, "classid="@ + tclass_id, "studentid="@ + uid],
        ),
        comes_from(list_plan(tclass_id, uid), "/_UserCenter/MB/index.aspx"@),
        list_plan(tclass_id, uid).extra_headers.len() == 0,
        !list_plan(tclass_id, uid).mobile_ua,
        probe_plan(tclass_id, uid).path == list_plan(tclass_id, uid).path,
        probe_plan(tclass_id, uid).data == list_plan(tclass_id, uid).data,
        comes_from(probe_plan(tclass_id, uid), "/_CheckIn/PC/StudentNoCheckCount.aspx"@),
        probe_plan(tclass_id, uid).extra_headers == seq![
            ("X-Requested-With"@, "XMLHttpRequest"@),
            ("Origin"@, "https://www.duifene.com"@),
            ("Accept"@, "application/json, text/javascript, */*; q=0.01"@),
        ],
        !probe_plan(tclass_id, uid).mobile_ua,
{
    reveal_strlit("action=getstudentinlogbyday&classid=");
    reveal_strlit("action=getstudentinlogbyday");
    reveal_strlit("classid=");
    reveal_strlit("&studentid=");
    reveal_strlit("studentid=");
    reveal_strlit("&");
    reveal_with_fuel(joined, 3);
    let fields = seq![
        "action=getstudentinlogbyday"@,
        "classid="@ + tclass_id,
        "studentid="@ + uid,
    ];
    let tail = fields.drop_first();
    assert(tail =~= seq!["classid="@ + tclass_id, "studentid="@ + uid]);
    assert(tail.drop_first() =~= seq!["studentid="@ + uid]);
    assert(list_form(tclass_id, uid) =~= joined(fields, "&"@));
    field_lacks("classid="@, tclass_id);
    field_lacks("studentid="@, uid);
    fields_are_parted(fields);
}

/// A code is handed in for the student, in its own field.
pub proof fn code_is_handed_in_for_student(uid: Seq<char>, code: Seq<char>)
    requires
        lacks(uid, '&'),
        lacks(code, '&'),
    ensures
        code_plan(uid, code).path == "/_CheckIn/CheckIn.ashx"@,
        has_fields(
            code_plan(uid, code).data,
            seq!["action=studentcheckin"@, "studentid="@ + uid, "checkincode="@ + code],
        ),
        comes_from(code_plan(uid, code), "/_CheckIn/MB/CheckInStudent.aspx?moduleid=16&pasd="@),
        code_plan(uid, code).extra_headers.len() == 0,
        !code_plan(uid, code).mobile_ua,
{
    reveal_strlit("action=studentcheckin&studentid=");
    reveal_strlit("action=studentcheckin");
    reveal_strlit("studentid=");
    reveal_strlit("&checkincode=");
    reveal_strlit("checkincode=");
    reveal_strlit("&");
    reveal_with_fuel(joined, 3);
    let fields = seq!["action=studentcheckin"@, "studentid="@ + uid, "checkincode="@ + code];
    let tail = fields.drop_first();
    assert(tail =~= seq!["studentid="@ + uid, "checkincode="@ + code]);
    assert(tail.drop_first() =~= seq!["checkincode="@ + code]);
    assert(code_plan(uid, code).data->0 =~= joined(fields, "&"@));
    field_lacks("studentid="@, uid);
    field_lacks("checkincode="@, code);
    fields_are_parted(fields);
}

/// A place is handed in as a telephone does, for the student and the course, the latitude in the
/// field of the latitude and the longitude in that of the longitude.
pub proof fn place_is_handed_in_field_by_field(
    uid: Seq<char>,
    course: CourseView,
    longitude: Seq<char>,
    latitude: Seq<char>,
)
    requires
        lacks(uid, '&'),
        lacks(course.class_id, '&'),
        lacks(course.tclass_id, '&'),
        lacks(longitude, '&'),
        lacks(latitude, '&'),
    ensures
        location_plan(uid, course, longitude, latitude).path
            == "/_CheckIn/CheckInRoomHandler.ashx"@,
        has_fields(
            location_plan(uid, course, longitude, latitude).data,
            seq![
                "action=signin"@,
                "cid="@ + course.class_id,
                "tcid="@ + course.tclass_id,
                "sid="@ + uid,
                "latitude="@ + latitude,
                "longitude="@ + longitude,
            ],
        ),
        comes_from(
            location_plan(uid, course, longitude, latitude),
            "/_CheckIn/MB/CheckInStudent.aspx?moduleid=16&pasd="@,
        ),
        location_plan(uid, course, longitude, latitude).mobile_ua,
        location_plan(uid, course, longitude, latitude).extra_headers == seq![
            ("X-Requested-With"@, "XMLHttpRequest"@),
        ],
{
    reveal_strlit("action=signin&cid=");
    reveal_strlit("action=signin");
    reveal_strlit("cid=");
    reveal_strlit("&tcid=");
    reveal_strlit("tcid=");
    reveal_strlit("&sid=");
    reveal_strlit("sid=");
    reveal_strlit("&latitude=");
    reveal_strlit("latitude=");
    reveal_strlit("&longitude=");
    reveal_strlit("longitude=");
    reveal_strlit("&");
    let cid = "cid="@ + course.class_id;
    let tcid = "tcid="@ + course.tclass_id;
    let sid = "sid="@ + uid;
    let lat = "latitude="@ + latitude;
    let lon = "longitude="@ + longitude;
    let fields = seq!["action=signin"@, cid, tcid, sid, lat, lon];
    let tail1 = fields.drop_first();
    let tail2 = tail1.drop_first();
    let tail3 = tail2.drop_first();
    let tail4 = tail3.drop_first();
    let tail5 = tail4.drop_first();
    assert(joined(tail5, "&"@) == lon);
    assert(joined(tail4, "&"@) == lat + "&"@ + joined(tail5, "&"@));
    assert(joined(tail3, "&"@) == sid + "&"@ + joined(tail4, "&"@));
    assert(joined(tail2, "&"@) == tcid + "&"@ + joined(tail3, "&"@));
    assert(joined(tail1, "&"@) == cid + "&"@ + joined(tail2, "&"@));
    let form = location_form(uid, course, longitude, latitude);
    let head = "action=signin&cid="@ + course.class_id + "&tcid="@ + course.tclass_id;
    assert(head =~= "action=signin"@ + "&"@ + cid + "&"@ + tcid);
    assert("&sid="@ + uid =~= "&"@ + sid);
    assert("&latitude="@ + latitude =~= "&"@ + lat);
    assert("&longitude="@ + longitude =~= "&"@ + lon);
    assert(form =~= head + ("&sid="@ + uid) + ("&latitude="@ + latitude) + ("&longitude="@
        + longitude));
    assert(form =~= joined(fields, "&"@));
    field_lacks("cid="@, course.class_id);
    field_lacks("tcid="@, course.tclass_id);
    field_lacks("sid="@, uid);
    field_lacks("latitude="@, latitude);
    field_lacks("longitude="@, longitude);
    fields_are_parted(fields);
}

/// The session and the courses are asked for by forms that name the wish and nobody; the home
/// page and the details are plain pages.
pub proof fn own_pages_need_no_identity()
    ensures
        session_plan().path == "/AppCode/LoginInfo.ashx"@,
        has_fields(session_plan().data, seq!["Action=checklogin"@]),
        comes_from(session_plan(), "/_UserCenter/PC/CenterStudent.aspx"@),
        session_plan().extra_headers.len() == 0 && !session_plan().mobile_ua,
        courses_plan().path == "/_UserCenter/CourseInfo.ashx"@,
        has_fields(courses_plan().data, seq!["action=getstudentcourse"@, "classtypeid=2"@]),
        comes_from(courses_plan(), "/_UserCenter/PC/CenterStudent.aspx"@),
        courses_plan().extra_headers.len() == 0 && !courses_plan().mobile_ua,
        home_plan().path == "/_UserCenter/MB/index.aspx"@,
        is_plain_get(home_plan()) && home_plan().referer is None,
        details_plan().path == "/_UserCenter/PC/PersonalDetials.aspx"@,
        is_plain_get(details_plan()) && details_plan().referer is None,
{
    reveal_strlit("Action=checklogin");
    reveal_strlit("action=getstudentcourse&classtypeid=2");
    reveal_strlit("action=getstudentcourse");
    reveal_strlit("classtypeid=2");
    reveal_strlit("&");
    reveal_with_fuel(joined, 3);
    let session = seq!["Action=checklogin"@];
    let courses = seq!["action=getstudentcourse"@, "classtypeid=2"@];
    assert(courses.drop_first() =~= seq!["classtypeid=2"@]);
    assert("action=getstudentcourse&classtypeid=2"@ =~= joined(courses, "&"@));
    fields_are_parted(session);
    fields_are_parted(courses);
}

} // verus!
