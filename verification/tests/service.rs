use duifene::api::{ApiErr, CheckInResult, SignReq};
use duifene::cookies::CookieStore;
use duifene::html::{Lookup, PlaceLookup};
use duifene::json::Json;
use duifene::live::{
    activity_coords, attempt_outcomes, check_login, enter_course, fetch_outcomes,
    fetch_without_uid, finish_login, login_name, look_up_missed_uid, look_up_place, look_up_uid,
    on_activity_page, on_entry, sign_plan, sign_without_uid, Attempt, DiscoveryStage,
    DiscoveryStep, Fetched, LiveClient, LoginStage, LoginStep, PageReply, PlaceStage, PlaceStep,
    SignPlan,
};
use duifene::models::{Coordinates, Course, SignActivity, SignType};
use duifene::replies::SignReply;
use duifene::requests::{
    courses_request, details_request, list_request, location_request, session_request,
};
use duifene::transport::{Journey, ReplyHead, RequestPlan, Step, HOST, MAX_REDIRECTS};
use duifene::triangulation::{Action, Learned, Triangulation};

fn course() -> Course {
    Course { class_id: "101".to_string(), tclass_id: "c1".to_string(), name: "课一".to_string() }
}

fn place(longitude: &str, latitude: &str) -> Coordinates {
    Coordinates { longitude: longitude.to_string(), latitude: latitude.to_string() }
}

fn object(entries: &[(&str, Json)]) -> Json {
    Json::Object(
        entries
            .iter()
            .map(|(name, value)| {
                let value = match value {
                    Json::Text(text) => Json::Text(text.clone()),
                    _ => Json::Array(Vec::new()),
                };
                (name.to_string(), value)
            })
            .collect(),
    )
}

fn text(value: &str) -> Json {
    Json::Text(value.to_string())
}

fn form() -> RequestPlan {
    RequestPlan {
        path: "/a".to_string(),
        data: Some("x=1".to_string()),
        referer: Some("r".to_string()),
        extra_headers: vec![("E".to_string(), "e".to_string())],
        mobile_ua: true,
    }
}

fn head(status: u16, location: Option<&str>, set_cookies: &[&str]) -> ReplyHead {
    ReplyHead {
        status,
        location: location.map(|text| text.to_string()),
        set_cookies: set_cookies.iter().map(|text| text.to_string()).collect(),
    }
}

#[test]
fn form_is_posted_with_all_headers() {
    let mut cookies = CookieStore::new();
    cookies.seed("a=1; b=2");
    let sent = Journey::new(form()).outgoing(&cookies);
    assert!(sent.post);
    assert_eq!(sent.url, "https://www.duifene.com/a");
    assert_eq!(sent.body.as_deref(), Some("x=1"));
    let names: Vec<&str> = sent.headers.iter().map(|header| header.0.as_str()).collect();
    assert_eq!(names, ["cookie", "user-agent", "Referer", "E", "content-type"]);
    assert_eq!(sent.headers[0].1, "a=1; b=2");
    assert!(sent.headers[1].1.contains("MicroMessenger"));
    assert_eq!(sent.headers[4].1, "application/x-www-form-urlencoded; charset=UTF-8");
}

#[test]
fn page_is_asked_for_without_headers() {
    let plan = RequestPlan {
        path: "/p".to_string(),
        data: None,
        referer: None,
        extra_headers: Vec::new(),
        mobile_ua: false,
    };
    let sent = Journey::new(plan).outgoing(&CookieStore::new());
    assert!(!sent.post && sent.headers.is_empty() && sent.body.is_none());
}

#[test]
fn request_that_came_too_soon_is_made_once_more() {
    let mut cookies = CookieStore::new();
    let mut journey = Journey::new(form());
    assert!(matches!(journey.on_reply(&mut cookies, &head(429, None, &["s=1"])), Step::Pause));
    assert_eq!(cookies.snapshot(), "s=1");
    assert!(journey.outgoing(&cookies).post);
    assert!(matches!(
        journey.on_reply(&mut cookies, &head(429, None, &[])),
        Step::Fail(ApiErr::Http(429))
    ));
}

#[test]
fn redirections_are_followed_without_the_form() {
    let mut cookies = CookieStore::new();
    let mut journey = Journey::new(form());
    for (location, url) in [
        ("/b", "https://www.duifene.com/b"),
        ("//x.org/c", "https://x.org/c"),
        ("http://y.org", "http://y.org"),
        ("https://z.org", "https://z.org"),
        ("", HOST),
    ] {
        let step = journey.on_reply(&mut cookies, &head(302, Some(location), &[]));
        assert!(matches!(step, Step::Follow));
        let sent = journey.outgoing(&cookies);
        assert_eq!(sent.url, url);
        assert!(!sent.post && sent.body.is_none());
    }
    assert!(matches!(journey.on_reply(&mut cookies, &head(200, None, &[])), Step::Deliver));
}

#[test]
fn redirections_come_to_an_end() {
    let mut cookies = CookieStore::new();
    let mut journey = Journey::new(form());
    for _ in 0..MAX_REDIRECTS {
        assert!(matches!(
            journey.on_reply(&mut cookies, &head(200, Some("/b"), &[])),
            Step::Follow
        ));
    }
    match journey.on_reply(&mut cookies, &head(200, Some("/b"), &[])) {
        Step::Fail(ApiErr::Msg(reason)) => assert_eq!(reason, "重定向次数过多"),
        _ => unreachable!(),
    }
}

#[test]
fn statuses_decide() {
    for (status, delivered) in [(199, false), (200, true), (299, true), (300, false), (404, false)] {
        let mut cookies = CookieStore::new();
        let mut journey = Journey::new(form());
        let step = journey.on_reply(&mut cookies, &head(status, None, &[]));
        assert_eq!(matches!(step, Step::Deliver), delivered);
        assert_eq!(matches!(step, Step::Fail(ApiErr::Http(s)) if s == status), !delivered);
    }
}

#[test]
fn requests_read_as_the_service_wants_them() {
    let plan = session_request();
    assert_eq!(plan.path, "/AppCode/LoginInfo.ashx");
    assert_eq!(plan.data.as_deref(), Some("Action=checklogin"));
    assert_eq!(
        plan.referer.as_deref(),
        Some("https://www.duifene.com/_UserCenter/PC/CenterStudent.aspx")
    );
    assert_eq!(
        courses_request().data.as_deref(),
        Some("action=getstudentcourse&classtypeid=2")
    );
    assert_eq!(details_request().path, "/_UserCenter/PC/PersonalDetials.aspx");
    assert_eq!(
        list_request("c1", "u").data.as_deref(),
        Some("action=getstudentinlogbyday&classid=c1&studentid=u")
    );
    let plan = location_request("u", &course(), "114.50000000", "22.70000000");
    assert!(plan.mobile_ua);
    assert_eq!(
        plan.data.as_deref(),
        Some("action=signin&cid=101&tcid=c1&sid=u&latitude=22.70000000&longitude=114.50000000")
    );
    assert_eq!(plan.extra_headers, [("X-Requested-With".to_string(), "XMLHttpRequest".to_string())]);
}

#[test]
fn session_holds_where_the_service_says_one() {
    assert!(check_login(&Ok(object(&[("msg", text("1"))]))).is_ok());
    match check_login(&Ok(object(&[("msg", text("0")), ("msgbox", text("过期"))]))) {
        Err(ApiErr::Msg(reason)) => assert_eq!(reason, "登录已失效: 过期"),
        _ => unreachable!(),
    }
    match check_login(&Ok(Json::Null)) {
        Err(ApiErr::Msg(reason)) => assert_eq!(reason, "登录已失效: 未知原因"),
        _ => unreachable!(),
    }
    assert!(matches!(check_login(&Err(ApiErr::Http(500))), Err(ApiErr::Http(500))));
}

#[test]
fn login_goes_through_the_exchange() {
    let mut client = LiveClient::from_cookie_string("old=1", None);
    assert_eq!(client.cookie_string(), "old=1");
    match client.login_wechat("no code here") {
        LoginStep::Done(Err(ApiErr::Parse(reason))) => assert_eq!(reason, "无法提取授权码"),
        _ => unreachable!(),
    }
    assert_eq!(client.cookie_string(), "old=1");
    let step = client.login_wechat("x?code=ABCDEF0123456789abcdef0123456789&state=1");
    assert_eq!(client.cookie_string(), "");
    let mut journey = match step {
        LoginStep::Ask { stage: LoginStage::Exchange, request } => {
            assert_eq!(
                request.path,
                "/P.aspx?authtype=1&code=ABCDEF0123456789abcdef0123456789&state=1"
            );
            Journey::new(request)
        }
        _ => unreachable!(),
    };
    assert!(client.outgoing(&journey).headers.is_empty());
    let step = client.on_reply(&mut journey, &head(200, None, &["s=9; Path=/"]));
    assert!(matches!(step, Step::Deliver));
    match client.on_exchange(PageReply::Came(Ok("a  b".to_string()))) {
        LoginStep::Ask { stage: LoginStage::Verify { summary, snippet }, request } => {
            assert_eq!((summary.as_str(), snippet.as_str()), ("s", "a b"));
            assert_eq!(request.path, "/AppCode/LoginInfo.ashx");
        }
        _ => unreachable!(),
    }
    match client.on_exchange(PageReply::Came(Err(ApiErr::AuthLost))) {
        LoginStep::Ask { stage: LoginStage::Verify { snippet, .. }, .. } => assert_eq!(snippet, ""),
        _ => unreachable!(),
    }
    assert!(matches!(
        client.on_exchange(PageReply::Lost(ApiErr::Http(500))),
        LoginStep::Done(Err(ApiErr::Http(500)))
    ));
}

#[test]
fn failed_login_tells_of_the_exchange() {
    assert!(finish_login("s", "p", &Ok(object(&[("msg", text("1"))]))).is_ok());
    match finish_login("s", "p", &Ok(object(&[("msgbox", text("坏"))]))) {
        Err(ApiErr::Msg(reason)) => {
            assert_eq!(reason, "微信登录后会话未生效: 坏; 交换后 cookie: s; 交换页: p")
        }
        _ => unreachable!(),
    }
    assert!(matches!(
        finish_login("s", "p", &Err(ApiErr::Parse("乱".to_string()))),
        Err(ApiErr::Parse(reason)) if reason == "乱"
    ));
}

#[test]
fn login_names_are_read_from_their_page() {
    let page = Ok("<a id=\"aLoginName\">lin</a>".to_string());
    assert_eq!(login_name(&page).unwrap(), "lin");
    assert!(matches!(
        login_name(&Ok(String::new())),
        Err(ApiErr::Parse(reason)) if reason == "无法获取登录名"
    ));
    assert!(matches!(login_name(&Err(ApiErr::AuthLost)), Err(ApiErr::AuthLost)));
}

#[test]
fn student_number_is_learned_once() {
    let mut client = LiveClient::new(None);
    assert_eq!(client.known_uid(), None);
    let found = look_up_uid("<input name=\"myuid\" value=\"S7\">");
    assert_eq!(client.learn_uid(Ok(found)).unwrap(), "S7");
    assert_eq!(client.known_uid().as_deref(), Some("S7"));
    for found in [Lookup::Missing, Lookup::Found(String::new())] {
        assert!(matches!(
            client.learn_uid(Ok(found)),
            Err(ApiErr::Parse(reason)) if reason == "无法获取学生ID"
        ));
    }
    assert!(matches!(client.learn_uid(Err(ApiErr::Http(1))), Err(ApiErr::Http(1))));
    assert_eq!(client.known_uid().as_deref(), Some("S7"));
}

#[test]
fn course_is_discovered_with_the_number_of_its_page() {
    let mut client = LiveClient::new(None);
    match client.ensure_discovered(&course()) {
        DiscoveryStep::Ask { stage: DiscoveryStage::Missed, request } => {
            assert_eq!(request.path, "/_CheckIn/PC/StudentNoCheckCount.aspx?classid=c1")
        }
        _ => unreachable!(),
    }
    let found = look_up_missed_uid("<input id=\"HidStudentID\" value=\"S8\">");
    match client.on_missed_page(&course(), Ok(found)) {
        DiscoveryStep::Ask { stage: DiscoveryStage::Probe, request } => {
            assert_eq!(
                request.data.as_deref(),
                Some("action=getstudentinlogbyday&classid=c1&studentid=S8")
            );
            assert_eq!(request.extra_headers.len(), 3);
        }
        _ => unreachable!(),
    }
    assert_eq!(client.known_uid().as_deref(), Some("S8"));
    assert!(matches!(
        client.on_probe(&course(), &Ok(object(&[("else", text("1"))]))),
        Err(ApiErr::Parse(reason)) if reason == "签到接口探测失败"
    ));
    assert!(client.on_probe(&course(), &Ok(object(&[("rows", Json::Null)]))).is_ok());
    assert!(matches!(client.ensure_discovered(&course()), DiscoveryStep::Done(Ok(()))));
}

#[test]
fn course_is_discovered_with_the_number_of_the_home_page() {
    let mut client = LiveClient::new(None);
    match client.on_missed_page(&course(), Ok(Lookup::Missing)) {
        DiscoveryStep::Ask { stage: DiscoveryStage::Home, request } => {
            assert_eq!(request.path, "/_UserCenter/MB/index.aspx")
        }
        _ => unreachable!(),
    }
    assert!(matches!(
        client.on_home_page(&course(), Ok(Lookup::Missing)),
        DiscoveryStep::Done(Err(ApiErr::Parse(_)))
    ));
    assert!(matches!(
        client.on_home_page(&course(), Ok(Lookup::Found("S1".to_string()))),
        DiscoveryStep::Ask { stage: DiscoveryStage::Probe, .. }
    ));
    match client.on_missed_page(&course(), Ok(Lookup::Found(String::new()))) {
        DiscoveryStep::Ask { stage: DiscoveryStage::Probe, request } => {
            assert!(request.data.unwrap().ends_with("studentid=S1"))
        }
        _ => unreachable!(),
    }
    assert!(matches!(
        client.on_missed_page(&course(), Err(ApiErr::Http(500))),
        DiscoveryStep::Done(Err(ApiErr::Http(500)))
    ));
}

fn locate(coordinate: Option<Coordinates>) -> SignActivity {
    SignActivity { id: "7".to_string(), kind: SignType::Locate, code: None, coordinate }
}

#[test]
fn place_is_searched_for_on_two_pages() {
    assert!(matches!(
        activity_coords(&locate(Some(place("1", "2"))), &course()),
        PlaceStep::Done(Some(_))
    ));
    let code = SignActivity { kind: SignType::Code, ..locate(None) };
    assert!(matches!(activity_coords(&code, &course()), PlaceStep::Done(None)));
    match activity_coords(&locate(None), &course()) {
        PlaceStep::Ask { stage: PlaceStage::Entry, request } => {
            assert_eq!(request.path, "/_UserCenter/MB/Module.aspx?data=101");
            assert_eq!(
                request.referer.as_deref(),
                Some("https://www.duifene.com/_UserCenter/MB/index.aspx")
            );
        }
        _ => unreachable!(),
    }
    assert!(matches!(
        on_entry(&course(), &Ok("nothing".to_string())),
        PlaceStep::Done(None)
    ));
    assert!(matches!(on_entry(&course(), &Err(ApiErr::AuthLost)), PlaceStep::Done(None)));
    match on_entry(&course(), &Ok("no. 101".to_string())) {
        PlaceStep::Ask { stage: PlaceStage::First, request } => {
            assert!(request.path.contains("classid=c1&temps=0&checktype=1&"))
        }
        _ => unreachable!(),
    }
    match on_activity_page(PlaceStage::First, &course(), Err(ApiErr::AuthLost)) {
        PlaceStep::Ask { stage: PlaceStage::Second, request } => {
            assert!(request.path.contains("classid=c1&temps=0&checktype=3&"))
        }
        _ => unreachable!(),
    }
    assert!(matches!(
        on_activity_page(PlaceStage::Second, &course(), Ok(PlaceLookup::Missing)),
        PlaceStep::Done(None)
    ));
    match on_activity_page(PlaceStage::First, &course(), Ok(PlaceLookup::Found(place("1", "2")))) {
        PlaceStep::Done(Some(found)) => assert_eq!(found.latitude, "2"),
        _ => unreachable!(),
    }
}

#[test]
fn place_of_another_activity_is_not_taken() {
    let page = |id: &str| {
        format!(
            "{}<input id=\"HFRoomLongitude\" value=\"1\"><input id=\"HFRoomLatitude\" value=\"2\">",
            id
        )
    };
    let mine = page("<input id=\"HFCheckInID\" value=\"7\">");
    assert!(matches!(look_up_place(&mine, "7"), PlaceLookup::Found(_)));
    assert!(matches!(look_up_place(&mine, "8"), PlaceLookup::Missing));
    assert!(matches!(look_up_place(&page(""), "8"), PlaceLookup::Found(_)));
}

#[test]
fn entered_course_is_named_on_its_page() {
    assert!(enter_course(&course(), &Ok("x101x".to_string())).is_ok());
    assert!(matches!(
        enter_course(&course(), &Ok("x".to_string())),
        Err(ApiErr::Msg(reason)) if reason == "进入课程页面失败"
    ));
    assert!(matches!(enter_course(&course(), &Err(ApiErr::Http(3))), Err(ApiErr::Http(3))));
}

#[test]
fn check_in_lists_are_put_together() {
    let rows = Json::Object(vec![
        ("msg".to_string(), text("1")),
        (
            "rows".to_string(),
            Json::Array(vec![Json::Object(vec![("ID".to_string(), text("a"))])]),
        ),
    ]);
    let refused = object(&[("msg", text("0"))]);
    let outcomes = fetch_outcomes(&vec![
        Fetched::Answered(Ok(rows)),
        Fetched::Answered(Ok(refused)),
        Fetched::Answered(Err(ApiErr::Http(500))),
        Fetched::Undiscovered(ApiErr::AuthLost),
        Fetched::Broken,
    ]);
    assert_eq!(outcomes[0].as_ref().map(|rows| rows[0].id.clone()).unwrap(), "a");
    assert!(outcomes[1].as_ref().map(|rows| rows.is_empty()).unwrap());
    assert!(matches!(outcomes[2], Err(ApiErr::Http(500))));
    assert!(matches!(outcomes[3], Err(ApiErr::AuthLost)));
    assert!(matches!(&outcomes[4], Err(ApiErr::Msg(reason)) if reason == "拉取线程异常"));
    let without = fetch_without_uid(2);
    assert_eq!(without.len(), 2);
    assert!(matches!(&without[1], Err(ApiErr::Msg(reason)) if reason == "无法获取用户ID"));
}

fn request(kind: SignType, code: Option<&str>, coords: Option<Coordinates>) -> SignReq {
    SignReq {
        activity: SignActivity {
            id: "7".to_string(),
            kind,
            code: code.map(|text| text.to_string()),
            coordinate: None,
        },
        course: course(),
        coords,
    }
}

#[test]
fn check_ins_are_planned_by_their_kind() {
    match sign_plan("u", &request(SignType::Code, Some("8888"), None)) {
        SignPlan::Post(plan) => {
            assert_eq!(plan.path, "/_CheckIn/CheckIn.ashx");
            assert_eq!(
                plan.data.as_deref(),
                Some("action=studentcheckin&studentid=u&checkincode=8888")
            );
            assert!(!plan.mobile_ua);
        }
        _ => unreachable!(),
    }
    assert!(matches!(
        sign_plan("u", &request(SignType::Code, None, None)),
        SignPlan::Settled(CheckInResult::Failed(reason)) if reason == "未获取到签到码"
    ));
    match sign_plan("u", &request(SignType::Qr, None, None)) {
        SignPlan::Scan(plan) => {
            assert_eq!(plan.path, "/_CheckIn/MB/QrCodeCheckOK.aspx?state=7")
        }
        _ => unreachable!(),
    }
    assert!(matches!(
        sign_plan("u", &request(SignType::Locate, None, Some(place("1", "2")))),
        SignPlan::Place(found) if found.longitude == "1"
    ));
    assert!(matches!(
        sign_plan("u", &request(SignType::Locate, None, None)),
        SignPlan::Search
    ));
    assert!(matches!(
        sign_plan("u", &request(SignType::Unknown, None, None)),
        SignPlan::Settled(CheckInResult::Failed(reason)) if reason == "未知签到类型"
    ));
}

#[test]
fn attempts_come_to_results() {
    let results = attempt_outcomes(&vec![
        Attempt::Settled(CheckInResult::Gone("完".to_string())),
        Attempt::Posted(SignReply::Came(Ok(object(&[("msgbox", text("签到成功"))])))),
        Attempt::Scanned(Ok("签到成功".to_string())),
        Attempt::Broken,
        Attempt::Nothing,
    ]);
    assert!(matches!(&results[0], CheckInResult::Gone(text) if text == "完"));
    assert!(matches!(&results[1], CheckInResult::Success(_)));
    assert!(matches!(&results[2], CheckInResult::Success(_)));
    assert!(matches!(&results[3], CheckInResult::Failed(text) if text == "签到线程异常"));
    assert!(matches!(&results[4], CheckInResult::Failed(text) if text == "未知错误"));
    assert!(sign_without_uid(1)
        .iter()
        .all(|result| matches!(result, CheckInResult::Failed(text) if text == "无法获取用户ID")));
}

#[test]
fn last_success_at_a_place_teaches_it() {
    let mut client = LiveClient::new(Some(place("5", "6")));
    assert_eq!(client.search_base().longitude, "5");
    let requests = vec![
        request(SignType::Locate, None, Some(place("1", "2"))),
        request(SignType::Locate, None, Some(place("3", "4"))),
        request(SignType::Code, Some("1"), Some(place("7", "8"))),
        request(SignType::Locate, None, Some(place("9", "9"))),
    ];
    let ok = || CheckInResult::Success("好".to_string());
    let results = vec![ok(), ok(), ok(), CheckInResult::Failed("远".to_string())];
    assert_eq!(client.learn_from(&requests, &results).unwrap().longitude, "3");
    assert_eq!(client.learned_center().unwrap().latitude, "4");
    let none = vec![
        CheckInResult::Gone("完".to_string()),
        CheckInResult::Gone("完".to_string()),
        ok(),
        CheckInResult::Gone("完".to_string()),
    ];
    assert!(client.learn_from(&requests, &none).is_none());
    assert_eq!(client.search_base().latitude, "4");
    client.learn_center(place("0", "1"));
    assert_eq!(client.search_base().latitude, "1");
    let fresh = LiveClient::new(None);
    assert_eq!(fresh.search_base().longitude.parse::<f64>().unwrap(), 108.0);
    assert_eq!(fresh.search_base().latitude.parse::<f64>().unwrap(), 34.0);
}

fn refusal(distance: &str) -> CheckInResult {
    CheckInResult::Failed(format!("签到未成功: 不在教室范围，距离：{distance}米！"))
}

#[test]
fn search_ends_after_three_turns() {
    let mut search = Triangulation::new();
    let mut attempts = 0;
    let mut action = Action::Probe;
    loop {
        action = match action {
            Action::Probe => {
                attempts += 1;
                search.on_probe(refusal("100"))
            }
            Action::Center => {
                attempts += 1;
                search.on_center(refusal("50"), false)
            }
            Action::Finish { result, learned } => {
                assert!(matches!(result, CheckInResult::Failed(text) if text == "多次三角定位未成功"));
                assert_eq!(learned, Learned::Nothing);
                break;
            }
        };
    }
    assert_eq!(attempts, 12);
}

#[test]
fn search_keeps_its_distances() {
    let mut search = Triangulation::new();
    assert_eq!(search.probe_index(), 0);
    assert!(matches!(search.on_probe(refusal("343.08")), Action::Probe));
    assert_eq!(search.probe_index(), 1);
    assert!(matches!(search.on_probe(refusal("350.48")), Action::Probe));
    assert!(matches!(search.on_probe(refusal("557.68")), Action::Center));
    assert_eq!(*search.distances(), ["343.08", "350.48", "557.68"]);
    assert!(matches!(search.on_center(refusal("12"), false), Action::Probe));
    assert_eq!(search.probe_index(), 0);
}

#[test]
fn search_ends_where_it_must() {
    let ok = || CheckInResult::Success("好".to_string());
    let gone = || CheckInResult::Gone("完".to_string());
    let vague = || CheckInResult::Failed("不行".to_string());
    assert!(matches!(
        Triangulation::new().on_probe(ok()),
        Action::Finish { result: CheckInResult::Success(_), learned: Learned::Probe }
    ));
    assert!(matches!(
        Triangulation::new().on_probe(gone()),
        Action::Finish { result: CheckInResult::Gone(_), learned: Learned::Nothing }
    ));
    assert!(matches!(
        Triangulation::new().on_probe(vague()),
        Action::Finish { result: CheckInResult::Failed(text), .. } if text == "三角定位失败: 不行"
    ));
    let centered = || {
        let mut search = Triangulation::new();
        for _ in 0..3 {
            search.on_probe(refusal("9"));
        }
        search
    };
    assert!(matches!(
        centered().on_center(ok(), false),
        Action::Finish { result: CheckInResult::Success(_), learned: Learned::Center }
    ));
    assert!(matches!(
        centered().on_center(gone(), false),
        Action::Finish { result: CheckInResult::Gone(_), .. }
    ));
    assert!(matches!(
        centered().on_center(vague(), false),
        Action::Finish { result: CheckInResult::Failed(text), .. } if text == "三角定位失败: 不行"
    ));
    assert!(matches!(
        centered().on_center(refusal("1.5"), true),
        Action::Finish { result: CheckInResult::Failed(text), .. } if text.contains("1.5")
    ));
}
