use std::cell::RefCell;
use std::collections::{HashMap, VecDeque};
use std::rc::Rc;

use chrono::NaiveDateTime;
use duifene::api::{ApiErr, CheckInResult, Client, Record, SignReq};
use duifene::clock::Moment;
use duifene::engine::{CoordinateTable, Engine, EngineConfig, Event};
use duifene::json::Json;
use duifene::models::{Coordinates, Course, RawRow, SignActivity, SignType};
use duifene::runner::Runner;

struct MockClient {
    login_error: Option<ApiErr>,
    course_lists: VecDeque<Result<Vec<Course>, ApiErr>>,
    rows_by_class: HashMap<String, VecDeque<Result<Vec<RawRow>, ApiErr>>>,
    sign_results: VecDeque<Vec<CheckInResult>>,
    coords_results: VecDeque<Option<Coordinates>>,
    calls: Rc<RefCell<Vec<String>>>,
}

impl MockClient {
    fn new() -> Self {
        MockClient {
            login_error: None,
            course_lists: VecDeque::new(),
            rows_by_class: HashMap::new(),
            sign_results: VecDeque::new(),
            coords_results: VecDeque::new(),
            calls: Rc::new(RefCell::new(Vec::new())),
        }
    }

    fn called(&self, call: String) {
        self.calls.borrow_mut().push(call);
    }

    fn queue_rows(&mut self, class_id: &str, rows: Vec<RawRow>) {
        self.rows_by_class.entry(class_id.to_string()).or_default().push_back(Ok(rows));
    }

    fn queue_rows_error(&mut self, class_id: &str, error: ApiErr) {
        self.rows_by_class.entry(class_id.to_string()).or_default().push_back(Err(error));
    }

    fn queue_courses(&mut self, courses: Result<Vec<Course>, ApiErr>) {
        self.course_lists.push_back(courses);
    }
}

impl Client for MockClient {
    fn asked(&self) -> Record {
        unreachable!()
    }

    fn check_login(&mut self) -> Result<(), ApiErr> {
        self.called("login".to_string());
        match &self.login_error {
            Some(error) => Err(error.clone()),
            None => Ok(()),
        }
    }

    fn fetch_courses(&mut self) -> Result<Vec<Course>, ApiErr> {
        self.called("courses".to_string());
        self.course_lists.pop_front().unwrap_or(Ok(Vec::new()))
    }

    fn fetch_all(&mut self, courses: &[Course]) -> Vec<Result<Vec<RawRow>, ApiErr>> {
        let ids: Vec<&str> = courses.iter().map(|course| course.tclass_id.as_str()).collect();
        self.called(format!("rows {}", ids.join(" ")));
        courses
            .iter()
            .map(|course| {
                self.rows_by_class
                    .get_mut(&course.tclass_id)
                    .and_then(|queue| queue.pop_front())
                    .unwrap_or(Ok(Vec::new()))
            })
            .collect()
    }

    fn activity_coords(&mut self, activity: &SignActivity, course: &Course) -> Option<Coordinates> {
        self.called(format!("place {} {}", activity.id, course.tclass_id));
        self.coords_results.pop_front().unwrap_or(None)
    }

    fn sign_many(&mut self, requests: &[SignReq]) -> Vec<CheckInResult> {
        let ids: Vec<&str> = requests.iter().map(|request| request.activity.id.as_str()).collect();
        self.called(format!("sign {}", ids.join(" ")));
        if let Some(results) = self.sign_results.pop_front() {
            return results;
        }
        requests
            .iter()
            .map(|request| CheckInResult::Success(format!("mock ok: {}", request.activity.id)))
            .collect()
    }
}

fn course(class_id: &str, tclass_id: &str, name: &str) -> Course {
    Course {
        class_id: class_id.to_string(),
        tclass_id: tclass_id.to_string(),
        name: name.to_string(),
    }
}

fn row(json: &str) -> RawRow {
    let value: serde_json::Value = serde_json::from_str(json).expect("Json should be parsed");
    let entries = value
        .as_object()
        .unwrap()
        .iter()
        .map(|(name, value)| (name.clone(), Json::Text(value.as_str().unwrap().to_string())))
        .collect();
    RawRow::from_json(&Json::Object(entries)).unwrap()
}

fn dt(seconds: &str) -> Moment {
    let read = NaiveDateTime::parse_from_str(seconds, "%Y/%m/%d %H:%M:%S").unwrap().and_utc();
    Moment { seconds: read.timestamp(), nanos: read.timestamp_subsec_nanos() }
}

fn code_activity(id: &str) -> String {
    format!(
        r#"{{"ID":"{id}","CheckInType":"1","CheckInCode":"8888","CanApply":"1","CreaterDate":"2026/08/10 07:55:00"}}"#
    )
}

fn config(delay_seconds: i64) -> EngineConfig {
    EngineConfig { delay_seconds, coords: CoordinateTable::new(), refresh_every: 300 }
}

fn place(longitude: &str, latitude: &str) -> Coordinates {
    Coordinates { longitude: longitude.to_string(), latitude: latitude.to_string() }
}

fn numbers(place: Option<Coordinates>) -> Option<(f64, f64)> {
    place.map(|place| (place.longitude.parse().unwrap(), place.latitude.parse().unwrap()))
}

fn signed_ok_ids(events: &[Event]) -> Vec<&str> {
    events
        .iter()
        .filter_map(|event| match event {
            Event::Signed { activity_id, result: CheckInResult::Success(_), .. } => {
                Some(activity_id.as_str())
            }
            _ => None,
        })
        .collect()
}

#[test]
fn code_activity_is_found_and_signed_once() {
    let mut client = MockClient::new();
    client.queue_rows("c1", vec![row(&code_activity("a1"))]);
    client.queue_rows("c1", vec![row(&code_activity("a1"))]);
    let mut engine =
        Engine::new(Box::new(client), vec![course("101", "c1", "课程一")], config(0));

    let events = engine.tick(dt("2026/08/10 08:00:00"));
    assert_eq!(signed_ok_ids(&events), ["a1"]);
    assert!(events.iter().any(|event| matches!(
        event,
        Event::Found { activity_id, .. } if activity_id == "a1"
    )));

    let events = engine.tick(dt("2026/08/10 08:00:02"));
    assert!(signed_ok_ids(&events).is_empty());
    assert!(!events.iter().any(|event| matches!(event, Event::Found { .. })));
}

#[test]
fn delayed_sign_happens_when_due() {
    let mut client = MockClient::new();
    client.queue_rows("c1", vec![row(&code_activity("a1"))]);
    let mut engine =
        Engine::new(Box::new(client), vec![course("101", "c1", "课程一")], config(5));

    let events = engine.tick(dt("2026/08/10 08:00:00"));
    assert!(signed_ok_ids(&events).is_empty());
    assert!(events.iter().any(|event| matches!(
        event,
        Event::Found { activity_id, .. } if activity_id == "a1"
    )));

    for second in 1..5 {
        let now = dt(&format!("2026/08/10 08:00:0{second}"));
        let events = engine.tick(now);
        assert!(signed_ok_ids(&events).is_empty(), "第 {second} 秒不该签");
    }
    let events = engine.tick(dt("2026/08/10 08:00:05"));
    assert_eq!(signed_ok_ids(&events), ["a1"]);
}

#[test]
fn two_courses_sign_in_same_tick() {
    let mut client = MockClient::new();
    client.queue_rows("c1", vec![row(&code_activity("a1"))]);
    client.queue_rows("c2", vec![row(&code_activity("a2"))]);
    let courses = vec![course("101", "c1", "课程一"), course("102", "c2", "课程二")];
    let mut engine = Engine::new(Box::new(client), courses, config(0));

    let events = engine.tick(dt("2026/08/10 08:00:00"));
    assert_eq!(signed_ok_ids(&events), ["a1", "a2"]);
}

#[test]
fn one_course_failure_does_not_block_another() {
    let mut client = MockClient::new();
    client.queue_rows("c1", vec![row(&code_activity("a1"))]);
    client.queue_rows_error("c2", ApiErr::Msg("服务端开小差".to_string()));
    let courses = vec![course("101", "c1", "课程一"), course("102", "c2", "课程二")];
    let mut engine = Engine::new(Box::new(client), courses, config(0));

    let events = engine.tick(dt("2026/08/10 08:00:00"));
    assert_eq!(signed_ok_ids(&events), ["a1"]);
    assert!(events.iter().any(|event| matches!(
        event,
        Event::Warn(message) if message.contains("课程二")
    )));
}

#[test]
fn login_loss_stops_engine() {
    let mut client = MockClient::new();
    client.login_error = Some(ApiErr::AuthLost);
    client.queue_rows("c1", vec![row(&code_activity("a1"))]);
    let mut engine =
        Engine::new(Box::new(client), vec![course("101", "c1", "课程一")], config(0));

    let events = engine.tick(dt("2026/08/10 08:00:00"));
    assert!(!engine.running());
    assert!(events
        .iter()
        .any(|event| matches!(event, Event::Warn(message) if message.contains("登录失效"))));
}

#[test]
fn gone_result_is_reported_but_not_as_error() {
    let mut client = MockClient::new();
    client.queue_rows("c1", vec![row(&code_activity("a1"))]);
    client.sign_results.push_back(vec![CheckInResult::Gone("活动已结束".to_string())]);
    let mut engine =
        Engine::new(Box::new(client), vec![course("101", "c1", "课程一")], config(0));

    let events = engine.tick(dt("2026/08/10 08:00:00"));
    assert!(events
        .iter()
        .any(|event| matches!(event, Event::Signed { result: CheckInResult::Gone(_), .. })));
    assert!(!events
        .iter()
        .any(|event| matches!(event, Event::Signed { result: CheckInResult::Failed(_), .. })));
}

fn locate_activity(coordinate: Option<Coordinates>) -> SignActivity {
    SignActivity { id: "a1".to_string(), kind: SignType::Locate, code: None, coordinate }
}

#[test]
fn location_coords_fall_through_row_then_page_then_config() {
    let mut coords = CoordinateTable::new();
    coords.insert("课一".to_string(), place("115.0", "23.0"));
    let mut client = MockClient::new();
    let course_one = course("101", "c1", "课一");
    let course_unconfigured = course("102", "c2", "未配置");
    let courses = vec![course_one.clone(), course_unconfigured.clone()];
    client.coords_results.push_back(Some(place("114.20", "22.70")));
    client.coords_results.push_back(None);
    client.coords_results.push_back(None);
    let mut engine = Engine::new(
        Box::new(client),
        courses,
        EngineConfig { delay_seconds: 0, coords, refresh_every: 300 },
    );

    let from_row = locate_activity(Some(place("113.5", "21.5")));
    assert_eq!(
        numbers(engine.resolve_coords(&from_row, &course_one)),
        Some((113.5, 21.5))
    );

    let from_page = locate_activity(None);
    assert_eq!(
        numbers(engine.resolve_coords(&from_page, &course_one)),
        Some((114.20, 22.70))
    );

    let from_config = locate_activity(None);
    assert_eq!(
        numbers(engine.resolve_coords(&from_config, &course_one)),
        Some((115.0, 23.0))
    );

    let unresolvable = locate_activity(None);
    assert_eq!(
        numbers(engine.resolve_coords(&unresolvable, &course_unconfigured)),
        None
    );

    let code_kind = SignActivity {
        id: "a2".to_string(),
        kind: SignType::Code,
        code: Some("8888".to_string()),
        coordinate: None,
    };
    assert_eq!(numbers(engine.resolve_coords(&code_kind, &course_one)), None);
}

#[test]
fn refresh_adds_new_courses() {
    let mut client = MockClient::new();
    client.queue_courses(Ok(vec![
        course("101", "c1", "课程一"),
        course("102", "c2", "课程二"),
    ]));
    client.queue_rows("c1", vec![row(&code_activity("a1"))]);
    client.queue_rows("c2", vec![row(&code_activity("a2"))]);
    let mut engine = Engine::new(
        Box::new(client),
        vec![course("101", "c1", "课程一")],
        EngineConfig { delay_seconds: 0, coords: CoordinateTable::new(), refresh_every: 1 },
    );

    let events = engine.tick(dt("2026/08/10 08:00:00"));
    assert!(events.iter().any(|event| matches!(
        event,
        Event::Info(message) if message.contains("已自动加入课程")
    )));
    let signed: Vec<&str> = signed_ok_ids(&events);
    assert!(signed.contains(&"a1") && signed.contains(&"a2"));
}

#[test]
fn duplicate_rows_in_same_fetch_sign_once() {
    let mut client = MockClient::new();
    let activity = row(&code_activity("a1"));
    client.queue_rows("c1", vec![activity.clone(), activity]);
    let mut engine =
        Engine::new(Box::new(client), vec![course("101", "c1", "课程一")], config(0));
    let events = engine.tick(dt("2026/08/10 08:00:00"));
    assert_eq!(signed_ok_ids(&events), ["a1"]);
    let found_count =
        events.iter().filter(|event| matches!(event, Event::Found { .. })).count();
    assert_eq!(found_count, 1);
}

#[test]
fn frequent_failure_keeps_retrying_until_success() {
    let mut client = MockClient::new();
    client.queue_rows("c1", vec![row(&code_activity("a1"))]);
    client.sign_results.push_back(vec![CheckInResult::Failed("操作过于频繁".to_string())]);
    client.sign_results.push_back(vec![CheckInResult::Failed("请稍后再试".to_string())]);
    client.sign_results.push_back(vec![CheckInResult::Success("签到成功".to_string())]);
    let mut engine =
        Engine::new(Box::new(client), vec![course("101", "c1", "课程一")], config(0));

    let start = dt("2026/08/10 08:00:00");
    let first = engine.tick(start);
    assert!(first.iter().any(|event| matches!(
        event,
        Event::Signed { result: CheckInResult::Failed(message), .. }
            if message.contains("过于频繁")
    )));
    assert!(engine.earliest_due(dt("2026/08/10 08:00:30")).is_some());
    let second = engine.tick(dt("2026/08/10 08:01:00"));
    assert!(second.iter().any(|event| matches!(
        event,
        Event::Signed { result: CheckInResult::Failed(message), .. }
            if message.contains("稍后")
    )));
    let third = engine.tick(dt("2026/08/10 08:02:00"));
    assert_eq!(signed_ok_ids(&third), ["a1"]);
}

#[test]
fn failed_sign_is_retried_until_success() {
    let mut client = MockClient::new();
    client.queue_rows("c1", vec![row(&code_activity("a1"))]);
    client.sign_results.push_back(vec![CheckInResult::Failed("网络波动".to_string())]);
    client.sign_results.push_back(vec![CheckInResult::Success("签到成功".to_string())]);
    let mut engine =
        Engine::new(Box::new(client), vec![course("101", "c1", "课程一")], config(0));

    let start = dt("2026/08/10 08:00:00");
    let events = engine.tick(start);
    assert!(signed_ok_ids(&events).is_empty());
    assert!(events
        .iter()
        .any(|event| matches!(event, Event::Signed { result: CheckInResult::Failed(_), .. })));

    let events = engine.tick(dt("2026/08/10 08:00:30"));
    assert!(signed_ok_ids(&events).is_empty());
    assert!(!events.iter().any(|event| matches!(event, Event::Signed { .. })));

    let events = engine.tick(dt("2026/08/10 08:01:00"));
    assert_eq!(signed_ok_ids(&events), ["a1"]);
}

#[test]
fn failed_sign_gives_up_after_three_attempts() {
    let mut client = MockClient::new();
    client.queue_rows("c1", vec![row(&code_activity("a1"))]);
    for _ in 0..3 {
        client.sign_results.push_back(vec![CheckInResult::Failed("网络波动".to_string())]);
    }
    let mut engine =
        Engine::new(Box::new(client), vec![course("101", "c1", "课程一")], config(0));

    engine.tick(dt("2026/08/10 08:00:00"));
    engine.tick(dt("2026/08/10 08:01:00"));
    let events = engine.tick(dt("2026/08/10 08:02:00"));
    let failed_count = events
        .iter()
        .filter(|event| {
            matches!(event, Event::Signed { result: CheckInResult::Failed(_), .. })
        })
        .count();
    assert_eq!(failed_count, 1);

    let events = engine.tick(dt("2026/08/10 08:03:00"));
    assert!(!events.iter().any(|event| matches!(event, Event::Signed { .. })));
}

fn text_of(event: &Event) -> &str {
    match event {
        Event::Info(text) | Event::Warn(text) => text,
        _ => "",
    }
}

#[test]
fn first_round_reports_word_for_word() {
    let mut client = MockClient::new();
    client.queue_rows("c1", vec![row(&code_activity("a1"))]);
    client.queue_rows_error("c2", ApiErr::Http(503));
    let courses = vec![course("101", "c1", "课程一"), course("102", "c2", "课程二")];
    let mut engine = Engine::new(Box::new(client), courses, config(5));
    let events = engine.tick(dt("2026/08/10 08:00:00"));
    assert_eq!(events.len(), 4);
    assert!(matches!(
        &events[0],
        Event::Found { course_name, activity_id, kind, code }
            if course_name == "课程一"
                && activity_id == "a1"
                && kind == "数字码"
                && code.as_deref() == Some("8888")
    ));
    assert_eq!(text_of(&events[1]), "将在 5 秒后自动签到 [课程一]");
    assert_eq!(text_of(&events[2]), "课程 课程二 拉取失败: HTTP 错误: 503");
    assert_eq!(text_of(&events[3]), "持续监控中,共 2 门课");
}

#[test]
fn fetch_failures_are_reported_once_in_ten_rounds() {
    let mut client = MockClient::new();
    for _ in 0..12 {
        client.queue_rows_error("c1", ApiErr::Network("断线".to_string()));
    }
    let mut engine =
        Engine::new(Box::new(client), vec![course("101", "c1", "课程一")], config(0));
    let mut warned = Vec::new();
    for number in 1..=12 {
        let events = engine.tick(dt("2026/08/10 08:00:00"));
        if events.iter().any(|event| matches!(event, Event::Warn(_))) {
            warned.push(number);
        }
    }
    assert_eq!(warned, [1, 11]);
}

#[test]
fn stopped_engine_does_nothing() {
    let mut client = MockClient::new();
    client.queue_rows("c1", vec![row(&code_activity("a1"))]);
    let mut engine =
        Engine::new(Box::new(client), vec![course("101", "c1", "课程一")], config(0));
    engine.stop();
    assert!(!engine.running());
    assert!(engine.tick(dt("2026/08/10 08:00:00")).is_empty());
}

#[test]
fn lost_session_says_why() {
    let mut client = MockClient::new();
    client.login_error = Some(ApiErr::AuthLost);
    let mut engine = Engine::new(Box::new(client), Vec::new(), config(0));
    let events = engine.tick(dt("2026/08/10 08:00:00"));
    assert_eq!(events.len(), 1);
    assert_eq!(text_of(&events[0]), "登录失效,已自动停止: 登录已失效");
    assert_eq!(engine.earliest_due(dt("2026/08/10 08:00:00")), None);
}

#[test]
fn results_that_are_missing_drop_their_requests() {
    let mut client = MockClient::new();
    client.queue_rows("c1", vec![row(&code_activity("a1")), row(&code_activity("a2"))]);
    client.sign_results.push_back(vec![CheckInResult::Success("好".to_string())]);
    let mut engine =
        Engine::new(Box::new(client), vec![course("101", "c1", "课程一")], config(0));
    let events = engine.tick(dt("2026/08/10 08:00:00"));
    assert_eq!(signed_ok_ids(&events), ["a1"]);
    assert_eq!(engine.earliest_due(dt("2026/08/10 08:00:00")), None);
}

#[test]
fn waiting_time_is_counted_to_the_nanosecond() {
    let mut client = MockClient::new();
    client.queue_rows("c1", vec![row(&code_activity("a1"))]);
    let mut engine =
        Engine::new(Box::new(client), vec![course("101", "c1", "课程一")], config(5));
    engine.tick(dt("2026/08/10 08:00:00"));
    let mut now = dt("2026/08/10 08:00:04");
    now.nanos = 999_999_999;
    assert_eq!(engine.earliest_due(now), Some(1));
    assert_eq!(engine.earliest_due(dt("2026/08/10 08:00:05")), Some(0));
    assert_eq!(engine.earliest_due(dt("2026/08/10 08:00:09")), Some(0));
    assert_eq!(engine.earliest_due(dt("2026/08/10 08:00:02")), Some(3_000_000_000));
}

#[test]
fn runner_rests_no_longer_than_its_interval() {
    let mut client = MockClient::new();
    client.queue_rows("c1", vec![row(&code_activity("a1"))]);
    let engine = Engine::new(Box::new(client), vec![course("101", "c1", "课程一")], config(5));
    let mut runner = Runner::new(engine, 2_000_000_000);
    assert!(runner.goes_on(false));
    assert!(!runner.goes_on(true));
    assert_eq!(runner.next_sleep(dt("2026/08/10 08:00:00")), 2_000_000_000);
    assert!(runner.ready(dt("2026/08/10 08:00:00")));
    runner.tick(dt("2026/08/10 08:00:00"));
    assert_eq!(runner.next_sleep(dt("2026/08/10 08:00:00")), 2_000_000_000);
    assert_eq!(runner.next_sleep(dt("2026/08/10 08:00:04")), 1_000_000_000);
    assert_eq!(runner.next_sleep(dt("2026/08/10 08:00:06")), 0);
}

#[test]
fn delays_beyond_the_calendar_are_told() {
    let engine = Engine::new(Box::new(MockClient::new()), Vec::new(), config(i64::MAX));
    assert!(!engine.ready(dt("2026/08/10 08:00:00")));
    let engine = Engine::new(Box::new(MockClient::new()), Vec::new(), config(i64::MIN));
    assert!(engine.ready(dt("2026/08/10 08:00:00")));
}

#[test]
fn refresh_can_be_switched_off() {
    let mut client = MockClient::new();
    client.queue_courses(Ok(vec![course("102", "c2", "课程二")]));
    let mut engine = Engine::new(
        Box::new(client),
        Vec::new(),
        EngineConfig { delay_seconds: 0, coords: CoordinateTable::new(), refresh_every: 0 },
    );
    let events = engine.tick(dt("2026/08/10 08:00:00"));
    assert_eq!(events.len(), 1);
    assert_eq!(text_of(&events[0]), "持续监控中,共 0 门课");
}

#[test]
fn default_configuration_acts_at_once() {
    let config = EngineConfig::default();
    assert_eq!(config.delay_seconds, 0);
    assert_eq!(config.refresh_every, 300);
    assert!(config.coords.get("课一").is_none());
}

#[test]
fn errors_read_as_the_service_is_spoken_of() {
    assert_eq!(ApiErr::AuthLost.message(), "登录已失效");
    assert_eq!(ApiErr::Network("断线".to_string()).message(), "网络错误: 断线");
    assert_eq!(ApiErr::Http(404).message(), "HTTP 错误: 404");
    assert_eq!(ApiErr::Parse("乱".to_string()).message(), "响应解析失败: 乱");
    assert_eq!(ApiErr::Msg("不".to_string()).message(), "服务器拒绝: 不");
}

#[test]
fn lost_session_asks_for_nothing_else() {
    let mut client = MockClient::new();
    client.login_error = Some(ApiErr::AuthLost);
    client.queue_rows("c1", vec![row(&code_activity("a1"))]);
    let calls = client.calls.clone();
    let mut engine =
        Engine::new(Box::new(client), vec![course("101", "c1", "课程一")], EngineConfig::default());
    let events = engine.tick(dt("2026/08/10 08:00:00"));
    assert_eq!(events.len(), 1);
    assert_eq!(text_of(&events[0]), "登录失效,已自动停止: 登录已失效");
    assert_eq!(*calls.borrow(), ["login"]);
    assert_eq!(engine.earliest_due(dt("2026/08/10 08:00:00")), None);

    assert!(engine.tick(dt("2026/08/10 08:00:02")).is_empty());
    assert_eq!(*calls.borrow(), ["login"]);
}

#[test]
fn stopped_engine_asks_nothing() {
    let client = MockClient::new();
    let calls = client.calls.clone();
    let mut engine = Engine::new(Box::new(client), vec![course("101", "c1", "课程一")], config(0));
    engine.stop();
    assert!(engine.tick(dt("2026/08/10 08:00:00")).is_empty());
    assert!(calls.borrow().is_empty());
}

#[test]
fn one_request_carries_the_whole_batch() {
    let mut client = MockClient::new();
    client.queue_rows("c1", vec![row(&code_activity("a1"))]);
    client.queue_rows("c2", vec![row(&code_activity("a2"))]);
    let calls = client.calls.clone();
    let courses = vec![course("101", "c1", "课程一"), course("102", "c2", "课程二")];
    let mut engine = Engine::new(Box::new(client), courses, config(0));
    engine.tick(dt("2026/08/10 08:00:00"));
    assert_eq!(*calls.borrow(), ["login", "rows c1 c2", "sign a1 a2"]);
    engine.tick(dt("2026/08/10 08:00:02"));
    assert_eq!(calls.borrow()[3..], ["login", "rows c1 c2"]);
}

#[test]
fn places_are_asked_for_only_where_needed() {
    let client = MockClient::new();
    let calls = client.calls.clone();
    let class = course("101", "c1", "课一");
    let mut engine = Engine::new(Box::new(client), vec![class.clone()], config(0));
    engine.resolve_coords(&locate_activity(Some(place("113.5", "21.5"))), &class);
    assert!(calls.borrow().is_empty());
    engine.resolve_coords(&locate_activity(None), &class);
    assert_eq!(*calls.borrow(), ["place a1 c1"]);
    let by_code =
        SignActivity { id: "a2".to_string(), kind: SignType::Code, code: None, coordinate: None };
    engine.resolve_coords(&by_code, &class);
    assert_eq!(calls.borrow().len(), 1);
}

#[test]
fn open_rows_are_found_in_order_and_once() {
    let mut client = MockClient::new();
    client.queue_rows("c1", vec![row(&code_activity("a2")), row(&code_activity("a1"))]);
    client.queue_rows("c2", vec![row(&code_activity("a1")), row(&code_activity("a3"))]);
    let courses = vec![course("101", "c1", "课程一"), course("102", "c2", "课程二")];
    let mut engine = Engine::new(Box::new(client), courses, config(0));
    let events = engine.tick(dt("2026/08/10 08:00:00"));
    let found: Vec<(&str, &str)> = events
        .iter()
        .filter_map(|event| match event {
            Event::Found { course_name, activity_id, .. } => {
                Some((course_name.as_str(), activity_id.as_str()))
            }
            _ => None,
        })
        .collect();
    assert_eq!(found, [("课程一", "a2"), ("课程一", "a1"), ("课程二", "a3")]);
}

#[test]
fn course_list_is_looked_at_every_so_many_rounds() {
    let mut client = MockClient::new();
    client.queue_courses(Err(ApiErr::Http(500)));
    client.queue_courses(Ok(vec![
        course("103", "c3", "课程三"),
        course("101", "c1", "课程一"),
        course("102", "c2", "课程二"),
        course("104", "c3", "课程三"),
    ]));
    let calls = client.calls.clone();
    let mut engine = Engine::new(
        Box::new(client),
        vec![course("101", "c1", "课程一")],
        EngineConfig { delay_seconds: 0, coords: CoordinateTable::new(), refresh_every: 2 },
    );
    engine.tick(dt("2026/08/10 08:00:00"));
    assert!(engine.tick(dt("2026/08/10 08:00:02")).is_empty());
    engine.tick(dt("2026/08/10 08:00:04"));
    let events = engine.tick(dt("2026/08/10 08:00:06"));
    assert_eq!(text_of(&events[0]), "已自动加入课程 课程三");
    assert_eq!(text_of(&events[1]), "已自动加入课程 课程二");
    assert_eq!(events.len(), 2);
    assert_eq!(
        *calls.borrow(),
        [
            "login", "rows c1", "login", "courses", "rows c1", "login", "rows c1", "login",
            "courses", "rows c1 c3 c2"
        ]
    );
}

#[test]
fn wait_gets_shorter_as_time_passes() {
    let mut client = MockClient::new();
    client.queue_rows("c1", vec![row(&code_activity("a1"))]);
    let mut engine = Engine::new(Box::new(client), vec![course("101", "c1", "课程一")], config(5));
    engine.tick(dt("2026/08/10 08:00:00"));
    assert_eq!(engine.earliest_due(dt("2026/08/10 08:00:00")), Some(5_000_000_000));
    assert_eq!(engine.earliest_due(dt("2026/08/10 08:00:03")), Some(2_000_000_000));
    assert_eq!(engine.earliest_due(dt("2026/08/10 08:00:05")), Some(0));
    assert_eq!(engine.earliest_due(dt("2026/08/10 09:00:00")), Some(0));
}
