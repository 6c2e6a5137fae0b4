use duifene::api::{ApiErr, CheckInResult};
use duifene::cli::{
    parse_command, probe_activity, render_courses, render_event, render_fetch, render_places,
    render_row, Command,
};
use duifene::engine::Event;
use duifene::json::Json;
use duifene::models::{Course, RawRow};
use duifene::monitor::{
    format_elapsed, lost_session_reason, no_courses_reason, opening, ActivityStatus, Effect,
    EventKind, GuiMessage, Monitor, Opening,
};
use duifene::stats::{count_courses, count_kinds, count_results, kind_tone, tally, Tone};
use duifene::storage::{AppConfig, CourseLocation};

fn words(line: &str) -> Vec<String> {
    line.split(' ').map(|word| word.to_string()).collect()
}

#[test]
fn commands_are_read() {
    assert!(matches!(parse_command(&words("dfe")), Command::Usage));
    assert!(matches!(parse_command(&words("dfe login")), Command::Usage));
    assert!(matches!(
        parse_command(&words("dfe login L extra")),
        Command::Login { link } if link == "L"
    ));
    assert!(matches!(parse_command(&words("dfe courses")), Command::Courses));
    assert!(matches!(parse_command(&words("dfe probe x")), Command::Probe));
    assert!(matches!(parse_command(&words("dfe coords")), Command::Usage));
    assert!(matches!(parse_command(&words("dfe coords list")), Command::ListCoords));
    assert!(matches!(parse_command(&words("dfe coords set a 1")), Command::Usage));
    assert!(matches!(parse_command(&words("dfe coords drop")), Command::Usage));
    assert!(matches!(
        parse_command(&words("dfe coords set a 1 2")),
        Command::SetCoords { name, longitude, latitude }
            if name == "a" && longitude == "1" && latitude == "2"
    ));
    assert!(matches!(parse_command(&words("dfe help")), Command::Usage));
}

#[test]
fn watch_options_are_read() {
    let read = |line: &str| match parse_command(&words(line)) {
        Command::Watch { delay_seconds, max_seconds } => (delay_seconds, max_seconds),
        _ => unreachable!(),
    };
    assert_eq!(read("dfe watch"), (0, None));
    assert_eq!(read("dfe watch --delay 5 --seconds 60"), (5, Some(60)));
    assert_eq!(read("dfe watch --delay -5"), (-5, None));
    assert_eq!(read("dfe watch --delay x --seconds y"), (0, None));
    assert_eq!(read("dfe watch --seconds 1 --seconds y"), (0, None));
    assert_eq!(read("dfe watch --delay"), (0, None));
    assert_eq!(read("dfe watch x --delay 7"), (7, None));
    assert_eq!(read("dfe watch --delay --seconds 9"), (0, None));
    assert_eq!(read("dfe watch --seconds +9"), (0, Some(9)));
    assert_eq!(read("dfe watch --seconds -9"), (0, None));
}

fn found(id: &str, kind: &str, code: Option<&str>) -> Event {
    Event::Found {
        course_name: "课一".to_string(),
        activity_id: id.to_string(),
        kind: kind.to_string(),
        code: code.map(|text| text.to_string()),
    }
}

fn signed(id: &str, result: CheckInResult) -> Event {
    Event::Signed { course_name: "课一".to_string(), activity_id: id.to_string(), result }
}

#[test]
fn events_read_as_lines() {
    let line = |event: Event| render_event(&event, "08:00:00");
    assert_eq!(line(Event::Info("好".to_string())).unwrap(), "[08:00:00] [INFO] 好");
    assert_eq!(line(Event::Warn("坏".to_string())).unwrap(), "[08:00:00] [WARN] 坏");
    assert_eq!(
        line(found("a1", "数字码", Some("8888"))).unwrap(),
        "[08:00:00] [INFO] 发现待签到! [课一] ID:a1 类型:数字码 码:8888"
    );
    assert_eq!(
        line(found("a1", "定位", None)).unwrap(),
        "[08:00:00] [INFO] 发现待签到! [课一] ID:a1 类型:定位"
    );
    assert_eq!(
        line(signed("a1", CheckInResult::Success("成".to_string()))).unwrap(),
        "[08:00:00] [OK] 签到成功 [课一] ID:a1: 成"
    );
    assert_eq!(
        line(signed("a1", CheckInResult::Failed("败".to_string()))).unwrap(),
        "[08:00:00] [ERROR] 签到失败 [课一] ID:a1: 败"
    );
    assert_eq!(line(signed("a1", CheckInResult::Gone("完".to_string()))), None);
}

fn course(name: &str) -> Course {
    Course { class_id: "1".to_string(), tclass_id: "c1".to_string(), name: name.to_string() }
}

#[test]
fn lists_read_as_lines() {
    assert_eq!(render_courses(&Vec::new()), ["未获取到课程"]);
    assert_eq!(
        render_courses(&vec![course("甲"), course("乙")]),
        ["1. 甲 (课堂ID: c1)", "2. 乙 (课堂ID: c1)"]
    );
    let mut config = AppConfig::default();
    assert_eq!(render_places(&config), ["暂无课程坐标配置,定位签到会自动探测位置"]);
    for name in ["乙", "丙"] {
        config.locations.insert(
            name,
            CourseLocation { longitude: "1".to_string(), latitude: "2".to_string() },
        );
    }
    assert_eq!(render_places(&config), ["丙: 1 2", "乙: 1 2"]);
}

#[test]
fn probes_read_as_lines() {
    let entries = [("ID", "7"), ("CheckInType", "3"), ("CheckInCode", "8"), ("CanApply", "1")]
        .iter()
        .map(|(name, value)| (name.to_string(), Json::Text(value.to_string())))
        .collect();
    let row = RawRow::from_json(&Json::Object(entries)).unwrap();
    assert_eq!(
        render_row(&row),
        "     首行: ID=7 类型=3 码=8 CanApply=1 StatusID= 状态名= 已签= 截止= 发起="
    );
    let activity = probe_activity(&row);
    assert_eq!((activity.id.as_str(), activity.code.as_deref()), ("7", Some("8")));
    assert!(activity.coordinate.is_none());
    assert_eq!(render_fetch(&course("甲"), &Ok(vec![row])), "[OK] 甲: 1 行");
    assert_eq!(
        render_fetch(&course("甲"), &Err(ApiErr::Http(404))),
        "[ERR] 甲: HTTP 错误: 404"
    );
}

const TIME: &str = "08:00:00";

#[test]
fn messages_are_numbered_and_kept_to_two_hundred() {
    let mut monitor = Monitor::new(true);
    for number in 0..205 {
        monitor.push_row(EventKind::Info, "系统", format!("{number}"), TIME);
    }
    assert_eq!(monitor.events.len(), 200);
    assert_eq!(monitor.events[0].text, "204");
    assert_eq!(monitor.events[0].id, 205);
    assert_eq!(monitor.events[199].text, "5");
    assert_eq!(monitor.events[0].kind.label(), "信息");
    assert_eq!(EventKind::Good.label(), "成功");
    assert_eq!(EventKind::Warn.label(), "警告");
}

#[test]
fn activities_are_shown_with_their_results() {
    let mut monitor = Monitor::new(true);
    for number in 0..12 {
        monitor.apply_core_event(found(&format!("a{number}"), "数字码", Some("8")), TIME);
    }
    assert_eq!(monitor.activities.len(), 10);
    assert_eq!(monitor.found_count, 12);
    assert_eq!(monitor.activities[0].id, "a11");
    assert_eq!(monitor.activities[0].detail, "数字码 · 8");
    assert_eq!(monitor.activities[0].status_label(), "检测中");
    monitor.apply_core_event(signed("a11", CheckInResult::Success("成".to_string())), TIME);
    assert_eq!(monitor.signed_count, 1);
    assert_eq!(monitor.activities[0].status, ActivityStatus::Success);
    assert_eq!(monitor.activities[0].detail, "成");
    assert_eq!(monitor.activities[0].status_label(), "已签");
    monitor.apply_core_event(signed("a10", CheckInResult::Failed("败".to_string())), TIME);
    assert_eq!(monitor.activities[1].status_label(), "失败: 败");
    monitor.apply_core_event(signed("a9", CheckInResult::Gone("完".to_string())), TIME);
    assert_eq!(monitor.activities[2].status_label(), "已结束");
    monitor.apply_core_event(signed("new", CheckInResult::Gone("完".to_string())), TIME);
    assert_eq!(monitor.activities.len(), 11);
    assert_eq!(monitor.activities[0].kind_label(), "未知");
    assert_eq!(monitor.activities[1].kind_label(), "数字码");
    assert_eq!(monitor.signed_count, 1);
}

#[test]
fn lost_session_stops_the_watch() {
    let mut monitor = Monitor::new(true);
    assert!(monitor.toggle());
    assert!(monitor.monitoring && monitor.session_valid);
    let warning = "登录失效,已自动停止: 登录已失效";
    let effect = monitor.on_message(GuiMessage::Core(Event::Warn(warning.to_string())), TIME);
    assert_eq!(effect, Effect::Nothing);
    assert!(!monitor.monitoring && !monitor.listening && !monitor.session_valid);
    assert_eq!(monitor.events[0].text, format!("登录状态失效: {warning}"));
    assert_eq!(monitor.events[0].course, "会话");
    assert_eq!(monitor.events[1].course, "系统");
    assert_eq!(monitor.status_label(), "会话失效");
}

#[test]
fn workers_change_the_window() {
    let mut monitor = Monitor::new(false);
    assert_eq!(monitor.status_label(), "未登录");
    assert_eq!(monitor.account_label(), "账号");
    assert_eq!(monitor.on_message(GuiMessage::SessionCheck(true), TIME), Effect::FetchCourses);
    assert_eq!(monitor.events[0].text, "已恢复登录状态");
    assert_eq!(monitor.on_message(GuiMessage::SessionCheck(false), TIME), Effect::Nothing);
    assert_eq!(monitor.events[0].text, "保存的会话已失效,请重新登录");
    monitor.on_message(GuiMessage::LoginName("lin".to_string()), TIME);
    assert_eq!(monitor.account_label(), "lin");
    monitor.on_message(GuiMessage::Courses(vec![course("甲")]), TIME);
    assert_eq!((monitor.courses_count, monitor.courses.len()), (1, 1));
    let stop = || GuiMessage::MonitorStopped("完".to_string());
    let before = monitor.events.len();
    assert_eq!(monitor.on_message(stop(), TIME), Effect::Rest);
    assert_eq!(monitor.events.len(), before);
    assert!(monitor.toggle());
    assert_eq!(monitor.on_message(stop(), TIME), Effect::Rest);
    assert!(!monitor.monitoring && monitor.listening);
    assert_eq!((monitor.courses_count, monitor.events[0].text.as_str()), (0, "完"));
}

#[test]
fn logins_and_logouts_are_shown() {
    let mut monitor = Monitor::new(false);
    assert_eq!(monitor.on_login(Some("坏".to_string()), TIME), Effect::Nothing);
    assert_eq!(monitor.events[0].text, "登录失败: 坏");
    assert_eq!(monitor.on_login(None, TIME), Effect::FetchCourses);
    assert_eq!(monitor.status_label(), "已登录");
    monitor.apply_core_event(found("a", "定位", None), TIME);
    monitor.logout(TIME);
    assert_eq!(monitor.events.len(), 1);
    assert_eq!(monitor.events[0].text, "已退出登录");
    assert!(monitor.activities.is_empty() && monitor.found_count == 0);
    assert_eq!(monitor.status_label(), "未登录");
    assert!(monitor.has_room());
}

#[test]
fn button_stops_and_starts() {
    let mut monitor = Monitor::new(true);
    assert!(monitor.toggle());
    assert!(!monitor.toggle());
    assert!(!monitor.monitoring && !monitor.listening);
    assert_eq!(lost_session_reason(&ApiErr::AuthLost), "登录状态失效: 登录已失效");
    assert_eq!(no_courses_reason(&ApiErr::Http(5)), "获取课程失败: HTTP 错误: 5");
}

#[test]
fn watch_begins_after_session_and_courses() {
    let refused = |step: Opening| match step {
        Opening::Refused(reason) => reason,
        _ => panic!("the watch is not refused"),
    };
    assert_eq!(refused(opening(false, &Some(Ok(())), &Some(Ok(Vec::new())))), "未登录");
    assert!(matches!(opening(true, &None, &None), Opening::AskSession));
    assert_eq!(
        refused(opening(true, &Some(Err(ApiErr::AuthLost)), &None)),
        "登录状态失效: 登录已失效"
    );
    assert!(matches!(opening(true, &Some(Ok(())), &None), Opening::AskCourses));
    assert_eq!(
        refused(opening(true, &Some(Ok(())), &Some(Err(ApiErr::Http(5))))),
        "获取课程失败: HTTP 错误: 5"
    );
    assert!(matches!(opening(true, &Some(Ok(())), &Some(Ok(Vec::new()))), Opening::Begin));
}

#[test]
fn time_spans_have_two_digits() {
    assert_eq!(format_elapsed(0), "00:00:00");
    assert_eq!(format_elapsed(3661), "01:01:01");
    assert_eq!(format_elapsed(360_000), "100:00:00");
    assert_eq!(format_elapsed(59), "00:00:59");
}

#[test]
fn activities_are_counted() {
    let names: Vec<String> = words("b a b c b a");
    let counts = tally(&names);
    assert_eq!(
        counts,
        [("a".to_string(), 2), ("b".to_string(), 3), ("c".to_string(), 1)]
    );
    let mut monitor = Monitor::new(true);
    monitor.apply_core_event(found("1", "定位", None), TIME);
    monitor.apply_core_event(found("2", "定位", None), TIME);
    monitor.apply_core_event(signed("2", CheckInResult::Success("成".to_string())), TIME);
    monitor.apply_core_event(signed("3", CheckInResult::Gone("完".to_string())), TIME);
    assert_eq!(count_courses(&monitor.activities), [("课一".to_string(), 3)]);
    assert_eq!(
        count_kinds(&monitor.activities),
        [("定位".to_string(), 2), ("未知".to_string(), 1)]
    );
    assert_eq!(
        count_results(&monitor.activities),
        [("失败".to_string(), 1), ("成功".to_string(), 1)]
    );
    assert_eq!(kind_tone("数字码"), Tone::Info);
    assert_eq!(kind_tone("二维码"), Tone::Success);
    assert_eq!(kind_tone("定位"), Tone::Warning);
    assert_eq!(kind_tone("未知"), Tone::Muted);
}
