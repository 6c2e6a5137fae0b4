use duifene::api::ApiErr;
use duifene::courses::{course_term, courses_from_json, parse_courses};
use duifene::json::{rows_from_json, Json};
use duifene::models::Course;

fn json_of(value: &serde_json::Value) -> Json {
    match value {
        serde_json::Value::Null => Json::Null,
        serde_json::Value::Bool(flag) => Json::Bool(*flag),
        serde_json::Value::Number(number) => Json::Number(number.to_string()),
        serde_json::Value::String(text) => Json::Text(text.clone()),
        serde_json::Value::Array(items) => Json::Array(items.iter().map(json_of).collect()),
        serde_json::Value::Object(entries) => Json::Object(
            entries.iter().map(|(name, value)| (name.clone(), json_of(value))).collect(),
        ),
    }
}

fn json(text: &str) -> Json {
    json_of(&serde_json::from_str(text).unwrap())
}

fn courses(text: &str) -> Vec<Course> {
    match json(text) {
        Json::Array(items) => parse_courses(&items),
        _ => unreachable!(),
    }
}

#[test]
fn course_list_accepts_strings_numbers_and_junk() {
    let courses = courses(
        r#"[
            {"CourseID": "101", "TClassID": "c1", "CourseName": "软件工程"},
            {"CourseID": 102, "TClassID": "c2", "CourseName": "数据结构"},
            "垃圾行",
            {"CourseID": "103"}
        ]"#,
    );
    assert_eq!(courses.len(), 2);
    assert_eq!(courses[0].class_id, "101");
    assert_eq!(courses[0].name, "软件工程");
    assert_eq!(courses[1].class_id, "102");
    assert_eq!(courses[1].tclass_id, "c2");
}

#[test]
fn course_list_keeps_only_latest_term() {
    let courses = courses(
        r#"[
            {"CourseID": "1", "TClassID": "c1", "CourseName": "课A", "TermName": "2026年秋"},
            {"CourseID": "2", "TClassID": "c2", "CourseName": "课B", "TermName": "2026年秋"},
            {"CourseID": "3", "TClassID": "c3", "CourseName": "课C", "TermName": "2026年春"},
            {"CourseID": "4", "TClassID": "c4", "CourseName": "课D", "TermName": "2025年秋"}
        ]"#,
    );
    let names: Vec<&str> = courses.iter().map(|course| course.name.as_str()).collect();
    assert_eq!(names, ["课A", "课B"]);
}

#[test]
fn course_list_keeps_long_term_courses() {
    let courses = courses(
        r#"[
            {"CourseID": "1", "TClassID": "c1", "CourseName": "课A", "TermName": "2026年秋"},
            {"CourseID": "2", "TClassID": "c2", "CourseName": "长期课", "TermName": "2024级形势与政策"},
            {"CourseID": "3", "TClassID": "c3", "CourseName": "课C", "TermName": "2025年秋"}
        ]"#,
    );
    let names: Vec<&str> = courses.iter().map(|course| course.name.as_str()).collect();
    assert_eq!(names, ["课A", "长期课"]);
}

#[test]
fn course_list_autumn_beats_spring_of_same_year() {
    let courses = courses(
        r#"[
            {"CourseID": "1", "TClassID": "c1", "CourseName": "春课", "TermName": "2026年春"},
            {"CourseID": "2", "TClassID": "c2", "CourseName": "秋课", "TermName": "2026年秋"}
        ]"#,
    );
    let names: Vec<&str> = courses.iter().map(|course| course.name.as_str()).collect();
    assert_eq!(names, ["秋课"]);
}

#[test]
fn course_list_without_term_keeps_everything() {
    let courses = courses(
        r#"[
            {"CourseID": "1", "TClassID": "c1", "CourseName": "甲"},
            {"CourseID": "2", "TClassID": "c2", "CourseName": "乙"}
        ]"#,
    );
    assert_eq!(courses.len(), 2);
}

#[test]
fn terms_are_a_year_and_a_season() {
    let autumn = course_term(" 2026 年 秋 ").unwrap();
    assert_eq!((autumn.year, autumn.is_autumn), (2026, true));
    let spring = course_term("-1年春").unwrap();
    assert_eq!((spring.year, spring.is_autumn), (-1, false));
    assert!(course_term("2026年夏").is_none());
    assert!(course_term("2026秋").is_none());
    assert!(course_term("2147483648年秋").is_none());
    assert_eq!(course_term("+2147483647年秋").unwrap().year, 2147483647);
}

#[test]
fn course_list_is_found_under_four_names() {
    for name in ["data", "list", "courses", "items"] {
        let reply = format!(r#"{{"{name}":[{{"TClassID":"c1","CourseName":"甲"}}]}}"#);
        assert_eq!(courses_from_json(&json(&reply)).unwrap()[0].name, "甲");
    }
    let both = json(r#"{"items":[{"CourseName":"乙"}],"data":[{"CourseName":"甲"}]}"#);
    assert_eq!(courses_from_json(&both).unwrap()[0].name, "甲");
    let top = json(r#"[{"CourseName":"甲"}]"#);
    assert_eq!(courses_from_json(&top).unwrap().len(), 1);
}

#[test]
fn other_replies_are_no_course_list() {
    for text in [r#"{"data":"x"}"#, r#"{"else":[]}"#, "1", "null"] {
        match courses_from_json(&json(text)) {
            Err(ApiErr::Parse(reason)) => assert_eq!(reason, "课程列表结构不符"),
            _ => unreachable!(),
        }
    }
}

#[test]
fn check_in_list_passes_over_what_is_no_row() {
    let rows = rows_from_json(&json(r#"{"rows":[{"ID":"1"},{"ID":2},"x",{"ID":"3"}]}"#));
    let ids: Vec<&str> = rows.iter().map(|row| row.id.as_str()).collect();
    assert_eq!(ids, ["1", "3"]);
    assert!(rows_from_json(&json(r#"{"rows":{}}"#)).is_empty());
    assert!(rows_from_json(&json("[]")).is_empty());
}
