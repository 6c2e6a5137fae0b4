use duifene::json::Json;
use duifene::models::Coordinates;
use duifene::storage::{
    config_place, course_coordinates, load_config, load_learned_center, save_cookie,
    save_course_location, save_learned_center, AppConfig, ConfigPlace, CourseLocation,
};

fn json_of(value: &serde_json::Value) -> Json {
    match value {
        serde_json::Value::Null => Json::Null,
        serde_json::Value::Bool(flag) => Json::Bool(*flag),
        serde_json::Value::Number(number) => Json::Number(number.to_string()),
        serde_json::Value::String(text) => Json::Text(text.clone()),
        serde_json::Value::Array(items) => Json::Array(items.iter().map(json_of).collect()),
        serde_json::Value::Object(entries) => Json::Object(
            entries.iter().map(|(name, value)| (name.clone(), json_of(value))).collect(),
        ),
    }
}

fn value_of(json: &Json) -> serde_json::Value {
    match json {
        Json::Null => serde_json::Value::Null,
        Json::Bool(flag) => serde_json::Value::Bool(*flag),
        Json::Number(text) => serde_json::from_str(text).unwrap(),
        Json::Text(text) => serde_json::Value::String(text.clone()),
        Json::Array(items) => serde_json::Value::Array(items.iter().map(value_of).collect()),
        Json::Object(entries) => serde_json::Value::Object(
            entries.iter().map(|(name, value)| (name.clone(), value_of(value))).collect(),
        ),
    }
}

fn read(text: &str) -> Option<Json> {
    serde_json::from_str(text).ok().map(|value: serde_json::Value| json_of(&value))
}

#[test]
fn config_round_trip() {
    let mut config = AppConfig {
        cookie: "session=abc; token=xyz".to_string(),
        ..Default::default()
    };
    config.locations.insert(
        "test",
        CourseLocation {
            longitude: "114.10".to_string(),
            latitude: "22.70".to_string(),
        },
    );
    let text = serde_json::to_string(&value_of(&config.to_json())).unwrap();
    let restored = load_config(read(&text));
    assert_eq!(restored.cookie, config.cookie);
    assert_eq!(restored.locations.get("test").unwrap().longitude, "114.10");
}

#[test]
fn malformed_text_falls_back_to_default() {
    let text = "not json at all";
    let config = load_config(read(text));
    assert!(config.cookie.is_empty());
}

#[test]
fn settings_are_written_in_order() {
    let mut config = AppConfig::default();
    for name in ["b", "a", "c", "a"] {
        config.locations.insert(name, CourseLocation::default());
    }
    let names: Vec<&str> = config.locations.entries().iter().map(|entry| entry.0.as_str()).collect();
    assert_eq!(names, ["a", "b", "c"]);
    match config.to_json() {
        Json::Object(entries) => {
            let fields: Vec<&str> = entries.iter().map(|entry| entry.0.as_str()).collect();
            assert_eq!(fields, ["cookie", "locations", "learned_center"]);
            assert!(matches!(entries[2].1, Json::Null));
        }
        _ => unreachable!(),
    }
}

#[test]
fn missing_fields_have_their_first_values() {
    let config = AppConfig::from_json(&read("{}").unwrap()).unwrap();
    assert!(config.cookie.is_empty());
    assert!(config.locations.entries().is_empty());
    assert!(config.learned_center.is_none());
    let config = AppConfig::from_json(&read(r#"{"else":1,"cookie":"a"}"#).unwrap()).unwrap();
    assert_eq!(config.cookie, "a");
    let place = CourseLocation::from_json(&read(r#"{"longitude":"1"}"#).unwrap()).unwrap();
    assert_eq!((place.longitude.as_str(), place.latitude.as_str()), ("1", ""));
}

#[test]
fn fields_of_another_kind_spoil_the_settings() {
    for text in [
        r#"{"cookie":1}"#,
        r#"{"cookie":null}"#,
        r#"{"locations":[]}"#,
        r#"{"locations":{"a":{"longitude":1}}}"#,
        r#"{"learned_center":[1]}"#,
        r#"{"learned_center":[1,"2"]}"#,
        r#"{"learned_center":[1,2,3]}"#,
        "[1]",
        "7",
    ] {
        assert!(AppConfig::from_json(&read(text).unwrap()).is_none(), "{}", text);
    }
}

#[test]
fn field_that_is_there_twice_spoils_the_settings() {
    let twice = Json::Object(vec![
        ("cookie".to_string(), Json::Text("a".to_string())),
        ("cookie".to_string(), Json::Text("b".to_string())),
    ]);
    assert!(AppConfig::from_json(&twice).is_none());
    let place = |text: &str| {
        Json::Object(vec![("longitude".to_string(), Json::Text(text.to_string()))])
    };
    let names_twice = Json::Object(vec![(
        "locations".to_string(),
        Json::Object(vec![("a".to_string(), place("1")), ("a".to_string(), place("2"))]),
    )]);
    let config = AppConfig::from_json(&names_twice).unwrap();
    assert_eq!(config.locations.get("a").unwrap().longitude, "2");
}

#[test]
fn settings_can_stand_in_an_array() {
    let config = AppConfig::from_json(
        &read(r#"["k",{"a":["1","2"]},[114.5,22]]"#).unwrap(),
    )
    .unwrap();
    assert_eq!(config.cookie, "k");
    assert_eq!(config.locations.get("a").unwrap().latitude, "2");
    let center = config.learned_center.unwrap();
    assert_eq!((center.longitude.as_str(), center.latitude.as_str()), ("114.5", "22"));
    assert!(AppConfig::from_json(&read(r#"["k",{},null,1]"#).unwrap()).is_none());
}

#[test]
fn saving_changes_one_thing() {
    let stored = || read(r#"{"cookie":"k","locations":{"a":{"longitude":"1","latitude":"2"}}}"#);
    let config = save_cookie(stored(), "new");
    assert_eq!(config.cookie, "new");
    assert_eq!(config.locations.get("a").unwrap().latitude, "2");
    let config = save_course_location(stored(), "b", "3", "4");
    assert_eq!(config.cookie, "k");
    assert_eq!(config.locations.get("b").unwrap().longitude, "3");
    assert_eq!(config.locations.get("a").unwrap().longitude, "1");
    let config = save_learned_center(
        stored(),
        Coordinates { longitude: "114.5".to_string(), latitude: "22.5".to_string() },
    );
    let written = config.to_json();
    let center = load_learned_center(Some(written)).unwrap();
    assert_eq!((center.longitude.as_str(), center.latitude.as_str()), ("114.5", "22.5"));
    assert!(load_learned_center(None).is_none());
    let config = save_cookie(None, "k");
    assert!(config.locations.entries().is_empty());
}

#[test]
fn only_places_that_are_numbers_are_used() {
    let mut config = AppConfig::default();
    let place = |longitude: &str, latitude: &str| CourseLocation {
        longitude: longitude.to_string(),
        latitude: latitude.to_string(),
    };
    config.locations.insert("good", place("115.0", "23.0"));
    config.locations.insert("bad", place("115.0", "north"));
    let table = course_coordinates(&config);
    assert_eq!(table.get("good").unwrap().longitude, "115.0");
    assert!(table.get("bad").is_none());
    assert!(table.get("none").is_none());
}

#[test]
fn settings_lie_where_they_are_told_to() {
    assert!(matches!(
        config_place(Some("x.json".to_string()), true),
        ConfigPlace::Given(path) if path == "x.json"
    ));
    assert!(matches!(
        config_place(None, true),
        ConfigPlace::ConfigDir { folder, file } if folder == "duifene" && file == "config.json"
    ));
    assert!(matches!(
        config_place(None, false),
        ConfigPlace::Beside(file) if file == "duifene-config.json"
    ));
}
