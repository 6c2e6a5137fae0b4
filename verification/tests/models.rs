use duifene::api::Client;
use duifene::json::Json;
use duifene::models::{parse_coordinate, RawRow, SignActivity, SignType};

fn json_of(value: &serde_json::Value) -> Json {
    match value {
        serde_json::Value::Null => Json::Null,
        serde_json::Value::Bool(flag) => Json::Bool(*flag),
        serde_json::Value::Number(number) => Json::Number(number.to_string()),
        serde_json::Value::String(text) => Json::Text(text.clone()),
        serde_json::Value::Array(items) => Json::Array(items.iter().map(json_of).collect()),
        serde_json::Value::Object(entries) => Json::Object(
            entries.iter().map(|(name, value)| (name.clone(), json_of(value))).collect(),
        ),
    }
}

fn raw(json: &str) -> RawRow {
    RawRow::from_json(&json_of(&serde_json::from_str(json).unwrap())).unwrap()
}

#[test]
fn client_is_object_safe() {
    let _assert: Option<&mut dyn Client> = None;
}

#[test]
fn checkin_type_maps_to_sign_type() {
    let code = SignActivity::from_raw(&raw(r#"{"ID":"1","CheckInType":"1"}"#));
    assert!(matches!(code.kind, SignType::Code));
    let qr = SignActivity::from_raw(&raw(r#"{"ID":"2","CheckInType":"2"}"#));
    assert!(matches!(qr.kind, SignType::Qr));
    let locate = SignActivity::from_raw(&raw(r#"{"ID":"3","CheckInType":"3"}"#));
    assert!(matches!(locate.kind, SignType::Locate));
    let unknown = SignActivity::from_raw(&raw(r#"{"ID":"4","CheckInType":"9"}"#));
    assert!(matches!(unknown.kind, SignType::Unknown));
}

#[test]
fn empty_code_translates_to_none() {
    let activity = SignActivity::from_raw(&raw(r#"{"ID":"1","CheckInCode":""}"#));
    assert!(activity.code.is_none());
}

#[test]
fn code_is_kept_when_present() {
    let activity = SignActivity::from_raw(&raw(r#"{"ID":"1","CheckInCode":"8888"}"#));
    assert_eq!(activity.code.as_deref(), Some("8888"));
}

#[test]
fn coordinate_requires_both_fields() {
    let both = raw(r#"{"ID":"1","Longitude":"114.39437","Latitude":"22.70462"}"#);
    let activity = SignActivity::from_raw(&both);
    let place = activity.coordinate.unwrap();
    assert_eq!(
        Some((place.longitude.parse::<f64>().unwrap(), place.latitude.parse::<f64>().unwrap())),
        Some((114.39437, 22.70462))
    );
    let half = raw(r#"{"ID":"1","Longitude":"114.39437"}"#);
    let activity = SignActivity::from_raw(&half);
    assert!(activity.coordinate.is_none());
}

#[test]
fn sign_type_is_exactly_one_digit() {
    assert_eq!(SignType::parse("1"), SignType::Code);
    assert_eq!(SignType::parse("2"), SignType::Qr);
    assert_eq!(SignType::parse("3"), SignType::Locate);
    assert_eq!(SignType::parse(""), SignType::Unknown);
    assert_eq!(SignType::parse("11"), SignType::Unknown);
    assert_eq!(SignType::parse(" 1"), SignType::Unknown);
}

#[test]
fn coordinates_are_numbers_in_any_notation() {
    assert!(parse_coordinate("1e2", "-.5").is_some());
    assert!(parse_coordinate("1", "x").is_none());
    assert!(parse_coordinate("", "1").is_none());
}

#[test]
fn row_fields_must_be_texts() {
    let number = serde_json::from_str(r#"{"ID":1}"#).unwrap();
    assert!(RawRow::from_json(&json_of(&number)).is_none());
    let null = serde_json::from_str(r#"{"ID":null}"#).unwrap();
    assert!(RawRow::from_json(&json_of(&null)).is_none());
    let stranger = serde_json::from_str(r#"{"Else":1}"#).unwrap();
    assert_eq!(RawRow::from_json(&json_of(&stranger)).unwrap().id, "");
}

#[test]
fn row_can_stand_in_an_array() {
    let array = serde_json::from_str(r#"["7","1","8888"]"#).unwrap();
    let row = RawRow::from_json(&json_of(&array)).unwrap();
    assert_eq!((row.id.as_str(), row.checkin_type.as_str()), ("7", "1"));
    assert_eq!((row.checkin_code.as_str(), row.latitude.as_str()), ("8888", ""));
    let fourteen = Json::Array((0..14).map(|_| Json::Text(String::new())).collect());
    assert!(RawRow::from_json(&fourteen).is_none());
    assert!(RawRow::from_json(&Json::Null).is_none());
}
