use duifene::api::{ApiErr, CheckInResult};
use duifene::cookies::{parse_cookie_pair, CookieStore};
use duifene::html::{
    extract_login_name, extract_wechat_code, find_input_value, find_input_value_by_keyword,
    first_text_snippet, input_value_by_keyword, look_up_by_keyword, look_up_input, look_up_room,
    page_coordinates, parse_distance_meters, Lookup, PlaceLookup,
};
use duifene::json::Json;
use duifene::replies::{
    classify_message, classify_sign_json, posted_outcome, scan_outcome, SignReply,
};

#[test]
fn uid_parsed_with_double_quotes() {
    let html = r#"<input type="hidden" name="hidUID" id="hidUID" value="S202301" />"#;
    assert_eq!(
        find_input_value(html, &["hidUID", "studentId"]).as_deref(),
        Some("S202301")
    );
}

#[test]
fn uid_parsed_with_single_quotes() {
    let html = r#"<input type='hidden' id='studentId' value='S202302' />"#;
    assert_eq!(
        find_input_value(html, &["hidUID", "studentId"]).as_deref(),
        Some("S202302")
    );
}

#[test]
fn uid_parsed_when_value_precedes_id() {
    let html = r#"<input type="hidden" value="S202303" id="hidUID" />"#;
    assert_eq!(
        find_input_value(html, &["hidUID"]).as_deref(),
        Some("S202303")
    );
}

#[test]
fn uid_parsed_by_name_keyword_fallback() {
    let html = r#"<input type="hidden" name="studentid_extra" value="S202304" />"#;
    assert_eq!(
        find_input_value_by_keyword(html, &["uid", "userid", "studentid"]).as_deref(),
        Some("S202304")
    );
}

#[test]
fn room_coordinates_parsed_from_page() {
    let html = r#"<input id="HFRoomLongitude" value="114.39437" />
                      <input id="hfroomlatitude" value="22.70462" />"#;
    let place = page_coordinates(html).unwrap();
    assert_eq!(
        (place.longitude.parse::<f64>().unwrap(), place.latitude.parse::<f64>().unwrap()),
        (114.39437, 22.70462)
    );
}

#[test]
fn sign_message_classification() {
    assert!(matches!(
        classify_message("签到成功", "签到未成功"),
        CheckInResult::Success(_)
    ));
    assert!(matches!(
        classify_message("活动已结束", "签到未成功"),
        CheckInResult::Gone(_)
    ));
    assert!(matches!(
        classify_message("没有正在进行的签到", "签到未成功"),
        CheckInResult::Gone(_)
    ));
    assert!(matches!(
        classify_message("已超出签到范围", "签到未成功"),
        CheckInResult::Failed(_)
    ));
}

#[test]
fn cookie_pairs_parsed() {
    assert_eq!(
        parse_cookie_pair("session=abc123; Path=/; HttpOnly"),
        Some(("session".to_string(), "abc123".to_string()))
    );
    let mut store = CookieStore::new();
    store.seed("a=1; b=2");
    assert_eq!(store.header_value().as_deref(), Some("a=1; b=2"));
}

#[test]
fn wechat_code_extracted() {
    let link = "https://example.com/auth?code=ABCDEF0123456789abcdef0123456789&state=1";
    assert_eq!(
        extract_wechat_code(link).as_deref(),
        Some("ABCDEF0123456789abcdef0123456789")
    );
    assert_eq!(extract_wechat_code("no code here"), None);
}

#[test]
fn login_name_extracted_from_details_page() {
    let html = r#"<td><a id="aLoginName" title="点击更改" onclick="LayerUpdate(this,20,&#39;修改登录名&#39;)">linyisu1024</a></td>"#;
    assert_eq!(extract_login_name(html).as_deref(), Some("linyisu1024"));
    let empty = r#"<td><a id="aLoginName"></a></td>"#;
    assert_eq!(extract_login_name(empty), None);
}

#[test]
fn distance_parsed_from_rejection_message() {
    assert_eq!(
        parse_distance_meters("签到未成功: 不在教室范围，距离：343.08米！")
            .map(|text| text.parse::<f64>().unwrap()),
        Some(343.08)
    );
    assert_eq!(
        parse_distance_meters("不在教室范围,距离: 557.68米").map(|text| text.parse::<f64>().unwrap()),
        Some(557.68)
    );
    assert_eq!(parse_distance_meters("签到成功"), None);
}

#[test]
fn values_are_quoted_or_bare() {
    let bare = "<input id=\"hidUID\" value= S1>";
    assert_eq!(find_input_value(bare, &["hidUID"]).as_deref(), Some("S1"));
    let empty = "<input id=\"hidUID\" value=\"\">";
    assert_eq!(find_input_value(empty, &["hidUID"]).as_deref(), Some(""));
    let open = "<input id=\"hidUID\" value=\"S1";
    assert_eq!(find_input_value(open, &["hidUID"]), None);
    let nothing = "<input id=\"hidUID\" value=";
    assert_eq!(find_input_value(nothing, &["hidUID"]), None);
}

#[test]
fn values_are_looked_for_in_reach_alone() {
    let near = format!("id=\"x\"{}value='1'", " ".repeat(294));
    assert_eq!(find_input_value(&near, &["x"]).as_deref(), Some("1"));
    let far = format!("id=\"x\"{}value='1'", " ".repeat(295));
    assert_eq!(find_input_value(&far, &["x"]), None);
    let before = format!("value='1'{}id=\"x\"", " ".repeat(291));
    assert_eq!(find_input_value(&before, &["x"]).as_deref(), Some("1"));
    let too_early = format!("value='1'{}id=\"x\"", " ".repeat(292));
    assert_eq!(find_input_value(&too_early, &["x"]), None);
}

#[test]
fn last_value_before_counts() {
    let html = "value='1' value='2' id='x'";
    assert_eq!(find_input_value(html, &["x"]).as_deref(), Some("2"));
    let both = "value='1' id='x' value='2'";
    assert_eq!(find_input_value(both, &["x"]).as_deref(), Some("2"));
}

#[test]
fn later_tag_counts_where_the_first_has_no_value() {
    let html = format!("id=\"x\"{}id=\"x\" value='2'", " ".repeat(400));
    assert_eq!(find_input_value(&html, &["x"]).as_deref(), Some("2"));
}

#[test]
fn stretch_that_ends_inside_a_character_is_told() {
    let cut = format!("id=\"x\"{}课", " ".repeat(299));
    assert!(matches!(look_up_input(&cut, &["x"]), Lookup::Cut));
    let whole = format!("id=\"x\"{}课", " ".repeat(297));
    assert!(matches!(look_up_input(&whole, &["x"]), Lookup::Missing));
    let cut_before = format!("课{}id=\"x\"", " ".repeat(299));
    assert!(matches!(look_up_input(&cut_before, &["x"]), Lookup::Cut));
    let room = format!("id=\"HFRoomLongitude\"{}课", " ".repeat(299));
    assert!(matches!(look_up_room(&room), PlaceLookup::Cut));
}

#[test]
fn names_are_read_behind_their_quote() {
    let cut = "name=";
    assert!(matches!(look_up_by_keyword(cut, &["uid"]), Lookup::Cut));
    assert_eq!(input_value_by_keyword(cut, &["uid"]), None);
    let wide = "name=课";
    assert!(matches!(look_up_by_keyword(wide, &["uid"]), Lookup::Cut));
    let upper = "<input name=\"StudentUID\" value=\"S9\">";
    assert_eq!(input_value_by_keyword(upper, &["uid"]), Some(Some("S9".to_string())));
    let other = "<input name=\"x\" value=\"S9\">";
    assert_eq!(input_value_by_keyword(other, &["uid"]), Some(None));
    let second = "<input name=\"x\" value=\"1\"><input name=\"uid\" value=\"2\">";
    assert_eq!(find_input_value_by_keyword(second, &["uid"]).as_deref(), Some("2"));
}

#[test]
fn room_needs_two_numbers() {
    assert!(page_coordinates("<input id=\"HFRoomLongitude\" value=\"1\">").is_none());
    let word = "<input id=\"HFRoomLongitude\" value=\"1\"><input id=\"HFRoomLatitude\" value=\"n\">";
    assert!(page_coordinates(word).is_none());
}

#[test]
fn login_name_may_end_in_capitals() {
    assert_eq!(
        extract_login_name("<a id=\"aLoginName\"> lin </A>").as_deref(),
        Some("lin")
    );
    assert_eq!(extract_login_name("<a id=\"aLoginName\" lin"), None);
    assert_eq!(extract_login_name("<a id=\"aLoginName\">lin"), None);
    assert_eq!(extract_login_name("nothing"), None);
}

#[test]
fn codes_have_thirty_two_characters() {
    assert_eq!(extract_wechat_code("code=ABCDEF0123456789abcdef012345678"), None);
    assert_eq!(extract_wechat_code("code=ABCDEF0123456789abcdef01234567890"), None);
    assert_eq!(
        extract_wechat_code("code=short&code=ABCDEF0123456789abcdef0123456789"),
        None
    );
}

#[test]
fn distances_are_the_first_number_behind_the_word() {
    assert_eq!(parse_distance_meters("12距离约34.5米6").as_deref(), Some("34.5"));
    assert_eq!(parse_distance_meters("距离1.2.3"), None);
    assert_eq!(parse_distance_meters("距离很远"), None);
    assert_eq!(parse_distance_meters("12米"), None);
    assert_eq!(parse_distance_meters("距离7.").as_deref(), Some("7."));
}

#[test]
fn snippets_are_one_short_line() {
    assert_eq!(first_text_snippet("  <p>\n 你 好\t</p> "), "<p> 你 好 </p>");
    assert_eq!(first_text_snippet(" \n"), "");
    let long = "课 ".repeat(50);
    assert_eq!(first_text_snippet(&long).chars().count(), 60);
}

#[test]
fn replies_to_check_ins_are_classed() {
    let json = |text: &str| {
        Ok(Json::Object(vec![("msgbox".to_string(), Json::Text(text.to_string()))]))
    };
    let text = |result: CheckInResult| match result {
        CheckInResult::Success(text) => format!("S {text}"),
        CheckInResult::Gone(text) => format!("G {text}"),
        CheckInResult::Failed(text) => format!("F {text}"),
    };
    assert_eq!(text(classify_sign_json(&json("签到成功"), "未")), "S 签到成功");
    assert_eq!(text(classify_sign_json(&json("活动已结束"), "未")), "G 活动已结束");
    assert_eq!(text(classify_sign_json(&json("太远"), "未")), "F 未: 太远");
    assert_eq!(text(classify_sign_json(&json(""), "未")), "F 未");
    assert_eq!(text(classify_sign_json(&Ok(Json::Null), "未")), "F 未");
    assert_eq!(
        text(classify_sign_json(&Err(ApiErr::Parse("乱".to_string())), "未")),
        "F 未: 响应解析失败: 乱"
    );
    assert_eq!(text(posted_outcome(&SignReply::Came(json("太远")))), "F 签到未成功: 太远");
    assert_eq!(
        text(posted_outcome(&SignReply::Lost(ApiErr::Http(500)))),
        "F 签到异常: HTTP 错误: 500"
    );
    assert_eq!(text(scan_outcome(&Ok("签到成功!".to_string()))), "S 签到成功");
    assert_eq!(
        text(scan_outcome(&Ok("非微信".to_string()))),
        "F 非微信链接登录,无法二维码签到"
    );
    assert_eq!(text(scan_outcome(&Ok("a  b".to_string()))), "F 二维码签到未成功: a b");
    assert_eq!(
        text(scan_outcome(&Err(ApiErr::AuthLost))),
        "F 二维码签到异常: 登录已失效"
    );
    assert_eq!(text(classify_message("成功但已结束", "未")), "S 成功但已结束");
}

#[test]
fn cookies_without_name_or_sign_are_none() {
    assert_eq!(parse_cookie_pair("=x"), None);
    assert_eq!(parse_cookie_pair("abc"), None);
    assert_eq!(parse_cookie_pair(" ; a=1"), None);
    assert_eq!(
        parse_cookie_pair("  a = b=c ; Path=/"),
        Some(("a".to_string(), "b=c".to_string()))
    );
}

#[test]
fn session_seeded_twice_is_as_seeded_once() {
    let text = "b=2; a=1; nonsense; b=3; c=";
    let mut store = CookieStore::new();
    store.seed("a=0; z=9");
    store.seed(text);
    let once = store.snapshot();
    assert_eq!(once, "a=1; z=9; b=3; c=");
    store.seed(text);
    assert_eq!(store.snapshot(), once);
}

#[test]
fn kept_session_comes_back() {
    let mut store = CookieStore::new();
    assert_eq!(store.header_value(), None);
    assert_eq!(store.snapshot(), "");
    assert_eq!(store.summary(), "无");
    store.apply_response(&vec![
        "a=1; Path=/".to_string(),
        "junk".to_string(),
        "b=; HttpOnly".to_string(),
        "a=2".to_string(),
    ]);
    assert_eq!(store.snapshot(), "a=2; b=");
    assert_eq!(store.summary(), "a,b");
    let mut again = CookieStore::new();
    again.seed(&store.snapshot());
    assert_eq!(again.snapshot(), store.snapshot());
    again.clear();
    assert_eq!(again.header_value(), None);
}
