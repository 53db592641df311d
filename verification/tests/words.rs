use xfyun_rtasr::words::{is_final, segment_id};
use xfyun_rtasr::{extract_words, Json};

fn text(s: &str) -> Json {
    Json::Str(s.to_string())
}

fn object(members: Vec<(&str, Json)>) -> Json {
    Json::Object(
        members
            .into_iter()
            .map(|(name, value)| (name.to_string(), value))
            .collect(),
    )
}

#[test]
fn extract_words_parses_nested_structure() {
    let data = object(vec![
        (
            "cn",
            object(vec![(
                "st",
                object(vec![
                    (
                        "rt",
                        Json::Array(vec![object(vec![(
                            "ws",
                            Json::Array(vec![object(vec![(
                                "cw",
                                Json::Array(vec![
                                    object(vec![("w", text("你好"))]),
                                    object(vec![("w", text("！"))]),
                                ]),
                            )])]),
                        )])]),
                    ),
                    ("type", text("1")),
                ]),
            )]),
        ),
        ("seg_id", Json::Number(Some(0))),
    ]);
    assert_eq!(extract_words(&data), "你好！");
}

#[test]
fn extract_words_handles_empty_rt() {
    let data = object(vec![
        (
            "cn",
            object(vec![(
                "st",
                object(vec![("rt", Json::Array(vec![])), ("type", text("1"))]),
            )]),
        ),
        ("seg_id", Json::Number(Some(0))),
    ]);
    assert_eq!(extract_words(&data), "");
}

#[test]
fn extract_words_handles_missing_cn() {
    let data = object(vec![("seg_id", Json::Number(Some(0)))]);
    assert_eq!(extract_words(&data), "");
}

#[test]
fn words_of_all_sentences_and_groups_are_joined() {
    let data = Json::parse(
        r#"{"cn":{"st":{"rt":[
            {"ws":[{"cw":[{"w":"a"},{"w":"b"}]},{"cw":[{"w":"c"}]}]},
            {"other":1},
            {"ws":[{"cw":"none"},{"cw":[{"w":7},{},{"w":"d"}]}]}
        ],"type":"0"}},"seg_id":-5}"#,
    )
    .unwrap();
    assert_eq!(extract_words(&data), "abcd");
    assert!(is_final(&data));
    assert_eq!(segment_id(&data), -5);
}

#[test]
fn result_without_type_or_segment_is_interim_and_zero() {
    let data = Json::parse(r#"{"cn":{"st":{"rt":[],"type":0}},"seg_id":"3"}"#).unwrap();
    assert!(!is_final(&data));
    assert_eq!(segment_id(&data), 0);
    let data = Json::parse("{}").unwrap();
    assert!(!is_final(&data));
    assert_eq!(segment_id(&data), 0);
}

#[test]
fn json_texts_are_read_as_serde_json_reads_them() {
    assert!(matches!(Json::parse("null"), Some(Json::Null)));
    assert!(matches!(Json::parse("true"), Some(Json::Bool(true))));
    assert!(matches!(Json::parse("-7"), Some(Json::Number(Some(-7)))));
    assert!(matches!(Json::parse("1.5"), Some(Json::Number(None))));
    assert!(matches!(
        Json::parse("18446744073709551615"),
        Some(Json::Number(None))
    ));
    assert!(Json::parse("").is_none());
    assert!(Json::parse("{").is_none());
    assert!(Json::parse("{} x").is_none());
    let array = Json::parse(r#"["a", ["b"]]"#).unwrap();
    let items = array.as_array().unwrap();
    assert_eq!(items.len(), 2);
    assert_eq!(items[0].as_str(), Some("a"));
    assert_eq!(items[1].as_array().unwrap()[0].as_str(), Some("b"));
}

#[test]
fn members_are_found_by_name() {
    let value = Json::parse(r#"{"b":"x\n你","a":{"c":3},"b":"second"}"#).unwrap();
    assert_eq!(value.str_at("b"), Some("second"));
    assert_eq!(value.get("a").unwrap().get("c").unwrap().as_i64(), Some(3));
    assert!(value.get("z").is_none());
    assert!(value.str_at("a").is_none());
    assert!(value.array_at("a").is_none());
    assert!(Json::Null.get("a").is_none());
    let escaped = Json::parse(r#"{"b":"x\n你"}"#).unwrap();
    assert_eq!(escaped.str_at("b"), Some("x\n你"));
}

#[test]
fn last_member_of_a_name_counts() {
    let value = object(vec![("a", text("first")), ("a", text("second"))]);
    assert_eq!(value.str_at("a"), Some("second"));
}
