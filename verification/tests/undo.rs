use shadowenv::json::Json;
use shadowenv::undo::{
    load_previous_hash, load_record, load_shadowenv_data, Data, List, MalformedUndo, Scalar,
};

#[test]
fn reads_a_full_record() {
    let data = Data::from_str(
        r#"{"scalars":[{"name":"FOO","original":null,"current":"bar","no_clobber":true}],"lists":[{"name":"PATH","additions":["/a"],"deletions":["/b","/c"]}]}"#,
    )
    .unwrap();
    assert_eq!(
        data,
        Data {
            scalars: vec![Scalar {
                name: "FOO".to_string(),
                original: None,
                current: Some("bar".to_string()),
                no_clobber: true
            }],
            lists: vec![List {
                name: "PATH".to_string(),
                additions: vec!["/a".to_string()],
                deletions: vec!["/b".to_string(), "/c".to_string()]
            }],
        }
    );
}

#[test]
fn missing_members_take_their_defaults() {
    assert_eq!(Data::from_str("{}").unwrap(), Data::new());
    let data = Data::from_str(r#"{"scalars":[{}],"lists":[{}],"future":[1,2]}"#).unwrap();
    assert_eq!(data.scalars, vec![Scalar::default()]);
    assert_eq!(data.lists, vec![List::default()]);
    let data =
        Data::from_str(r#"{"scalars":[{"name":"A","current":"x","extra":{"a":1}}]}"#).unwrap();
    assert_eq!(
        data.scalars,
        vec![Scalar {
            name: "A".to_string(),
            original: None,
            current: Some("x".to_string()),
            no_clobber: false
        }]
    );
}

#[test]
fn rejects_what_is_no_json() {
    match Data::from_str("invalid:json") {
        Err(MalformedUndo::Json(message)) => assert!(message.contains("expected value")),
        other => panic!("unexpected: {:?}", other),
    }
    assert!(matches!(Data::from_str(""), Err(MalformedUndo::Json(_))));
    assert!(matches!(Data::from_str("{} x"), Err(MalformedUndo::Json(_))));
}

#[test]
fn rejects_what_does_not_match_the_schema() {
    assert_eq!(Data::from_str("[]"), Err(MalformedUndo::Schema));
    assert_eq!(Data::from_str("null"), Err(MalformedUndo::Schema));
    assert_eq!(Data::from_str(r#"{"scalars":{}}"#), Err(MalformedUndo::Schema));
    assert_eq!(Data::from_str(r#"{"scalars":null}"#), Err(MalformedUndo::Schema));
    assert_eq!(Data::from_str(r#"{"scalars":[1]}"#), Err(MalformedUndo::Schema));
    assert_eq!(
        Data::from_str(r#"{"scalars":[{"name":null}]}"#),
        Err(MalformedUndo::Schema)
    );
    assert_eq!(
        Data::from_str(r#"{"scalars":[{"no_clobber":"yes"}]}"#),
        Err(MalformedUndo::Schema)
    );
    assert_eq!(
        Data::from_str(r#"{"scalars":[{"original":3}]}"#),
        Err(MalformedUndo::Schema)
    );
    assert_eq!(
        Data::from_str(r#"{"lists":[{"additions":["a",null]}]}"#),
        Err(MalformedUndo::Schema)
    );
    assert_eq!(
        Data::from_str(r#"{"lists":[{"deletions":"a"}]}"#),
        Err(MalformedUndo::Schema)
    );
}

#[test]
fn from_json_reads_a_document_built_by_hand() {
    let scalar = Json::Object(vec![
        ("name".to_string(), Json::Text("K".to_string())),
        ("original".to_string(), Json::Null),
        ("current".to_string(), Json::Text("2".to_string())),
    ]);
    let doc = Json::Object(vec![("scalars".to_string(), Json::Array(vec![scalar]))]);
    let data = Data::from_json(&doc).unwrap();
    assert_eq!(
        data.scalars,
        vec![Scalar {
            name: "K".to_string(),
            original: None,
            current: Some("2".to_string()),
            no_clobber: false
        }]
    );
    assert_eq!(Data::from_json(&Json::Bool(true)), Err(MalformedUndo::Schema));
    assert_eq!(
        Data::from_json(&Json::Object(vec![("lists".to_string(), Json::Number("1".to_string()))])),
        Err(MalformedUndo::Schema)
    );
}

#[test]
fn writes_compact_json() {
    assert_eq!(
        Data::new().to_json(),
        r#"{"scalars":[],"lists":[]}"#
    );
    let mut data = Data::new();
    data.add_scalar("A\"q".to_string(), Some("line\nbreak".to_string()), None, false);
    data.add_scalar("B".to_string(), None, Some("é\\".to_string()), true);
    data.add_list("L".to_string(), vec![], vec!["x".to_string(), "y z".to_string()]);
    let text = data.to_json();
    assert_eq!(
        text,
        r#"{"scalars":[{"name":"A\"q","original":"line\nbreak","current":null,"no_clobber":false},{"name":"B","original":null,"current":"é\\","no_clobber":true}],"lists":[{"name":"L","additions":[],"deletions":["x","y z"]}]}"#
    );
    assert_eq!(Data::from_str(&text).unwrap(), data);
}

#[test]
fn strings_are_escaped_as_json_asks() {
    let mut data = Data::new();
    data.add_scalar(
        "q\"b\\".to_string(),
        Some("\u{8}\t\n\u{c}\r".to_string()),
        Some("\u{0}\u{1}\u{1f}\u{7f} /\u{e9}".to_string()),
        false,
    );
    let text = data.to_json();
    assert_eq!(
        text,
        "{\"scalars\":[{\"name\":\"q\\\"b\\\\\",\"original\":\"\\b\\t\\n\\f\\r\",\"current\":\"\\u0000\\u0001\\u001f\u{7f} /\u{e9}\",\"no_clobber\":false}],\"lists\":[]}"
    );
    assert_eq!(Data::from_str(&text).unwrap(), data);
    let value: serde_json::Value = serde_json::from_str(&text).unwrap();
    assert_eq!(value["scalars"][0]["name"], "q\"b\\");
}

#[test]
fn a_carried_record_is_read_in_two_parts() {
    use_parts();
}

fn use_parts() {
    assert_eq!(load_previous_hash(""), Ok(None));
    assert_eq!(load_previous_hash("0000000000000000:whatever"), Ok(None));
    assert_eq!(load_previous_hash("00000000000000ff"), Ok(Some(255)));
    assert_eq!(load_previous_hash("00000000000000FF:{"), Ok(Some(255)));
    assert_eq!(load_previous_hash("ff:{}"), Err(MalformedUndo::Hash));
    // without a JSON part the record is empty, and the hash is not looked at
    assert_eq!(load_record(""), Ok(Data::new()));
    assert_eq!(load_record("00000000000000ff"), Ok(Data::new()));
    assert_eq!(load_record("ff:"), Ok(Data::new()));
    assert_eq!(load_record("ff:{}"), Ok(Data::new()));
    assert_eq!(load_record("ff:[]"), Err(MalformedUndo::Schema));
    assert!(matches!(load_record("00000000000000ff:x"), Err(MalformedUndo::Json(_))));
    assert_eq!(load_shadowenv_data("00000000000000ff:{}"), Ok((Some(255), Data::new())));
    assert_eq!(load_shadowenv_data("ff:x"), Err(MalformedUndo::Hash));
    assert!(matches!(load_shadowenv_data(":x"), Err(MalformedUndo::Json(_))));
}
