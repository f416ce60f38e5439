use novel_work::ai_log::{redact_value, shrink_binaries};
use novel_work::compat_messages::fill_missing_message_content;
use novel_work::json::{json_get, json_text_of, parse_json_text, Json};

fn text_at<'a>(v: &'a Json, path: &[&str]) -> &'a Json {
    let mut cur = v;
    for k in path {
        cur = json_get(cur, k).unwrap();
    }
    cur
}

fn as_text(v: &Json) -> &str {
    match v {
        Json::Str(s) => s.as_str(),
        _ => panic!("not a string"),
    }
}

#[test]
fn redact_strips_keys_and_bearer() {
    let mut v = parse_json_text(
        r#"{"api_key": "secret", "headers": { "Authorization": "Bearer abc" }, "ok": "yes", "token": "t"}"#,
    )
    .unwrap();
    redact_value(&mut v);
    assert_eq!(as_text(text_at(&v, &["api_key"])), "***");
    assert_eq!(as_text(text_at(&v, &["headers", "Authorization"])), "***");
    assert_eq!(as_text(text_at(&v, &["token"])), "***");
    assert_eq!(as_text(text_at(&v, &["ok"])), "yes");
}

#[test]
fn redact_masks_every_api_key_spelling() {
    let mut v = parse_json_text(r#"{"x-api-key": "abc123", "API-Key": "k2", "apiKeyId": "k3", "keyboard": "q"}"#).unwrap();
    redact_value(&mut v);
    assert_eq!(as_text(text_at(&v, &["x-api-key"])), "***");
    assert_eq!(as_text(text_at(&v, &["API-Key"])), "***");
    assert_eq!(as_text(text_at(&v, &["apiKeyId"])), "***");
    assert_eq!(as_text(text_at(&v, &["keyboard"])), "q");
}

#[test]
fn redact_reaches_strings_in_lists() {
    let mut v = parse_json_text(r#"{"list": ["sk-123", "plain", 5]}"#).unwrap();
    redact_value(&mut v);
    assert_eq!(json_text_of(&v), r#"{"list":["***","plain",5]}"#);
}

#[test]
fn shrink_collapses_byte_arrays() {
    let bytes: Vec<String> = (0..80).map(|i: u32| i.to_string()).collect();
    let mut v = parse_json_text(&format!("{{\"data\": [{}]}}", bytes.join(","))).unwrap();
    shrink_binaries(&mut v);
    match text_at(&v, &["data", "_bytes"]) {
        Json::Num(n) => assert_eq!(n.as_u64, Some(80)),
        _ => panic!("not a number"),
    }
}

#[test]
fn shrink_keeps_short_or_mixed_lists() {
    let mut v = parse_json_text(r#"{"a": [1, 2, 3], "b": {"c": [1, "x"]}}"#).unwrap();
    shrink_binaries(&mut v);
    assert_eq!(json_text_of(&v), r#"{"a":[1,2,3],"b":{"c":[1,"x"]}}"#);
}

#[test]
fn fill_adds_content_on_assistant_tool_calls() {
    let mut body = parse_json_text(
        r#"{"messages": [{"role": "user", "content": "精修第 21 章正文"}, {"role": "assistant", "tool_calls": [{"id": "c1", "type": "function", "function": {"name": "get_chapter_content", "arguments": "{}"}}]}]}"#,
    )
    .unwrap();
    fill_missing_message_content(&mut body);
    let msgs = match json_get(&body, "messages").unwrap() {
        Json::Arr(a) => a,
        _ => panic!("messages"),
    };
    assert_eq!(as_text(json_get(&msgs[1], "content").unwrap()), "");
    assert!(json_get(&msgs[1], "tool_calls").is_some());
}

#[test]
fn fill_replaces_null_content() {
    let mut msgs = parse_json_text(r#"[{"role": "assistant", "content": null, "tool_calls": []}]"#).unwrap();
    fill_missing_message_content(&mut msgs);
    let first = match &msgs {
        Json::Arr(a) => &a[0],
        _ => panic!("list"),
    };
    assert_eq!(as_text(json_get(first, "content").unwrap()), "");
}
