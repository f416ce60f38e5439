use novel_work::chat_json::{
    coerce_story_rules_blocks, parse_story_rules_chat_json, parse_worldview_chat_json,
    story_rules_reply_from_value,
};
use novel_work::json::{parse_json_text, Json};

fn get<'a>(v: &'a Json, key: &str) -> Option<&'a Json> {
    match v {
        Json::Obj(m) => m.iter().find(|(k, _)| k == key).map(|(_, x)| x),
        _ => None,
    }
}

fn j(s: &str) -> Json {
    parse_json_text(s).expect("valid JSON")
}

#[test]
fn parse_story_rules_chat_flat_top_level() {
    let raw = r#"{"reply":"好的","surface_setting":{"premise":"a"},"story_engine":{"premise":"b"}}"#;
    let (reply, blocks) = parse_story_rules_chat_json(raw, true).expect("parse");
    assert_eq!(reply, "好的");
    assert!(get(&blocks, "surface_setting").is_some());
    assert!(get(&blocks, "story_engine").is_some());
}

#[test]
fn parse_story_rules_chat_blocks_wrapper() {
    let raw = r#"{"blocks":{"constraint_redlines":{"premise":"x","redlines":["y"]}}}"#;
    let (reply, blocks) = parse_story_rules_chat_json(raw, true).expect("parse");
    assert!(reply.contains("故事规则"));
    assert!(get(&blocks, "constraint_redlines").is_some());
}

#[test]
fn story_rules_errors_and_defaults() {
    let e = parse_story_rules_chat_json(r#"{"reply":"hi","surface_setting":"flat"}"#, false).unwrap_err();
    assert_eq!(e, "Could not parse story-rules JSON (need reply+blocks or top-level four card objects)");
    let e = parse_story_rules_chat_json("无", true).unwrap_err();
    assert!(e.starts_with("未能解析故事规则 JSON"));
    assert_eq!(
        story_rules_reply_from_value(&j(r#"{"reply":"  ","message":" ok "}"#), true),
        "ok"
    );
    assert_eq!(
        story_rules_reply_from_value(&j(r#"{"reply":3}"#), false),
        "Story rules four cards updated from chat."
    );
}

#[test]
fn story_blocks_shapes() {
    assert!(coerce_story_rules_blocks(j(r#"{"blocks":"x"}"#)).is_none());
    let b = coerce_story_rules_blocks(j(r#"{"blocks":"x","story_engine":{"a":1},"fulfillment_system":2}"#)).unwrap();
    match &b {
        Json::Obj(m) => {
            assert_eq!(m.len(), 1);
            assert_eq!(m[0].0, "story_engine");
        }
        _ => panic!("expected an object"),
    }
    assert!(coerce_story_rules_blocks(j("[1]")).is_none());
}

#[test]
fn worldview_chat_reply() {
    let (reply, wv) = parse_worldview_chat_json(
        "好的\n{\"reply\":\" 已更新 \",\"worldview\":{\"core_laws\":{}}}",
    )
    .unwrap();
    assert_eq!(reply, "已更新");
    assert!(get(&wv, "core_laws").is_some());
    assert_eq!(
        parse_worldview_chat_json(r#"{"reply":"","worldview":{}}"#).unwrap_err(),
        "未能解析世界观 JSON（需含 reply 与 worldview）"
    );
}
