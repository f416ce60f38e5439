use novel_work::llm_json::{extract_json_objects, find_matching_pair, normalize_llm_json_text, strip_trailing_commas};
use novel_work::outline_parse::{
    collect_beats_from_array_body, outline_beat_from_line, parse_body_suggestions,
    parse_detailed_outline_item, parse_detailed_outline_list, take_six_suggestions,
};

#[test]
fn parses_json_array() {
    let r = parse_detailed_outline_list(r#"{"detailed_outline":["开场上船","旧识现身"]}"#).unwrap();
    assert_eq!(r.len(), 2);
    assert_eq!(r[0], "开场上船");
}

#[test]
fn parses_pretty_json_without_wrapping_object() {
    let raw = r#"
"detailed_outline": [
  "开场上船，夜雾压港",
  "旧识现身拦路",
  "被迫改道内河"
]
"#;
    let r = parse_detailed_outline_list(raw).unwrap();
    assert_eq!(r, vec!["开场上船，夜雾压港", "旧识现身拦路", "被迫改道内河"]);
}

#[test]
fn line_fallback_strips_json_quotes_and_commas() {
    let raw = r#"
"detailed_outline": [
"码头遇雨，旧识拦路",
"被迫改道内河",
]
"#;
    let r = parse_detailed_outline_list(raw).unwrap();
    assert!(!r.iter().any(|s| s.contains("detailed_outline") || s.contains('"')));
    assert_eq!(r[0], "码头遇雨，旧识拦路");
    assert_eq!(r[1], "被迫改道内河");
}

#[test]
fn parses_json_item() {
    let r = parse_detailed_outline_item(r#"{"item":"码头遇雨，旧识拦路"}"#).unwrap();
    assert_eq!(r, "码头遇雨，旧识拦路");
}

#[test]
fn parses_array_of_objects() {
    let raw = r#"{"detailed_outline":[{"scene":"开场上船，夜雾压港"},{"who":"旧识","what":"拦路","result":"改道"}]}"#;
    let r = parse_detailed_outline_list(raw).unwrap();
    assert_eq!(r[0], "开场上船，夜雾压港");
    assert!(r[1].contains("旧识") && r[1].contains("拦路"));
}

#[test]
fn parses_truncated_string_array() {
    let raw = r#"{"detailed_outline":["开场上船，夜雾压港","旧识现身拦路","被迫改道内"#;
    let r = parse_detailed_outline_list(raw).unwrap();
    assert_eq!(r, vec!["开场上船，夜雾压港", "旧识现身拦路"]);
}

#[test]
fn parses_numbered_object_map() {
    let raw = r#"{"detailed_outline":{"1":"开场上船，夜雾压港","2":"旧识现身拦路"}}"#;
    let r = parse_detailed_outline_list(raw).unwrap();
    assert_eq!(r, vec!["开场上船，夜雾压港", "旧识现身拦路"]);
}

#[test]
fn numbered_map_orders_by_number_then_named() {
    let raw = r#"{"detailed_outline":{"10":"第十拍很长","2":"第二拍很长","x":"其余一拍很长"}}"#;
    let r = parse_detailed_outline_list(raw).unwrap();
    assert_eq!(r, vec!["第二拍很长", "第十拍很长", "其余一拍很长"]);
}

#[test]
fn parse_body_suggestions_json_object() {
    let raw = r#"{"suggestions":["甲","乙","丙","丁","戊","己"]}"#;
    assert_eq!(
        parse_body_suggestions(raw).unwrap(),
        vec!["甲", "乙", "丙", "丁", "戊", "己"]
    );
}

#[test]
fn parse_body_suggestions_rejects_short() {
    assert!(parse_body_suggestions(r#"{"suggestions":["甲","乙"]}"#).is_none());
}

#[test]
fn six_suggestions_keep_the_first_six_non_blank() {
    let items: Vec<String> = vec![" a ", "", "b", "c", "d", "e", "f", "g"].into_iter().map(String::from).collect();
    assert_eq!(take_six_suggestions(&items).unwrap(), vec!["a", "b", "c", "d", "e", "f"]);
}

#[test]
fn reply_cleanup_quotes_fences_and_commas() {
    let n: String = normalize_llm_json_text("```json\n{“a”: 1,}\n```").into_iter().collect();
    assert_eq!(n, "{\"a\": 1,}\n");
    let s: String = strip_trailing_commas(&"[1, \"x,]\" ,]".chars().collect()).into_iter().collect();
    assert_eq!(s, "[1, \"x,]\" ]");
    let c: Vec<char> = "{\"k\": \"}\", {}}".chars().collect();
    assert_eq!(find_matching_pair(&c, 0, '{', '}'), Some(c.len() - 1));
    assert_eq!(find_matching_pair(&c, 0, '[', ']'), None);
}

#[test]
fn objects_found_in_prose() {
    let objs = extract_json_objects("说明 {\"a\":1} 然后 {\"b\":[2,],} 完");
    assert_eq!(objs.len(), 2);
}

#[test]
fn beat_lines_and_array_bodies() {
    assert_eq!(outline_beat_from_line("  3. 逃离雾港，改道内河, "), Some("逃离雾港，改道内河".to_string()));
    assert_eq!(outline_beat_from_line("],"), None);
    assert_eq!(outline_beat_from_line("\"detailed_outline\": ["), None);
    assert_eq!(outline_beat_from_line("\"甲乙丙丁\","), Some("甲乙丙丁".to_string()));
    let body: Vec<char> = "[\"开场上船\", {\"scene\":\"旧识现身拦路\"}, \"被迫改".chars().collect();
    assert_eq!(collect_beats_from_array_body(&body), vec!["开场上船", "旧识现身拦路"]);
}
