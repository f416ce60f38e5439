use novel_work::json::{parse_json_text, Json};
use novel_work::llm_json::extract_json_objects;
use novel_work::outline_json::{
    coerce_json_u32, extract_create_json, extract_outlines_list, first_json_array_field,
    first_json_with_any_key, looks_like_outline_item, normalize_outline_item,
    outline_field_to_string, usable_outline_list,
};
use novel_work::plan_json::word_target_from_json;

fn get<'a>(v: &'a Json, key: &str) -> Option<&'a Json> {
    match v {
        Json::Obj(m) => m.iter().find(|(k, _)| k == key).map(|(_, x)| x),
        _ => None,
    }
}

fn num(v: &Json, key: &str) -> Option<u64> {
    match get(v, key) {
        Some(Json::Num(n)) => n.as_u64,
        _ => None,
    }
}

fn text<'a>(v: &'a Json, key: &str) -> Option<&'a str> {
    match get(v, key) {
        Some(Json::Str(s)) => Some(s.as_str()),
        _ => None,
    }
}

fn j(s: &str) -> Json {
    parse_json_text(s).expect("valid JSON")
}

#[test]
fn extract_chat_json_variants() {
    let outlines = extract_outlines_list(
        "说明\n{\n  \"outlines\": [{\"n\":1,\"label\":\"第一章\",\"outline\":\"a\"}]\n}\n完",
    )
    .unwrap();
    assert_eq!(num(&outlines[0], "n"), Some(1));
    let curly = extract_outlines_list(
        "好的\n{\n  “outlines”: [{\"n\":2,\"title\":\"第二章 · x\",\"大纲\":\"要点\"}]\n}\n",
    )
    .unwrap();
    assert_eq!(num(&curly[0], "n"), Some(2));
    assert_eq!(text(&curly[0], "label"), Some("第二章 · x"));
    assert_eq!(text(&curly[0], "outline"), Some("要点"));
    let bare = extract_outlines_list("[{\"n\":1,\"label\":\"第一章\",\"outline\":\"a\"}]").unwrap();
    assert_eq!(num(&bare[0], "n"), Some(1));
    let soft = extract_outlines_list(
        r#"[{"n":"2","title":"第二章","beats":["1. [本章定位] a","2. [开篇钩子] b","3. c"]}]"#,
    )
    .expect("string n + beats array");
    assert_eq!(num(&soft[0], "n"), Some(2));
    assert_eq!(text(&soft[0], "label"), Some("第二章"));
    assert!(text(&soft[0], "outline").unwrap().contains("[本章定位]"));
    assert!(text(&soft[0], "outline").unwrap().contains("[开篇钩子]"));

    let create = extract_create_json(
        "```json\n{\"create\":{\"title\":\"雾港\",\"synopsis\":\"s\",\"word_count_min\":2000,\"word_count_max\":3000,\"chapter_count\":20,\"characters\":[]}}\n```",
    )
    .unwrap();
    assert_eq!(text(&create, "title"), Some("雾港"));

    let bare = extract_create_json("{\"title\":\"裸对象\",\"synopsis\":\"x\"}").unwrap();
    assert_eq!(text(&bare, "title"), Some("裸对象"));

    let trailing = first_json_with_any_key(
        "{\n  \"label\": \"新标题\",\n  \"outline\": \"要点\",\n}",
        &["label", "outline"],
    )
    .unwrap();
    assert_eq!(text(&trailing, "label"), Some("新标题"));

    let multi = extract_json_objects(
        "{\"word_count\":{\"min\":4000,\"max\":4500}}\n好的\n{\"root_outline\":\"全书主线\"}",
    );
    assert_eq!(multi.len(), 2);
    assert!(word_target_from_json(&multi[0]).is_some());
    assert_eq!(text(&multi[1], "root_outline"), Some("全书主线"));
}

#[test]
fn extract_pretty_plots_json() {
    let reply = r#"好的，拆解如下：
```json
{
  "plots": [
    {"label": "密信", "outline": "主角发现密信", "characters": [{"label": "林深"}]}
  ]
}
```
已完成。"#;
    let plots = first_json_array_field(reply, "plots").expect("plots");
    assert_eq!(plots.len(), 1);
    assert_eq!(text(&plots[0], "label"), Some("密信"));
}

#[test]
fn outline_lists_without_usable_items_are_refused() {
    assert!(extract_outlines_list(r#"{"outlines":[{"n":1}]}"#).is_none());
    assert!(extract_outlines_list("没有 JSON").is_none());
    let kept = extract_outlines_list(r#"{"outlines":[{"n":1},{"n":2,"label":"第二章"}]}"#).unwrap();
    assert_eq!(kept.len(), 1);
    assert_eq!(num(&kept[0], "n"), Some(2));
    let single = extract_outlines_list(r#"{"n":"第三章","outline":"  要点  "}"#).unwrap();
    assert_eq!(num(&single[0], "n"), Some(3));
    assert_eq!(text(&single[0], "outline"), Some("要点"));
}

#[test]
fn outline_item_pieces() {
    assert_eq!(outline_field_to_string(&j(r#"["a",{"beat":" b "},{"x":1},"  "]"#)).as_deref(), Some("a\nb"));
    assert_eq!(outline_field_to_string(&j(r#"[]"#)), None);
    assert_eq!(outline_field_to_string(&j(r#"7"#)), None);
    assert_eq!(coerce_json_u32(&j("12")), Some(12));
    assert_eq!(coerce_json_u32(&j("-3")), None);
    assert_eq!(coerce_json_u32(&j("5000000000")), None);
    assert_eq!(coerce_json_u32(&j(r#"" 7 ""#)), Some(7));
    assert_eq!(coerce_json_u32(&j(r#""第十二章""#)), Some(12));
    assert_eq!(coerce_json_u32(&j("null")), None);
    assert!(looks_like_outline_item(&j(r#"{"标题":"x"}"#)));
    assert!(!looks_like_outline_item(&j(r#"{"foo":"x"}"#)));
    assert!(!looks_like_outline_item(&j(r#"["outline"]"#)));
    let n = normalize_outline_item(j(r#"{"label":"keep","title":"t","summary":[]}"#));
    assert_eq!(text(&n, "label"), Some("keep"));
    assert!(matches!(get(&n, "outline"), Some(Json::Arr(a)) if a.is_empty()));
    let kept = usable_outline_list(vec![j("1"), j(r#"{"title":"t"}"#)]);
    assert_eq!(kept.len(), 1);
    assert_eq!(text(&kept[0], "label"), Some("t"));
}
