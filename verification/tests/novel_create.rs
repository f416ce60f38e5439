use novel_work::json::parse_json_text;
use novel_work::novel_create::{create_transcript, draft_plan, forced_novel_title, user_chapter_count};

#[test]
fn transcript_has_one_line_per_message() {
    let ms = vec![("user".to_string(), "写武侠".to_string()), ("assistant".to_string(), "好".to_string())];
    assert_eq!(create_transcript(&ms), "user: 写武侠\nassistant: 好");
    assert_eq!(create_transcript(&vec![]), "");
}

#[test]
fn latest_count_mention_wins() {
    let texts = vec!["一共30章".to_string(), "随便".to_string(), "全书40章".to_string(), "好的".to_string()];
    assert_eq!(user_chapter_count(&texts), Some(40));
    assert_eq!(user_chapter_count(&vec!["你好".to_string()]), None);
}

#[test]
fn draft_plan_fills_defaults() {
    let d = parse_json_text(r#"{"synopsis": "简介", "word_count_max": 4000}"#).unwrap();
    let p = draft_plan(&d, &vec!["一共30章".to_string()], "未命名");
    assert_eq!(p.title, "未命名");
    assert_eq!(p.synopsis, "简介");
    assert_eq!(p.knowledge_strategy, "");
    assert_eq!((p.word_count_min, p.word_count_max), (2000, 4000));
    assert_eq!(p.chapter_count, 30);
    let d2 = parse_json_text(r#"{"title": "剑", "chapter_count": 12}"#).unwrap();
    let p2 = draft_plan(&d2, &vec![], "未命名");
    assert_eq!(p2.title, "剑");
    assert_eq!(p2.chapter_count, 12);
    assert_eq!(draft_plan(&d2, &vec![], "x").word_count_min, 2000);
    let d3 = parse_json_text("{}").unwrap();
    assert_eq!(draft_plan(&d3, &vec![], "x").chapter_count, 20);
}

#[test]
fn forced_title_takes_the_last_message_head() {
    assert_eq!(forced_novel_title(&vec![], "新小说"), "新小说");
    assert_eq!(forced_novel_title(&vec!["a".into(), "".into()], "新小说"), "新小说");
    let long = "字".repeat(30);
    assert_eq!(forced_novel_title(&vec![long], "新小说"), "字".repeat(24));
}
