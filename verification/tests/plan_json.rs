use novel_work::commands::parse_chapter_count_from_text;
use novel_work::json::{parse_json_text, Json};
use novel_work::plan_json::{
    chapter_count_from_json, outline_mode_from_json, word_target_from_json, ChapterResolveMode,
};

fn j(s: &str) -> Json {
    parse_json_text(s).expect("valid JSON")
}

#[test]
fn word_target_json() {
    let v = j(r#"{"word_count":{"min":4500,"max":4500}}"#);
    assert_eq!(word_target_from_json(&v), Some((4500, 4500)));
}

#[test]
fn parse_planned_chapter_count() {
    assert_eq!(parse_chapter_count_from_text("这本一共20章"), Some(20));
    assert_eq!(parse_chapter_count_from_text("计划总共 30 章"), Some(30));
    assert_eq!(
        parse_chapter_count_from_text("plan about 25 chapters total"),
        Some(25)
    );
    let v = j(r#"{"chapter_count":40}"#);
    assert_eq!(chapter_count_from_json(&v), Some(40));
}

#[test]
fn outline_mode_json() {
    let v = j(r#"{"mode":"overwrite","outlines":[]}"#);
    assert_eq!(outline_mode_from_json(&v), Some(ChapterResolveMode::Overwrite));
    let v2 = j(r#"{"mode":"append"}"#);
    assert_eq!(outline_mode_from_json(&v2), Some(ChapterResolveMode::ForceAppend));
}

#[test]
fn word_target_shapes() {
    assert_eq!(word_target_from_json(&j(r#"{"word_count":3000}"#)), Some((3000, 3000)));
    assert_eq!(word_target_from_json(&j(r#"{"word_count":{"max":2000,"min":5000}}"#)), Some((2000, 5000)));
    assert_eq!(word_target_from_json(&j(r#"{"word_count":{"target":2500}}"#)), Some((2500, 2500)));
    assert_eq!(word_target_from_json(&j(r#"{"word_count":{"word_count_min":1800}}"#)), Some((1800, 1800)));
    assert_eq!(word_target_from_json(&j(r#"{"word_count_min":1000,"word_count_max":1200}"#)), Some((1000, 1200)));
    assert_eq!(word_target_from_json(&j(r#"{"word_count_max":900}"#)), Some((900, 900)));
    assert_eq!(word_target_from_json(&j(r#"{"word_count":0}"#)), Some((2000, 3000)));
    assert_eq!(word_target_from_json(&j(r#"{"word_count":"多"}"#)), None);
    assert_eq!(word_target_from_json(&j(r#"{"title":"x"}"#)), None);
}

#[test]
fn chapter_count_shapes() {
    assert_eq!(chapter_count_from_json(&j(r#"{"chapters":12}"#)), Some(12));
    assert_eq!(chapter_count_from_json(&j(r#"{"chapters":{"total":800}}"#)), Some(500));
    assert_eq!(chapter_count_from_json(&j(r#"{"chapters":{"count":0}}"#)), Some(1));
    assert_eq!(chapter_count_from_json(&j(r#"{"chapters":[1,2]}"#)), None);
    assert_eq!(chapter_count_from_json(&j(r#"[]"#)), None);
}

#[test]
fn outline_mode_words() {
    assert_eq!(outline_mode_from_json(&j(r#"{"resolve":" SKIP "}"#)), Some(ChapterResolveMode::Skip));
    assert_eq!(outline_mode_from_json(&j(r#"{"mode":"覆盖"}"#)), Some(ChapterResolveMode::Overwrite));
    assert_eq!(outline_mode_from_json(&j(r#"{"mode":"ForceAppend"}"#)), Some(ChapterResolveMode::ForceAppend));
    assert_eq!(outline_mode_from_json(&j(r#"{"mode":"maybe"}"#)), None);
    assert_eq!(outline_mode_from_json(&j(r#"{"mode":3}"#)), None);
}
