use novel_work::commands::{
    chapter_length_feedback, chapter_number_from_label, detailed_outline_pace, extract_small_chapter_nums,
    mask_key, merge_knowledge_genres, normalize_chapter_label, normalize_word_range, parse_chapter_count_from_text,
    parse_chapter_ref, parse_chinese_numeral, parse_word_target_from_text, word_count_ok, word_tolerance_bounds,
    apply_optional_key, count_words, estimate_prompt_tokens, normalize_chapter_count,
};
use novel_work::commands::{image_prompt_model, llm_model};
use novel_work::commands::is_http_source;
use novel_work::chapter_flow::{refine_prev_window, refine_reads_full_body};
use novel_work::chapter_flow::land_repair_accepted;
use novel_work::chapter_flow::check_rewrite_request;

#[test]
fn pace_scales_with_chapter_target() {
    let (lo, hi, per) = detailed_outline_pace(2000, 3000);
    assert_eq!((lo, hi), (6, 8));
    assert!(per >= 300 && per <= 420, "{per}");
    let (lo4, hi4, _) = detailed_outline_pace(4000, 5000);
    assert!(hi4 >= hi, "{lo4}-{hi4} vs {lo}-{hi}");
    assert!(lo4 >= 8, "{lo4}");
}

#[test]
fn length_feedback_stops_in_band_rewrite() {
    let v = chapter_length_feedback(2500, 2000, 3000);
    assert_eq!(v.in_band, true);
    assert!(v.ai_guidance.contains("禁止再为篇幅"));
    let over = chapter_length_feedback(5000, 2000, 3000);
    assert_eq!(over.in_band, false);
    assert!(over.ai_guidance.contains("删冗一次"));
}

#[test]
fn parse_single_chapter_word_target() {
    assert_eq!(parse_word_target_from_text("请把每章目标改成4500字"), Some((4500, 4500)));
    assert_eq!(parse_word_target_from_text("set per chapter target to 4500 words"), Some((4500, 4500)));
}

#[test]
fn parse_range_chapter_word_target() {
    assert_eq!(parse_word_target_from_text("每章 4000-4500 字"), Some((4000, 4500)));
}

#[test]
fn word_count_tolerance_60() {
    assert!(word_count_ok(1940, 2000, 3000));
    assert!(word_count_ok(3060, 2000, 3000));
    assert!(!word_count_ok(1939, 2000, 3000));
    assert!(!word_count_ok(3061, 2000, 3000));
    assert!(word_count_ok(4440, 4500, 4500));
    assert!(!word_count_ok(4439, 4500, 4500));
    assert_eq!(word_tolerance_bounds(2000, 3000), (1940, 3060));
}

#[test]
fn parse_planned_chapter_count_from_text() {
    assert_eq!(parse_chapter_count_from_text("这本一共20章"), Some(20));
    assert_eq!(parse_chapter_count_from_text("计划总共 30 章"), Some(30));
    assert_eq!(parse_chapter_count_from_text("plan about 25 chapters total"), Some(25));
    assert_eq!(parse_chapter_count_from_text("随便写写 20"), None);
}

#[test]
fn chapter_label_helpers() {
    assert_eq!(chapter_number_from_label("第一章 · 夜色"), Some(1));
    assert_eq!(chapter_number_from_label("第十二章"), Some(12));
    assert_eq!(chapter_number_from_label("第12章 · 夜色"), Some(12));
    assert_eq!(chapter_number_from_label("十二章"), Some(12));
    assert_eq!(chapter_number_from_label("Chapter 7: Rain"), Some(7));
    assert_eq!(chapter_number_from_label("第一到第十章"), None);
    assert_eq!(normalize_chapter_label(1, "初入异界"), "第1章 · 初入异界");
    assert_eq!(normalize_chapter_label(1, "第一章 · 夜"), "第一章 · 夜");
    assert_eq!(normalize_chapter_label(3, ""), "第3章");
    assert_eq!(parse_chinese_numeral("二十一"), Some(21));
    assert_eq!(parse_chinese_numeral("一百零五"), Some(105));
    assert_eq!(parse_chinese_numeral("abc"), None);
}

#[test]
fn chapter_ref_forms() {
    assert_eq!(parse_chapter_ref("3"), Some(3));
    assert_eq!(parse_chapter_ref("第三章"), Some(3));
    assert_eq!(parse_chapter_ref("第三章 · 夜"), Some(3));
    assert_eq!(parse_chapter_ref("一"), Some(1));
    assert_eq!(parse_chapter_ref("  "), None);
    assert_eq!(extract_small_chapter_nums("第 3 与 12 以及 4500 字"), vec![3, 12]);
}

#[test]
fn settings_helpers() {
    assert_eq!(mask_key(""), "");
    assert_eq!(mask_key("abcd"), "****");
    assert_eq!(mask_key("sk-1234567890"), "sk-****7890");
    let mut k = String::from("old");
    apply_optional_key(&mut k, Some("sk-****7890".into()));
    assert_eq!(k, "old");
    apply_optional_key(&mut k, Some("  new  ".into()));
    assert_eq!(k, "new");
    apply_optional_key(&mut k, None);
    assert_eq!(k, "new");
    assert_eq!(count_words("一 二\n三"), 3);
    assert_eq!(estimate_prompt_tokens("abcd", "efgh"), 2);
    assert_eq!(normalize_chapter_count(0), 1);
    assert_eq!(normalize_chapter_count(900), 500);
}

#[test]
fn word_range_normalization() {
    assert_eq!(normalize_word_range(0, 0), (2000, 3000));
    assert_eq!(normalize_word_range(3000, 2000), (2000, 3000));
    assert_eq!(normalize_word_range(0, 10), (1, 10));
    let once = normalize_word_range(3000, 0);
    assert_eq!(normalize_word_range(once.0, once.1), once);
}

#[test]
fn genres_are_trimmed_and_unique() {
    let g = merge_knowledge_genres(vec![" 武侠 ".into(), "".into()], vec!["武侠".into(), "历史".into()]);
    assert_eq!(g, vec!["武侠".to_string(), "历史".to_string()]);
}

#[test]
fn task_models_fall_back_in_order() {
    assert_eq!(llm_model(" chat ", "default"), "chat");
    assert_eq!(llm_model("  ", " default "), "default");
    assert_eq!(image_prompt_model(" img ", "chat", "default"), "img");
    assert_eq!(image_prompt_model("", "", "default"), "default");
    assert_eq!(image_prompt_model("", "chat", "default"), "chat");
}

#[test]
fn web_sources_are_told_apart() {
    assert!(is_http_source("  HTTPS://example.com/a"));
    assert!(is_http_source("http://x"));
    assert!(!is_http_source("/home/me/book.txt"));
    assert!(!is_http_source("ftp://x"));
}

#[test]
fn refine_modes_and_windows() {
    assert!(!refine_reads_full_body(None));
    assert!(refine_reads_full_body(Some("FULL")));
    assert!(refine_reads_full_body(Some("Body")));
    assert!(refine_reads_full_body(Some("text")));
    assert!(!refine_reads_full_body(Some(" full")));
    assert!(!refine_reads_full_body(Some("memory")));
    assert_eq!(refine_prev_window(5, 2), (3, 2));
    assert_eq!(refine_prev_window(1, 3), (0, 1));
    assert_eq!(refine_prev_window(0, 0), (0, 0));
}

#[test]
fn land_repair_needs_half_the_draft() {
    assert!(land_repair_accepted(" abc ", "abcd", false));
    assert!(!land_repair_accepted("ab", "abcd", false));
    assert!(!land_repair_accepted("abcdef", "abcd", true));
    assert!(land_repair_accepted("a", "", false));
}

#[test]
fn rewrite_request_needs_instruction_and_label() {
    assert_eq!(check_rewrite_request("  ", "x"), Err("请填写提示词".to_string()));
    assert_eq!(check_rewrite_request("改短", " "), Err("字段名为空".to_string()));
    assert_eq!(
        check_rewrite_request(" 改短 ", " 简介 "),
        Ok(("改短".to_string(), "简介".to_string()))
    );
}
