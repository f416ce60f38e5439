use novel_work::catalog::{merge_provider_models, models_list_url};
use novel_work::chapter_constraints::{missing_beats, outline_beats, LandBeat};
use novel_work::chapter_memory::{query_terms, retrieve_memory, score_memory, split_memory_text};
use novel_work::chapter_tts::{clamp_speed, for_speech, speech_chunks, speech_spans};
use novel_work::chunk::chunk_text;

#[test]
fn models_url_uses_base_as_is() {
    assert_eq!(
        models_list_url("https://open.bigmodel.cn/api/paas/v4/"),
        "https://open.bigmodel.cn/api/paas/v4/models"
    );
    assert_eq!(
        models_list_url("https://api.deepseek.com/v1"),
        "https://api.deepseek.com/v1/models"
    );
}

#[test]
fn models_url_trims_whitespace_and_every_trailing_slash() {
    assert_eq!(models_list_url("  http://h:1//  "), "http://h:1/models");
    assert_eq!(models_list_url(""), "/models");
}

#[test]
fn refresh_keeps_selected_models_still_listed() {
    let sel = vec!["b".to_string(), "x".to_string(), "a".to_string()];
    let listed = vec!["a".to_string(), "b".to_string(), "c".to_string()];
    assert_eq!(merge_provider_models(&sel, &listed), vec!["b".to_string(), "a".to_string()]);
}

#[test]
fn refresh_takes_all_when_nothing_selected_or_nothing_survives() {
    let listed = vec!["a".to_string(), "b".to_string()];
    assert_eq!(merge_provider_models(&vec![], &listed), listed);
    assert_eq!(merge_provider_models(&vec!["z".to_string()], &listed), listed);
}

#[test]
fn outline_splits_lines() {
    let b = outline_beats("1. 发现密信\n2. 与乙对峙\n3. 逃离雾港");
    assert_eq!(b.len(), 3);
}

#[test]
fn outline_beats_strip_list_marks_exactly() {
    let b = outline_beats("1. 发现密信\n2. 与乙对峙\n3. 逃离雾港");
    assert_eq!(b, vec!["发现密信".to_string(), "与乙对峙".to_string(), "逃离雾港".to_string()]);
    assert!(outline_beats("   ").is_empty());
}

#[test]
fn detects_missing_plot() {
    let beats = vec![LandBeat {
        kind: "plot",
        title: "旧地图".into(),
        text: "主角在雾港发现旧地图并约定出海".into(),
    }];
    let miss = missing_beats("主角在茶馆喝了一杯茶，什么也没发生。", &beats);
    assert_eq!(miss.len(), 1);
    let ok = missing_beats("主角在雾港发现旧地图，与人约定出海寻人。", &beats);
    assert!(ok.is_empty(), "{ok:?}");
}

#[test]
fn character_name_check() {
    let beats = vec![LandBeat {
        kind: "character",
        title: "林潮".into(),
        text: "克制隐忍".into(),
    }];
    assert!(missing_beats("林潮推开木门。", &beats).is_empty());
    assert_eq!(missing_beats("有人推开木门。", &beats).len(), 1);
}

#[test]
fn splits_bullets() {
    let t = "- 人物：甲｜行为：离开｜目标：寻人\n- 人物：乙｜承诺：三日后见\n杂文忽略";
    let c = split_memory_text(t);
    assert!(c.len() >= 2);
    assert!(c[0].contains("甲"));
}

#[test]
fn splits_plot_and_facts() {
    let t = "【整体情节】\n甲在雾港发现旧地图，与乙约定三日后出海寻人。\n中途遭遇阻拦但脱险。\n【要点】\n- 人物：甲｜行为：发现地图｜目标：寻人\n- 人物：乙｜承诺：三日后见\n【已交代】\n- 已交代：旧地图能指向沉船";
    let c = split_memory_text(t);
    assert!(c.iter().any(|x| x.contains("整体情节") && x.contains("旧地图")), "{c:?}");
    assert!(c.iter().any(|x| x.contains("甲") && x.contains("寻人")), "{c:?}");
    assert!(c.iter().any(|x| x.contains("已交代") && x.contains("沉船")), "{c:?}");
    assert!(c.len() >= 4, "{c:?}");
}

#[test]
fn scores_overlap() {
    let terms = query_terms("林潮 寻人 旧地图");
    let s = score_memory("林潮离开港口，目标是寻人并带回旧地图。", &terms);
    assert!(s >= 2, "score={s} terms={terms:?}");
}

#[test]
fn retrieve_falls_back_to_keyword_without_runtime() {
    let rows: Vec<(String, String)> = vec![(
        "n1".into(),
        "林潮离开港口，目标是寻人并带回旧地图。".into(),
    )];
    let hit = retrieve_memory(&[], &rows, "林潮 寻人", 3, None);
    assert_eq!(hit.len(), 1);
    assert_eq!(hit[0].0, "n1");
}

#[test]
fn speech_strips_md_and_chunks() {
    let s = for_speech("# 第一章\n\n**风起了。**他走了！\n\n后一句。");
    assert!(s.contains("风起了"));
    assert!(!s.contains('*'));
    let parts = speech_chunks(&s, 20);
    assert!(parts.len() >= 2);
    assert!(parts.iter().all(|p| p.chars().count() <= 20 + 8));
}

fn utf16_slice(s: &str, start: usize, end: usize) -> String {
    let u: Vec<u16> = s
        .encode_utf16()
        .skip(start)
        .take(end.saturating_sub(start))
        .collect();
    String::from_utf16_lossy(&u)
}

#[test]
fn speech_spans_utf16_match_source() {
    let md = "他轻轻说了一句话。随后天色就亮了！还有第三句。";
    let spans = speech_spans(md, 20);
    assert!(spans.len() >= 2);
    for sp in &spans {
        assert!(sp.end > sp.start);
        let slice = utf16_slice(md, sp.start, sp.end);
        assert_eq!(for_speech(&slice), sp.speech);
    }
}

#[test]
fn clamp_speed_keeps_v11_range() {
    assert_eq!(clamp_speed(0), 1);
    assert_eq!(clamp_speed(1), 1);
    assert_eq!(clamp_speed(2), 2);
    assert_eq!(clamp_speed(3), 3);
    assert_eq!(clamp_speed(9), 3);
}

#[test]
fn overlaps_adjacent_chunks() {
    let s: String = (0..1200).map(|_| '字').collect();
    let chunks = chunk_text(&s, 1000, 20);
    assert_eq!(chunks.len(), 2);
    assert_eq!(chunks[0].chars().count(), 1000);
    assert_eq!(chunks[1].chars().count(), 220);
    let a: String = chunks[0].chars().skip(980).collect();
    let b: String = chunks[1].chars().take(20).collect();
    assert_eq!(a, b);
}
