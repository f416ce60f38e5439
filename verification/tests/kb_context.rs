use novel_work::kb_context::{
    format_knowledge_cards_capped, merge_expectation_into_assembled, rerank_knowledge_candidates,
    truncate_chars,
};

#[test]
fn truncate_and_merge_expectation() {
    assert_eq!(truncate_chars("abcd", 2), "ab…");
    let assembled = "【须考虑的材料】\nroot".to_string();
    let m = merge_expectation_into_assembled(assembled.clone(), "加快节奏", true);
    assert!(m.contains("加快节奏"));
    assert!(m.contains("须考虑"));
    let legacy = merge_expectation_into_assembled(assembled, &"x".repeat(1300), true);
    assert_eq!(legacy.chars().count(), 1300);
}

#[test]
fn knowledge_cards_cap() {
    let cards: Vec<(String, String)> = vec![
        ("A".into(), "a".repeat(800)),
        ("B".into(), "b".repeat(800)),
    ];
    let s = format_knowledge_cards_capped(&cards, 500, 600, true);
    assert!(s.chars().count() <= 600);
    assert!(s.contains('A'));
}

#[test]
fn rerank_prefers_chapter_title_hit() {
    let query = "筑基禁忌";
    let candidates: Vec<(String, String, String)> = vec![
        (
            "a#0".into(),
            "书".into(),
            "闲文里提一次禁忌，与筑基无关。".into(),
        ),
        (
            "a#1".into(),
            "书".into(),
            "【第三章 筑基禁忌】违者经脉逆乱。".into(),
        ),
    ];
    let ranked = rerank_knowledge_candidates(query, &candidates);
    assert_eq!(ranked[0].0, "a#1");
    assert!(ranked[0].1 > ranked[1].1);
}

#[test]
fn truncate_keeps_short_text() {
    assert_eq!(truncate_chars("abcd", 4), "abcd");
    assert_eq!(truncate_chars("", 0), "");
    assert_eq!(truncate_chars("ab", 0), "…");
}
