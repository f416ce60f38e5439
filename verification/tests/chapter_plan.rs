use novel_work::card_meta::{
    find_character_id_by_label, knowledge_by_slot, normalize_canon_mode, normalize_plot_status,
};
use novel_work::chapter_plan::{
    clip_suggest_ctx, coerce_outlines_to_single_num, format_body_suggest_outline, plan_next_range,
    root_gen_range,
};
use novel_work::commands::{chapter_number_from_label, normalize_chapter_label, parse_chinese_numeral};
use novel_work::json::{parse_json_text, Json};
use novel_work::models::{KnowledgeCardPayload, NodeKind, NodePosition, NovelTree, TreeNode};
use novel_work::tree_refs::existing_chapter_nums;
use novel_work::chapter_plan::plan_anchor;

fn node(id: &str, kind: NodeKind, label: &str, y: i64) -> TreeNode {
    TreeNode {
        id: id.into(),
        kind,
        label: label.into(),
        outline: String::new(),
        detailed_outline: vec![],
        character: None,
        knowledge: None,
        side_plot: None,
        linked_character_ids: vec![],
        linked_side_plot_ids: vec![],
        linked_knowledge_ids: vec![],
        position: NodePosition { x: 0, y },
        word_count: 0,
        word_count_min: 0,
        word_count_max: 0,
        chapter_count: 0,
    }
}

fn n_of(v: &Json) -> Option<u64> {
    match v {
        Json::Obj(m) => m.iter().find(|(k, _)| k == "n").and_then(|(_, x)| match x {
            Json::Num(n) => n.as_u64,
            _ => None,
        }),
        _ => None,
    }
}

#[test]
fn chapter_label_and_outline_helpers() {
    let coerced = coerce_outlines_to_single_num(
        vec![parse_json_text(r#"{"n": 1, "label": "第一章 · x", "outline": "a"}"#).unwrap()],
        5,
    );
    assert_eq!(n_of(&coerced[0]), Some(5));
    assert_eq!(chapter_number_from_label("第一章 · 夜色"), Some(1));
    assert_eq!(chapter_number_from_label("第十二章"), Some(12));
    assert_eq!(chapter_number_from_label("第12章 · 夜色"), Some(12));
    assert_eq!(normalize_chapter_label(1, "初入异界"), "第1章 · 初入异界");
    assert_eq!(normalize_chapter_label(1, "第一章 · 夜"), "第一章 · 夜");
    assert_eq!(normalize_chapter_label(3, ""), "第3章");
    let tree = NovelTree {
        novel_id: "n1".into(),
        nodes: vec![
            node("c1", NodeKind::Chapter, "初入异界", 10),
            node("c2", NodeKind::Chapter, "第二章 · 冲突", 20),
        ],
        edges: vec![],
    };
    let map = existing_chapter_nums(&tree);
    assert_eq!(map.get(&1).map(String::as_str), Some("c1"));
    assert_eq!(map.get(&2).map(String::as_str), Some("c2"));
    assert_eq!(parse_chinese_numeral("二十一"), Some(21));
}

#[test]
fn renumbering_leaves_non_objects() {
    let out = coerce_outlines_to_single_num(vec![parse_json_text("3").unwrap(), parse_json_text("{}").unwrap()], 7);
    assert!(matches!(&out[0], Json::Num(n) if n.as_u64 == Some(3)));
    assert_eq!(n_of(&out[1]), Some(7));
}

#[test]
fn generation_ranges() {
    assert_eq!(root_gen_range(0, 0), (1, 1, vec![1]));
    assert_eq!(root_gen_range(0, 500).1, 100);
    assert_eq!(root_gen_range(3, 10), (1, 3, vec![1, 2, 3]));
    assert_eq!(plan_next_range(0, 4, 3, true).unwrap(), (5, 7, vec![5, 6, 7]));
    assert_eq!(plan_next_range(6, 4, 30, true).unwrap(), (5, 6, vec![5, 6]));
    assert_eq!(plan_next_range(0, 0, 0, false).unwrap(), (1, 1, vec![1]));
    assert_eq!(
        plan_next_range(4, 4, 1, true).unwrap_err(),
        "已是计划中的最后一章，无法再生成下一章大纲。"
    );
    assert_eq!(
        plan_next_range(4, 9, 1, false).unwrap_err(),
        "This is the last planned chapter; nothing left to outline."
    );
}

#[test]
fn suggestion_prompt_pieces() {
    assert_eq!(clip_suggest_ctx("  abc  "), "abc");
    let long: String = "甲".repeat(900) + "乙";
    let clipped = clip_suggest_ctx(&long);
    assert_eq!(clipped.chars().count(), 800);
    assert!(clipped.ends_with('乙'));
    let items = vec![" 起 ".to_string(), "  ".to_string(), "承".to_string()];
    assert_eq!(format_body_suggest_outline(&items), "1. 起\n2. 承");
    assert_eq!(format_body_suggest_outline(&[]), "");
    let many: Vec<String> = (0..2000).map(|_| "长".to_string()).collect();
    assert_eq!(format_body_suggest_outline(&many).chars().count(), 4000);
}

#[test]
fn card_meta_words() {
    assert_eq!(normalize_plot_status(" Done "), "resolved");
    assert_eq!(normalize_plot_status("已收束"), "resolved");
    assert_eq!(normalize_plot_status("HOLD"), "deferred");
    assert_eq!(normalize_plot_status("whatever"), "active");
    assert_eq!(normalize_canon_mode(" Locked"), "strict");
    assert_eq!(normalize_canon_mode("loose"), "reference");
}

#[test]
fn cards_found_by_slot_and_label() {
    let mut k = node("k1", NodeKind::Knowledge, "世界观", 0);
    k.knowledge = Some(KnowledgeCardPayload {
        book_ids: vec![],
        extract_prompt: String::new(),
        extracted: String::new(),
        from_canon: false,
        slot: " wv_core_laws ".into(),
        core_laws: None,
        world_axiom: None,
        existence: None,
        info_flow: None,
        history_culture: None,
        world_religion: None,
        major_event: None,
    });
    let tree = NovelTree {
        novel_id: "n".into(),
        nodes: vec![
            node("root", NodeKind::Novel, "书", 0),
            node("p1", NodeKind::Character, "林深", 0),
            node("p2", NodeKind::Character, "苏晚晴", 0),
            k,
        ],
        edges: vec![],
    };
    assert_eq!(knowledge_by_slot(&tree, "wv_core_laws").map(|n| n.id.as_str()), Some("k1"));
    assert!(knowledge_by_slot(&tree, "story_rules").is_none());
    assert_eq!(find_character_id_by_label(&tree, " 林深 ").as_deref(), Some("p1"));
    assert_eq!(find_character_id_by_label(&tree, "晚晴").as_deref(), Some("p2"));
    assert_eq!(find_character_id_by_label(&tree, "林深（主角）").as_deref(), Some("p1"));
    assert_eq!(find_character_id_by_label(&tree, "  ").as_deref(), None);
    assert_eq!(find_character_id_by_label(&tree, "书").as_deref(), None);
}

fn chapter_at(id: &str, label: &str, y: i64) -> novel_work::models::TreeNode {
    novel_work::models::TreeNode {
        id: id.into(),
        kind: novel_work::models::NodeKind::Chapter,
        label: label.into(),
        outline: String::new(),
        detailed_outline: vec![],
        character: None,
        knowledge: None,
        side_plot: None,
        linked_character_ids: vec![],
        linked_side_plot_ids: vec![],
        linked_knowledge_ids: vec![],
        position: novel_work::models::NodePosition { x: 0, y },
        word_count: 0,
        word_count_min: 0,
        word_count_max: 0,
        chapter_count: 0,
    }
}

#[test]
fn plan_anchor_reads_label_or_order() {
    let t = novel_work::models::NovelTree {
        novel_id: "n".into(),
        nodes: vec![chapter_at("b", "楔子", 20), chapter_at("a", "第7章 起", 10)],
        edges: vec![],
    };
    assert_eq!(plan_anchor(&t, "a"), Ok(7));
    assert_eq!(plan_anchor(&t, "b"), Ok(2));
    assert_eq!(plan_anchor(&t, "zz"), Err("当前节点不是章节卡".to_string()));
}
