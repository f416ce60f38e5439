use novel_work::chapter_flow::prior_memory_chapters;
use novel_work::consolidation::first_root_plots_reply;
use novel_work::llm_json::extract_json_objects;
use novel_work::lore::lore_canon_text;
use novel_work::models::{KnowledgeCardPayload, NodeKind, NodePosition, NovelTree, TreeNode};
use novel_work::settings_migrate::settings_need_resave;

fn node(id: &str, kind: NodeKind, x: i64, y: i64) -> TreeNode {
    TreeNode {
        id: id.into(),
        kind,
        label: id.into(),
        outline: String::new(),
        detailed_outline: vec![],
        character: None,
        knowledge: None,
        side_plot: None,
        linked_character_ids: vec![],
        linked_side_plot_ids: vec![],
        linked_knowledge_ids: vec![],
        position: NodePosition { x, y },
        word_count: 0,
        word_count_min: 0,
        word_count_max: 0,
        chapter_count: 0,
    }
}

fn knowledge(id: &str, label: &str, slot: &str, text: &str) -> TreeNode {
    let mut n = node(id, NodeKind::Knowledge, 0, 0);
    n.label = label.into();
    n.knowledge = Some(KnowledgeCardPayload { slot: slot.into(), extracted: text.into(), ..Default::default() });
    n
}

#[test]
fn empty_tree_has_no_lore() {
    let tree = NovelTree { novel_id: "n".into(), nodes: vec![], edges: vec![] };
    assert!(lore_canon_text(&tree, &[1200; 7]).trim().is_empty());
}

#[test]
fn lore_keeps_titled_cards_with_enough_text() {
    let tree = NovelTree {
        novel_id: "n".into(),
        nodes: vec![
            knowledge("a", "时空", "wv_spatiotemporal", "一二三四五六七八九十十一十二"),
            knowledge("b", "", "wv_existence", "零一二三四五六七八九十甲乙"),
            knowledge("c", "短", "wv_info_flow", "太短"),
            knowledge("d", "杂", "misc", "与设定无关但是足够长的一段文字"),
        ],
        edges: vec![],
    };
    let r = lore_canon_text(&tree, &[1200; 7]);
    assert_eq!(r, "【时空】\n一二三四五六七八九十十一十二\n\n零一二三四五六七八九十甲乙");
    let cut = lore_canon_text(&tree, &[5, 1200, 1200, 1200, 1200, 1200, 1200]);
    assert_eq!(cut, "【时空】\n一二三四五六七八九十十一十二\n\n零一二三四五六七八九十甲乙");
    let small = lore_canon_text(&tree, &[1200, 4, 1200, 1200, 1200, 1200, 1200]);
    assert_eq!(small, "零一二三四五六七八九十甲乙");
}

#[test]
fn prior_memory_reads_only_ticked_earlier_chapters() {
    let tree = NovelTree {
        novel_id: "n".into(),
        nodes: vec![
            node("c3", NodeKind::Chapter, 0, 300),
            node("c1", NodeKind::Chapter, 0, 100),
            node("v", NodeKind::Volume, 0, 0),
            node("c2", NodeKind::Chapter, 0, 200),
        ],
        edges: vec![],
    };
    let ticked = vec!["c3".to_string(), "c2".to_string(), "c1".to_string(), "v".to_string()];
    assert_eq!(prior_memory_chapters(&tree, "c3", &ticked), vec!["c1".to_string(), "c2".to_string()]);
    assert_eq!(prior_memory_chapters(&tree, "c2", &ticked), vec!["c1".to_string()]);
    assert_eq!(prior_memory_chapters(&tree, "c1", &ticked), Vec::<String>::new());
    assert_eq!(prior_memory_chapters(&tree, "v", &ticked), Vec::<String>::new());
    assert_eq!(prior_memory_chapters(&tree, "c3", &vec!["c2".to_string()]), vec!["c2".to_string()]);
}

#[test]
fn plain_stored_keys_are_saved_again() {
    assert!(!settings_need_resave(false, &vec![String::new(), "nw1:abc".to_string()]));
    assert!(settings_need_resave(false, &vec!["nw1:abc".to_string(), "sk-plain".to_string()]));
    assert!(settings_need_resave(true, &vec![]));
    assert!(!settings_need_resave(false, &vec![]));
}

#[test]
fn consolidation_applies_first_object_with_root_plots() {
    let objs = extract_json_objects("{\"note\":1} {\"root_plots\":\"x\"} {\"root_plots\":[]} {\"root_plots\":[{}]}");
    assert_eq!(first_root_plots_reply(&objs), Some(2));
    let none = extract_json_objects("{\"absorb_plot_ids\":[]}");
    assert_eq!(first_root_plots_reply(&none), None);
}
