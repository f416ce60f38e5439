use novel_work::models::{CharacterCard, NodeKind, NodePosition, NovelTree, TreeEdge, TreeNode};
use novel_work::root_reference::{root_brief_for_outline, root_character_ids, root_generate_reference};
use novel_work::chapter_memory::build_refine_memory_context;

fn card(id: &str, kind: NodeKind, label: &str) -> TreeNode {
    TreeNode {
        id: id.into(),
        kind,
        label: label.into(),
        outline: String::new(),
        detailed_outline: vec![],
        character: None,
        knowledge: None,
        side_plot: None,
        linked_character_ids: vec![],
        linked_side_plot_ids: vec![],
        linked_knowledge_ids: vec![],
        position: NodePosition { x: 0, y: 0 },
        word_count: 0,
        word_count_min: 0,
        word_count_max: 0,
        chapter_count: 0,
    }
}

fn edge(s: &str, t: &str) -> TreeEdge {
    TreeEdge {
        id: format!("e-{s}-{t}"),
        source: s.into(),
        target: t.into(),
        kind: "character".into(),
        source_handle: None,
        target_handle: None,
        label: String::new(),
    }
}

fn sample() -> NovelTree {
    let mut root = card("r", NodeKind::Novel, "书");
    root.outline = "补充".into();
    root.linked_character_ids = vec!["p1".into()];
    let mut p1 = card("p1", NodeKind::Character, "阿青");
    let mut c = CharacterCard::default();
    c.constraints = "剑客".into();
    p1.character = Some(c);
    let p2 = card("p2", NodeKind::Character, "范蠡");
    NovelTree {
        novel_id: "n".into(),
        nodes: vec![root, p1, p2, card("c1", NodeKind::Chapter, "第1章")],
        edges: vec![edge("r", "p2"), edge("p1", "r"), edge("r", "c1"), edge("x", "y")],
    }
}

#[test]
fn root_characters_come_from_links_then_edges() {
    assert_eq!(root_character_ids(&sample()), vec!["p1".to_string(), "p2".to_string()]);
    let empty = NovelTree { novel_id: "n".into(), nodes: vec![], edges: vec![] };
    assert!(root_character_ids(&empty).is_empty());
}

#[test]
fn root_reference_lists_cards_and_notes() {
    let text = root_generate_reference(&sample(), "简介", true, "姓名", "（卡未完善）");
    assert_eq!(
        text,
        "【全书故事简介】\n简介\n根节点补充说明：\n补充\n\n【根节点关联人物卡（参考）】\n- 姓名：阿青\n## 真名\n阿青\n- 姓名：范蠡 （卡未完善）\n"
    );
    let bare = NovelTree { novel_id: "n".into(), nodes: vec![card("r", NodeKind::Novel, "书")], edges: vec![] };
    assert_eq!(
        root_generate_reference(&bare, " ", false, "Name", "(incomplete)"),
        "[Novel synopsis]\n(no synopsis)\n\n[Root-linked character cards (reference)]\n(no characters linked to root)\n"
    );
}

#[test]
fn outline_brief_skips_notes_equal_to_synopsis() {
    let mut t = sample();
    t.nodes[0].outline = " 简介 ".into();
    assert_eq!(root_brief_for_outline(&t, "简介", "【功能】无", true), "【全书故事简介】\n简介\n【功能】无\n");
    assert_eq!(
        root_brief_for_outline(&sample(), "", "", false),
        "[Novel synopsis]\n(no synopsis)\n\nRoot notes:\n补充\n"
    );
}

#[test]
fn refine_context_lists_outlines_then_facts() {
    let chapter = || {
        let mut c1 = card("c1", NodeKind::Chapter, "第1章");
        c1.outline = "甲".repeat(250);
        c1
    };
    let hits = vec![("c1".to_string(), "事实A".to_string()), ("c9".to_string(), "别的".to_string())];
    let text = build_refine_memory_context(&[chapter()], &hits, &[], "查询", true);
    assert_eq!(
        text,
        format!("## 第1章\n大纲：{}\n\n## 相关章节记忆（检索 top-k）\n- [memory:c1] 事实A\n\n", "甲".repeat(200))
    );
    let en = build_refine_memory_context(&[chapter()], &[], &[], "q", false);
    assert_eq!(en, format!("## 第1章\nOutline: {}\n\n", "甲".repeat(200)));
}
