use novel_work::commands::{lore_verify_accepts_patch, strip_outer_md_fence};
use novel_work::models::{NodeKind, NodePosition, NovelTree, TreeNode};
use novel_work::tree_refs::{
    chapter_id_hint, existing_chapter_nums, knowledge_attach_host, resolve_node_ref,
    sorted_chapter_nodes,
};
use novel_work::tree_refs::resolve_link_host;
use novel_work::chat_tools::list_tree;
use novel_work::chat_tools::{resolve_node_mut, update_node};
use novel_work::chat_tools::set_root_outline;
use novel_work::chat_tools::{get_chapter_memory, search_chapter_memory};

fn tn(id: &str, kind: NodeKind) -> TreeNode {
    TreeNode {
        id: id.into(),
        kind,
        label: id.into(),
        outline: String::new(),
        detailed_outline: vec![],
        character: None,
        knowledge: None,
        side_plot: None,
        linked_character_ids: vec![],
        linked_side_plot_ids: vec![],
        linked_knowledge_ids: vec![],
        position: NodePosition { x: 0, y: 0 },
        word_count: 0,
        word_count_min: 0,
        word_count_max: 0,
        chapter_count: 0,
    }
}

#[test]
fn lore_ok_keeps_original() {
    let orig = "甲".repeat(80);
    assert!(lore_verify_accepts_patch(&orig, "LORE_OK").is_none());
    assert!(lore_verify_accepts_patch(&orig, "lore_ok\nextra").is_none());
    assert!(lore_verify_accepts_patch(&orig, "```\nLORE_OK\n```").is_none());
}

#[test]
fn short_output_rejected() {
    let orig = "甲".repeat(80);
    assert!(lore_verify_accepts_patch(&orig, "太短").is_none());
}

#[test]
fn long_patch_accepted() {
    let orig = "甲".repeat(80);
    let patch = "乙".repeat(50);
    assert_eq!(
        lore_verify_accepts_patch(&orig, &patch).as_deref(),
        Some(patch.as_str())
    );
}

#[test]
fn fence_is_stripped_only_when_outer() {
    assert_eq!(strip_outer_md_fence("```json\n{\"a\":1}\n```"), "{\"a\":1}");
    assert_eq!(strip_outer_md_fence("  plain  "), "plain");
    assert_eq!(strip_outer_md_fence("```\nbody"), "body");
}

#[test]
fn knowledge_attach_host_uses_chapter_or_parent() {
    let mut tree = NovelTree {
        novel_id: "n".into(),
        nodes: vec![
            tn("root", NodeKind::Novel),
            tn("ch", NodeKind::Chapter),
            tn("kb", NodeKind::Knowledge),
        ],
        edges: vec![],
    };
    tree.nodes[1].linked_knowledge_ids = vec!["kb".into()];
    assert_eq!(knowledge_attach_host(&tree, None).unwrap(), "root");
    assert_eq!(knowledge_attach_host(&tree, Some("ch")).unwrap(), "ch");
    assert_eq!(knowledge_attach_host(&tree, Some("kb")).unwrap(), "ch");
    assert_eq!(knowledge_attach_host(&tree, Some("root")).unwrap(), "root");
}

#[test]
fn attach_host_errors_and_side_plot_hosts() {
    let mut tree = NovelTree {
        novel_id: "n".into(),
        nodes: vec![tn("root", NodeKind::Novel), tn("ch", NodeKind::Chapter), tn("sp", NodeKind::SidePlot), tn("c", NodeKind::Character)],
        edges: vec![],
    };
    tree.nodes[1].linked_side_plot_ids = vec!["sp".into()];
    assert_eq!(knowledge_attach_host(&tree, Some(" NOVEL ")).unwrap(), "root");
    assert_eq!(knowledge_attach_host(&tree, Some("sp")).unwrap(), "ch");
    assert_eq!(knowledge_attach_host(&tree, Some("c")).unwrap(), "root");
    assert_eq!(knowledge_attach_host(&tree, Some("zz")).unwrap_err(), "节点不存在: zz");
    let empty = NovelTree { novel_id: "n".into(), nodes: vec![], edges: vec![] };
    assert_eq!(knowledge_attach_host(&empty, None).unwrap_err(), "找不到小说根节点");
}

#[test]
fn resolve_node_ref_accepts_chapter_number_and_label() {
    let mut c1 = tn("ch-aaa", NodeKind::Chapter);
    c1.label = "第一章 · 夜色".into();
    c1.position.y = 10;
    let mut c2 = tn("ch-bbb", NodeKind::Chapter);
    c2.label = "第二章".into();
    c2.position.y = 20;
    let mut hero = tn("char-1", NodeKind::Character);
    hero.label = "林晚".into();
    let tree = NovelTree {
        novel_id: "n".into(),
        nodes: vec![tn("root", NodeKind::Novel), c1, c2, hero],
        edges: vec![],
    };
    assert_eq!(resolve_node_ref(&tree, "ch-aaa").unwrap(), "ch-aaa");
    assert_eq!(resolve_node_ref(&tree, "第1章").unwrap(), "ch-aaa");
    assert_eq!(resolve_node_ref(&tree, "1").unwrap(), "ch-aaa");
    assert_eq!(resolve_node_ref(&tree, "第二章").unwrap(), "ch-bbb");
    assert_eq!(resolve_node_ref(&tree, "林晚").unwrap(), "char-1");
    assert_eq!(resolve_node_ref(&tree, "root").unwrap(), "root");
    let err = resolve_node_ref(&tree, "不存在的卡").unwrap_err();
    assert!(err.contains("无法找到"), "{err}");
    assert!(err.contains("第一章"), "{err}");
    let err = resolve_node_ref(&tree, "ch-deadbeef-0002").unwrap_err();
    assert!(err.contains("无法找到"), "{err}");
}

#[test]
fn duplicate_titles_are_reported() {
    let mut a = tn("a", NodeKind::Character);
    a.label = "同名".into();
    let mut b = tn("b", NodeKind::SidePlot);
    b.label = " 同名 ".into();
    let tree = NovelTree { novel_id: "n".into(), nodes: vec![tn("root", NodeKind::Novel), a, b], edges: vec![] };
    assert_eq!(resolve_node_ref(&tree, "同名").unwrap_err(), "标题「同名」对应多个节点：a、b");
}

#[test]
fn unlabeled_chapters_take_free_numbers_in_reading_order() {
    let mut c1 = tn("c1", NodeKind::Chapter);
    c1.label = "初入异界".into();
    c1.position.y = 10;
    let mut c2 = tn("c2", NodeKind::Chapter);
    c2.label = "第二章 · 冲突".into();
    c2.position.y = 20;
    let mut c3 = tn("c3", NodeKind::Chapter);
    c3.label = "尾声".into();
    c3.position.y = 30;
    let tree = NovelTree { novel_id: "n".into(), nodes: vec![c3, c2, c1], edges: vec![] };
    let order: Vec<&str> = sorted_chapter_nodes(&tree).iter().map(|n| n.id.as_str()).collect();
    assert_eq!(order, vec!["c1", "c2", "c3"]);
    let map = existing_chapter_nums(&tree);
    assert_eq!(map.get(&1).map(String::as_str), Some("c1"));
    assert_eq!(map.get(&2).map(String::as_str), Some("c2"));
    assert_eq!(map.get(&3).map(String::as_str), Some("c3"));
    assert_eq!(map.len(), 3);
}

#[test]
fn chapter_hint_lists_chapters() {
    let empty = NovelTree { novel_id: "n".into(), nodes: vec![], edges: vec![] };
    assert_eq!(chapter_id_hint(&empty), "树上暂无章节。");
    let mut nodes = Vec::new();
    for i in 0..13 {
        let mut c = tn(&format!("c{i}"), NodeKind::Chapter);
        c.label = format!("第{}章", i + 1);
        c.position.y = i;
        nodes.push(c);
    }
    let tree = NovelTree { novel_id: "n".into(), nodes, edges: vec![] };
    let h = chapter_id_hint(&tree);
    assert!(h.starts_with("可用章节：第1章 (c0)；第2章 (c1)"), "{h}");
    assert!(h.ends_with("第12章 (c11) 等共13章"), "{h}");
}

#[test]
fn link_host_resolves_root_words_and_ids() {
    let mut root = tn("novel-1", NodeKind::Novel);
    root.label = "书".into();
    let mut ch = tn("c1", NodeKind::Chapter);
    ch.label = "第1章 开端".into();
    let t = NovelTree { novel_id: "n".into(), nodes: vec![root, ch], edges: vec![] };
    assert_eq!(resolve_link_host(&t, "root"), Ok("novel-1".to_string()));
    assert_eq!(resolve_link_host(&t, ""), Ok("novel-1".to_string()));
    assert_eq!(resolve_link_host(&t, "c1"), Ok("c1".to_string()));
    assert!(resolve_link_host(&t, "无此节点").is_err());
}

#[test]
fn tree_listing_shows_each_card() {
    let empty = NovelTree { novel_id: "n".into(), nodes: vec![], edges: vec![] };
    assert_eq!(list_tree(&empty), "(empty tree)");
    let mut root = tn("r", NodeKind::Novel);
    root.label = "书".into();
    root.outline = "甲".repeat(81);
    let mut plot = tn("p", NodeKind::SidePlot);
    plot.word_count = 12;
    plot.outline = "短".into();
    let t = NovelTree { novel_id: "n".into(), nodes: vec![root, plot], edges: vec![] };
    let expected = format!(
        "- [novel] r | 书 | words=0 | outline={}…\n- [sideplot] p | p | words=12 | outline=短",
        "甲".repeat(80)
    );
    assert_eq!(list_tree(&t), expected);
}

fn args(s: &str) -> novel_work::json::Json {
    novel_work::json::parse_json_text(s).expect("valid JSON")
}

#[test]
fn update_node_tool_edits_the_named_card() {
    let mut ch = tn("c7", NodeKind::Chapter);
    ch.label = "第3章 雨夜".into();
    let mut t = NovelTree { novel_id: "n".into(), nodes: vec![tn("r", NodeKind::Novel), ch], edges: vec![] };
    assert_eq!(resolve_node_mut(&t, &args(r#"{"n": 3}"#)), Some(1));
    assert_eq!(resolve_node_mut(&t, &args(r#"{"node_id": ""}"#)), None);
    assert_eq!(
        update_node(&mut t, &args(r#"{"n": 3}"#)),
        ("provide label and/or outline".to_string(), false)
    );
    assert_eq!(
        update_node(&mut t, &args(r#"{"node_id": "zz", "label": "x"}"#)),
        ("node not found".to_string(), false)
    );
    assert_eq!(
        update_node(&mut t, &args(r#"{"n": 3, "label": "第3章 雪夜", "outline": "新大纲"}"#)),
        ("updated c7 (第3章 雪夜)".to_string(), true)
    );
    assert_eq!(t.nodes[1].label, "第3章 雪夜");
    assert_eq!(t.nodes[1].outline, "新大纲");
}

#[test]
fn root_outline_tool_needs_outline_and_root() {
    let mut t = NovelTree { novel_id: "n".into(), nodes: vec![tn("c", NodeKind::Chapter)], edges: vec![] };
    assert_eq!(set_root_outline(&mut t, &args("{}")), ("outline required".to_string(), false));
    assert_eq!(set_root_outline(&mut t, &args(r#"{"outline": "o"}"#)), ("root not found".to_string(), false));
    t.nodes.push(tn("r", NodeKind::Novel));
    assert_eq!(set_root_outline(&mut t, &args(r#"{"outline": "总纲"}"#)), ("root outline updated".to_string(), true));
    assert_eq!(t.nodes[1].outline, "总纲");
    assert_eq!(t.nodes[0].outline, "");
}

#[test]
fn memory_tools_format_rows() {
    let mut ch = tn("c1", NodeKind::Chapter);
    ch.label = "第1章".into();
    let t = NovelTree { novel_id: "n".into(), nodes: vec![tn("r", NodeKind::Novel), ch], edges: vec![] };
    assert_eq!(get_chapter_memory(&t, &args(r#"{"node_id": "zz"}"#), Ok(vec![])), "node not found");
    assert_eq!(get_chapter_memory(&t, &args(r#"{"node_id": "r"}"#), Ok(vec![])), "not a chapter node");
    assert_eq!(get_chapter_memory(&t, &args(r#"{"n": 1}"#), Ok(vec![])), "(no memory)");
    let rows = vec![("c1".to_string(), "甲到了城里".to_string()), ("c1".to_string(), "乙走了".to_string())];
    assert_eq!(get_chapter_memory(&t, &args(r#"{"n": 1}"#), Ok(rows.clone())), "- 甲到了城里\n- 乙走了");
    assert_eq!(get_chapter_memory(&t, &args(r#"{"n": 1}"#), Err("boom".into())), "boom");
    assert_eq!(search_chapter_memory(&args(r#"{"query": "  "}"#), Some(&rows)), "query required");
    assert_eq!(search_chapter_memory(&args(r#"{"query": "城里"}"#), None), "db error");
    assert_eq!(search_chapter_memory(&args(r#"{"query": "城里"}"#), Some(&rows)), "[memory:c1] 甲到了城里");
    assert_eq!(search_chapter_memory(&args(r#"{"query": "海边"}"#), Some(&rows)), "(no hits)");
}
