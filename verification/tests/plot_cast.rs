use novel_work::cast::shot_character_looks;
use novel_work::character_fmt::format_character_full;
use novel_work::models::{
    CharacterCard, NodeKind, NodePosition, NovelTree, SidePlotMeta, TreeEdge, TreeNode,
};
use novel_work::json::parse_json_text;
use novel_work::plot_consolidate::{
    absorb_plots, chapter_plot_ids, chapters_block, consolidate_recent, plots_block, root_plot_ids,
    root_plot_item, update_root_plot_card,
};
use novel_work::tree_edit::link_plot_to_root;

fn node(id: &str, kind: NodeKind, label: &str, y: i64) -> TreeNode {
    TreeNode {
        id: id.into(),
        kind,
        label: label.into(),
        outline: String::new(),
        detailed_outline: vec![],
        character: None,
        knowledge: None,
        side_plot: None,
        linked_character_ids: vec![],
        linked_side_plot_ids: vec![],
        linked_knowledge_ids: vec![],
        position: NodePosition { x: 0, y },
        word_count: 0,
        word_count_min: 0,
        word_count_max: 0,
        chapter_count: 0,
    }
}

fn edge(source: &str, target: &str, kind: &str) -> TreeEdge {
    TreeEdge {
        id: format!("e-{source}-{target}"),
        source: source.into(),
        target: target.into(),
        kind: kind.into(),
        source_handle: None,
        target_handle: None,
        label: String::new(),
    }
}

fn story() -> NovelTree {
    let mut root = node("root", NodeKind::Novel, "书", 0);
    root.linked_side_plot_ids = vec!["pl-root".into()];
    let mut c1 = node("c1", NodeKind::Chapter, "第一章", 10);
    c1.outline = "开端".into();
    c1.linked_side_plot_ids = vec!["pl-a".into(), "pl-root".into()];
    c1.linked_character_ids = vec!["hero".into()];
    let mut c2 = node("c2", NodeKind::Chapter, "第二章", 20);
    c2.outline = "  ".into();
    let mut hero = node("hero", NodeKind::Character, "林深", 0);
    let mut card = CharacterCard::default();
    card.gender = "男".into();
    hero.character = Some(card);
    let friend = node("friend", NodeKind::Character, "阿青", 0);
    let mut pa = node("pl-a", NodeKind::SidePlot, "密信", 0);
    pa.outline = "发现密信".into();
    pa.side_plot = Some(SidePlotMeta { status: "  ".into(), absorbed: true });
    let pb = node("pl-b", NodeKind::SidePlot, "旧案", 0);
    let proot = node("pl-root", NodeKind::SidePlot, "主线", 0);
    let pedge = node("pl-edge", NodeKind::SidePlot, "暗线", 0);
    NovelTree {
        novel_id: "n".into(),
        nodes: vec![root, c2, c1, hero, friend, pa, pb, proot, pedge],
        edges: vec![
            edge("c1", "friend", "character"),
            edge("c1", "hero", "character"),
            edge("pl-b", "c2", "side_plot"),
            edge("root", "pl-edge", "side_plot"),
            edge("root", "pl-root", "side_plot"),
        ],
    }
}

#[test]
fn shot_looks_list_cast_with_sheets() {
    let t = story();
    let looks = shot_character_looks(&t, "c1");
    let hero = &t.nodes[3];
    let body = format_character_full(&hero.label, hero.character.as_ref().unwrap());
    assert_eq!(looks, format!("- 林深\n{}\n", body));
    assert_eq!(shot_character_looks(&t, "nope"), "");
}

#[test]
fn consolidation_reads_recent_chapters() {
    let t = story();
    let recent = consolidate_recent(&t, 1);
    assert_eq!(recent.len(), 1);
    assert_eq!(recent[0].id, "c2");
    let both = consolidate_recent(&t, 0);
    assert_eq!(both.len(), 1);
    let all = consolidate_recent(&t, 99);
    assert_eq!(all.iter().map(|n| n.id.as_str()).collect::<Vec<_>>(), vec!["c1", "c2"]);
    let mem = vec![
        ("c1".to_string(), "甲".to_string()),
        ("c9".to_string(), "x".to_string()),
        ("c1".to_string(), "乙".to_string()),
    ];
    assert_eq!(
        chapters_block(&all, &mem, true),
        "### 第一章\nid=c1\n大纲：开端\n记忆：甲\n乙\n\n### 第二章\nid=c2\n大纲：（空）\n记忆：（无）\n\n"
    );
    assert_eq!(
        chapters_block(&all[1..], &[], false),
        "### 第二章\nid=c2\nOutline: (empty)\nMemory: (none)\n\n"
    );
}

#[test]
fn consolidation_lists_plot_cards() {
    let t = story();
    let root = &t.nodes[0];
    let roots = root_plot_ids(&t, root);
    assert_eq!(roots, vec!["pl-root".to_string(), "pl-edge".to_string()]);
    let recent = vec!["c1".to_string(), "c2".to_string()];
    let chapter = chapter_plot_ids(&t, &recent, &roots);
    assert_eq!(chapter, vec!["pl-a".to_string(), "pl-b".to_string()]);
    assert_eq!(
        plots_block(&t, &chapter, false, true),
        "- id=pl-a | absorbed=true | 「密信」\n  发现密信\n- id=pl-b | absorbed=false | 「旧案」\n  \n"
    );
    assert_eq!(
        plots_block(&t, &vec!["pl-a".to_string()], true, true),
        "- id=pl-a | status=active | absorbed=true | 「密信」\n  发现密信\n"
    );
    assert_eq!(plots_block(&t, &vec![], true, false), "(none)\n");
    assert_eq!(plots_block(&t, &vec![], false, true), "（无）\n");
}

fn meta(t: &NovelTree, id: &str) -> Option<(String, bool)> {
    t.nodes.iter().find(|n| n.id == id).and_then(|n| n.side_plot.as_ref().map(|m| (m.status.clone(), m.absorbed)))
}

#[test]
fn absorbing_chapter_plots() {
    let mut t = story();
    let ids = match parse_json_text(r#"["pl-b", "pl-a", "pl-root", 7, "pl-b"]"#).unwrap() {
        novel_work::json::Json::Arr(a) => a,
        _ => panic!("array expected"),
    };
    let chapter = vec!["pl-a".to_string(), "pl-b".to_string()];
    let n = absorb_plots(&mut t, &ids, &chapter);
    assert_eq!(n, 1);
    assert_eq!(meta(&t, "pl-b"), Some(("deferred".to_string(), true)));
    assert_eq!(meta(&t, "pl-a"), Some(("deferred".to_string(), true)));
    assert_eq!(meta(&t, "pl-root"), None);
}

#[test]
fn proposed_root_plots() {
    let it = root_plot_item(&parse_json_text(r#"{"title":" 主线 ","outline":"x","status":"DONE","id":" pl-a "}"#).unwrap()).unwrap();
    assert_eq!((it.label.as_str(), it.outline.as_str(), it.status.as_str(), it.id.as_str()), ("主线", "x", "resolved", "pl-a"));
    let it2 = root_plot_item(&parse_json_text(r#"{"outline":"y"}"#).unwrap()).unwrap();
    assert_eq!((it2.label.as_str(), it2.status.as_str(), it2.id.as_str()), ("", "active", ""));
    assert!(root_plot_item(&parse_json_text(r#"{"label":"  ","id":"z"}"#).unwrap()).is_none());

    let mut t = story();
    update_root_plot_card(&mut t, 5, &it);
    assert_eq!(t.nodes[5].label, "主线");
    assert_eq!(t.nodes[5].outline, "x");
    assert_eq!(meta(&t, "pl-a"), Some(("resolved".to_string(), false)));
    update_root_plot_card(&mut t, 5, &it2);
    assert_eq!(t.nodes[5].label, "主线");
    assert_eq!(t.nodes[5].outline, "y");

    link_plot_to_root(&mut t, "root", "pl-a");
    link_plot_to_root(&mut t, "root", "pl-a");
    assert_eq!(t.nodes[0].linked_side_plot_ids, vec!["pl-root".to_string(), "pl-a".to_string()]);
    let e: Vec<&TreeEdge> = t.edges.iter().filter(|e| e.kind == "side_plot" && e.target == "pl-a").collect();
    assert_eq!(e.len(), 1);
    assert_eq!(e[0].id, "e-root-pl-a");
    assert_eq!(e[0].source_handle.as_deref(), Some("right"));
    assert_eq!(e[0].target_handle.as_deref(), Some("left"));
    let before = t.edges.len();
    link_plot_to_root(&mut t, "root", "pl-root");
    assert_eq!(t.edges.len(), before);
}
