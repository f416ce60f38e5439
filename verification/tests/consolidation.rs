use novel_work::consolidation::apply_consolidation;
use novel_work::json::parse_json_text;
use novel_work::models::{NodeKind, NodePosition, NovelTree, TreeNode};

fn card(id: &str, kind: NodeKind) -> TreeNode {
    TreeNode {
        id: id.into(),
        kind,
        label: id.into(),
        outline: String::new(),
        detailed_outline: vec![],
        character: None,
        knowledge: None,
        side_plot: None,
        linked_character_ids: vec![],
        linked_side_plot_ids: vec![],
        linked_knowledge_ids: vec![],
        position: NodePosition { x: 0, y: 0 },
        word_count: 0,
        word_count_min: 0,
        word_count_max: 0,
        chapter_count: 0,
    }
}

fn tree() -> NovelTree {
    NovelTree {
        novel_id: "n".into(),
        nodes: vec![card("r", NodeKind::Novel), card("p1", NodeKind::SidePlot), card("cp", NodeKind::SidePlot)],
        edges: vec![],
    }
}

#[test]
fn reply_updates_creates_and_absorbs() {
    let mut t = tree();
    let reply = parse_json_text(
        r#"{"root_plots": [{"id": "p1", "label": "主线", "status": "active"}, {"outline": "新的大纲"}, {"label": " "}],
            "absorb_plot_ids": ["cp", "zz"]}"#,
    )
    .unwrap();
    let r = apply_consolidation(&mut t, &reply, "r", &vec![], &vec!["cp".to_string()], true);
    assert_eq!(r, Ok((1, 1, 1)));
    assert_eq!(t.nodes.len(), 4);
    assert_eq!(t.nodes[1].label, "主线");
    assert!(!t.nodes[1].side_plot.as_ref().unwrap().absorbed);
    let new_id = t.nodes[3].id.clone();
    assert_eq!(t.nodes[3].label, "新的大纲");
    assert_eq!(t.nodes[3].outline, "新的大纲");
    assert_eq!(t.nodes[3].position, NodePosition { x: 280, y: 36 });
    assert_eq!(t.nodes[0].linked_side_plot_ids, vec!["p1".to_string(), new_id.clone()]);
    assert_eq!(t.edges.len(), 2);
    assert_eq!(t.edges[1].target, new_id);
    assert_eq!(t.edges[1].kind, "side_plot");
    let cp = t.nodes[2].side_plot.as_ref().unwrap();
    assert!(cp.absorbed);
    assert_eq!(cp.status, "deferred");
}

#[test]
fn unusable_replies_are_errors() {
    let mut t = tree();
    let none = parse_json_text(r#"{"plots": []}"#).unwrap();
    assert_eq!(
        apply_consolidation(&mut t, &none, "r", &vec![], &vec![], false),
        Err("Could not parse consolidation result; tree unchanged. Please retry.".to_string())
    );
    let empty = parse_json_text(r#"{"root_plots": [{"label": ""}]}"#).unwrap();
    assert_eq!(
        apply_consolidation(&mut t, &empty, "r", &vec![], &vec![], true),
        Err("未能解析整理结果，结构树未改动。请重试。".to_string())
    );
    assert_eq!(t.nodes.len(), 3);
}
