use novel_work::models::{NodeKind, NodePosition, NovelTree, TreeEdge, TreeNode};
use novel_work::tree_edit::{
    delete_tree_card_inner, ensure_character_linked, repair_root_alias_links, root_id,
};
use novel_work::tree_edit::set_node_word_count;
use novel_work::tree_edit::root_chapter_word_target;

fn node(id: &str, kind: NodeKind) -> TreeNode {
    TreeNode {
        id: id.into(),
        kind,
        label: id.into(),
        outline: String::new(),
        detailed_outline: vec![],
        character: None,
        knowledge: None,
        side_plot: None,
        linked_character_ids: vec![],
        linked_side_plot_ids: vec![],
        linked_knowledge_ids: vec![],
        position: NodePosition { x: 0, y: 0 },
        word_count: 0,
        word_count_min: 0,
        word_count_max: 0,
        chapter_count: 0,
    }
}

fn edge(source: &str, target: &str, kind: &str) -> TreeEdge {
    TreeEdge {
        id: format!("e-{source}-{target}"),
        source: source.into(),
        target: target.into(),
        kind: kind.into(),
        source_handle: None,
        target_handle: None,
        label: String::new(),
    }
}

fn err(r: Result<NovelTree, String>) -> String {
    match r {
        Err(e) => e,
        Ok(_) => panic!("expected an error"),
    }
}

fn ok(r: Result<NovelTree, String>) -> NovelTree {
    match r {
        Ok(t) => t,
        Err(e) => panic!("unexpected error: {e}"),
    }
}

fn has_edge(t: &NovelTree, s: &str, d: &str) -> bool {
    t.edges.iter().any(|e| e.source == s && e.target == d)
}

fn chain_tree() -> NovelTree {
    NovelTree {
        novel_id: "n".into(),
        nodes: vec![
            node("root", NodeKind::Novel),
            node("v1", NodeKind::Volume),
            node("c1", NodeKind::Chapter),
            node("c2", NodeKind::Chapter),
            node("c3", NodeKind::Chapter),
            node("p1", NodeKind::Character),
        ],
        edges: vec![
            edge("root", "v1", "volume"),
            edge("v1", "c1", "chapter"),
            edge("c1", "c2", "chapter"),
            edge("c2", "c3", "chapter"),
            edge("c2", "p1", "character"),
        ],
    }
}

#[test]
fn deleting_a_chapter_links_its_neighbours() {
    let t = ok(delete_tree_card_inner(chain_tree(), "c2", false));
    assert_eq!(t.nodes.len(), 5);
    assert!(t.nodes.iter().all(|n| n.id != "c2"));
    assert!(has_edge(&t, "c1", "c3"));
    let e = t.edges.iter().find(|e| e.source == "c1" && e.target == "c3").unwrap();
    assert_eq!(e.id, "e-c1-c3");
    assert_eq!(e.kind, "chapter");
    assert_eq!(e.source_handle.as_deref(), Some("bottom"));
    assert_eq!(e.target_handle.as_deref(), Some("top"));
    assert!(t.edges.iter().all(|e| e.source != "c2" && e.target != "c2"));
    assert_eq!(t.edges.len(), 3);
}

#[test]
fn deleting_a_volume_rehangs_its_chapters() {
    let t = ok(delete_tree_card_inner(chain_tree(), "v1", false));
    assert!(has_edge(&t, "root", "c1"));
    let e = t.edges.iter().find(|e| e.source == "root" && e.target == "c1").unwrap();
    assert_eq!(e.source_handle.as_deref(), Some("bottom"));
    assert_eq!(e.target_handle.as_deref(), Some("top"));
    assert!(t.nodes.iter().any(|n| n.id == "c1"));
    assert!(t.edges.iter().all(|e| e.source != "v1" && e.target != "v1"));
}

#[test]
fn deleting_a_character_prunes_links_to_it() {
    let mut tree = chain_tree();
    tree.nodes[2].linked_character_ids = vec!["p1".into(), "gone".into()];
    tree.nodes[3].linked_character_ids = vec!["p1".into()];
    let t = ok(delete_tree_card_inner(tree, "p1", false));
    assert!(t.nodes.iter().all(|n| n.linked_character_ids.is_empty()));
    assert!(!has_edge(&t, "c2", "p1"));
    assert!(has_edge(&t, "c1", "c2"));
}

#[test]
fn delete_errors() {
    assert_eq!(err(delete_tree_card_inner(chain_tree(), "nope", false)), "节点不存在");
    assert_eq!(err(delete_tree_card_inner(chain_tree(), "root", false)), "根节点不能删除");
    let mut tree = chain_tree();
    tree.nodes.push(node("k", NodeKind::Knowledge));
    assert_eq!(err(delete_tree_card_inner(tree, "k", true)), "生成/精修卡不能删除");
    let mut tree = chain_tree();
    tree.nodes.push(node("k", NodeKind::Knowledge));
    assert!(delete_tree_card_inner(tree, "k", false).is_ok());
    let no_root = NovelTree {
        novel_id: "n".into(),
        nodes: vec![node("v1", NodeKind::Volume)],
        edges: vec![],
    };
    assert_eq!(err(delete_tree_card_inner(no_root, "v1", false)), "根节点不存在");
}

#[test]
fn root_id_falls_back() {
    assert_eq!(root_id(&chain_tree()), "root");
    let t = NovelTree { novel_id: "n".into(), nodes: vec![node("x", NodeKind::Chapter)], edges: vec![] };
    assert_eq!(root_id(&t), "root");
    let t = NovelTree { novel_id: "n".into(), nodes: vec![node("r9", NodeKind::Novel)], edges: vec![] };
    assert_eq!(root_id(&t), "r9");
}

#[test]
fn character_linked_once() {
    let mut t = chain_tree();
    ensure_character_linked(&mut t, "c1", "p1");
    ensure_character_linked(&mut t, "c1", "p1");
    let c1 = t.nodes.iter().find(|n| n.id == "c1").unwrap();
    assert_eq!(c1.linked_character_ids, vec!["p1".to_string()]);
    let links: Vec<&TreeEdge> = t.edges.iter().filter(|e| e.kind == "character" && e.source == "c1").collect();
    assert_eq!(links.len(), 1);
    assert_eq!(links[0].id, "e-c1-p1");
    assert_eq!(links[0].source_handle.as_deref(), Some("left"));
    assert_eq!(links[0].target_handle.as_deref(), Some("right"));
    // an existing link the other way round counts
    let before = t.edges.len();
    ensure_character_linked(&mut t, "p1", "c2");
    assert_eq!(t.edges.len(), before);
}

#[test]
fn root_alias_links_are_repaired_once() {
    let mut t = NovelTree {
        novel_id: "n".into(),
        nodes: vec![
            node("novel-1", NodeKind::Novel),
            node("k1", NodeKind::Knowledge),
            node("p1", NodeKind::Character),
        ],
        edges: vec![edge("ROOT", "k1", "knowledge"), edge("p1", "novel", "character"), edge("root", "gone", "x")],
    };
    assert!(repair_root_alias_links(&mut t));
    assert_eq!(t.edges[0].source, "novel-1");
    assert_eq!(t.edges[1].target, "novel-1");
    assert_eq!(t.edges[2].source, "novel-1");
    assert_eq!(t.nodes[0].linked_knowledge_ids, vec!["k1".to_string()]);
    assert_eq!(t.nodes[0].linked_character_ids, vec!["p1".to_string()]);
    assert!(t.nodes[0].linked_side_plot_ids.is_empty());
    assert!(!repair_root_alias_links(&mut t));
    let mut no_root = NovelTree { novel_id: "n".into(), nodes: vec![], edges: vec![edge("root", "a", "x")] };
    assert!(!repair_root_alias_links(&mut no_root));
    assert_eq!(no_root.edges[0].source, "root");
}

#[test]
fn word_count_is_set_on_the_named_card_only() {
    let mut t = chain_tree();
    set_node_word_count(&mut t, "c2", 2345);
    assert_eq!(t.nodes[3].word_count, 2345);
    assert_eq!(t.nodes[2].word_count, 0);
    let before = t.nodes.len();
    set_node_word_count(&mut t, "missing", 9);
    assert_eq!(t.nodes.len(), before);
    assert!(t.nodes.iter().all(|n| n.word_count == 0 || n.id == "c2"));
}

#[test]
fn root_word_target_prefers_the_root_card() {
    let mut t = chain_tree();
    assert_eq!(root_chapter_word_target(&t, 1500, 2500), (1500, 2500));
    assert_eq!(root_chapter_word_target(&t, 0, 0), (2000, 3000));
    t.nodes[0].word_count_min = 4000;
    t.nodes[0].word_count_max = 3000;
    assert_eq!(root_chapter_word_target(&t, 1500, 2500), (3000, 4000));
}
