use novel_work::chat_json::story_rules_chapter_context;
use novel_work::chat_tools::resolve_node;
use novel_work::json::parse_json_text;
use novel_work::models::{NodeKind, NodePosition, NovelTree, TreeNode};

fn node(id: &str, kind: NodeKind, label: &str, outline: &str, y: i64) -> TreeNode {
    TreeNode {
        id: id.into(),
        kind,
        label: label.into(),
        outline: outline.into(),
        detailed_outline: vec![],
        character: None,
        knowledge: None,
        side_plot: None,
        linked_character_ids: vec![],
        linked_side_plot_ids: vec![],
        linked_knowledge_ids: vec![],
        position: NodePosition { x: 0, y },
        word_count: 0,
        word_count_min: 0,
        word_count_max: 0,
        chapter_count: 0,
    }
}

fn tree() -> NovelTree {
    NovelTree {
        novel_id: "n".into(),
        nodes: vec![
            node("root", NodeKind::Novel, "书", "", 0),
            node("c2", NodeKind::Chapter, "第二章 · 冲突", " 反转 ", 20),
            node("c1", NodeKind::Chapter, " 第一章 · 夜色 ", "", 10),
            node("c1b", NodeKind::Chapter, "第一章 · 夜色", "", 10),
            node("p", NodeKind::Character, "林深", "", 5),
        ],
        edges: vec![],
    }
}

#[test]
fn story_rules_chapter_list() {
    let s = story_rules_chapter_context(&tree(), true);
    assert_eq!(s, "1. 第一章 · 夜色\n2. 第一章 · 夜色\n3. 第二章 · 冲突 — 反转");
    let empty = NovelTree { novel_id: "n".into(), nodes: vec![], edges: vec![] };
    assert_eq!(story_rules_chapter_context(&empty, true), "（尚无章节节点）");
    assert_eq!(story_rules_chapter_context(&empty, false), "(No chapter nodes on tree)");
}

#[test]
fn tool_args_name_a_card() {
    let t = tree();
    let by_id = resolve_node(&t, &parse_json_text(r#"{"node_id":"p","n":2}"#).unwrap());
    assert_eq!(by_id.map(|n| n.id.as_str()), Some("p"));
    let missing = resolve_node(&t, &parse_json_text(r#"{"node_id":"zzz","n":2}"#).unwrap());
    assert!(missing.is_none());
    let by_num = resolve_node(&t, &parse_json_text(r#"{"node_id":"","n":2}"#).unwrap());
    assert_eq!(by_num.map(|n| n.id.as_str()), Some("c2"));
    let first = resolve_node(&t, &parse_json_text(r#"{"n":1}"#).unwrap());
    assert_eq!(first.map(|n| n.id.as_str()), Some("c1"));
    assert!(resolve_node(&t, &parse_json_text(r#"{"n":"1"}"#).unwrap()).is_none());
    assert!(resolve_node(&t, &parse_json_text("{}").unwrap()).is_none());
}
