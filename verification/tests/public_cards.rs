use novel_work::models::{NodeKind, NodePosition, NovelTree, TreeNode};
use novel_work::public_cards::{
    add_public_knowledge_card_inner, fill_knowledge_card_inner, knowledge_fill_books, upsert_public_knowledge_card_inner,
    PublicKnowledgeCard,
};
use novel_work::models::KnowledgeCardPayload;

fn card(id: &str, kind: NodeKind) -> TreeNode {
    TreeNode {
        id: id.into(),
        kind,
        label: id.into(),
        outline: String::new(),
        detailed_outline: vec![],
        character: None,
        knowledge: None,
        side_plot: None,
        linked_character_ids: vec![],
        linked_side_plot_ids: vec![],
        linked_knowledge_ids: vec![],
        position: NodePosition { x: 0, y: 0 },
        word_count: 0,
        word_count_min: 0,
        word_count_max: 0,
        chapter_count: 0,
    }
}

fn public(archived: bool) -> PublicKnowledgeCard {
    PublicKnowledgeCard {
        id: "pub-1".into(),
        title: "门派".into(),
        book_ids: vec!["b1".into()],
        extract_prompt: "p".into(),
        extracted: "甲".repeat(250),
        created_at: "t0".into(),
        updated_at: "t1".into(),
        archived,
    }
}

fn tree() -> NovelTree {
    NovelTree {
        novel_id: "n".into(),
        nodes: vec![card("r", NodeKind::Novel), card("k0", NodeKind::Knowledge), card("c1", NodeKind::Chapter)],
        edges: vec![],
    }
}

fn err<T>(r: Result<T, String>) -> String {
    match r {
        Err(e) => e,
        Ok(_) => panic!("expected an error"),
    }
}

#[test]
fn public_card_is_copied_under_the_host() {
    let (t, kid) = match add_public_knowledge_card_inner(tree(), Some(public(false)), Some("c1")) {
        Ok(x) => x,
        Err(e) => panic!("{e}"),
    };
    assert!(kid.starts_with("kb-"));
    assert_eq!(kid.chars().count(), 39);
    assert_eq!(t.nodes.len(), 4);
    let n = &t.nodes[3];
    assert_eq!(n.id, kid);
    assert_eq!(n.label, "门派");
    assert_eq!(n.outline, "甲".repeat(200));
    assert_eq!(n.position, NodePosition { x: 40, y: 220 });
    assert_eq!(n.knowledge.as_ref().unwrap().book_ids, vec!["b1".to_string()]);
    assert_eq!(t.nodes[2].linked_knowledge_ids, vec![kid.clone()]);
    assert_eq!(t.edges.len(), 1);
    assert_eq!(t.edges[0].source, "c1");
    assert_eq!(t.edges[0].target, kid);
    assert_eq!(t.edges[0].kind, "knowledge");
}

#[test]
fn public_card_errors() {
    assert_eq!(err(add_public_knowledge_card_inner(tree(), None, None)), "公共知识卡不存在");
    assert_eq!(err(add_public_knowledge_card_inner(tree(), Some(public(true)), None)), "该公共知识卡已归档");
    assert_eq!(err(add_public_knowledge_card_inner(tree(), Some(public(false)), Some("zz"))), "节点不存在: zz");
    let no_root = NovelTree { novel_id: "n".into(), nodes: vec![], edges: vec![] };
    assert_eq!(err(add_public_knowledge_card_inner(no_root, Some(public(false)), None)), "找不到小说根节点");
}

#[test]
fn upsert_keeps_identity_of_existing_cards() {
    let e = err(upsert_public_knowledge_card_inner(None, "  ".into(), vec![], "".into(), "".into(), "now".into()));
    assert_eq!(e, "标题不能为空");
    let fresh = upsert_public_knowledge_card_inner(None, " 门派 ".into(), vec!["b".into()], "p".into(), "x".into(), "now".into()).unwrap();
    assert_eq!(fresh.title, "门派");
    assert_eq!(fresh.id.chars().count(), 36);
    assert_eq!(fresh.created_at, "now");
    assert_eq!(fresh.updated_at, "now");
    assert!(!fresh.archived);
    let kept = upsert_public_knowledge_card_inner(Some(public(true)), "新名".into(), vec![], "".into(), "".into(), "later".into()).unwrap();
    assert_eq!(kept.id, "pub-1");
    assert_eq!(kept.created_at, "t0");
    assert_eq!(kept.updated_at, "later");
    assert!(kept.archived);
}

#[test]
fn knowledge_fill_checks_then_writes() {
    let t = tree();
    assert_eq!(err(knowledge_fill_books(&t, "zz", &None)), "节点不存在");
    assert_eq!(err(knowledge_fill_books(&t, "c1", &None)), "不是知识卡");
    assert_eq!(err(knowledge_fill_books(&t, "k0", &None)), "请先选择至少一个知识库");
    assert_eq!(knowledge_fill_books(&t, "k0", &Some(vec!["b2".into()])).unwrap(), vec!["b2".to_string()]);
    let e = err(fill_knowledge_card_inner(tree(), "k0", Some(vec!["b2".into()]), "  ".into()));
    assert_eq!(e, "所选知识库没有可导入的分段（可先在知识库页重建索引）");
    let filled = fill_knowledge_card_inner(tree(), "k0", Some(vec!["b2".into()]), "乙".repeat(300)).unwrap();
    let n = &filled.nodes[1];
    assert_eq!(n.outline, "乙".repeat(200));
    let k: &KnowledgeCardPayload = n.knowledge.as_ref().unwrap();
    assert_eq!(k.book_ids, vec!["b2".to_string()]);
    assert_eq!(k.extracted, "乙".repeat(300));
    assert_eq!(filled.nodes[2].outline, "");
}
