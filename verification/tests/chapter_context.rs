use novel_work::chapter_context::{chapter_context, ContextLabels, ContextLinks};
use novel_work::models::{
    CharacterCard, CoreLawsPayload, KnowledgeCardPayload, NodeKind, NodePosition, NovelTree, TreeEdge, TreeNode,
};

fn node(id: &str, kind: NodeKind) -> TreeNode {
    TreeNode {
        id: id.into(),
        kind,
        label: id.into(),
        outline: String::new(),
        detailed_outline: vec![],
        character: None,
        knowledge: None,
        side_plot: None,
        linked_character_ids: vec![],
        linked_side_plot_ids: vec![],
        linked_knowledge_ids: vec![],
        position: NodePosition { x: 0, y: 0 },
        word_count: 0,
        word_count_min: 0,
        word_count_max: 0,
        chapter_count: 0,
    }
}

fn labels() -> ContextLabels {
    ContextLabels {
        name: "姓名".into(),
        card_incomplete: "（卡未完善）".into(),
        no_characters: "（无人物）".into(),
        relation_unset: "（关系未标注）".into(),
        empty_plot: "（大纲为空）".into(),
        no_plots: "（无剧情卡）".into(),
        empty_knowledge: "（知识为空）".into(),
        no_knowledge: "（无知识卡）".into(),
        empty_outline: "（无大纲）".into(),
        empty_detailed_outline: "（无细纲）".into(),
        chapter_title: "章节".into(),
        chapter_outline: "大纲".into(),
        chapter_detailed_outline: "细纲".into(),
        chars_header: "【人物】".into(),
        relations_header: "【关系】".into(),
        plots_header: "【剧情】".into(),
        knowledge_header: "【知识】".into(),
    }
}

fn links() -> ContextLinks {
    ContextLinks {
        local_plot_ids: vec![],
        inherited_plot_ids: vec![],
        root_plot_ids: vec![],
        root_character_ids: vec![],
        volume_character_ids: vec![],
        injectable_plot_ids: vec![],
        knowledge: vec![],
        knowledge_total: 4000,
        plot_bodies: vec![],
    }
}

fn core_payload(premise: String) -> KnowledgeCardPayload {
    KnowledgeCardPayload {
        book_ids: vec![],
        extract_prompt: String::new(),
        extracted: String::new(),
        from_canon: false,
        slot: "wv_core_laws".into(),
        core_laws: Some(CoreLawsPayload {
            premise,
            axioms: vec![],
            taboos: vec![],
            power_system: String::new(),
            power_expression: String::new(),
        }),
        world_axiom: None,
        existence: None,
        info_flow: None,
        history_culture: None,
        world_religion: None,
        major_event: None,
    }
}

#[test]
fn slim_outline_keeps_worldview_tail_past_500() {
    const MARKER: &str = "SLIM_MUST_KEEP_NO_PRICELESS_GOD";
    let mut root = node("root", NodeKind::Novel);
    root.linked_knowledge_ids = vec!["core".into()];
    let ch = node("ch1", NodeKind::Chapter);
    let mut core = node("core", NodeKind::Knowledge);
    core.knowledge = Some(core_payload(format!("{}{MARKER}", "甲".repeat(600))));
    let tree = NovelTree { novel_id: "n".into(), nodes: vec![root, ch, core], edges: vec![] };
    let mut l = links();
    l.knowledge = vec![("core".to_string(), 0, 4000)];
    l.knowledge_total = 12000;
    let (_info, cards) = chapter_context(&tree, "ch1", &l, &labels(), true, true);
    assert!(cards.contains(MARKER), "slim outline context must keep worldview past the 500-char ordinary cap: {cards}");
}

#[test]
fn chapter_context_gathers_info_cast_and_plots() {
    let mut root = node("root", NodeKind::Novel);
    root.linked_character_ids = vec![];
    let mut ch = node("ch1", NodeKind::Chapter);
    ch.label = "第1章".into();
    ch.outline = "起".into();
    ch.detailed_outline = vec![" a ".into(), "  ".into(), "b".into()];
    ch.linked_character_ids = vec!["h1".into()];
    let mut h1 = node("h1", NodeKind::Character);
    h1.label = "阿青".into();
    let mut cc = CharacterCard::default();
    cc.constraints = "剑客".into();
    h1.character = Some(cc);
    let mut h2 = node("h2", NodeKind::Character);
    h2.label = "范蠡".into();
    let mut p1 = node("p1", NodeKind::SidePlot);
    p1.label = "伏笔".into();
    p1.outline = "埋线".into();
    p1.linked_character_ids = vec!["h2".into()];
    let tree = NovelTree {
        novel_id: "n".into(),
        nodes: vec![root, ch, h1, h2, p1],
        edges: vec![TreeEdge {
            id: "e".into(),
            source: "root".into(),
            target: "h2".into(),
            kind: "character".into(),
            source_handle: None,
            target_handle: None,
            label: String::new(),
        }],
    };
    let mut l = links();
    l.local_plot_ids = vec!["p1".into()];
    l.plot_bodies = vec![("p1".into(), "正文".into())];
    let (info, cards) = chapter_context(&tree, "ch1", &l, &labels(), false, true);
    assert_eq!(info, "章节：第1章\n大纲：\n起\n细纲：\n1. a\n2. b");
    assert_eq!(
        cards,
        "【人物】\n- 姓名：阿青\n## 真名\n阿青\n- 姓名：范蠡｜全书人物 （卡未完善）\n\n【剧情】\n- 「伏笔」\n  剧情要点：埋线\n  关联人物：范蠡\n  剧情正文/补充：\n正文\n\n【知识】\n（无知识卡）"
    );
    let empty = NovelTree { novel_id: "n".into(), nodes: vec![], edges: vec![] };
    let (i2, c2) = chapter_context(&empty, "x", &links(), &labels(), true, false);
    assert_eq!(i2, "章节：\n大纲：\n（无大纲）\n细纲：\n（无细纲）");
    assert_eq!(c2, "【人物】\n（无人物）\n【剧情】\n（无剧情卡）\n【知识】\n（无知识卡）");
}
