use novel_work::core_laws_fmt::{
    format_core_laws_full, is_core_laws_card, knowledge_card_inject_body, knowledge_inject_total,
    knowledge_slot, linked_axiom_nodes, AXIOM_SLOT, CORE_LAWS_SLOT,
};
use novel_work::existence_fmt::{format_existence_full, is_existence_card, EXISTENCE_SLOT};
use novel_work::history_culture_fmt::{
    format_history_culture_full, is_history_culture_card, HISTORY_CULTURE_SLOT, MAJOR_EVENT_SLOT,
    RELIGION_SLOT,
};
use novel_work::info_flow_fmt::{format_info_flow_full, is_info_flow_card, INFO_FLOW_SLOT};
use novel_work::models::{
    CoreLawsPayload, ExistencePayload, HistoryCulturePayload, InfoFlowPayload,
    KnowledgeCardPayload, MajorEvent, NodeKind, NodePosition, NovelTree, TreeEdge, TreeNode,
    WorldAxiom, WorldReligion,
};

fn payload(slot: &str) -> KnowledgeCardPayload {
    KnowledgeCardPayload {
        book_ids: vec![],
        extract_prompt: String::new(),
        extracted: "stale".into(),
        from_canon: false,
        slot: slot.into(),
        core_laws: None,
        world_axiom: None,
        existence: None,
        info_flow: None,
        history_culture: None,
        world_religion: None,
        major_event: None,
    }
}

fn node(id: &str, knowledge: Option<KnowledgeCardPayload>) -> TreeNode {
    TreeNode {
        id: id.into(),
        kind: NodeKind::Knowledge,
        label: id.into(),
        outline: String::new(),
        detailed_outline: vec![],
        character: None,
        knowledge,
        side_plot: None,
        linked_character_ids: vec![],
        linked_side_plot_ids: vec![],
        linked_knowledge_ids: vec![],
        position: NodePosition { x: 0, y: 0 },
        word_count: 0,
        word_count_min: 0,
        word_count_max: 0,
        chapter_count: 0,
    }
}

fn law(name: &str, statement: &str) -> WorldAxiom {
    WorldAxiom {
        name: name.into(),
        statement: statement.into(),
        boundary: String::new(),
        cost: String::new(),
        mechanism: String::new(),
    }
}

#[test]
fn core_laws_inject_includes_linked_axioms() {
    let mut p = payload(CORE_LAWS_SLOT);
    p.core_laws = Some(CoreLawsPayload {
        premise: "力量有价".into(),
        axioms: vec![],
        taboos: vec!["严禁无代价成神".into()],
        power_system: "九境".into(),
        power_expression: "纹路".into(),
    });
    let mut core = node("core", Some(p));
    core.linked_knowledge_ids = vec!["ax1".into()];
    let mut ap = payload(AXIOM_SLOT);
    ap.world_axiom = Some(WorldAxiom {
        name: "借力律".into(),
        statement: "借力必还".into(),
        boundary: "不可永久免除".into(),
        cost: "寿命".into(),
        mechanism: "契约".into(),
    });
    let ax = node("ax1", Some(ap));
    let tree = NovelTree {
        novel_id: "n".into(),
        nodes: vec![core, ax],
        edges: vec![TreeEdge {
            id: "e".into(),
            source: "core".into(),
            target: "ax1".into(),
            kind: "knowledge".into(),
            source_handle: None,
            target_handle: None,
            label: String::new(),
        }],
    };
    let body = format_core_laws_full(&tree, &tree.nodes[0]);
    assert!(body.contains("力量有价"));
    assert!(body.contains("### 借力律"));
    assert!(body.contains("借力必还"));
    assert!(body.contains("严禁无代价成神"));
    assert!(!body.contains("stale"));
}

#[test]
fn core_laws_full_text_exact() {
    let mut p = payload(CORE_LAWS_SLOT);
    p.core_laws = Some(CoreLawsPayload {
        premise: " 力量有价 ".into(),
        axioms: vec![law("", "借力必还"), law(" ", "  ")],
        taboos: vec!["甲".into(), "  ".into(), "乙".into()],
        power_system: "九境".into(),
        power_expression: String::new(),
    });
    let tree = NovelTree { novel_id: "n".into(), nodes: vec![node("core", Some(p))], edges: vec![] };
    assert_eq!(
        format_core_laws_full(&tree, &tree.nodes[0]),
        "## 一句话立意\n力量有价\n\n## 世界公理\n### 1\n- 表述：借力必还\n\n## 禁忌红线\n1. 甲\n2. 乙\n\n## 力量体系\n九境"
    );
}

#[test]
fn linked_axioms_follow_canvas_order_once_each() {
    let mut core = node("core", Some(payload(CORE_LAWS_SLOT)));
    core.linked_knowledge_ids = vec!["b".into(), "a".into(), "b".into(), "other".into()];
    let mut a = node("a", Some(payload(AXIOM_SLOT)));
    a.position = NodePosition { x: 5, y: 0 };
    let mut b = node("b", Some(payload(AXIOM_SLOT)));
    b.position = NodePosition { x: 1, y: 9 };
    let mut c = node("c", Some(payload(AXIOM_SLOT)));
    c.position = NodePosition { x: 1, y: 9 };
    let other = node("other", Some(payload(EXISTENCE_SLOT)));
    let tree = NovelTree {
        novel_id: "n".into(),
        nodes: vec![core, a, b, c, other],
        edges: vec![TreeEdge {
            id: "e".into(),
            source: "c".into(),
            target: "core".into(),
            kind: "knowledge".into(),
            source_handle: None,
            target_handle: None,
            label: String::new(),
        }],
    };
    let ids: Vec<&str> = linked_axiom_nodes(&tree, "core").iter().map(|n| n.id.as_str()).collect();
    assert_eq!(ids, vec!["b", "c", "a"]);
}

#[test]
fn core_laws_card_falls_back_to_extracted_then_outline() {
    let mut n = node("core", Some(payload(CORE_LAWS_SLOT)));
    n.outline = " 大纲 ".into();
    let tree = NovelTree { novel_id: "n".into(), nodes: vec![], edges: vec![] };
    assert_eq!(format_core_laws_full(&tree, &n), "stale");
    let mut bare = node("x", None);
    bare.outline = " 大纲 ".into();
    assert_eq!(format_core_laws_full(&tree, &bare), " 大纲 ");
    assert!(is_core_laws_card(&n));
    assert_eq!(knowledge_slot(&n), CORE_LAWS_SLOT);
    assert_eq!(knowledge_slot(&bare), "");
}

#[test]
fn inject_total_adds_core_laws_excess() {
    assert_eq!(knowledge_inject_total(2000), 5000);
}

#[test]
fn existence_inject_from_structured() {
    let mut p = payload(EXISTENCE_SLOT);
    p.existence = Some(ExistencePayload {
        premise: "生死有账".into(),
        death: "灵魂不散".into(),
        calendar: "双月历".into(),
        lifespan: "凡人八十".into(),
        disease_reproduction: "瘟疫周期十年".into(),
    });
    let n = node("ex", Some(p));
    let body = format_existence_full(&n);
    assert!(body.contains("生死有账"));
    assert!(body.contains("## 死亡"));
    assert!(body.contains("双月历"));
    assert!(!body.contains("stale"));
    assert!(is_existence_card(&n));
}

#[test]
fn info_flow_inject_from_structured() {
    let mut p = payload(INFO_FLOW_SLOT);
    p.info_flow = Some(InfoFlowPayload {
        premise: "真相滞后于流言".into(),
        info_speed: "驿马一日百里".into(),
        info_barrier: "边境查禁".into(),
        rumor_truth: "口信失真".into(),
        knowledge_carrier: "竹简与口述".into(),
    });
    let n = node("if", Some(p));
    let body = format_info_flow_full(&n);
    assert!(body.contains("驿马"));
    assert!(body.contains("真相滞后"));
    assert!(body.contains("## 信息壁垒"));
    assert!(body.contains("## 流言与真相"));
    assert!(!body.contains("stale"));
    assert!(is_info_flow_card(&n));
}

#[test]
fn info_flow_blank_fields_are_left_out() {
    let mut p = payload(INFO_FLOW_SLOT);
    p.info_flow = Some(InfoFlowPayload {
        premise: String::new(),
        info_speed: " 快 ".into(),
        info_barrier: String::new(),
        rumor_truth: String::new(),
        knowledge_carrier: String::new(),
    });
    assert_eq!(format_info_flow_full(&node("if", Some(p))), "## 信息速度\n快");
}

#[test]
fn history_culture_inject_includes_linked_children() {
    let mut p = payload(HISTORY_CULTURE_SLOT);
    p.history_culture = Some(HistoryCulturePayload {
        premise: "礼法与商路".into(),
        customs: "祭河".into(),
        economy: "盐铁".into(),
        religions: vec![],
        daily_slices: "早市".into(),
        major_events: vec![],
    });
    let mut host = node("hc", Some(p));
    host.linked_knowledge_ids = vec!["rel1".into(), "ev1".into()];
    let mut rp = payload(RELIGION_SLOT);
    rp.world_religion = Some(WorldReligion {
        name: "河神教".into(),
        core_belief: "顺流则昌".into(),
        followers_scope: "渔民".into(),
    });
    let mut ep = payload(MAJOR_EVENT_SLOT);
    ep.major_event = Some(MajorEvent {
        title: "盐门之变".into(),
        event: "夺权".into(),
        long_term_impact: "集权".into(),
    });
    let tree = NovelTree {
        novel_id: "n".into(),
        nodes: vec![host, node("rel1", Some(rp)), node("ev1", Some(ep))],
        edges: vec![],
    };
    let body = format_history_culture_full(&tree, &tree.nodes[0]);
    assert!(body.contains("礼法与商路"));
    assert!(body.contains("### 河神教"));
    assert!(body.contains("### 盐门之变"));
    assert!(!body.contains("stale"));
    assert!(is_history_culture_card(&tree.nodes[0]));
}

#[test]
fn inject_body_dispatches_by_slot() {
    let tree = NovelTree { novel_id: "n".into(), nodes: vec![], edges: vec![] };
    let mut p = payload("wv_other");
    p.extracted = "  ".into();
    p.extract_prompt = " 提示 ".into();
    assert_eq!(knowledge_card_inject_body(&tree, &node("k", Some(p))), "提示");
    let mut e = payload(EXISTENCE_SLOT);
    e.existence = Some(ExistencePayload {
        premise: "立".into(),
        death: String::new(),
        calendar: String::new(),
        lifespan: String::new(),
        disease_reproduction: String::new(),
    });
    assert_eq!(knowledge_card_inject_body(&tree, &node("e", Some(e))), "## 一句话立意\n立");
}
