use novel_work::chapter_cards::apply_plots_and_characters_for_chapter;
use novel_work::json::parse_json_text;
use novel_work::models::{NodeKind, NodePosition, NovelTree, TreeNode};

fn card(id: &str, kind: NodeKind, x: i64, y: i64) -> TreeNode {
    TreeNode {
        id: id.into(),
        kind,
        label: id.into(),
        outline: String::new(),
        detailed_outline: vec![],
        character: None,
        knowledge: None,
        side_plot: None,
        linked_character_ids: vec![],
        linked_side_plot_ids: vec![],
        linked_knowledge_ids: vec![],
        position: NodePosition { x, y },
        word_count: 0,
        word_count_min: 0,
        word_count_max: 0,
        chapter_count: 0,
    }
}

#[test]
fn chapter_plots_and_cast_are_added() {
    let mut h1 = card("h1", NodeKind::Character, 40, 300);
    h1.label = "阿青".into();
    let mut t = NovelTree {
        novel_id: "n".into(),
        nodes: vec![card("c1", NodeKind::Chapter, 100, 200), card("p0", NodeKind::SidePlot, 0, 0), h1],
        edges: vec![],
    };
    let plots = match parse_json_text(
        r#"[{"title": "伏笔", "outline": "埋下线索", "characters": [{"name": "阿青"}, {"label": "范蠡", "role": "谋士"}, {"label": " "}]},
            {"label": " ", "outline": ""}]"#,
    )
    .unwrap()
    {
        novel_work::json::Json::Arr(a) => a,
        _ => panic!("not a list"),
    };
    let r = apply_plots_and_characters_for_chapter(&mut t, "c1", &plots, "配角", "中立");
    assert_eq!(r, (1, 1));
    assert_eq!(t.nodes.len(), 5);
    let pid = t.nodes[3].id.clone();
    assert_eq!(t.nodes[3].label, "伏笔");
    assert_eq!(t.nodes[3].outline, "埋下线索");
    assert_eq!(t.nodes[3].position, NodePosition { x: 380, y: 236 });
    assert_eq!(t.nodes[3].side_plot.as_ref().unwrap().status, "active");
    let cid = t.nodes[4].id.clone();
    assert_eq!(t.nodes[4].label, "范蠡");
    assert_eq!(t.nodes[4].position, NodePosition { x: 40, y: 420 });
    let cc = t.nodes[4].character.as_ref().unwrap();
    assert_eq!(cc.role, "谋士");
    assert_eq!(cc.alignment, "中立");
    assert_eq!(t.nodes[0].linked_side_plot_ids, vec![pid.clone()]);
    assert_eq!(t.nodes[0].linked_character_ids, vec!["h1".to_string(), cid.clone()]);
    assert_eq!(t.nodes[3].linked_character_ids, vec!["h1".to_string(), cid]);
    assert_eq!(t.edges.len(), 5);
    assert_eq!(t.edges[0].kind, "side_plot");
}

#[test]
fn initial_tree_has_root_and_planned_cast() {
    use_initial_tree();
}

fn use_initial_tree() {
    let chars = match parse_json_text(r#"[{"label": "阿青", "role": "主角", "personality": "倔"}, {"gender": "男"}]"#).unwrap() {
        novel_work::json::Json::Arr(a) => a,
        _ => panic!("not a list"),
    };
    let t = novel_work::initial_tree::build_initial_tree("nid", "越女剑", "简介", 2000, 3000, 20, Some(&chars));
    assert_eq!(t.novel_id, "nid");
    assert_eq!(t.nodes.len(), 3);
    let r = &t.nodes[0];
    assert_eq!((r.id.as_str(), r.label.as_str(), r.outline.as_str()), ("root", "越女剑", "简介"));
    assert_eq!((r.word_count_min, r.word_count_max, r.chapter_count), (2000, 3000, 20));
    assert_eq!(r.linked_character_ids, vec!["char-1".to_string(), "char-2".to_string()]);
    assert_eq!(r.position, NodePosition { x: 280, y: 0 });
    assert_eq!(t.nodes[1].label, "阿青");
    assert_eq!(t.nodes[1].character.as_ref().unwrap().role, "主角");
    assert_eq!(t.nodes[2].label, "新角色");
    let c2 = t.nodes[2].character.as_ref().unwrap();
    assert_eq!((c2.role.as_str(), c2.alignment.as_str(), c2.gender.as_str()), ("配角", "中立", "男"));
    assert_eq!(t.nodes[2].position, NodePosition { x: 40, y: 240 });
    assert_eq!(t.edges.len(), 2);
    assert_eq!(t.edges[1].id, "e-root-char-2");
    let bare = novel_work::initial_tree::build_initial_tree("n", "t", "", 1, 2, 3, None);
    assert_eq!(bare.nodes.len(), 1);
    assert!(bare.edges.is_empty());
}

#[test]
fn bound_cards_list_cast_relations_and_plots() {
    let mut c1 = card("c1", NodeKind::Chapter, 0, 0);
    c1.linked_character_ids = vec!["h1".into()];
    let mut h1 = card("h1", NodeKind::Character, 0, 0);
    h1.label = "阿青".into();
    let mut cc = novel_work::models::CharacterCard::default();
    cc.constraints = "剑客".into();
    h1.character = Some(cc);
    let h2 = card("h2", NodeKind::Character, 0, 0);
    let mut p1 = card("p1", NodeKind::SidePlot, 0, 0);
    p1.outline = "主线".into();
    let t = NovelTree {
        novel_id: "n".into(),
        nodes: vec![c1, h1, h2, p1],
        edges: vec![novel_work::models::TreeEdge {
            id: "e".into(),
            source: "h1".into(),
            target: "h2".into(),
            kind: "relation".into(),
            source_handle: None,
            target_handle: None,
            label: "师徒".into(),
        }],
    };
    let text = novel_work::bound_cards::chapter_bound_cards_for_outline(
        &t,
        "c1",
        &vec!["p1".to_string()],
        &vec!["p1".to_string(), "pz".to_string()],
        true,
    );
    let expected = "## 本章已链接人物与剧情（硬约束：必须严格遵守）\n**人物**：言行/动机/关系必须严格符合下列人设，不得改写核心性格或让未链接人物压过链接人物。\n**剧情**：必须严格落实下列各卡要点——进行中须写入大纲并推进；已收束/已吸收/搁置仅作既定事实，不得推翻或无视。\n禁止另起无关主线；禁止只点名不落地。\n### 人物\n- 「阿青」\n## 真名\n阿青\n- 「h2」（人物卡字段未补全，仍须保留其人）\n\n### 人物关系\n- 阿青 ↔ h2：师徒\n\n### 剧情卡\n- 「p1」[进行中（新大纲须安排推进）]\n  要点：主线\n\n";
    assert_eq!(text, expected);
    let lone = NovelTree { novel_id: "n".into(), nodes: vec![card("c9", NodeKind::Chapter, 0, 0)], edges: vec![] };
    assert_eq!(novel_work::bound_cards::chapter_bound_cards_for_outline(&lone, "c9", &vec![], &vec![], false), "");
}
