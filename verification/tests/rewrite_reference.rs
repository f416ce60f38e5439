use novel_work::models::{
    CharacterCard, KnowledgeCardPayload, NodeKind, NodePosition, NovelTree, SidePlotMeta, TreeNode,
};
use novel_work::rewrite_reference::{
    assemble_novel_rewrite_reference, finish_rewrite, rewrite_needs_tree, rewrite_text_field_prompt, RewriteLinks,
    RewriteSystem,
};

fn node(id: &str, kind: NodeKind) -> TreeNode {
    TreeNode {
        id: id.into(),
        kind,
        label: id.into(),
        outline: String::new(),
        detailed_outline: vec![],
        character: None,
        knowledge: None,
        side_plot: None,
        linked_character_ids: vec![],
        linked_side_plot_ids: vec![],
        linked_knowledge_ids: vec![],
        position: NodePosition { x: 0, y: 0 },
        word_count: 0,
        word_count_min: 0,
        word_count_max: 0,
        chapter_count: 0,
    }
}

fn knowledge(id: &str, slot: &str, text: &str) -> TreeNode {
    let mut n = node(id, NodeKind::Knowledge);
    n.knowledge = Some(KnowledgeCardPayload { slot: slot.into(), extracted: text.into(), ..Default::default() });
    n
}

fn links() -> RewriteLinks {
    RewriteLinks {
        features_block: String::new(),
        story_rules_text: String::new(),
        injectable_plot_ids: vec![],
        fan_card_ids: vec![],
        write_prompt_ids: vec![],
    }
}

fn tree(nodes: Vec<TreeNode>) -> NovelTree {
    NovelTree { novel_id: "n".into(), nodes, edges: vec![] }
}

#[test]
fn reference_of_empty_tree_is_title_and_synopsis() {
    let t = tree(vec![]);
    let zh = assemble_novel_rewrite_reference(" 书名 ", "简介\n", &t, None, None, &links(), true);
    assert_eq!(zh, "【书名】书名\n【简介】简介");
    let en = assemble_novel_rewrite_reference("Book", "Intro", &t, None, None, &links(), false);
    assert_eq!(en, "[Title] Book\n[Synopsis] Intro");
}

#[test]
fn reference_sections_in_order_with_features() {
    let mut plot_on = node("p1", NodeKind::SidePlot);
    plot_on.label = "伏笔".into();
    plot_on.outline = " 埋下玉佩 ".into();
    let mut plot_done = node("p2", NodeKind::SidePlot);
    plot_done.outline = "已结束".into();
    plot_done.side_plot = Some(SidePlotMeta { status: "done".into(), absorbed: true });
    let mut plot_free = node("p3", NodeKind::SidePlot);
    plot_free.outline = "无元数据".into();
    let mut rules = knowledge("sr", "story_rules", "");
    rules.label = "故事规则".into();
    let nodes = vec![
        knowledge("k1", "misc", "宗门谱系"),
        knowledge("k2", "wv_religion", "神庙"),
        knowledge("k3", "write_prompts", "写作提示"),
        plot_on,
        plot_done,
        plot_free,
        rules,
    ];
    let t = tree(nodes);
    let mut l = links();
    l.features_block = "【特色】快节奏".into();
    l.story_rules_text = "不可复活".into();
    l.injectable_plot_ids = vec!["p1".into()];
    l.write_prompt_ids = vec!["k3".into()];
    let r = assemble_novel_rewrite_reference("书", "简", &t, None, None, &l, true);
    assert_eq!(
        r,
        "【书名】书\n【简介】简\n\n【特色】快节奏\n\n【世界观与故事规则】\n### 故事规则\n不可复活\n\n\
         【剧情卡】\n- 「伏笔」\n  埋下玉佩\n- 「p3」\n  无元数据\n\n【其他知识卡】\n### k1\n宗门谱系"
    );
}

#[test]
fn reference_leaves_out_the_excluded_cards() {
    let mut c1 = node("c1", NodeKind::Character);
    c1.character = Some(CharacterCard::default());
    let mut c2 = node("c2", NodeKind::Character);
    c2.character = Some(CharacterCard::default());
    let t = tree(vec![c1, c2, knowledge("k1", "misc", "甲"), knowledge("k2", "misc", "乙")]);
    let r = assemble_novel_rewrite_reference("书", "简", &t, Some("c1"), Some("k2"), &links(), true);
    assert!(r.contains("### c2\n"));
    assert!(!r.contains("### c1\n"));
    assert!(r.contains("### k1\n甲"));
    assert!(!r.contains("### k2"));
}

#[test]
fn reference_is_cut_to_its_budget() {
    let long: String = std::iter::repeat('字').take(6000).collect();
    let r = assemble_novel_rewrite_reference("书", &long, &tree(vec![]), None, None, &links(), true);
    assert_eq!(r.chars().count(), 5001);
    assert!(r.ends_with('…'));
    assert!(r.starts_with("【书名】书\n【简介】字"));
}

#[test]
fn knowledge_body_is_cut_per_card() {
    let long: String = std::iter::repeat('a').take(500).collect();
    let t = tree(vec![knowledge("k1", "misc", &long)]);
    let r = assemble_novel_rewrite_reference("T", "S", &t, None, None, &links(), false);
    let expected = format!("[Title] T\n[Synopsis] S\n\n[Other knowledge cards]\n### k1\n{}…", &long[..400]);
    assert_eq!(r, expected);
}

#[test]
fn rewrite_prompt_refuses_blank_instruction_or_label() {
    let t = tree(vec![]);
    let e = rewrite_text_field_prompt("书", "简", &t, "  ", "字段", "", None, false, false, "U", &links(), true);
    assert_eq!(e, Err("请填写提示词".to_string()));
    let e = rewrite_text_field_prompt("书", "简", &t, "改写", " ", "", None, false, false, "U", &links(), true);
    assert_eq!(e, Err("字段名为空".to_string()));
}

#[test]
fn plain_field_rewrite_uses_the_field_prompt() {
    let t = tree(vec![]);
    let r = rewrite_text_field_prompt("书", "简", &t, "改写", "地理", "旧", None, false, false, "字段提示", &links(), true);
    assert_eq!(r, Ok((RewriteSystem::TextField, "字段提示".to_string())));
}

#[test]
fn character_rewrite_carries_reference_card_and_prompt() {
    let t = tree(vec![]);
    let r = rewrite_text_field_prompt("书", "简", &t, " 更狠 ", "人物卡", " ", Some("c1"), true, false, "U", &links(), true);
    assert_eq!(
        r,
        Ok((
            RewriteSystem::CharacterCard,
            "【参考书（世界观与其他卡面；须与下列设定一致）】\n【书名】书\n【简介】简\n\n【人物卡当前内容】\n（空）\n\n\
             【提示词与 JSON 要求】\n更狠\n\n请只输出填满全部字段的 JSON 对象："
                .to_string()
        ))
    );
}

#[test]
fn rules_card_rewrite_carries_reference_and_field_prompt() {
    let t = tree(vec![knowledge("sr", "story_rules", "规则"), knowledge("k1", "misc", "甲")]);
    let r = rewrite_text_field_prompt("B", "S", &t, "go", "Rule", "x", Some(" sr "), false, false, "FIELD", &links(), false);
    assert_eq!(
        r,
        Ok((
            RewriteSystem::TextField,
            "[Reference — all cards; stay consistent]\n[Title] B\n[Synopsis] S\n\n[Other knowledge cards]\n### k1\n甲\n\nFIELD"
                .to_string()
        ))
    );
    let plain = rewrite_text_field_prompt("B", "S", &t, "go", "Rule", "x", Some("k1"), false, false, "FIELD", &links(), false);
    assert_eq!(plain, Ok((RewriteSystem::TextField, "FIELD".to_string())));
}

#[test]
fn rules_block_rewrite_shows_current_card() {
    let t = tree(vec![]);
    let r = rewrite_text_field_prompt("B", "S", &t, "go", "Rules", "cur", None, false, true, "F", &links(), false);
    assert_eq!(
        r,
        Ok((
            RewriteSystem::StoryRulesBlock,
            "[Reference — all cards; stay consistent]\n[Title] B\n[Synopsis] S\n\n[Current card]\ncur\n\n\
             [Prompt and JSON schema]\ngo\n\nOutput only the complete JSON object:"
                .to_string()
        ))
    );
}

#[test]
fn tree_is_needed_only_for_cards() {
    assert!(!rewrite_needs_tree(false, false, None));
    assert!(!rewrite_needs_tree(false, false, Some("  ")));
    assert!(rewrite_needs_tree(false, false, Some("k1")));
    assert!(rewrite_needs_tree(true, false, None));
}

#[test]
fn empty_model_reply_is_refused() {
    assert_eq!(finish_rewrite("  ", true), Err("模型未返回有效内容".to_string()));
    assert_eq!(finish_rewrite("", false), Err("Model returned empty text".to_string()));
    assert_eq!(finish_rewrite(" 新设定 ", true), Ok("新设定".to_string()));
}
