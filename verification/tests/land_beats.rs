use novel_work::land_beats::collect_land_beats;
use novel_work::models::{CharacterCard, NodeKind, NodePosition, NovelTree, TreeEdge, TreeNode};

fn card(id: &str, kind: NodeKind) -> TreeNode {
    TreeNode {
        id: id.into(),
        kind,
        label: id.into(),
        outline: String::new(),
        detailed_outline: vec![],
        character: None,
        knowledge: None,
        side_plot: None,
        linked_character_ids: vec![],
        linked_side_plot_ids: vec![],
        linked_knowledge_ids: vec![],
        position: NodePosition { x: 0, y: 0 },
        word_count: 0,
        word_count_min: 0,
        word_count_max: 0,
        chapter_count: 0,
    }
}

fn beats(t: &NovelTree, id: &str, plots: &Vec<(String, String)>) -> Vec<(String, String, String)> {
    collect_land_beats(t, id, plots)
        .into_iter()
        .map(|b| (b.kind.to_string(), b.title, b.text))
        .collect()
}

fn b(k: &str, t: &str, x: &str) -> (String, String, String) {
    (k.into(), t.into(), x.into())
}

#[test]
fn land_beats_gather_outline_plots_and_cast() {
    let mut ch = card("c1", NodeKind::Chapter);
    ch.detailed_outline = vec!["  去城里打听消息  ".into(), "短".into()];
    ch.linked_character_ids = vec!["h1".into()];
    let mut p1 = card("p1", NodeKind::SidePlot);
    p1.outline = "主线推进".into();
    p1.linked_character_ids = vec!["h3".into(), "h1".into()];
    let mut h1 = card("h1", NodeKind::Character);
    let mut cc = CharacterCard::default();
    cc.role = "剑客".into();
    cc.personality = "冷".into();
    h1.character = Some(cc);
    let h2 = card("h2", NodeKind::Character);
    let t = NovelTree {
        novel_id: "n".into(),
        nodes: vec![ch, p1, h1, h2],
        edges: vec![TreeEdge {
            id: "e".into(),
            source: "h2".into(),
            target: "c1".into(),
            kind: "character".into(),
            source_handle: None,
            target_handle: None,
            label: String::new(),
        }],
    };
    let plots = vec![("p1".to_string(), "正文内容".to_string())];
    assert_eq!(
        beats(&t, "c1", &plots),
        vec![
            b("outline", "细纲§1", "去城里打听消息"),
            b("plot", "p1", "主线推进\n正文内容"),
            b("character", "h1", "剑客｜冷"),
            b("character", "h2", ""),
        ]
    );
}

#[test]
fn land_beats_fall_back_to_outline_lines() {
    let mut ch = card("c1", NodeKind::Chapter);
    ch.outline = "- 甲出发去远方\n- 乙在家中等待".into();
    let t = NovelTree { novel_id: "n".into(), nodes: vec![ch], edges: vec![] };
    assert_eq!(
        beats(&t, "c1", &vec![]),
        vec![b("outline", "§1", "甲出发去远方"), b("outline", "§2", "乙在家中等待")]
    );
    assert!(beats(&t, "zz", &vec![]).is_empty());
}
