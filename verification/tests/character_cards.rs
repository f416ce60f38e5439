use novel_work::character_fmt::{format_character_full, sync_character_legacy};
use novel_work::models::{CharacterCard, CharacterCoreBelief, CharacterRelation, CharacterWorldPosition};
use novel_work::character_fmt::fallback_character_sheet_prompt;

#[test]
fn formats_rich_card() {
    let c = CharacterCard {
        gender: "男".into(),
        age: "中年".into(),
        aliases: "老李".into(),
        world_position: CharacterWorldPosition {
            birth_class: "贱籍".into(),
            faction: "商会".into(),
            social_role: "账房".into(),
            conflict_stance: "反对".into(),
        },
        core_belief: CharacterCoreBelief {
            belief: "钱能买命".into(),
            author_verdict: "disprove".into(),
            source: "".into(),
        },
        ..Default::default()
    };
    let md = format_character_full("李四", &c);
    assert!(md.contains("真名"));
    assert!(md.contains("李四"));
    assert!(md.contains("账房"));
    assert!(md.contains("终将证伪"));
}

#[test]
fn old_card_reads_flat_fields_exactly() {
    let mut c = CharacterCard::default();
    c.role = "掌柜".into();
    c.motto = "和气生财".into();
    c.personality = "精明".into();
    let md = format_character_full(" 王五 ", &c);
    assert_eq!(
        md,
        "## 真名\n王五\n\n## 世界位置\n- 社会角色：掌柜\n\n## 核心信念\n- 核心信念：和气生财\n\n## 性格\n精明"
    );
}

#[test]
fn relations_are_numbered_when_unnamed() {
    let mut c = CharacterCard::default();
    c.relations = vec![
        CharacterRelation {
            name: String::new(),
            relation: "师徒".into(),
            definition: String::new(),
            default_attitude: String::new(),
            hidden_tension: String::new(),
        },
        CharacterRelation {
            name: " ".into(),
            relation: " ".into(),
            definition: String::new(),
            default_attitude: String::new(),
            hidden_tension: String::new(),
        },
    ];
    assert_eq!(format_character_full("", &c), "## 关系网络\n### 1\n- 关系：师徒");
}

#[test]
fn empty_card_falls_back_to_constraints() {
    let mut c = CharacterCard::default();
    c.constraints = "  全文  ".into();
    assert_eq!(format_character_full("  ", &c), "全文");
}

#[test]
fn voice_lists_catchphrases_and_emotions() {
    let mut c = CharacterCard::default();
    c.style = "低沉".into();
    c.voice.catchphrases = vec!["罢了".into(), "  ".into()];
    c.voice.emotion_sad = "沉默".into();
    assert_eq!(
        format_character_full("", &c),
        "## 角色声线\n### 声音定位\n低沉\n\n### 句法指纹\n- 口头禅：罢了\n\n### 情绪变化\n- 伤心时：沉默"
    );
}

#[test]
fn sync_fills_flat_and_structured_fields() {
    let mut c = CharacterCard::default();
    c.role = "掌柜".into();
    c.world_position.faction = "商会".into();
    c.alignment = "旧阵营".into();
    c.core_belief.belief = "守信".into();
    sync_character_legacy("王五", &mut c);
    assert_eq!(c.world_position.social_role, "掌柜");
    assert_eq!(c.alignment, "商会");
    assert_eq!(c.motto, "守信");
    assert!(c.constraints.starts_with("## 真名\n王五"));
    let once = c.constraints.clone();
    sync_character_legacy("王五", &mut c);
    assert_eq!(c.constraints, once);
}

#[test]
fn sheet_prompt_lists_the_set_traits() {
    let mut c = CharacterCard::default();
    c.gender = " 女 ".into();
    c.role = "剑客".into();
    c.voice.body_language = "抱臂".into();
    assert_eq!(
        fallback_character_sheet_prompt(" 阿青 ", &c),
        "character design turnaround sheet of one person, four full-body views left to right: front view, left profile, back view, right profile, same face outfit and proportions, full body head to toe, even spacing, plain light gray studio background, 阿青, 女, 剑客, 抱臂, clean illustration, no text labels, no extra characters"
    );
}
