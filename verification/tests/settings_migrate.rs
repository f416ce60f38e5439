use novel_work::settings_migrate::{mcp_enabled_value, mcp_lan_value, migrate_legacy_keys, CompatProvider, LegacyKeys};

fn keys() -> LegacyKeys {
    LegacyKeys {
        deepseek_api_key: "sk-ds".into(),
        kimi_api_key: "  ".into(),
        chatgpt_api_key: "".into(),
        grok_api_key: "xai-1".into(),
        deepseek_base_url: "https://api.deepseek.com".into(),
        kimi_base_url: "https://api.moonshot.cn".into(),
    }
}

#[test]
fn legacy_keys_move_once() {
    let mut ps: Vec<CompatProvider> = vec![];
    let mut k = keys();
    assert!(migrate_legacy_keys(false, &mut ps, &mut k));
    assert_eq!(ps.len(), 2);
    assert_eq!((ps[0].label.as_str(), ps[0].base_url.as_str(), ps[0].api_key.as_str()), ("DeepSeek", "https://api.deepseek.com", "sk-ds"));
    assert_eq!((ps[1].label.as_str(), ps[1].base_url.as_str(), ps[1].api_key.as_str()), ("Grok", "https://api.x.ai", "xai-1"));
    assert_eq!(ps[0].protocol, "openai");
    assert_eq!(ps[0].id.chars().count(), 36);
    assert_eq!(k.deepseek_api_key, "");
    assert_eq!(k.grok_api_key, "");
    assert_eq!(k.deepseek_base_url, "https://api.deepseek.com");
}

#[test]
fn saved_lists_are_left_alone() {
    let mut ps: Vec<CompatProvider> = vec![];
    let mut k = keys();
    assert!(!migrate_legacy_keys(true, &mut ps, &mut k));
    assert!(ps.is_empty());
    assert_eq!(k.deepseek_api_key, "sk-ds");
}

#[test]
fn stored_switches() {
    assert!(!mcp_enabled_value("0"));
    assert!(!mcp_enabled_value("no"));
    assert!(mcp_enabled_value("1"));
    assert!(mcp_enabled_value("anything"));
    assert!(mcp_lan_value("yes"));
    assert!(!mcp_lan_value("0"));
    assert!(!mcp_lan_value("on"));
}
