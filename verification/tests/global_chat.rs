use novel_work::global_chat::{
    chapter_written_stub, chat_tool_allowlist, count_body_words, friendly_chat_err, intent_tool_rule,
    is_unmatched_tool_calls, is_write_chapter, next_progress_step, openai_compat_base, scope_key,
    system_instruction, tools_cards_list, tools_outline_list, tools_write_list, usage_to_record,
    chapter_num_label, merge_tool_names, tool_call_key, is_card_upsert, is_write_stub,
    pop_last_user, push_msg, GlobalChatRuntime,
};

#[test]
fn system_instruction_is_short_and_defers_to_ai_guidance() {
    let unbound = system_instruction("", "");
    let bound = system_instruction("n1", "测试书");
    for s in [&unbound, &bound] {
        assert!(s.contains("get_chapter_write_context"), "{s}");
        assert!(s.contains("ai_guidance"), "{s}");
        assert!(!s.contains('①'), "{s}");
        assert!(!s.contains("include_root"), "{s}");
        assert!(!s.contains("route="), "{s}");
    }
    assert!(bound.contains("测试书"));
    assert!(bound.contains("n1"));
    assert!(unbound.contains("upsert"), "{unbound}");
    assert!(unbound.len() < 2000, "unbound {}", unbound.len());
    assert!(bound.len() < 2200, "bound {}", bound.len());
}

#[test]
fn chat_tool_allowlist_write_core_and_skill() {
    let (write, w_intent) = chat_tool_allowlist(false, "生成第 19 章");
    assert_eq!(w_intent, "write");
    let write = write.expect("write allow");
    assert_eq!(write, tools_write_list());
    assert!(!write.contains(&"get_tree"));
    let (cards, c_intent) = chat_tool_allowlist(false, "把这张人物卡改一下");
    assert_eq!(c_intent, "cards");
    let cards = cards.expect("cards allow");
    assert_eq!(cards, tools_cards_list());
    let (ol, o_intent) = chat_tool_allowlist(false, "生成本章细纲");
    assert_eq!(o_intent, "outline");
    assert_eq!(ol.expect("outline"), tools_outline_list());
    let (write_beats, _) = chat_tool_allowlist(false, "按细纲写第3章");
    assert_eq!(write_beats.expect("write"), tools_write_list());
    let (shots, s_intent) = chat_tool_allowlist(false, "给本章拆分镜");
    assert_eq!(s_intent, "core-shots");
    assert!(shots.unwrap().contains(&"split_chapter_shots"));
    let (lib, _) = chat_tool_allowlist(false, "从公共库搜一段");
    assert!(lib.unwrap().contains(&"search_knowledge"));
    let (wv, _) = chat_tool_allowlist(false, "生成世界观");
    assert!(wv.unwrap().contains(&"generate_worldview"));
    assert!(!is_write_chapter("生成世界观"));
    let (all, a_intent) = chat_tool_allowlist(true, "生成第 1 章");
    assert_eq!(a_intent, "all");
    assert!(all.is_none());
}

#[test]
fn intent_tool_rule_forbids_write_tools_on_outline() {
    let o = intent_tool_rule("outline");
    assert!(o.contains("禁止调用 get_chapter_write_context"), "{o}");
    let w = intent_tool_rule("write");
    assert!(w.contains("get_chapter_write_context"), "{w}");
    assert!(!w.contains("禁止调用 get_chapter_write_context"), "{w}");
    assert!(intent_tool_rule("core").is_empty());
}

#[test]
fn next_progress_prefers_tool_then_thinking_then_writing() {
    assert_eq!(next_progress_step(Some("get_chapter_info"), true, true).as_deref(), Some("tool:get_chapter_info"));
    assert_eq!(next_progress_step(None, true, true).as_deref(), Some("thinking"));
    assert_eq!(next_progress_step(None, false, true).as_deref(), Some("writing"));
    assert_eq!(next_progress_step(None, false, false), None);
    assert_eq!(next_progress_step(Some(""), false, true).as_deref(), Some("writing"));
}

#[test]
fn friendly_err_maps_max_iterations() {
    assert!(friendly_chat_err("Max iterations (8) exceeded".into()).contains("次数过多"));
    assert!(friendly_chat_err("MaxTurnsError: reached max turns limit: 8".into()).contains("次数过多"));
    assert_eq!(friendly_chat_err("other".into()), "other");
}

#[test]
fn usage_to_record_prefers_api_then_estimate() {
    assert_eq!(usage_to_record(10, 4, 99, 400), (10, 4));
    assert_eq!(usage_to_record(0, 0, 80, 12), (80, 3));
    assert_eq!(usage_to_record(0, 7, 80, 100), (80, 7));
}

#[test]
fn openai_compat_base_does_not_append_v1() {
    assert_eq!(openai_compat_base("https://open.bigmodel.cn/api/paas/v4/"), "https://open.bigmodel.cn/api/paas/v4");
    assert_eq!(openai_compat_base("https://api.deepseek.com/v1"), "https://api.deepseek.com/v1");
}

#[test]
fn friendly_err_maps_decode_body() {
    assert!(friendly_chat_err(
        "CompletionError: ProviderError: Http client error: error decoding response body".into()
    )
    .contains("无法解析"));
}

#[test]
fn scope_key_global_vs_novel() {
    assert_eq!(scope_key(None), "__global__");
    assert_eq!(scope_key(Some("")), "__global__");
    assert_eq!(scope_key(Some("abc")), "abc");
}

#[test]
fn unmatched_tool_error_detects_deepseek_400() {
    assert!(is_unmatched_tool_calls(
        "An assistant message with 'tool_calls' must be followed by tool messages responding to each 'tool_call_id'. (insufficient tool messages following tool_calls message)"
    ));
    assert!(!is_unmatched_tool_calls("rate limit exceeded"));
}

#[test]
fn chapter_written_stub_uses_heading_and_word_count() {
    assert_eq!(chapter_written_stub("# 第十九章 夜雨\n\n正文", 16), "已写入第十九章，约 16 字");
    assert_eq!(chapter_written_stub("没有标题的正文abc", 3), "已写入本章，约 3 字");
    assert_eq!(count_body_words("a b\nc"), 3);
}

#[test]
fn chapter_num_label_skips_non_numbers() {
    assert_eq!(chapter_num_label("第一次见面，第 3 章开始").as_deref(), Some("3"));
    assert_eq!(chapter_num_label("无章号"), None);
}

#[test]
fn merge_tool_names_keeps_first_and_adds_new() {
    assert_eq!(merge_tool_names(&["a", "b"], &["b", "c", "c"]), vec!["a", "b", "c"]);
    assert_eq!(
        chat_tool_allowlist(false, "改一下人物卡的细纲").1,
        "cards-outline"
    );
}

#[test]
fn tool_call_key_and_stub_helpers() {
    assert_eq!(tool_call_key("", "search"), "search");
    assert_eq!(tool_call_key("c1", "search"), "c1");
    assert!(is_card_upsert("upsert_plot_card"));
    assert!(!is_card_upsert("get_tree"));
    assert!(is_write_stub("已写入第2章，约 42 字"));
    assert!(!is_write_stub("正文"));
}

#[test]
fn slots_are_isolated() {
    let mut r = GlobalChatRuntime::new();
    push_msg(&mut r, &scope_key(Some("n1")), "user", "a".into(), String::new());
    push_msg(&mut r, &scope_key(Some("n2")), "user", "b".into(), String::new());
    assert_eq!(r.list(Some("n1"))[0].content, "a");
    assert_eq!(r.list(Some("n2"))[0].content, "b");
    assert!(r.list(None).is_empty());
    r.clear(Some("n1"));
    assert!(r.list(Some("n1")).is_empty());
    assert_eq!(r.list(Some("n2")).len(), 1);
}

#[test]
fn pop_last_user_only_drops_trailing_user() {
    let mut r = GlobalChatRuntime::new();
    let s = scope_key(Some("n1"));
    push_msg(&mut r, &s, "user", "keep".into(), String::new());
    push_msg(&mut r, &s, "assistant", "ok".into(), String::new());
    push_msg(&mut r, &s, "user", "abort".into(), String::new());
    pop_last_user(&mut r, &s);
    let msgs = r.list(Some("n1"));
    assert_eq!(msgs.len(), 2);
    assert_eq!(msgs[1].content, "ok");
    pop_last_user(&mut r, &s);
    assert_eq!(r.list(Some("n1")).len(), 2);
}

#[test]
fn pushed_message_is_stamped_and_listed() {
    let mut r = GlobalChatRuntime::new();
    let m = push_msg(&mut r, "__global__", "assistant", "hi".into(), "2024-01-01T00:00:00Z".into());
    assert_eq!(m.id.len(), 36);
    assert_eq!(m.role, "assistant");
    assert_eq!(m.created_at, "2024-01-01T00:00:00Z");
    let listed = r.list(Some("   "));
    assert_eq!(listed.len(), 1);
    assert_eq!(listed[0].id, m.id);
    pop_last_user(&mut r, "__global__");
    assert_eq!(r.list(None).len(), 1);
}
