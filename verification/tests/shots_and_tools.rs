use novel_work::ai_log::{begin_run, enabled, end_run, set_enabled, set_run, AiLogState};
use novel_work::chapter_shots::{
    fallback_prompt, join_shot_prompts, normalize_comfy_url, number_shots, ChapterShot,
};
use novel_work::chat_tools::{tools_system_note, ToolLoop, ToolStep, ToolTurn, MAX_ROUNDS};

fn shot(action: &str, camera: &str, dialogue: &str, dur: u8, prompt: &str) -> ChapterShot {
    ChapterShot {
        id: String::new(),
        order: 0,
        action: action.into(),
        camera: camera.into(),
        dialogue: dialogue.into(),
        duration_sec: dur,
        comfy_prompt: prompt.into(),
    }
}

#[test]
fn fallback_prompt_lists_camera_and_dialogue() {
    assert_eq!(
        fallback_prompt(&shot(" 推门 ", "肩后", " 谁？", 7, "")),
        "推门\nCamera: 肩后\nDialogue: 谁？"
    );
    assert_eq!(fallback_prompt(&shot("推门", "  ", "", 7, "")), "推门");
}

#[test]
fn joined_prompts_carry_durations() {
    let shots = vec![shot("a", "", "", 7, " rain alley "), shot("b", "wide", "", 12, "")];
    assert_eq!(
        join_shot_prompts(&shots),
        "[dur=7]\nrain alley\n---\n[dur=12]\nb\nCamera: wide"
    );
    assert_eq!(join_shot_prompts(&[]), "");
}

#[test]
fn comfy_url_loses_trailing_slashes() {
    assert_eq!(normalize_comfy_url(" http://127.0.0.1:8000// "), "http://127.0.0.1:8000");
}

#[test]
fn saved_shots_are_numbered_and_durations_settled() {
    let mut shots = vec![shot("a", "", "", 0, ""), shot("b", "", "", 3, ""), shot("c", "", "", 40, "")];
    number_shots(&mut shots);
    let got: Vec<(u32, u8)> = shots.iter().map(|s| (s.order, s.duration_sec)).collect();
    assert_eq!(got, vec![(1, 8), (2, 5), (3, 15)]);
}

#[test]
fn log_switch_and_run_read_back() {
    let mut st = AiLogState::new();
    assert!(!enabled(&st));
    set_enabled(&mut st, true);
    assert!(enabled(&st));
    let g = begin_run(&mut st, "r1".to_string());
    assert_eq!(st.run.as_deref(), Some("r1"));
    assert!(enabled(&st));
    end_run(&mut st, g);
    assert!(st.run.is_none());
    set_run(&mut st, Some("r2".into()));
    set_enabled(&mut st, false);
    assert_eq!(st.run.as_deref(), Some("r2"));
    assert!(!enabled(&st));
}

#[test]
fn tools_note_by_language() {
    assert!(tools_system_note(true).contains("【工具】"));
    assert!(tools_system_note(false).starts_with("\n[Tools]"));
}

fn turn(content: &str, p: u32, c: u32, tools: bool) -> ToolTurn {
    ToolTurn {
        content: content.into(),
        model: "m".into(),
        used_mock: false,
        prompt_tokens: p,
        completion_tokens: c,
        wants_tools: tools,
    }
}

#[test]
fn tool_loop_sums_usage_and_finishes_on_plain_answer() {
    let mut lp = ToolLoop::new();
    assert!(matches!(lp.record_turn(turn("", 10, 2, true)), ToolStep::RunTools));
    let out = lp.tool_done(&"x".repeat(5000), true);
    assert_eq!(out.chars().count(), 4001);
    match lp.record_turn(turn("done", u32::MAX, 3, false)) {
        ToolStep::Finish(r) => {
            assert_eq!(r.completion.content, "done");
            assert_eq!(r.completion.prompt_tokens, u32::MAX);
            assert_eq!(r.completion.completion_tokens, 5);
            assert_eq!(r.completion.total_tokens, u32::MAX);
            assert!(r.tree_dirty);
        }
        ToolStep::RunTools => panic!("expected finish"),
    }
}

#[test]
fn tool_loop_stops_after_max_rounds() {
    let mut lp = ToolLoop::new();
    let mut n = 0;
    while lp.may_ask() {
        let _ = lp.record_turn(turn("", 1, 1, true));
        n += 1;
    }
    assert_eq!(n, MAX_ROUNDS);
    let r = lp.exhausted();
    assert!(r.completion.content.contains("工具调用轮次过多"));
    assert_eq!(r.completion.total_tokens, 12);
    assert!(!r.tree_dirty);
}

use novel_work::chapter_shots::{apply_prompt_reply, inject_prompt, is_chain_workflow, parse_shots_reply};
use novel_work::json::{json_get, json_text_of, parse_json_text, Json};

#[test]
fn parse_shots_and_inject_minimax_text() {
    let shots = parse_shots_reply(
        r#"{"shots":[{"action":"推门","camera":"肩后","dialogue":"谁？","duration_sec":7}]}"#,
    )
    .unwrap();
    assert_eq!(shots.len(), 1);
    assert_eq!(shots[0].duration_sec, 7);

    let wf = parse_json_text(
        r#"{"9": {"class_type":"CLIPTextEncode","inputs":{"text":"old"}}, "12": {"class_type":"MiniMaxH3","inputs":{"prompt":"x","steps":6}}}"#,
    )
    .unwrap();
    let out = inject_prompt(wf, "rain alley", "").unwrap();
    let node = json_get(&out, "12").unwrap();
    let inputs = json_get(node, "inputs").unwrap();
    match json_get(inputs, "prompt").unwrap() {
        Json::Str(s) => assert_eq!(s, "rain alley"),
        _ => panic!("prompt not a string"),
    }
    assert!(is_chain_workflow(
        &parse_json_text(r#"{"1":{"class_type":"H3AutoPromptChain","inputs":{"prompts":""}}}"#).unwrap(),
        ""
    ));
}

#[test]
fn shots_reply_numbers_items_and_settles_durations() {
    let shots = parse_shots_reply(
        "```json\n{\"shots\":[{\"summary\":\"远景\"},{\"action\":\"  \"},{\"action\":\"近景\",\"duration_sec\":99,\"comfy_prompt\":\" p \"}]}\n```",
    )
    .unwrap();
    let got: Vec<(u32, &str, u8, &str)> = shots.iter().map(|s| (s.order, s.action.as_str(), s.duration_sec, s.comfy_prompt.as_str())).collect();
    assert_eq!(got, vec![(1, "远景", 8, ""), (3, "近景", 15, "p")]);
    assert!(shots.iter().all(|s| s.id.len() == 36));
    assert_eq!(parse_shots_reply("no json").unwrap_err(), "分镜头 JSON 解析失败");
    assert_eq!(parse_shots_reply("{\"shots\":[{\"camera\":\"x\"}]}").unwrap_err(), "模型没有返回可用分镜头");
}

#[test]
fn prompt_reply_writes_prompts_by_order() {
    let existing = vec![shot("a", "", "", 8, ""), shot("b", "", "", 8, "")];
    let mut existing = existing;
    existing[0].order = 1;
    existing[1].order = 2;
    let out = apply_prompt_reply(&existing, r#"前言 {"shots":[{"order":2,"prompt":" p2 "},{"order":9,"comfy_prompt":"x"}]}"#).unwrap();
    assert_eq!(out[0].comfy_prompt, "");
    assert_eq!(out[1].comfy_prompt, "p2");
    assert_eq!(apply_prompt_reply(&existing, "{}").unwrap_err(), "提示词 JSON 解析失败");
    assert_eq!(apply_prompt_reply(&existing, r#"{"shots":[]}"#).unwrap_err(), "模型没有写回 ComfyUI 提示词");
}

#[test]
fn injected_workflow_keeps_other_nodes_and_adds_inputs() {
    let wf = parse_json_text(r#"{"3": {"class_type":"KSampler","inputs":{"seed":1}}, "7": {"class_type":"Note"}}"#).unwrap();
    let out = inject_prompt(wf, "hello", "7").unwrap();
    assert_eq!(json_text_of(&out), r#"{"3":{"class_type":"KSampler","inputs":{"seed":1}},"7":{"class_type":"Note","inputs":{"text":"hello"}}}"#);
    let not_obj = parse_json_text("[1]").unwrap();
    assert!(inject_prompt(not_obj, "x", "").unwrap_err().contains("API JSON"));
    let no_node = parse_json_text(r#"{"3": {"class_type":"KSampler","inputs":{"seed":1}}}"#).unwrap();
    assert!(inject_prompt(no_node, "x", "").unwrap_err().contains("找不到"));
}
