use novel_work::chat_history::{close_dangling_tools, dangling_tool_calls, HistMsg, HistPart, HistRole};

fn assistant_calls(calls: Vec<(&str, &str)>) -> HistMsg {
    HistMsg {
        role: HistRole::Assistant,
        parts: calls
            .into_iter()
            .map(|(id, name)| HistPart::ToolCall { id: id.into(), name: name.into() })
            .collect(),
    }
}

fn tool_res(call: &str, content: &str) -> HistMsg {
    HistMsg { role: HistRole::User, parts: vec![HistPart::ToolResult { call: call.into(), content: content.into() }] }
}

#[test]
fn dangling_tool_calls_unmatched_then_closed() {
    let call = || assistant_calls(vec![("call_1", "search_knowledge")]);
    assert_eq!(dangling_tool_calls(&[call()]), vec![("call_1".to_string(), "search_knowledge".to_string())]);
    let done = tool_res("call_1", "{\"error\":\"cancelled\",\"message\":\"user stopped\"}");
    assert!(dangling_tool_calls(&[call(), done]).is_empty());
}

#[test]
fn dangling_ignores_already_answered_calls() {
    let call = assistant_calls(vec![("c1", "a"), ("c2", "b")]);
    let result = tool_res("c1", "{\"ok\":true}");
    assert_eq!(dangling_tool_calls(&[call, result]), vec![("c2".to_string(), "b".to_string())]);
}

#[test]
fn close_dangling_appends_cancelled_results() {
    let mut msgs = vec![assistant_calls(vec![("call_9", "search_knowledge")])];
    close_dangling_tools(&mut msgs);
    assert!(dangling_tool_calls(&msgs).is_empty());
    assert_eq!(msgs.len(), 2);
    match &msgs[1].parts[0] {
        HistPart::ToolResult { call, content } => {
            assert_eq!(call, "call_9");
            assert_eq!(content, "{\"error\":\"cancelled\",\"message\":\"user stopped\"}");
        }
        _ => panic!("expected a tool result"),
    }
}

#[test]
fn calls_without_id_match_by_name_and_text_is_ignored() {
    let msgs = vec![
        assistant_calls(vec![("", "list_tree"), ("x", "get_node")]),
        HistMsg { role: HistRole::User, parts: vec![HistPart::Text { text: "hi".into() }] },
        tool_res("list_tree", "{}"),
        HistMsg { role: HistRole::Assistant, parts: vec![HistPart::ToolResult { call: "x".into(), content: "{}".into() }] },
    ];
    assert_eq!(dangling_tool_calls(&msgs), vec![("x".to_string(), "get_node".to_string())]);
}
