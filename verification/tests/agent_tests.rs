use pocagentskills::agent::{
    approval_prompt, collect_tool_call_deltas, tool_outcome_content, tool_outcome_mark,
    AssistantTurn, ChatMessage, Conversation, PendingToolCall, StreamDelta, ToolCallAccumulator,
    ToolCallDelta, ToolOutcome, ToolOutput, TurnBuilder,
};
use pocagentskills::agent::{decide_tool_call, request_body, ToolDecision};
use pocagentskills::chat::{chat_message_handler, ChatMessageEvent};
use pocagentskills::handlers::ToolRequest;
use pocagentskills::json::Json;
use pocagentskills::tooling::ToolsManager;

fn to_value(j: &Json) -> serde_json::Value {
    match j {
        Json::Null => serde_json::Value::Null,
        Json::Bool(b) => serde_json::Value::Bool(*b),
        Json::Int(n) => serde_json::Value::from(*n),
        Json::Str(s) => serde_json::Value::String(s.clone()),
        Json::Array(items) => serde_json::Value::Array(items.iter().map(to_value).collect()),
        Json::Object(members) => serde_json::Value::Object(
            members.iter().map(|(k, v)| (k.clone(), to_value(v))).collect(),
        ),
    }
}

fn delta(index: Option<u64>, id: Option<&str>, name: Option<&str>, arguments: Option<&str>) -> ToolCallDelta {
    ToolCallDelta {
        index,
        id: id.map(|s| s.to_string()),
        name: name.map(|s| s.to_string()),
        arguments: arguments.map(|s| s.to_string()),
    }
}

fn call(id: &str, name: &str, arguments: &str) -> PendingToolCall {
    PendingToolCall { id: id.to_string(), name: name.to_string(), arguments: arguments.to_string() }
}

#[test]
fn append_delta_replaces_id_and_appends_fragments() {
    let mut c = PendingToolCall::new();
    c.append_delta(&delta(Some(0), Some("call_1"), Some("Re"), Some("{\"file")));
    c.append_delta(&delta(Some(0), None, Some("ad"), Some("_path\":\"a\"}")));
    c.append_delta(&delta(Some(0), Some("call_2"), None, None));
    assert_eq!(c.id, "call_2");
    assert_eq!(c.name, "Read");
    assert_eq!(c.arguments, "{\"file_path\":\"a\"}");
}

#[test]
fn tool_calls_come_out_in_index_order() {
    let mut builder = TurnBuilder::new();
    builder.apply(&StreamDelta { content: Some("Let me ".to_string()), tool_calls: None });
    builder.apply(&StreamDelta {
        content: Some("look.".to_string()),
        tool_calls: Some(vec![
            delta(Some(1), Some("b"), Some("Wri"), Some("{")),
            delta(Some(0), Some("a"), Some("Read"), Some("{}")),
        ]),
    });
    builder.apply(&StreamDelta {
        content: None,
        tool_calls: Some(vec![delta(Some(1), None, Some("te"), Some("}")), delta(None, Some("z"), Some("X"), None)]),
    });
    let turn = builder.finish();
    assert_eq!(turn.content, "Let me look.");
    assert_eq!(turn.tool_calls.len(), 2);
    assert_eq!((turn.tool_calls[0].id.as_str(), turn.tool_calls[0].name.as_str()), ("a", "Read"));
    assert_eq!(turn.tool_calls[0].arguments, "{}");
    assert_eq!((turn.tool_calls[1].id.as_str(), turn.tool_calls[1].name.as_str()), ("b", "Write"));
    assert_eq!(turn.tool_calls[1].arguments, "{}");
}

#[test]
fn collect_ignores_chunks_without_tool_calls() {
    let mut acc = ToolCallAccumulator::new();
    collect_tool_call_deltas(&StreamDelta { content: Some("x".to_string()), tool_calls: None }, &mut acc);
    collect_tool_call_deltas(&StreamDelta { content: None, tool_calls: Some(vec![delta(None, Some("a"), None, None)]) }, &mut acc);
    assert!(acc.into_calls().is_empty());
}

#[test]
fn message_without_tool_calls_keeps_its_text() {
    let turn = AssistantTurn { content: String::new(), tool_calls: vec![] };
    match turn.message() {
        ChatMessage::Assistant { content, tool_calls } => {
            assert_eq!(content, Some(String::new()));
            assert!(tool_calls.is_empty());
        }
        _ => panic!("an assistant message"),
    }
    let json = to_value(&turn.message().json());
    assert_eq!(json.to_string(), "{\"content\":\"\",\"role\":\"assistant\"}");
}

#[test]
fn message_with_tool_calls_drops_empty_text() {
    let turn = AssistantTurn { content: String::new(), tool_calls: vec![call("c1", "Read", "{}")] };
    let json = to_value(&turn.message().json());
    assert_eq!(
        json.to_string(),
        "{\"content\":null,\"role\":\"assistant\",\"tool_calls\":[{\"function\":{\"arguments\":\"{}\",\"name\":\"Read\"},\"id\":\"c1\",\"type\":\"function\"}]}"
    );
    let turn = AssistantTurn { content: "ok".to_string(), tool_calls: vec![call("c1", "Read", "{}")] };
    match turn.message() {
        ChatMessage::Assistant { content, tool_calls } => {
            assert_eq!(content, Some("ok".to_string()));
            assert_eq!(tool_calls.len(), 1);
        }
        _ => panic!("an assistant message"),
    }
}

#[test]
fn conversation_records_turns_and_tool_results() {
    let mut conversation = Conversation::new("be helpful".to_string());
    conversation.push_user("hi".to_string());
    let turn = AssistantTurn { content: "hello".to_string(), tool_calls: vec![] };
    assert!(!conversation.push_turn(&turn, &vec![]));
    let turn = AssistantTurn { content: String::new(), tool_calls: vec![call("c9", "Bash", "{}")] };
    assert!(conversation.push_turn(&turn, &vec![ToolOutcome::Denied]));
    let messages: Vec<String> = conversation.json().iter().map(|m| to_value(m).to_string()).collect();
    assert_eq!(messages.len(), 5);
    assert_eq!(messages[0], "{\"content\":\"be helpful\",\"role\":\"system\"}");
    assert_eq!(messages[1], "{\"content\":\"hi\",\"role\":\"user\"}");
    assert_eq!(messages[2], "{\"content\":\"hello\",\"role\":\"assistant\"}");
    assert_eq!(
        messages[4],
        "{\"content\":\"Tool execution denied by user\",\"role\":\"tool\",\"tool_call_id\":\"c9\"}"
    );
}

#[test]
fn each_tool_call_is_answered_right_after_its_turn() {
    let mut conversation = Conversation::new("sys".to_string());
    conversation.push_user("go".to_string());
    let turn = AssistantTurn {
        content: "running".to_string(),
        tool_calls: vec![call("a1", "Read", "{}"), call("a2", "Nope", "{}")],
    };
    let outcomes = vec![
        ToolOutcome::Completed(ToolOutput::Text("body".to_string())),
        ToolOutcome::NoHandler,
    ];
    assert!(conversation.push_turn(&turn, &outcomes));
    let messages: Vec<serde_json::Value> = conversation.json().iter().map(to_value).collect();
    assert_eq!(messages.len(), 5);
    assert_eq!(messages[0]["role"], "system");
    assert_eq!(messages[2]["role"], "assistant");
    assert_eq!(messages[2]["tool_calls"].as_array().unwrap().len(), 2);
    assert_eq!(messages[3]["tool_call_id"], "a1");
    assert_eq!(messages[3]["content"], "body");
    assert_eq!(messages[4]["tool_call_id"], "a2");
    assert_eq!(messages[4]["content"], "Tool execution failed: no matching tool handler");
}

#[test]
fn streamed_turn_text_reaches_the_chat() {
    let mut handler = chat_message_handler();
    let (chat, _start) = handler.assistant();
    let mut builder = TurnBuilder::new();
    let mut streamed = String::new();
    let mut events = 0;
    for piece in [Some("Hel"), None, Some("lo")] {
        let delta = StreamDelta { content: piece.map(|p| p.to_string()), tool_calls: None };
        if let Some(event) = builder.apply_streamed(&delta, &chat) {
            events += 1;
            match event {
                ChatMessageEvent::Stream { id, content } => {
                    assert_eq!(id, 1);
                    streamed.push_str(&content);
                }
                other => panic!("a stream event, not {other:?}"),
            }
        }
    }
    let turn = builder.finish();
    assert_eq!(turn.content, "Hello");
    assert_eq!(streamed, "Hello");
    assert_eq!(events, 2);
}

#[test]
fn tool_outcomes_give_content_and_mark() {
    let denied = ToolOutcome::Denied;
    let missing = ToolOutcome::NoHandler;
    let text = ToolOutcome::Completed(ToolOutput::Text("file body".to_string()));
    let json = ToolOutcome::Completed(ToolOutput::Json("{\"success\":true}".to_string()));
    assert_eq!(tool_outcome_content(&denied), "Tool execution denied by user");
    assert_eq!(tool_outcome_content(&missing), "Tool execution failed: no matching tool handler");
    assert_eq!(tool_outcome_content(&text), "file body");
    assert_eq!(tool_outcome_content(&json), "{\"success\":true}");
    assert_eq!(tool_outcome_mark(&denied), " [x]");
    assert_eq!(tool_outcome_mark(&missing), " [x]");
    assert_eq!(tool_outcome_mark(&text), " [ok]");
}

#[test]
fn approval_prompt_shows_normalized_arguments() {
    let c = call("c1", "Read", "{ \"file_path\" : \"a.txt\" }");
    assert_eq!(approval_prompt(&c), "Execute tool `Read` with arguments {\"file_path\":\"a.txt\"}?");
    let c = call("c2", "Bash", "not json");
    assert_eq!(approval_prompt(&c), "Execute tool `Bash` with arguments {\"raw\":\"not json\"}?");
}

#[test]
fn pending_call_json_has_function_shape() {
    let c = call("id1", "Write", "{\"a\":1}");
    assert_eq!(
        to_value(&c.json()).to_string(),
        "{\"function\":{\"arguments\":\"{\\\"a\\\":1}\",\"name\":\"Write\"},\"id\":\"id1\",\"type\":\"function\"}"
    );
}

#[test]
fn tool_calls_run_only_when_approved() {
    let tools = ToolsManager::new();
    let read = call("c1", "Read", "{\"file_path\":\"notes.txt\"}");
    assert!(matches!(decide_tool_call(&tools, &read, false), ToolDecision::Denied));
    match decide_tool_call(&tools, &read, true) {
        ToolDecision::Run(ToolRequest::ReadFile { path }) => assert_eq!(path, "notes.txt"),
        other => panic!("a read of notes.txt, not {other:?}"),
    }
    let unknown = call("c2", "Delete", "{}");
    assert!(matches!(decide_tool_call(&tools, &unknown, true), ToolDecision::NoHandler));
    assert!(matches!(decide_tool_call(&tools, &unknown, false), ToolDecision::Denied));
}

#[test]
fn request_body_carries_messages_model_tools_and_stream() {
    let mut conversation = Conversation::new("p".to_string());
    conversation.push_user("u".to_string());
    let tools = ToolsManager::new();
    let body = to_value(&request_body(&conversation, "model-x", &tools));
    assert_eq!(body["model"], "model-x");
    assert_eq!(body["stream"], true);
    assert_eq!(
        body["messages"].to_string(),
        "[{\"content\":\"p\",\"role\":\"system\"},{\"content\":\"u\",\"role\":\"user\"}]"
    );
    assert_eq!(body["tools"].as_array().unwrap().len(), 4);
    assert_eq!(body["tools"][2]["function"]["name"], "Bash");
    assert_eq!(body.as_object().unwrap().len(), 4);
}

fn call_delta(index: u64, id: Option<&str>, name: Option<&str>, arguments: Option<&str>) -> ToolCallDelta {
    ToolCallDelta {
        index: Some(index),
        id: id.map(|s| s.to_string()),
        name: name.map(|s| s.to_string()),
        arguments: arguments.map(|s| s.to_string()),
    }
}

fn deltas() -> Vec<ToolCallDelta> {
    vec![
        call_delta(1, Some("b"), Some("Write"), Some("{\"fi")),
        call_delta(0, Some("a"), Some("Read"), None),
        call_delta(1, None, None, Some("le\":1}")),
        call_delta(0, None, None, Some("{}")),
    ]
}

#[test]
fn chunks_compose_into_the_same_calls() {
    let mut split = TurnBuilder::new();
    let all = deltas();
    split.apply(&StreamDelta { content: None, tool_calls: Some(vec![copy_delta(&all[0]), copy_delta(&all[1])]) });
    split.apply(&StreamDelta { content: None, tool_calls: Some(vec![copy_delta(&all[2]), copy_delta(&all[3])]) });
    let mut whole = TurnBuilder::new();
    whole.apply(&StreamDelta { content: None, tool_calls: Some(deltas()) });
    let a = split.finish().tool_calls;
    let b = whole.finish().tool_calls;
    let view = |calls: &Vec<PendingToolCall>| -> Vec<(String, String, String)> {
        calls.iter().map(|c| (c.id.clone(), c.name.clone(), c.arguments.clone())).collect()
    };
    assert_eq!(view(&a), view(&b));
    assert_eq!(
        view(&a),
        vec![
            ("a".to_string(), "Read".to_string(), "{}".to_string()),
            ("b".to_string(), "Write".to_string(), "{\"file\":1}".to_string()),
        ]
    );
}

fn copy_delta(d: &ToolCallDelta) -> ToolCallDelta {
    ToolCallDelta { index: d.index, id: d.id.clone(), name: d.name.clone(), arguments: d.arguments.clone() }
}
