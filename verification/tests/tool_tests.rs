use pocagentskills::arguments::{arguments_display, arguments_object};
use pocagentskills::handlers::{
    bash, command_failure_report, command_report, plan_tool_call, read_handler, read_reply,
    read_skill_handler, write_handler, write_reply, ToolRequest,
};
use pocagentskills::json::Json;
use pocagentskills::tooling::{
    bash_tool, read_skill_tool, read_tool, write_tool, FunctionParametersObjectPropertiesObject,
    FunctionParametersObjectPropertyObject, LLMTool, ToolHandler, ToolsManager,
};

fn to_value(j: &Json) -> serde_json::Value {
    match j {
        Json::Null => serde_json::Value::Null,
        Json::Bool(b) => serde_json::Value::Bool(*b),
        Json::Int(n) => serde_json::Value::from(*n),
        Json::Str(s) => serde_json::Value::String(s.clone()),
        Json::Array(items) => serde_json::Value::Array(items.iter().map(to_value).collect()),
        Json::Object(members) => serde_json::Value::Object(
            members.iter().map(|(k, v)| (k.clone(), to_value(v))).collect(),
        ),
    }
}

#[test]
fn read_tool_description() {
    let tool = read_tool();
    assert_eq!(
        to_value(&tool.json()).to_string(),
        "{\"function\":{\"description\":\"Read and return the contents of a file.\",\"name\":\"Read\",\"parameters\":{\"properties\":{\"file_path\":{\"description\":\"The path to the file to read\",\"type\":\"string\"}},\"required\":[\"file_path\"],\"type\":\"object\"}},\"type\":\"function\"}"
    );
}

#[test]
fn tools_manager_lists_the_four_tools() {
    let manager = ToolsManager::new();
    let names: Vec<String> = manager
        .json()
        .iter()
        .map(|j| to_value(j)["function"]["name"].as_str().unwrap().to_string())
        .collect();
    assert_eq!(names, vec!["Read", "Write", "Bash", "ReadSkill"]);
    let write = to_value(&write_tool().json());
    assert_eq!(write["function"]["parameters"]["required"].to_string(), "[\"file_path\",\"content\"]");
    let bash = to_value(&bash_tool().json());
    assert_eq!(bash["function"]["description"], "Execute a shell command");
    let skill = to_value(&read_skill_tool().json());
    assert_eq!(
        skill["function"]["parameters"]["properties"]["reference_path"]["description"],
        "Optional reference path within the skill to read for incremental reading"
    );
}

#[test]
fn tools_manager_resolves_and_reregisters_handlers() {
    let mut manager = ToolsManager::new();
    assert_eq!(manager.handler_for("Read"), Some(ToolHandler::Read));
    assert_eq!(manager.handler_for("Write"), Some(ToolHandler::Write));
    assert_eq!(manager.handler_for("Bash"), Some(ToolHandler::Bash));
    assert_eq!(manager.handler_for("ReadSkill"), Some(ToolHandler::ReadSkill));
    assert_eq!(manager.handler_for("read"), None);
    assert_eq!(manager.handler_for(""), None);
    manager.register_handler("Read".to_string(), ToolHandler::Bash);
    assert_eq!(manager.handler_for("Read"), Some(ToolHandler::Bash));
    assert_eq!(manager.handler_for("Write"), Some(ToolHandler::Write));
    manager.register_handler("Extra".to_string(), ToolHandler::Read);
    assert_eq!(manager.handler_for("Extra"), Some(ToolHandler::Read));
    assert_eq!(manager.handler_count(), 5);
}

#[test]
fn properties_keep_the_last_argument_of_a_name() {
    let properties = FunctionParametersObjectPropertiesObject {
        arguments: vec![
            FunctionParametersObjectPropertyObject {
                name: "a".to_string(),
                value_type: "string".to_string(),
                description: "first".to_string(),
            },
            FunctionParametersObjectPropertyObject {
                name: "b".to_string(),
                value_type: "number".to_string(),
                description: "other".to_string(),
            },
            FunctionParametersObjectPropertyObject {
                name: "a".to_string(),
                value_type: "string".to_string(),
                description: "second".to_string(),
            },
        ],
    };
    match properties.json() {
        Json::Object(members) => assert_eq!(members.len(), 2),
        _ => panic!("an object"),
    }
    assert_eq!(
        to_value(&properties.json()).to_string(),
        "{\"a\":{\"description\":\"second\",\"type\":\"string\"},\"b\":{\"description\":\"other\",\"type\":\"number\"}}"
    );
}

#[test]
fn arguments_display_normalizes_or_wraps_raw_text() {
    assert_eq!(arguments_display("{\"b\": 1, \"a\": \"x\"}"), "{\"a\":\"x\",\"b\":1}");
    assert_eq!(arguments_display("[1, 2]"), "[1,2]");
    assert_eq!(arguments_display("not json\""), "{\"raw\":\"not json\\\"\"}");
    assert_eq!(arguments_display("a\u{1}\n\\"), "{\"raw\":\"a\\u0001\\n\\\\\"}");
    assert_eq!(arguments_display(""), "{\"raw\":\"\"}");
}

#[test]
fn arguments_object_reads_members() {
    let args = arguments_object("{\"file_path\": \"a.txt\", \"n\": 3}");
    assert_eq!(args.entries.len(), 2);
    assert_eq!(args.get_str("file_path"), Some("a.txt".to_string()));
    assert_eq!(args.get_str("n"), None);
    assert_eq!(args.get("n").map(|e| e.json.clone()), Some("3".to_string()));
    assert!(args.get("missing").is_none());
}

#[test]
fn arguments_object_of_non_object_and_invalid_json() {
    assert!(arguments_object("[1]").entries.is_empty());
    assert!(arguments_object("\"text\"").entries.is_empty());
    let raw = arguments_object("oops");
    assert_eq!(raw.entries.len(), 1);
    assert_eq!(raw.get_str("raw"), Some("oops".to_string()));
    assert_eq!(raw.get("raw").unwrap().json, "\"oops\"");
}

fn reply(request: ToolRequest) -> String {
    match request {
        ToolRequest::Reply(r) => r,
        _ => panic!("a reply"),
    }
}

#[test]
fn read_plans_the_file_or_reports_the_missing_path() {
    match plan_tool_call(ToolHandler::Read, &arguments_object("{\"file_path\":\"/tmp/x\"}")) {
        ToolRequest::ReadFile { path } => assert_eq!(path, "/tmp/x"),
        _ => panic!("a read"),
    }
    assert_eq!(reply(plan_tool_call(ToolHandler::Read, &arguments_object("{}"))), "Missing 'file_path' argument");
    assert_eq!(
        reply(plan_tool_call(ToolHandler::Read, &arguments_object("{\"file_path\":3}"))),
        "Missing 'file_path' argument"
    );
}

#[test]
fn write_plans_the_file_or_reports_the_missing_argument() {
    match plan_tool_call(ToolHandler::Write, &arguments_object("{\"file_path\":\"o.txt\",\"content\":\"hi\"}")) {
        ToolRequest::WriteFile { path, content } => {
            assert_eq!(path, "o.txt");
            assert_eq!(content, "hi");
        }
        _ => panic!("a write"),
    }
    assert_eq!(
        reply(plan_tool_call(ToolHandler::Write, &arguments_object("{\"file_path\":\"o.txt\"}"))),
        "Missing 'content' argument"
    );
    assert_eq!(
        reply(plan_tool_call(ToolHandler::Write, &arguments_object("{\"content\":\"hi\"}"))),
        "Missing 'file_path' argument"
    );
}

#[test]
fn read_skill_plans_the_skill_file() {
    match plan_tool_call(ToolHandler::ReadSkill, &arguments_object("{\"skill_name\":\"deploy\"}")) {
        ToolRequest::ReadSkillFile { components } => {
            assert_eq!(components, vec![".skills", "deploy", "SKILL.md"]);
        }
        _ => panic!("a skill read"),
    }
    match plan_tool_call(
        ToolHandler::ReadSkill,
        &arguments_object("{\"skill_name\":\"deploy\",\"reference_path\":\"references/a.md\"}"),
    ) {
        ToolRequest::ReadSkillFile { components } => {
            assert_eq!(components, vec![".skills", "deploy", "references/a.md"]);
        }
        _ => panic!("a skill read"),
    }
    match plan_tool_call(
        ToolHandler::ReadSkill,
        &arguments_object("{\"skill_name\":\"deploy\",\"reference_path\":3}"),
    ) {
        ToolRequest::ReadSkillFile { components } => {
            assert_eq!(components, vec![".skills", "deploy", "references", "3"]);
        }
        _ => panic!("a skill read"),
    }
    assert_eq!(
        reply(plan_tool_call(ToolHandler::ReadSkill, &arguments_object("{}"))),
        "Missing 'skill_name' argument"
    );
}

#[test]
fn bash_plans_the_command() {
    match plan_tool_call(ToolHandler::Bash, &arguments_object("{\"command\":\"ls -la  /tmp\"}")) {
        ToolRequest::RunCommand { program, arguments } => {
            assert_eq!(program, "sh");
            assert_eq!(arguments, vec!["-c", "ls -la  /tmp"]);
        }
        _ => panic!("a command"),
    }
    match plan_tool_call(ToolHandler::Bash, &arguments_object("{\"command\":\"echo a && echo b\"}")) {
        ToolRequest::RunCommand { program, arguments } => {
            assert_eq!(program, "sh");
            assert_eq!(arguments, vec!["-c", "echo a && echo b"]);
        }
        _ => panic!("a command"),
    }
    assert_eq!(reply(plan_tool_call(ToolHandler::Bash, &arguments_object("x"))), "Missing 'command' argument");
}

#[test]
fn replies_after_file_work() {
    assert_eq!(read_reply(Ok("body".to_string())), "body");
    assert_eq!(read_reply(Err("No such file".to_string())), "Error reading file: No such file");
    assert_eq!(write_reply("o.txt", Ok(())), "Successfully wrote to file: o.txt");
    assert_eq!(write_reply("o.txt", Err("denied".to_string())), "Error writing to file: denied");
}

#[test]
fn command_reports() {
    assert_eq!(
        command_report(true, Some(0), "out", ""),
        "{\"exit_code\":0,\"stderr\":\"\",\"stdout\":\"out\",\"success\":true}"
    );
    assert_eq!(
        command_report(false, Some(-1), "", "killed"),
        "{\"exit_code\":-1,\"stderr\":\"killed\",\"stdout\":\"\",\"success\":false}"
    );
    assert_eq!(
        command_failure_report("not found"),
        "{\"exit_code\":null,\"stderr\":\"not found\",\"stdout\":\"\",\"success\":false}"
    );
    assert_eq!(
        command_report(false, Some(i32::MIN), "a\nb", "say \"hi\""),
        "{\"exit_code\":-2147483648,\"stderr\":\"say \\\"hi\\\"\",\"stdout\":\"a\\nb\",\"success\":false}"
    );
    assert_eq!(
        command_report(true, Some(127), "", ""),
        "{\"exit_code\":127,\"stderr\":\"\",\"stdout\":\"\",\"success\":true}"
    );
}

#[test]
fn tools_manager_execute_plans_by_tool_name() {
    let manager = ToolsManager::new();
    let arguments = arguments_object("{\"command\":\"echo hi\"}");
    match manager.execute("Bash", &arguments) {
        Some(ToolRequest::RunCommand { program, arguments }) => {
            assert_eq!(program, "sh");
            assert_eq!(arguments, vec!["-c", "echo hi"]);
        }
        other => panic!("a command, not {other:?}"),
    }
    assert!(manager.execute("Missing", &arguments).is_none());
    match manager.execute("Read", &arguments) {
        Some(ToolRequest::Reply(r)) => assert_eq!(r, "Missing 'file_path' argument"),
        other => panic!("a reply, not {other:?}"),
    }
}

#[test]
fn each_handler_reads_its_own_arguments() {
    let args = arguments_object("{\"file_path\":\"a\",\"content\":\"b\",\"skill_name\":\"s\",\"command\":\"c d\"}");
    assert!(matches!(read_handler(&args), ToolRequest::ReadFile { .. }));
    assert!(matches!(write_handler(&args), ToolRequest::WriteFile { .. }));
    assert!(matches!(read_skill_handler(&args), ToolRequest::ReadSkillFile { .. }));
    assert!(matches!(bash(&args), ToolRequest::RunCommand { .. }));
    let none = arguments_object("null");
    assert_eq!(reply(read_handler(&none)), "Missing 'file_path' argument");
    assert_eq!(reply(write_handler(&none)), "Missing 'file_path' argument");
    assert_eq!(reply(read_skill_handler(&none)), "Missing 'skill_name' argument");
    assert_eq!(reply(bash(&none)), "Missing 'command' argument");
}
