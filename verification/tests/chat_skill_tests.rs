use pocagentskills::chat::{chat_message_channel, chat_message_handler, emit_user_message, tool_call_notice, ChatMessageEvent};
use pocagentskills::skills::{collect_skill_results, get_system_prompt, skill_front_matter, SkillDef};

fn describe(event: ChatMessageEvent) -> (String, u64, String) {
    match event {
        ChatMessageEvent::Start { id, content } => ("start".to_string(), id, content),
        ChatMessageEvent::Stream { id, content } => ("stream".to_string(), id, content),
        ChatMessageEvent::End { id } => ("end".to_string(), id, String::new()),
    }
}

#[test]
fn emit_user_message_gives_one_whole_message() {
    let mut handler = chat_message_handler();
    let events: Vec<_> = emit_user_message(&mut handler, "hello").into_iter().map(describe).collect();
    assert_eq!(
        events,
        vec![
            ("start".to_string(), 1, "User: ".to_string()),
            ("stream".to_string(), 1, "hello".to_string()),
            ("end".to_string(), 1, String::new()),
        ]
    );
    let next: Vec<_> = emit_user_message(&mut handler, "again").into_iter().map(describe).collect();
    assert_eq!(next[0], ("start".to_string(), 2, "User: ".to_string()));
}

#[test]
fn streams_get_fresh_numbers() {
    let mut handler = chat_message_channel();
    let (a, a_start) = handler.assistant();
    let (t, t_start) = handler.tool("Read", "{\"file_path\":\"a\"}");
    let (u, u_start) = handler.user();
    assert_eq!((a.id(), t.id(), u.id()), (1, 2, 3));
    assert_eq!(describe(a_start), ("start".to_string(), 1, "Assistant: ".to_string()));
    assert_eq!(
        describe(t_start),
        (
            "start".to_string(),
            2,
            "Tool: A tool `Read` has been called with these arguments {\"file_path\":\"a\"}".to_string()
        )
    );
    assert_eq!(describe(u_start), ("start".to_string(), 3, "User: ".to_string()));
    assert_eq!(describe(a.stream("hi".to_string())), ("stream".to_string(), 1, "hi".to_string()));
    assert_eq!(describe(t.end()), ("end".to_string(), 2, String::new()));
    assert_eq!(describe(a.end()), ("end".to_string(), 1, String::new()));
}

#[test]
fn user_stream_gives_start_stream_end() {
    let mut handler = chat_message_handler();
    let (s, start) = handler.user();
    let events = vec![
        describe(start),
        describe(s.stream("part one".to_string())),
        describe(s.stream(" and two".to_string())),
        describe(s.end()),
    ];
    assert_eq!(
        events,
        vec![
            ("start".to_string(), 1, "User: ".to_string()),
            ("stream".to_string(), 1, "part one".to_string()),
            ("stream".to_string(), 1, " and two".to_string()),
            ("end".to_string(), 1, String::new()),
        ]
    );
}

#[test]
fn tool_call_notice_text() {
    assert_eq!(tool_call_notice("Bash", "{}"), "Tool: A tool `Bash` has been called with these arguments {}");
}

#[test]
fn front_matter_between_the_first_two_markers() {
    let file = "---\nname: deploy\ndescription: Deploy things\n---\n# Body\n---\nmore";
    assert_eq!(skill_front_matter(file), Some("\nname: deploy\ndescription: Deploy things\n".to_string()));
    assert_eq!(skill_front_matter("no markers here"), None);
    assert_eq!(skill_front_matter("intro---rest"), Some("rest".to_string()));
    assert_eq!(skill_front_matter("----x"), Some("-x".to_string()));
    assert_eq!(skill_front_matter("---"), Some(String::new()));
    assert_eq!(skill_front_matter("é---ü---"), Some("ü".to_string()));
}

#[test]
fn front_matter_matches_splitn() {
    for text in ["a---b---c---d", "--", "-- -", "x", "------", "\u{1F600}---yaml: 1---"] {
        let expected = text.splitn(3, "---").nth(1).map(|s| s.to_string());
        assert_eq!(skill_front_matter(text), expected, "{text:?}");
    }
}

fn skill(name: &str, description: &str) -> SkillDef {
    SkillDef {
        name: name.to_string(),
        description: description.to_string(),
        last_updated: None,
        allowed_tools: None,
        compatibility: None,
    }
}

const INTRO: &str = "The following skills are available for you to choose from using the ReadSkill tool:\n        ";
const OUTRO: &str = "\n        \n        IMPORTANT: When asking to read references in the context of a skill, use the ReadSkill tool with both arguments ! DO NOT attempt to read reference directly using Read tool\n        Example: When wanting to read this reference [deploying.md](references/deploying.md) in the firebase-hosting-basics skill\n        call the ReadSkill tool with the following arguments { \"skill_name\": \"firebase-hosting-basics\" \"reference_path\": \"references/deploying.md\" }\n        ";

#[test]
fn system_prompt_lists_skills_one_per_line() {
    let prompt = get_system_prompt(&vec![skill("deploy", "Deploy apps"), skill("lint", "Check code")]);
    assert_eq!(prompt, format!("{INTRO}deploy - Deploy apps\nlint - Check code{OUTRO}"));
    let empty = get_system_prompt(&vec![]);
    assert_eq!(empty, format!("{INTRO}{OUTRO}"));
    let blank = get_system_prompt(&vec![skill("", ""), skill("", "")]);
    assert_eq!(blank, format!("{INTRO} - \n - {OUTRO}"));
}

#[test]
fn skill_results_give_all_values_or_the_first_error() {
    let all: Vec<Result<u32, String>> = vec![Ok(1), Ok(2), Ok(3)];
    assert_eq!(collect_skill_results(all), Ok(vec![1, 2, 3]));
    let failing: Vec<Result<u32, String>> =
        vec![Ok(1), Err("first".to_string()), Ok(3), Err("second".to_string())];
    assert_eq!(collect_skill_results(failing), Err("first".to_string()));
    let none: Vec<Result<u32, String>> = vec![];
    assert_eq!(collect_skill_results(none), Ok(vec![]));
}
