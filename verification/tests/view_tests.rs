use pocagentskills::chat::ChatMessageEvent;
use pocagentskills::text::{count_lines, str_equal};
use pocagentskills::view::{approval_answer, ApprovalAnswer, ChatLog, ChatView, KeyInput, MouseInput, UiAction};
use pocagentskills::wrap::{wrap_chat_messages, wrap_input, wrap_text};

#[test]
fn wrap_input_breaks_every_width_characters() {
    assert_eq!(wrap_input("abcdef", 2), "ab\ncd\nef");
    assert_eq!(wrap_input("abcde", 2), "ab\ncd\ne");
    assert_eq!(wrap_input("", 4), "");
    assert_eq!(wrap_input("ab", 5), "ab");
}

#[test]
fn wrap_input_zero_width_counts_as_one() {
    assert_eq!(wrap_input("abc", 0), "a\nb\nc");
}

#[test]
fn wrap_input_keeps_typed_line_breaks_as_characters() {
    assert_eq!(wrap_input("a\nbc", 2), "a\n\nbc");
}

#[test]
fn wrap_text_wraps_each_line() {
    assert_eq!(wrap_text("abc\ndefgh", 2), "ab\nc\nde\nfg\nh");
    assert_eq!(wrap_text("ab", 2), "ab");
    assert_eq!(wrap_text("abc\n", 3), "abc\n");
    assert_eq!(wrap_text("", 3), "");
    assert_eq!(wrap_text("\n\nab", 1), "\n\na\nb");
}

#[test]
fn wrap_text_only_adds_line_breaks_and_fits() {
    let text = "hello world\nthis is a longer line of text";
    let wrapped = wrap_text(text, 7);
    let kept: String = wrapped.chars().filter(|c| *c != '\n').collect();
    let original: String = text.chars().filter(|c| *c != '\n').collect();
    assert_eq!(kept, original);
    assert!(wrapped.split('\n').all(|line| line.chars().count() <= 7));
}

#[test]
fn wrap_chat_messages_puts_one_message_per_line() {
    let messages = vec!["ab".to_string(), "cde".to_string()];
    assert_eq!(wrap_chat_messages(&messages, 2), "ab\ncd\ne");
    assert_eq!(wrap_chat_messages(&[], 2), "");
    assert_eq!(wrap_chat_messages(&["x".to_string()], 0), "x");
}

#[test]
fn count_lines_matches_str_lines() {
    for text in ["", "a", "a\nb", "a\n", "\n\n", "a\n\nb\n", "é\nü"] {
        assert_eq!(count_lines(text), text.lines().count(), "{text:?}");
    }
}

#[test]
fn str_equal_compares_texts() {
    assert!(str_equal("Read", "Read"));
    assert!(!str_equal("Read", "ReadSkill"));
    assert!(!str_equal("Bash", "Read"));
}

fn start(id: u64, content: &str) -> ChatMessageEvent {
    ChatMessageEvent::Start { id, content: content.to_string() }
}

fn stream(id: u64, content: &str) -> ChatMessageEvent {
    ChatMessageEvent::Stream { id, content: content.to_string() }
}

#[test]
fn chat_log_streams_into_the_started_message() {
    let mut log = ChatLog::new();
    log.apply(start(1, "User: "));
    log.apply(stream(1, "hello"));
    log.apply(start(2, "Assistant: "));
    log.apply(stream(2, "hi"));
    log.apply(stream(1, " again"));
    assert_eq!(log.messages(), &vec!["User: hello again".to_string(), "Assistant: hi".to_string()]);
}

#[test]
fn chat_log_ignores_ended_and_unknown_streams() {
    let mut log = ChatLog::new();
    log.apply(start(1, "A"));
    log.apply(ChatMessageEvent::End { id: 1 });
    log.apply(stream(1, "lost"));
    log.apply(stream(7, "lost too"));
    assert_eq!(log.messages(), &vec!["A".to_string()]);
}

#[test]
fn chat_log_keeps_earlier_text() {
    let mut log = ChatLog::new();
    log.apply(start(3, "first"));
    let before = log.messages().clone();
    log.apply(stream(3, " more"));
    log.apply(start(4, "second"));
    for (old, new) in before.iter().zip(log.messages().iter()) {
        assert!(new.starts_with(old.as_str()));
    }
    assert_eq!(log.messages().len(), 2);
}

fn ten_messages() -> Vec<String> {
    (0..10).map(|i| format!("m{i}")).collect()
}

#[test]
fn chat_view_starts_empty_and_following() {
    let view = ChatView::new();
    assert_eq!(view.input(), "");
    assert_eq!(view.chat_scroll(), 0);
}

#[test]
fn chat_view_typing_backspace_and_enter() {
    let mut view = ChatView::new();
    assert!(matches!(view.handle_key(KeyInput::Char('h'), false, true), UiAction::Continue));
    view.handle_key(KeyInput::Char('i'), false, true);
    view.handle_key(KeyInput::Char('!'), false, true);
    view.handle_key(KeyInput::Backspace, false, true);
    assert_eq!(view.input(), "hi");
    match view.handle_key(KeyInput::Enter, false, true) {
        UiAction::Submit(m) => assert_eq!(m, "hi"),
        _ => panic!("Enter submits the typed message"),
    }
    assert_eq!(view.input(), "");
    view.handle_key(KeyInput::Backspace, false, true);
    assert_eq!(view.input(), "");
}

#[test]
fn chat_view_ctrl_x_quits_and_plain_x_types() {
    let mut view = ChatView::new();
    assert!(matches!(view.handle_key(KeyInput::Char('x'), false, true), UiAction::Continue));
    assert_eq!(view.input(), "x");
    assert!(matches!(view.handle_key(KeyInput::Char('x'), true, true), UiAction::Quit));
    assert_eq!(view.input(), "x");
}

#[test]
fn chat_view_ignores_key_releases() {
    let mut view = ChatView::new();
    assert!(matches!(view.handle_key(KeyInput::Char('a'), false, false), UiAction::Continue));
    assert!(matches!(view.handle_key(KeyInput::Char('x'), true, false), UiAction::Continue));
    assert_eq!(view.input(), "");
}

#[test]
fn chat_view_scrolls_within_bounds() {
    let mut view = ChatView::new();
    let messages = ten_messages();
    let text = view.layout_chat(&messages, 20, 5);
    assert_eq!(text.lines().count(), 10);
    // 3 visible rows of 10: the end is row 7, and the view follows it.
    assert_eq!(view.chat_scroll(), 7);
    view.handle_key(KeyInput::PageUp, false, true);
    assert_eq!(view.chat_scroll(), 4);
    view.handle_key(KeyInput::PageUp, false, true);
    view.handle_key(KeyInput::PageUp, false, true);
    assert_eq!(view.chat_scroll(), 0);
    view.layout_chat(&messages, 20, 5);
    assert_eq!(view.chat_scroll(), 0);
    view.handle_key(KeyInput::PageDown, false, true);
    assert_eq!(view.chat_scroll(), 3);
    view.handle_mouse(MouseInput::ScrollDown);
    assert_eq!(view.chat_scroll(), 6);
    view.handle_mouse(MouseInput::ScrollDown);
    assert_eq!(view.chat_scroll(), 7);
    // Reaching the end follows the output again.
    let more: Vec<String> = (0..12).map(|i| format!("m{i}")).collect();
    view.layout_chat(&more, 20, 5);
    assert_eq!(view.chat_scroll(), 9);
    view.handle_mouse(MouseInput::ScrollUp);
    assert_eq!(view.chat_scroll(), 6);
    view.handle_key(KeyInput::End, false, true);
    view.layout_chat(&more, 20, 5);
    assert_eq!(view.chat_scroll(), 9);
}

#[test]
fn chat_view_layout_clamps_when_history_shrinks() {
    let mut view = ChatView::new();
    let messages = ten_messages();
    view.layout_chat(&messages, 20, 5);
    view.handle_mouse(MouseInput::ScrollUp);
    assert_eq!(view.chat_scroll(), 4);
    view.layout_chat(&messages[..5], 20, 5);
    assert_eq!(view.chat_scroll(), 2);
    // "m0" wraps to two rows at one column; one row is visible.
    view.layout_chat(&messages[..1], 1, 0);
    assert_eq!(view.chat_scroll(), 1);
    view.layout_chat(&messages[..1], 20, 0);
    assert_eq!(view.chat_scroll(), 0);
}

#[test]
fn chat_view_input_layout_and_cursor() {
    let mut view = ChatView::new();
    for c in "abcdef".chars() {
        view.handle_key(KeyInput::Char(c), false, true);
    }
    assert!(view.input_rows_fit(5));
    let layout = view.layout_input(5, 20);
    assert_eq!(layout.input_width, 3);
    assert_eq!(layout.wrapped_input, "abc\ndef");
    assert_eq!(layout.input_rows, 2);
    assert_eq!(layout.input_height, 4);
    let cursor = view.place_cursor(layout.input_width, layout.input_rows, 4);
    assert_eq!(cursor.input_scroll, 0);
    assert_eq!(cursor.column, 0);
    assert_eq!(cursor.visible_row, 2);
    let small = view.layout_input(5, 5);
    assert_eq!(small.input_height, 3);
    let cursor = view.place_cursor(small.input_width, small.input_rows, 3);
    assert_eq!(cursor.input_scroll, 1);
    assert_eq!(cursor.visible_row, 1);
}

#[test]
fn chat_view_empty_input_takes_one_row() {
    let view = ChatView::new();
    let layout = view.layout_input(0, 0);
    assert_eq!(layout.input_width, 1);
    assert_eq!(layout.input_rows, 1);
    assert_eq!(layout.input_height, 3);
}

#[test]
fn wrap_input_only_adds_line_breaks_and_fits() {
    let input = "a message typed without any line break at all";
    let wrapped = wrap_input(input, 6);
    let kept: String = wrapped.chars().filter(|c| *c != '\n').collect();
    assert_eq!(kept, input);
    assert!(wrapped.split('\n').all(|line| line.chars().count() <= 6));
}

#[test]
fn approval_keys_answer_the_question() {
    assert_eq!(approval_answer(&KeyInput::Char('y'), true), ApprovalAnswer::Approve);
    assert_eq!(approval_answer(&KeyInput::Char('Y'), true), ApprovalAnswer::Approve);
    assert_eq!(approval_answer(&KeyInput::Char('n'), true), ApprovalAnswer::Deny);
    assert_eq!(approval_answer(&KeyInput::Char('N'), true), ApprovalAnswer::Deny);
    assert_eq!(approval_answer(&KeyInput::Esc, true), ApprovalAnswer::Deny);
    assert_eq!(approval_answer(&KeyInput::Char('x'), true), ApprovalAnswer::Undecided);
    assert_eq!(approval_answer(&KeyInput::Enter, true), ApprovalAnswer::Undecided);
    assert_eq!(approval_answer(&KeyInput::Char('y'), false), ApprovalAnswer::Undecided);
}

#[test]
fn escape_leaves_the_typed_message_alone() {
    let mut view = ChatView::new();
    view.handle_key(KeyInput::Char('a'), false, true);
    assert!(matches!(view.handle_key(KeyInput::Esc, false, true), UiAction::Continue));
    assert_eq!(view.input(), "a");
}

#[test]
fn chat_log_replays_interleaved_streams() {
    let mut log = ChatLog::new();
    let events = vec![
        stream(9, "dropped before any start"),
        start(1, "User: "),
        start(2, "Assistant: "),
        stream(2, "Hel"),
        stream(1, "hi"),
        stream(2, "lo"),
        ChatMessageEvent::End { id: 1 },
        stream(1, " late"),
        start(3, "Tool: "),
        stream(3, " [ok]"),
        ChatMessageEvent::End { id: 2 },
        stream(2, "!"),
    ];
    for event in events {
        log.apply(event);
    }
    assert_eq!(log.messages(), &vec!["User: hi", "Assistant: Hello", "Tool:  [ok]"]);
}

#[test]
fn typed_message_wraps_like_chat_text_without_line_breaks() {
    for (text, width) in [("abcdefg", 3u16), ("", 4), ("one two three", 5), ("xy", 0)] {
        assert_eq!(wrap_input(text, width), wrap_text(text, width), "{text:?} {width}");
    }
}
