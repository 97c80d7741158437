//! State of the chat window: the message log fed by the agent, the message being typed,
//! and the scroll position of the chat history.
use std::collections::HashMap;
use vstd::prelude::*;
use crate::chat::ChatMessageEvent;
use crate::text::{count_lines, line_count, string_pop, string_push, chars_of};
use crate::wrap::{
    break_every, effective_width, join_lines, wrap_chat_messages, wrap_input, wrapped_messages,
};

verus! {

broadcast use vstd::std_specs::hash::group_hash_axioms;

/// The messages shown in the chat window, and for each open stream the message it writes to.
pub struct ChatLog {
    messages: Vec<String>,
    active_streams: HashMap<u64, usize>,
}

/// What a [`ChatLog`] holds: the text of each message, and the open streams.
pub struct ChatLogView {
    pub messages: Seq<Seq<char>>,
    pub active: Map<u64, usize>,
}

/// Every open stream writes to a message that exists.
pub open spec fn log_wf(log: ChatLogView) -> bool {
    forall|id: u64| #[trigger] log.active.contains_key(id) ==> log.active[id] < log.messages.len()
}

/// The log after one event: a start adds a message and opens its stream, streamed text is
/// appended to the message of an open stream (and dropped for any other), an end closes
/// the stream.
pub open spec fn apply_event(log: ChatLogView, event: ChatMessageEvent) -> ChatLogView {
    match event {
        ChatMessageEvent::Start { id, content } => ChatLogView {
            messages: log.messages.push(content@),
            active: log.active.insert(id, log.messages.len() as usize),
        },
        ChatMessageEvent::Stream { id, content } => if log.active.contains_key(id) {
            let i = log.active[id] as int;
            ChatLogView {
                messages: log.messages.update(i, log.messages[i] + content@),
                active: log.active,
            }
        } else {
            log
        },
        ChatMessageEvent::End { id } => ChatLogView {
            messages: log.messages,
            active: log.active.remove(id),
        },
    }
}

/// No event loses text: the log never has fewer messages than before, and every message
/// that was there still starts with the text it had.
pub proof fn law_log_keeps_text(log: ChatLogView, event: ChatMessageEvent)
    requires
        log_wf(log),
    ensures
        log_wf(apply_event(log, event)),
        apply_event(log, event).messages.len() >= log.messages.len(),
        forall|i: int|
            0 <= i < log.messages.len() ==> #[trigger] log.messages[i].is_prefix_of(
                apply_event(log, event).messages[i],
            ),
{
    let after = apply_event(log, event);
    assert forall|i: int| 0 <= i < log.messages.len() implies #[trigger] log.messages[i].is_prefix_of(
        after.messages[i],
    ) by {
        match event {
            ChatMessageEvent::Stream { id, content } => {
                if log.active.contains_key(id) && log.active[id] == i {
                    assert(after.messages[i] == log.messages[i] + content@);
                    assert(after.messages[i].subrange(0, log.messages[i].len() as int) =~= log.messages[i]);
                } else {
                    assert(after.messages[i] == log.messages[i]);
                    assert(after.messages[i].subrange(0, log.messages[i].len() as int) =~= log.messages[i]);
                }
            },
            _ => {
                assert(after.messages[i] == log.messages[i]);
                assert(after.messages[i].subrange(0, log.messages[i].len() as int) =~= log.messages[i]);
            },
        }
    }
}

/// A stream writes where it started: after a start with some text and then streamed text
/// under the same number, the newest message is the start text followed by the streamed
/// text, and no other message changed.
pub proof fn law_start_then_stream(log: ChatLogView, id: u64, start: String, more: String)
    requires
        log_wf(log),
        log.messages.len() < usize::MAX,
    ensures
        ({
            let started = apply_event(log, ChatMessageEvent::Start { id, content: start });
            let streamed = apply_event(started, ChatMessageEvent::Stream { id, content: more });
            &&& streamed.messages.len() == log.messages.len() + 1
            &&& streamed.messages.last() == start@ + more@
            &&& streamed.messages.drop_last() == log.messages
        }),
{
    let started = apply_event(log, ChatMessageEvent::Start { id, content: start });
    let streamed = apply_event(started, ChatMessageEvent::Stream { id, content: more });
    let n = log.messages.len() as int;
    assert(started.active.contains_key(id));
    assert(started.active[id] as int == n);
    assert(started.messages[n] == start@);
    assert(streamed.messages == started.messages.update(n, start@ + more@));
    assert(streamed.messages.drop_last() =~= log.messages);
}

/// An ended stream writes nothing: after its end, text streamed under its number leaves
/// the log as it was.
pub proof fn law_stream_after_end(log: ChatLogView, id: u64, more: String)
    requires
        log_wf(log),
    ensures
        ({
            let ended = apply_event(log, ChatMessageEvent::End { id });
            apply_event(ended, ChatMessageEvent::Stream { id, content: more }) == ended
        }),
{
}

/// An empty chat window: no message, no open stream.
pub open spec fn empty_log() -> ChatLogView {
    ChatLogView { messages: Seq::empty(), active: Map::empty() }
}

/// The log after `events`, applied in order to `log`.
pub open spec fn apply_events(log: ChatLogView, events: Seq<ChatMessageEvent>) -> ChatLogView
    decreases events.len(),
{
    if events.len() == 0 {
        log
    } else {
        apply_event(apply_events(log, events.drop_last()), events.last())
    }
}

/// The stream number an event carries.
pub open spec fn event_id(event: ChatMessageEvent) -> u64 {
    match event {
        ChatMessageEvent::Start { id, .. } => id,
        ChatMessageEvent::Stream { id, .. } => id,
        ChatMessageEvent::End { id } => id,
    }
}

/// The text a start event opens its message with.
pub open spec fn start_text(event: ChatMessageEvent) -> Seq<char> {
    match event {
        ChatMessageEvent::Start { content, .. } => content@,
        _ => Seq::empty(),
    }
}

/// The text `event` streams under `id`.
pub open spec fn stream_text_of(event: ChatMessageEvent, id: u64) -> Seq<char> {
    match event {
        ChatMessageEvent::Stream { id: i, content } => if i == id {
            content@
        } else {
            Seq::empty()
        },
        _ => Seq::empty(),
    }
}

/// Whether `event` ends the stream `id`.
pub open spec fn ends(event: ChatMessageEvent, id: u64) -> bool {
    match event {
        ChatMessageEvent::End { id: i } => i == id,
        _ => false,
    }
}

/// Whether `events` ends the stream `id` at position `from` or later.
pub open spec fn ended_after(events: Seq<ChatMessageEvent>, from: int, id: u64) -> bool {
    exists|k: int| from <= k < events.len() && #[trigger] ends(events[k], id)
}

/// The text `events` streams under `id` from position `from` on, up to the end of that
/// stream.
pub open spec fn streamed_after(events: Seq<ChatMessageEvent>, from: int, id: u64) -> Seq<char>
    decreases events.len(),
{
    if events.len() <= from || events.len() == 0 {
        Seq::empty()
    } else {
        let prev = events.drop_last();
        if ended_after(prev, from, id) {
            streamed_after(prev, from, id)
        } else {
            streamed_after(prev, from, id) + stream_text_of(events.last(), id)
        }
    }
}

/// The positions of the start events in `events`, in order.
pub open spec fn start_positions(events: Seq<ChatMessageEvent>) -> Seq<int>
    decreases events.len(),
{
    if events.len() == 0 {
        Seq::empty()
    } else if events.last() is Start {
        start_positions(events.drop_last()).push(events.len() - 1)
    } else {
        start_positions(events.drop_last())
    }
}

/// No two start events carry the same stream number.
pub open spec fn start_ids_distinct(events: Seq<ChatMessageEvent>) -> bool {
    forall|i: int, j: int|
        0 <= i < j < events.len() && (#[trigger] events[i]) is Start && (#[trigger] events[j]) is Start
            ==> event_id(events[i]) != event_id(events[j])
}

spec fn replay_inv(events: Seq<ChatMessageEvent>, log: ChatLogView, pos: Seq<int>) -> bool {
    &&& log.messages.len() == pos.len()
    &&& pos.len() <= events.len()
    &&& forall|m: int| 0 <= m < pos.len() ==> 0 <= #[trigger] pos[m] < events.len() && events[pos[m]] is Start
    &&& forall|m1: int, m2: int| 0 <= m1 < m2 < pos.len() ==> #[trigger] pos[m1] < #[trigger] pos[m2]
    &&& forall|m: int|
        #![trigger pos[m]]
        0 <= m < pos.len() ==> log.messages[m] == start_text(events[pos[m]]) + streamed_after(
            events,
            pos[m] + 1,
            event_id(events[pos[m]]),
        )
    &&& forall|m: int|
        #![trigger pos[m]]
        0 <= m < pos.len() && !ended_after(events, pos[m] + 1, event_id(events[pos[m]])) ==> log.active.contains_key(
            event_id(events[pos[m]]),
        ) && log.active[event_id(events[pos[m]])] as int == m
    &&& forall|id: u64|
        #[trigger] log.active.contains_key(id) ==> exists|m: int|
            0 <= m < pos.len() && event_id(events[#[trigger] pos[m]]) == id && !ended_after(events, pos[m] + 1, id)
}

proof fn lemma_ended_after_last(events: Seq<ChatMessageEvent>, from: int, id: u64)
    requires
        events.len() > 0,
        0 <= from < events.len(),
    ensures
        ended_after(events, from, id) == (ended_after(events.drop_last(), from, id) || ends(events.last(), id)),
{
    let prev = events.drop_last();
    if ended_after(prev, from, id) {
        let k = choose|k: int| from <= k < prev.len() && #[trigger] ends(prev[k], id);
        assert(events[k] == prev[k]);
        assert(ends(events[k], id));
    }
    if ends(events.last(), id) {
        assert(ends(events[events.len() - 1], id));
    }
    if ended_after(events, from, id) {
        let k = choose|k: int| from <= k < events.len() && #[trigger] ends(events[k], id);
        if k < prev.len() {
            assert(events[k] == prev[k]);
            assert(ends(prev[k], id));
        }
    }
}

proof fn lemma_replay(events: Seq<ChatMessageEvent>)
    requires
        start_ids_distinct(events),
        events.len() < usize::MAX,
    ensures
        replay_inv(events, apply_events(empty_log(), events), start_positions(events)),
    decreases events.len(),
{
    if events.len() == 0 {
        let log = apply_events(empty_log(), events);
        assert(log == empty_log());
        return;
    }
    let prev = events.drop_last();
    let e = events.last();
    let n = prev.len() as int;
    assert forall|i: int, j: int|
        0 <= i < j < prev.len() && (#[trigger] prev[i]) is Start && (#[trigger] prev[j]) is Start
            implies event_id(prev[i]) != event_id(prev[j]) by {
        assert(prev[i] == events[i] && prev[j] == events[j]);
    }
    lemma_replay(prev);
    let log0 = apply_events(empty_log(), prev);
    let pos0 = start_positions(prev);
    let log = apply_events(empty_log(), events);
    let pos = start_positions(events);
    assert(log == apply_event(log0, e));
    assert(forall|k: int| 0 <= k < n ==> #[trigger] events[k] == prev[k]);
    // The old starts keep their positions and numbers.
    assert forall|m: int| 0 <= m < pos0.len() implies #[trigger] pos[m] == pos0[m] && events[pos0[m]] == prev[pos0[m]] by {
        assert(events[pos0[m]] == prev[pos0[m]]);
    }
    // How the old starts' texts and ends move on with the last event.
    assert forall|m: int| #![trigger pos0[m]] 0 <= m < pos0.len() implies {
        let id = event_id(prev[pos0[m]]);
        &&& ended_after(events, pos0[m] + 1, id) == (ended_after(prev, pos0[m] + 1, id) || ends(e, id))
        &&& streamed_after(events, pos0[m] + 1, id) == if ended_after(prev, pos0[m] + 1, id) {
            streamed_after(prev, pos0[m] + 1, id)
        } else {
            streamed_after(prev, pos0[m] + 1, id) + stream_text_of(e, id)
        }
    } by {
        let id = event_id(prev[pos0[m]]);
        lemma_ended_after_last(events, pos0[m] + 1, id);
    }
    match e {
        ChatMessageEvent::Start { id, content } => {
            assert(pos == pos0.push(n));
            assert(events[n] == e);
            assert forall|m: int| 0 <= m < pos0.len() implies event_id(prev[#[trigger] pos0[m]]) != id by {
                assert(events[pos0[m]] is Start);
                assert(pos0[m] < n);
            }
            assert(!ended_after(events, n + 1, id));
            assert(streamed_after(events, n + 1, id) == Seq::<char>::empty());
            assert(log.messages == log0.messages.push(content@));
            assert forall|m: int|
                #![trigger pos[m]]
                0 <= m < pos.len() implies log.messages[m] == start_text(events[pos[m]]) + streamed_after(
                    events,
                    pos[m] + 1,
                    event_id(events[pos[m]]),
                ) by {
                if m < pos0.len() {
                    assert(pos[m] == pos0[m]);
                } else {
                    assert(start_text(events[n]) == content@);
                    assert(log.messages[m] =~= content@ + Seq::<char>::empty());
                }
            }
            assert forall|m: int|
                #![trigger pos[m]]
                0 <= m < pos.len() && !ended_after(events, pos[m] + 1, event_id(events[pos[m]])) implies log.active.contains_key(
                    event_id(events[pos[m]]),
                ) && log.active[event_id(events[pos[m]])] as int == m by {
                if m < pos0.len() {
                    assert(pos[m] == pos0[m]);
                    assert(event_id(prev[pos0[m]]) != id);
                } else {
                    assert(log0.messages.len() < usize::MAX);
                    assert(log.active[id] as int == log0.messages.len());
                }
            }
            assert forall|id2: u64| #[trigger] log.active.contains_key(id2) implies exists|m: int|
                0 <= m < pos.len() && event_id(events[#[trigger] pos[m]]) == id2 && !ended_after(events, pos[m] + 1, id2) by {
                if id2 == id {
                    assert(pos[pos0.len() as int] == n);
                } else {
                    assert(log0.active.contains_key(id2));
                    let m = choose|m: int|
                        0 <= m < pos0.len() && event_id(prev[#[trigger] pos0[m]]) == id2 && !ended_after(prev, pos0[m] + 1, id2);
                    assert(pos[m] == pos0[m]);
                }
            }
            assert forall|m1: int, m2: int| 0 <= m1 < m2 < pos.len() implies #[trigger] pos[m1] < #[trigger] pos[m2] by {
                if m2 < pos0.len() {
                    assert(pos[m1] == pos0[m1] && pos[m2] == pos0[m2]);
                } else {
                    assert(pos[m1] == pos0[m1]);
                }
            }
        },
        ChatMessageEvent::Stream { id, content } => {
            assert(pos == pos0);
            assert forall|m: int|
                #![trigger pos[m]]
                0 <= m < pos.len() implies log.messages[m] == start_text(events[pos[m]]) + streamed_after(
                    events,
                    pos[m] + 1,
                    event_id(events[pos[m]]),
                ) by {
                let idm = event_id(prev[pos0[m]]);
                if log0.active.contains_key(id) {
                    let m0 = choose|m0: int|
                        0 <= m0 < pos0.len() && event_id(prev[#[trigger] pos0[m0]]) == id && !ended_after(prev, pos0[m0] + 1, id);
                    if m == m0 {
                        assert(log.messages[m] =~= log0.messages[m] + content@);
                    } else {
                        if idm == id {
                            if pos0[m] < pos0[m0] {
                                assert(pos0[m] < pos0[m0]);
                            } else {
                                assert(pos0[m0] < pos0[m]);
                            }
                            assert(false);
                        }
                        assert(streamed_after(events, pos0[m] + 1, idm) =~= streamed_after(prev, pos0[m] + 1, idm));
                    }
                } else {
                    if idm == id {
                        assert(ended_after(prev, pos0[m] + 1, idm));
                    } else {
                        assert(streamed_after(events, pos0[m] + 1, idm) =~= streamed_after(prev, pos0[m] + 1, idm));
                    }
                }
            }
            assert forall|id2: u64| #[trigger] log.active.contains_key(id2) implies exists|m: int|
                0 <= m < pos.len() && event_id(events[#[trigger] pos[m]]) == id2 && !ended_after(events, pos[m] + 1, id2) by {
                assert(log0.active.contains_key(id2));
                let m = choose|m: int|
                    0 <= m < pos0.len() && event_id(prev[#[trigger] pos0[m]]) == id2 && !ended_after(prev, pos0[m] + 1, id2);
                assert(pos[m] == pos0[m]);
            }
        },
        ChatMessageEvent::End { id } => {
            assert(pos == pos0);
            assert forall|m: int|
                #![trigger pos[m]]
                0 <= m < pos.len() implies log.messages[m] == start_text(events[pos[m]]) + streamed_after(
                    events,
                    pos[m] + 1,
                    event_id(events[pos[m]]),
                ) by {
                let idm = event_id(prev[pos0[m]]);
                assert(streamed_after(events, pos0[m] + 1, idm) =~= streamed_after(prev, pos0[m] + 1, idm));
            }
            assert forall|id2: u64| #[trigger] log.active.contains_key(id2) implies exists|m: int|
                0 <= m < pos.len() && event_id(events[#[trigger] pos[m]]) == id2 && !ended_after(events, pos[m] + 1, id2) by {
                assert(log0.active.contains_key(id2));
                let m = choose|m: int|
                    0 <= m < pos0.len() && event_id(prev[#[trigger] pos0[m]]) == id2 && !ended_after(prev, pos0[m] + 1, id2);
                assert(pos[m] == pos0[m]);
            }
        },
    }
}

/// What the chat window shows after a run of events, from an empty window, when no two
/// start events share a stream number: one message per start, in the order of the starts,
/// each made of the start's text followed by the text streamed under its number after it,
/// up to the end of that stream. Text streamed under a number that is not open is dropped.
pub proof fn law_log_replays_streams(events: Seq<ChatMessageEvent>)
    requires
        start_ids_distinct(events),
        events.len() < usize::MAX,
    ensures
        apply_events(empty_log(), events).messages.len() == start_positions(events).len(),
        forall|m: int|
            #![trigger start_positions(events)[m]]
            0 <= m < start_positions(events).len() ==> apply_events(empty_log(), events).messages[m]
                == start_text(events[start_positions(events)[m]]) + streamed_after(
                events,
                start_positions(events)[m] + 1,
                event_id(events[start_positions(events)[m]]),
            ),
{
    lemma_replay(events);
}

impl View for ChatLog {
    type V = ChatLogView;

    closed spec fn view(&self) -> ChatLogView {
        ChatLogView {
            messages: self.messages@.map_values(|m: String| m@),
            active: self.active_streams@,
        }
    }
}

impl ChatLog {
    /// Every open stream writes to a message that exists.
    pub open spec fn wf(&self) -> bool {
        log_wf(self@)
    }

    /// An empty log.
    pub fn new() -> (log: ChatLog)
        ensures
            log.wf(),
            log@.messages == Seq::<Seq<char>>::empty(),
            log@.active == Map::<u64, usize>::empty(),
    {
        let log = ChatLog { messages: Vec::new(), active_streams: HashMap::new() };
        assert(log@.messages =~= Seq::<Seq<char>>::empty());
        log
    }

    /// The messages, in the order they were started.
    pub fn messages(&self) -> (messages: &Vec<String>)
        ensures
            messages@.map_values(|m: String| m@) == self@.messages,
    {
        &self.messages
    }

    /// Applies one event from the agent.
    pub fn apply(&mut self, event: ChatMessageEvent)
        requires
            old(self).wf(),
        ensures
            final(self)@ == apply_event(old(self)@, event),
            log_wf(final(self)@),
    {
        let ghost old_log = self@;
        match event {
            ChatMessageEvent::Start { id, content } => {
                self.messages.push(content);
                let index = self.messages.len() - 1;
                self.active_streams.insert(id, index);
                assert(self@.messages =~= old_log.messages.push(content@));
            },
            ChatMessageEvent::Stream { id, content } => {
                match self.active_streams.get(&id) {
                    Some(index) => {
                        let index = *index;
                        assert(old_log.active.contains_key(id) && old_log.active[id] == index);
                        assert(index < old_log.messages.len());
                        self.messages[index].append(content.as_str());
                        assert(self@.messages =~= old_log.messages.update(
                            index as int,
                            old_log.messages[index as int] + content@,
                        ));
                    },
                    None => {},
                }
            },
            ChatMessageEvent::End { id } => {
                self.active_streams.remove(&id);
            },
        }
    }
}

/// A key of the keyboard, as far as the chat window tells keys apart.
#[derive(Debug)]
pub enum KeyInput {
    Char(char),
    PageUp,
    PageDown,
    End,
    Enter,
    Backspace,
    Esc,
    Other,
}

/// A mouse event, as far as the chat window tells them apart.
#[derive(Debug)]
pub enum MouseInput {
    ScrollUp,
    ScrollDown,
    Other,
}

/// What the chat window does after an input event.
#[derive(Debug)]
pub enum UiAction {
    /// Keep running.
    Continue,
    /// Close the window.
    Quit,
    /// Hand this message to the agent.
    Submit(String),
}

/// The user's answer to a question put in the chat window, read from one key event.
#[derive(Debug, PartialEq, Eq, Structural)]
pub enum ApprovalAnswer {
    /// Allow what was asked.
    Approve,
    /// Refuse what was asked.
    Deny,
    /// No answer yet: the question stays.
    Undecided,
}

/// The answer a key event gives: a press of `y` or `Y` approves, a press of `n`, `N` or
/// Escape denies, and anything else (a release, another key) leaves the question open.
pub open spec fn approval_answer_spec(key: KeyInput, is_press: bool) -> ApprovalAnswer {
    if !is_press {
        ApprovalAnswer::Undecided
    } else {
        match key {
            KeyInput::Char(c) => if c == 'y' || c == 'Y' {
                ApprovalAnswer::Approve
            } else if c == 'n' || c == 'N' {
                ApprovalAnswer::Deny
            } else {
                ApprovalAnswer::Undecided
            },
            KeyInput::Esc => ApprovalAnswer::Deny,
            _ => ApprovalAnswer::Undecided,
        }
    }
}

/// Reads the user's answer to a pending question from one key event; `is_press` tells
/// whether the key went down.
pub fn approval_answer(key: &KeyInput, is_press: bool) -> (answer: ApprovalAnswer)
    ensures
        answer == approval_answer_spec(*key, is_press),
{
    if !is_press {
        return ApprovalAnswer::Undecided;
    }
    match key {
        KeyInput::Char(c) => {
            if *c == 'y' || *c == 'Y' {
                ApprovalAnswer::Approve
            } else if *c == 'n' || *c == 'N' {
                ApprovalAnswer::Deny
            } else {
                ApprovalAnswer::Undecided
            }
        },
        KeyInput::Esc => ApprovalAnswer::Deny,
        _ => ApprovalAnswer::Undecided,
    }
}

/// Lines the chat history moves per mouse wheel step.
pub const MOUSE_SCROLL_LINES: u16 = 3;

/// The message being typed and the scroll position of the chat history.
pub struct ChatView {
    input: String,
    chat_scroll: u16,
    follow_chat_output: bool,
    max_chat_scroll: u16,
    visible_chat_rows: u16,
}

/// What a [`ChatView`] holds.
pub struct ChatViewState {
    pub input: Seq<char>,
    pub chat_scroll: u16,
    pub follow_chat_output: bool,
    pub max_chat_scroll: u16,
    pub visible_chat_rows: u16,
}

/// The history is never scrolled past its end, and at least one row of it is visible.
pub open spec fn view_wf(v: ChatViewState) -> bool {
    v.chat_scroll <= v.max_chat_scroll && v.visible_chat_rows >= 1
}

/// The smaller of two numbers.
pub open spec fn min_u16(a: u16, b: u16) -> u16 {
    if a <= b { a } else { b }
}

/// The larger of `a` and one.
pub open spec fn at_least_one(a: u16) -> u16 {
    if a == 0 { 1 } else { a }
}

/// The view after a key press. Ctrl+X alone quits; page up and page down move the history
/// by one screen (page down stops at the end and follows the output again when it gets
/// there); End follows the output; Enter hands over the typed message and follows the
/// output; Backspace deletes the last typed character; any other character is typed.
/// Key releases and repeats change nothing.
pub open spec fn key_step(v: ChatViewState, key: KeyInput, control_only: bool, is_press: bool) -> (
    ChatViewState,
    UiAction,
) {
    if !is_press {
        (v, UiAction::Continue)
    } else {
        match key {
            KeyInput::Char(c) => if c == 'x' && control_only {
                (v, UiAction::Quit)
            } else {
                (ChatViewState { input: v.input.push(c), ..v }, UiAction::Continue)
            },
            KeyInput::PageUp => (
                ChatViewState {
                    chat_scroll: v.chat_scroll.saturating_sub(v.visible_chat_rows),
                    follow_chat_output: false,
                    ..v
                },
                UiAction::Continue,
            ),
            KeyInput::PageDown => {
                let s = min_u16(v.chat_scroll.saturating_add(v.visible_chat_rows), v.max_chat_scroll);
                (
                    ChatViewState {
                        chat_scroll: s,
                        follow_chat_output: s == v.max_chat_scroll,
                        ..v
                    },
                    UiAction::Continue,
                )
            },
            KeyInput::End => (ChatViewState { follow_chat_output: true, ..v }, UiAction::Continue),
            KeyInput::Enter => (
                ChatViewState { input: Seq::empty(), follow_chat_output: true, ..v },
                UiAction::Continue,
            ),
            KeyInput::Backspace => (
                ChatViewState {
                    input: if v.input.len() == 0 { v.input } else { v.input.drop_last() },
                    ..v
                },
                UiAction::Continue,
            ),
            KeyInput::Esc => (v, UiAction::Continue),
            KeyInput::Other => (v, UiAction::Continue),
        }
    }
}

/// The view after a mouse event: the wheel moves the history by three lines, and scrolling
/// down to the end follows the output again.
pub open spec fn mouse_step(v: ChatViewState, mouse: MouseInput) -> ChatViewState {
    match mouse {
        MouseInput::ScrollUp => ChatViewState {
            chat_scroll: v.chat_scroll.saturating_sub(MOUSE_SCROLL_LINES),
            follow_chat_output: false,
            ..v
        },
        MouseInput::ScrollDown => {
            let s = min_u16(v.chat_scroll.saturating_add(MOUSE_SCROLL_LINES), v.max_chat_scroll);
            ChatViewState { chat_scroll: s, follow_chat_output: s == v.max_chat_scroll, ..v }
        },
        MouseInput::Other => v,
    }
}

/// The mouse wheel takes the view off the output: after a step up the view no longer
/// follows, the history is three lines higher (or at its top), and no later layout moves it
/// further down than that, whatever the history has grown to.
pub proof fn law_wheel_up_stops_following(v: ChatViewState, area_height: u16, rows: u16)
    ensures
        !mouse_step(v, MouseInput::ScrollUp).follow_chat_output,
        mouse_step(v, MouseInput::ScrollUp).chat_scroll <= v.chat_scroll,
        v.chat_scroll >= MOUSE_SCROLL_LINES ==> mouse_step(v, MouseInput::ScrollUp).chat_scroll + MOUSE_SCROLL_LINES
            == v.chat_scroll,
        v.chat_scroll < MOUSE_SCROLL_LINES ==> mouse_step(v, MouseInput::ScrollUp).chat_scroll == 0,
        layout_step(mouse_step(v, MouseInput::ScrollUp), area_height, rows).chat_scroll <= mouse_step(
            v,
            MouseInput::ScrollUp,
        ).chat_scroll,
{
}

/// Paging down follows the output again exactly when it reaches the end: then the next
/// layout shows the end of the history, however much it has grown; short of the end, the
/// next layout does not move the history further down.
pub proof fn law_page_down_follows_at_end(
    v: ChatViewState,
    control_only: bool,
    area_height: u16,
    rows: u16,
)
    requires
        view_wf(v),
    ensures
        ({
            let down = key_step(v, KeyInput::PageDown, control_only, true).0;
            let next = layout_step(down, area_height, rows);
            &&& down.chat_scroll >= v.chat_scroll
            &&& down.chat_scroll <= v.max_chat_scroll
            &&& down.follow_chat_output == (down.chat_scroll == v.max_chat_scroll)
            &&& down.chat_scroll == v.max_chat_scroll ==> next.chat_scroll == next.max_chat_scroll
            &&& down.chat_scroll < v.max_chat_scroll ==> next.chat_scroll <= down.chat_scroll
        }),
{
}

/// Sending a message follows the output: after Enter the typed text is cleared and the next
/// layout shows the end of the history, wherever the view was scrolled before.
pub proof fn law_enter_follows_output(v: ChatViewState, control_only: bool, area_height: u16, rows: u16)
    ensures
        ({
            let sent = key_step(v, KeyInput::Enter, control_only, true).0;
            let next = layout_step(sent, area_height, rows);
            &&& sent.follow_chat_output
            &&& sent.input.len() == 0
            &&& next.chat_scroll == next.max_chat_scroll
            &&& next.max_chat_scroll == rows.saturating_sub(inner_size(area_height))
        }),
{
}

/// Paging up takes the view off the output: it no longer follows, the history moves up by
/// one screen (or to its top), and no later layout moves it further down than that.
pub proof fn law_page_up_stops_following(v: ChatViewState, control_only: bool, area_height: u16, rows: u16)
    ensures
        ({
            let up = key_step(v, KeyInput::PageUp, control_only, true).0;
            &&& !up.follow_chat_output
            &&& up.chat_scroll <= v.chat_scroll
            &&& v.chat_scroll >= v.visible_chat_rows ==> up.chat_scroll + v.visible_chat_rows == v.chat_scroll
            &&& v.chat_scroll < v.visible_chat_rows ==> up.chat_scroll == 0
            &&& layout_step(up, area_height, rows).chat_scroll <= up.chat_scroll
        }),
{
}

/// The wheel down follows the output again exactly when it reaches the end, and never
/// scrolls past it.
pub proof fn law_wheel_down_follows_at_end(v: ChatViewState, area_height: u16, rows: u16)
    requires
        view_wf(v),
    ensures
        ({
            let down = mouse_step(v, MouseInput::ScrollDown);
            let next = layout_step(down, area_height, rows);
            &&& v.chat_scroll <= down.chat_scroll <= v.max_chat_scroll
            &&& down.follow_chat_output == (down.chat_scroll == v.max_chat_scroll)
            &&& down.chat_scroll == v.max_chat_scroll ==> next.chat_scroll == next.max_chat_scroll
            &&& down.chat_scroll < v.max_chat_scroll ==> next.chat_scroll <= down.chat_scroll
        }),
{
}

/// End follows the output: the next layout shows the end of the history.
pub proof fn law_end_follows_output(v: ChatViewState, control_only: bool, area_height: u16, rows: u16)
    ensures
        key_step(v, KeyInput::End, control_only, true).0.follow_chat_output,
        layout_step(key_step(v, KeyInput::End, control_only, true).0, area_height, rows).chat_scroll
            == rows.saturating_sub(inner_size(area_height)),
        key_step(v, KeyInput::End, control_only, true).0.input == v.input,
{
}

/// Typing a character and then pressing Backspace leaves the typed message as it was; Ctrl+X
/// quits and leaves the view as it was.
pub proof fn law_type_then_backspace(v: ChatViewState, c: char, control_only: bool)
    requires
        !(c == 'x' && control_only),
    ensures
        key_step(v, KeyInput::Char(c), control_only, true).0.input == v.input.push(c),
        key_step(key_step(v, KeyInput::Char(c), control_only, true).0, KeyInput::Backspace, control_only, true).0.input
            == v.input,
        key_step(v, KeyInput::Char('x'), true, true) == (v, UiAction::Quit),
{
    assert(v.input.push(c).drop_last() =~= v.input);
}

/// The width of a bordered area's inside: two columns less, and at least one.
pub open spec fn inner_size(outer: u16) -> u16 {
    at_least_one(outer.saturating_sub(2))
}

/// Number of rows a text takes: its lines, at least one, as a `u16`.
pub open spec fn row_count(text: Seq<char>) -> u16 {
    (if line_count(text) == 0 { 1 } else { line_count(text) }) as u16
}

/// The view after the chat history is laid out in an area of the given size holding
/// `rows` rows of text: the furthest scroll position is recomputed, and the history
/// either follows the output to its end or stays where it was, within bounds.
pub open spec fn layout_step(v: ChatViewState, area_height: u16, rows: u16) -> ChatViewState {
    let visible = inner_size(area_height);
    let max = rows.saturating_sub(visible);
    ChatViewState {
        visible_chat_rows: visible,
        max_chat_scroll: max,
        chat_scroll: if v.follow_chat_output { max } else { min_u16(v.chat_scroll, max) },
        ..v
    }
}

/// How the message being typed is laid out.
pub struct InputLayout {
    /// Columns available to the text.
    pub input_width: u16,
    /// The typed message, wrapped to `input_width`.
    pub wrapped_input: String,
    /// Rows the wrapped message takes.
    pub input_rows: u16,
    /// Outer height of the input box: the rows plus its border, at most the window height
    /// less four rows (and at least three).
    pub input_height: u16,
}

/// Where the cursor goes in the input box.
pub struct CursorPlacement {
    /// First row of the wrapped message shown.
    pub input_scroll: u16,
    /// Column of the cursor inside the border.
    pub column: u16,
    /// Row of the cursor inside the border, counted from the first row shown.
    pub visible_row: u16,
}

/// Rows the typed message takes when the window is `area_width` columns wide.
pub open spec fn input_rows_spec(input: Seq<char>, area_width: u16) -> u16 {
    row_count(break_every(input, effective_width(inner_size(area_width))))
}

impl View for ChatView {
    type V = ChatViewState;

    closed spec fn view(&self) -> ChatViewState {
        ChatViewState {
            input: self.input@,
            chat_scroll: self.chat_scroll,
            follow_chat_output: self.follow_chat_output,
            max_chat_scroll: self.max_chat_scroll,
            visible_chat_rows: self.visible_chat_rows,
        }
    }
}

impl ChatView {
    /// Holds the invariant of the view.
    pub open spec fn wf(&self) -> bool {
        view_wf(self@)
    }

    /// Nothing typed, the history at its top and following the output.
    pub fn new() -> (view: ChatView)
        ensures
            view.wf(),
            view@ == (ChatViewState {
                input: Seq::empty(),
                chat_scroll: 0,
                follow_chat_output: true,
                max_chat_scroll: 0,
                visible_chat_rows: 1,
            }),
    {
        ChatView {
            input: String::new(),
            chat_scroll: 0,
            follow_chat_output: true,
            max_chat_scroll: 0,
            visible_chat_rows: 1,
        }
    }

    /// The message being typed.
    pub fn input(&self) -> (input: &str)
        ensures
            input@ == self@.input,
    {
        self.input.as_str()
    }

    /// The first history row shown.
    pub fn chat_scroll(&self) -> (scroll: u16)
        ensures
            scroll == self@.chat_scroll,
    {
        self.chat_scroll
    }

    /// Handles a key event; `control_only` tells whether Control and no other modifier was
    /// held, `is_press` whether the key went down.
    pub fn handle_key(&mut self, key: KeyInput, control_only: bool, is_press: bool) -> (action:
        UiAction)
        requires
            old(self).wf(),
        ensures
            final(self).wf(),
            final(self)@ == key_step(old(self)@, key, control_only, is_press).0,
            match key_step(old(self)@, key, control_only, is_press).1 {
                UiAction::Submit(_) => false,
                UiAction::Quit => action is Quit,
                UiAction::Continue => if is_press && key is Enter {
                    action matches UiAction::Submit(m) && m@ == old(self)@.input
                } else {
                    action is Continue
                },
            },
            is_press && key is Enter ==> final(self)@.follow_chat_output && final(self)@.input.len() == 0,
            is_press && key is End ==> final(self)@.follow_chat_output && final(self)@.input == old(self)@.input,
            is_press && key is PageDown ==> (final(self)@.follow_chat_output <==> final(self)@.chat_scroll
                == final(self)@.max_chat_scroll),
            is_press && key is PageUp ==> !final(self)@.follow_chat_output && final(self)@.chat_scroll
                <= old(self)@.chat_scroll,
    {
        if !is_press {
            return UiAction::Continue;
        }
        match key {
            KeyInput::Char(c) => {
                if c == 'x' && control_only {
                    UiAction::Quit
                } else {
                    string_push(&mut self.input, c);
                    UiAction::Continue
                }
            },
            KeyInput::PageUp => {
                self.chat_scroll = self.chat_scroll.saturating_sub(self.visible_chat_rows);
                self.follow_chat_output = false;
                UiAction::Continue
            },
            KeyInput::PageDown => {
                let s = self.chat_scroll.saturating_add(self.visible_chat_rows);
                self.chat_scroll = if s <= self.max_chat_scroll { s } else { self.max_chat_scroll };
                self.follow_chat_output = self.chat_scroll == self.max_chat_scroll;
                UiAction::Continue
            },
            KeyInput::End => {
                self.follow_chat_output = true;
                UiAction::Continue
            },
            KeyInput::Enter => {
                let mut submitted = String::new();
                std::mem::swap(&mut submitted, &mut self.input);
                self.follow_chat_output = true;
                UiAction::Submit(submitted)
            },
            KeyInput::Backspace => {
                let _ = string_pop(&mut self.input);
                UiAction::Continue
            },
            KeyInput::Esc => UiAction::Continue,
            KeyInput::Other => UiAction::Continue,
        }
    }

    /// Handles a mouse event.
    pub fn handle_mouse(&mut self, mouse: MouseInput)
        requires
            old(self).wf(),
        ensures
            final(self).wf(),
            final(self)@ == mouse_step(old(self)@, mouse),
            mouse is ScrollUp ==> !final(self)@.follow_chat_output && final(self)@.chat_scroll
                <= old(self)@.chat_scroll,
            mouse is ScrollDown ==> (final(self)@.follow_chat_output <==> final(self)@.chat_scroll
                == final(self)@.max_chat_scroll),
    {
        match mouse {
            MouseInput::ScrollUp => {
                self.chat_scroll = self.chat_scroll.saturating_sub(MOUSE_SCROLL_LINES);
                self.follow_chat_output = false;
            },
            MouseInput::ScrollDown => {
                let s = self.chat_scroll.saturating_add(MOUSE_SCROLL_LINES);
                self.chat_scroll = if s <= self.max_chat_scroll { s } else { self.max_chat_scroll };
                self.follow_chat_output = self.chat_scroll == self.max_chat_scroll;
            },
            MouseInput::Other => {},
        }
    }

    /// Whether the input box height can be computed for a window `area_width` columns
    /// wide: the message rows plus the two border rows must fit in a `u16`.
    pub fn input_rows_fit(&self, area_width: u16) -> (fits: bool)
        ensures
            fits == (input_rows_spec(self@.input, area_width) + 2 <= u16::MAX),
    {
        let input_width = area_width.saturating_sub(2);
        let input_width = if input_width == 0 { 1 } else { input_width };
        let wrapped = wrap_input(self.input.as_str(), input_width);
        let lines = count_lines(wrapped.as_str());
        let rows = (if lines == 0 { 1 } else { lines }) as u16;
        rows < u16::MAX - 1
    }

    /// Lays out the input box for a window of the given size.
    pub fn layout_input(&self, area_width: u16, area_height: u16) -> (layout: InputLayout)
        requires
            input_rows_spec(self@.input, area_width) + 2 <= u16::MAX,
        ensures
            layout.input_width == inner_size(area_width),
            layout.wrapped_input@ == break_every(self@.input, effective_width(layout.input_width)),
            layout.input_rows == input_rows_spec(self@.input, area_width),
            layout.input_height == min_u16(
                (layout.input_rows + 2) as u16,
                if area_height.saturating_sub(4) < 3 { 3 } else { area_height.saturating_sub(4) },
            ),
    {
        let input_width = area_width.saturating_sub(2);
        let input_width = if input_width == 0 { 1 } else { input_width };
        let wrapped_input = wrap_input(self.input.as_str(), input_width);
        let lines = count_lines(wrapped_input.as_str());
        let input_rows = (if lines == 0 { 1 } else { lines }) as u16;
        let max_input_height = area_height.saturating_sub(4);
        let max_input_height = if max_input_height < 3 { 3 } else { max_input_height };
        let wanted = input_rows + 2;
        let input_height = if wanted <= max_input_height { wanted } else { max_input_height };
        InputLayout { input_width, wrapped_input, input_rows, input_height }
    }

    /// Places the cursor after the typed message, in an input box of the given outer height
    /// whose text is `input_width` columns wide and `input_rows` rows high.
    pub fn place_cursor(&self, input_width: u16, input_rows: u16, input_area_height: u16) -> (cursor:
        CursorPlacement)
        requires
            input_width >= 1,
        ensures
            ({
                let typed = self@.input.len() as u16;
                let row = typed / input_width;
                &&& cursor.column == typed % input_width
                &&& cursor.input_scroll == input_rows.saturating_sub(inner_size(input_area_height))
                &&& cursor.visible_row == row.saturating_sub(cursor.input_scroll)
            }),
    {
        let visible_input_rows = input_area_height.saturating_sub(2);
        let visible_input_rows = if visible_input_rows == 0 { 1 } else { visible_input_rows };
        let typed = chars_of(self.input.as_str()).len() as u16;
        let row = typed / input_width;
        let column = typed % input_width;
        let input_scroll = input_rows.saturating_sub(visible_input_rows);
        let visible_row = row.saturating_sub(input_scroll);
        CursorPlacement { input_scroll, column, visible_row }
    }

    /// Lays the chat history out in an area of the given outer size: wraps the messages to
    /// the inner width and updates the scroll position. Returns the wrapped history.
    pub fn layout_chat(&mut self, messages: &[String], area_width: u16, area_height: u16) -> (text:
        String)
        requires
            old(self).wf(),
        ensures
            final(self).wf(),
            text@ == join_lines(
                wrapped_messages(messages@, effective_width(inner_size(area_width))),
            ),
            final(self)@ == layout_step(old(self)@, area_height, row_count(text@)),
            final(self)@.follow_chat_output == old(self)@.follow_chat_output,
            old(self)@.follow_chat_output ==> final(self)@.chat_scroll == final(self)@.max_chat_scroll,
            !old(self)@.follow_chat_output ==> final(self)@.chat_scroll <= old(self)@.chat_scroll,
    {
        let chat_width = area_width.saturating_sub(2);
        let chat_width = if chat_width == 0 { 1 } else { chat_width };
        let visible = area_height.saturating_sub(2);
        self.visible_chat_rows = if visible == 0 { 1 } else { visible };
        let text = wrap_chat_messages(messages, chat_width);
        let lines = count_lines(text.as_str());
        let chat_rows = (if lines == 0 { 1 } else { lines }) as u16;
        self.max_chat_scroll = chat_rows.saturating_sub(self.visible_chat_rows);
        if self.follow_chat_output {
            self.chat_scroll = self.max_chat_scroll;
        } else if self.max_chat_scroll < self.chat_scroll {
            self.chat_scroll = self.max_chat_scroll;
        }
        text
    }
}

} // verus!
