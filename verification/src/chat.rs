//! The messages the agent shows in the chat window: the events that start a message, stream
//! text into it and end it, each under the number of its stream. The library builds the
//! events; whoever owns the channel to the window sends them.
use vstd::prelude::*;

verus! {

/// What the agent tells the chat window: a message starts with some text, more text is
/// streamed into it, and it ends.
#[derive(Debug)]
pub enum ChatMessageEvent {
    Start { id: u64, content: String },
    Stream { id: u64, content: String },
    End { id: u64 },
}

/// What an event holds, with texts as character sequences.
pub enum EventView {
    Start(u64, Seq<char>),
    Stream(u64, Seq<char>),
    End(u64),
}

/// The content of an event.
pub open spec fn event_view(event: ChatMessageEvent) -> EventView {
    match event {
        ChatMessageEvent::Start { id, content } => EventView::Start(id, content@),
        ChatMessageEvent::Stream { id, content } => EventView::Stream(id, content@),
        ChatMessageEvent::End { id } => EventView::End(id),
    }
}

/// The text an optional event streams: the content of a `Stream` event, else nothing.
pub open spec fn streamed_text(event: Option<ChatMessageEvent>) -> Seq<char> {
    match event {
        Some(ChatMessageEvent::Stream { content, .. }) => content@,
        _ => Seq::empty(),
    }
}

/// The stream number that follows `id`: one more, wrapping to 0 after `u64::MAX` as an
/// atomic counter's `fetch_add` does.
pub open spec fn next_stream_id(id: u64) -> u64 {
    if id == u64::MAX {
        0
    } else {
        (id + 1) as u64
    }
}

/// The number handed out after `k` more streams, starting from `first`.
pub open spec fn stream_id_after(first: u64, k: nat) -> u64
    decreases k,
{
    if k == 0 {
        first
    } else {
        next_stream_id(stream_id_after(first, (k - 1) as nat))
    }
}

/// Stream numbers are handed out in order: as long as the counter has not passed
/// `u64::MAX`, the stream started `k` streams after the one numbered `first` is numbered
/// `first + k`, so the numbers of a handler's streams are distinct and increasing.
pub proof fn law_stream_numbers_increase(first: u64, k: nat)
    requires
        first + k <= u64::MAX,
    ensures
        stream_id_after(first, k) == first + k,
    decreases k,
{
    if k > 0 {
        law_stream_numbers_increase(first, (k - 1) as nat);
    }
}

/// Numbers the agent's messages and builds the events that show them; each stream it
/// starts gets its next number.
pub struct ChatMessageHandler {
    next_id: u64,
}

/// One message being written into the chat window.
pub struct ChatMessageStream {
    id: u64,
}

/// A handler whose first stream is numbered 1.
pub fn chat_message_handler() -> (handler: ChatMessageHandler)
    ensures
        handler.next_id() == 1,
{
    ChatMessageHandler { next_id: 1 }
}

/// Same as [`chat_message_handler`].
pub fn chat_message_channel() -> (handler: ChatMessageHandler)
    ensures
        handler.next_id() == 1,
{
    chat_message_handler()
}

/// The chat line announcing a tool call.
pub open spec fn tool_call_notice_spec(tool_name: Seq<char>, arguments: Seq<char>) -> Seq<char> {
    "Tool: A tool `"@ + tool_name + "` has been called with these arguments "@ + arguments
}

/// Builds the chat line announcing a tool call.
pub fn tool_call_notice(tool_name: &str, arguments: &str) -> (notice: String)
    ensures
        notice@ == tool_call_notice_spec(tool_name@, arguments@),
{
    let mut notice = String::from_str("Tool: A tool `");
    notice.append(tool_name);
    notice.append("` has been called with these arguments ");
    notice.append(arguments);
    notice
}

impl ChatMessageHandler {
    /// The number the next stream gets.
    pub closed spec fn next_id(&self) -> u64 {
        self.next_id
    }

    /// Starts a user message: the stream gets the next number, and the event to send is
    /// `Start` with `User: `.
    pub fn user(&mut self) -> (started: (ChatMessageStream, ChatMessageEvent))
        ensures
            started.0.stream_id() == old(self).next_id(),
            event_view(started.1) == EventView::Start(old(self).next_id(), "User: "@),
            final(self).next_id() == next_stream_id(old(self).next_id()),
    {
        let header = String::from_str("User: ");
        self.start_stream(header)
    }

    /// Starts an assistant message: the stream gets the next number, and the event to send
    /// is `Start` with `Assistant: `.
    pub fn assistant(&mut self) -> (started: (ChatMessageStream, ChatMessageEvent))
        ensures
            started.0.stream_id() == old(self).next_id(),
            event_view(started.1) == EventView::Start(old(self).next_id(), "Assistant: "@),
            final(self).next_id() == next_stream_id(old(self).next_id()),
    {
        let header = String::from_str("Assistant: ");
        self.start_stream(header)
    }

    /// Starts a message about a tool call, given its name and its arguments as JSON text:
    /// the stream gets the next number, and the event to send is `Start` with the notice of
    /// the call.
    pub fn tool(&mut self, tool_name: &str, arguments: &str) -> (started: (ChatMessageStream, ChatMessageEvent))
        ensures
            started.0.stream_id() == old(self).next_id(),
            event_view(started.1) == EventView::Start(
                old(self).next_id(),
                tool_call_notice_spec(tool_name@, arguments@),
            ),
            final(self).next_id() == next_stream_id(old(self).next_id()),
    {
        let content = tool_call_notice(tool_name, arguments);
        self.start_stream(content)
    }

    /// Starts a message whose text begins with `content`, under the next stream number.
    fn start_stream(&mut self, content: String) -> (started: (ChatMessageStream, ChatMessageEvent))
        ensures
            started.0.stream_id() == old(self).next_id(),
            event_view(started.1) == EventView::Start(old(self).next_id(), content@),
            final(self).next_id() == next_stream_id(old(self).next_id()),
    {
        let id = self.next_id;
        self.next_id = id.wrapping_add(1);
        (ChatMessageStream { id }, ChatMessageEvent::Start { id, content })
    }
}

impl ChatMessageStream {
    /// The number of this message's stream.
    pub closed spec fn stream_id(&self) -> u64 {
        self.id
    }

    /// The number of this message's stream.
    pub fn id(&self) -> (id: u64)
        ensures
            id == self.stream_id(),
    {
        self.id
    }

    /// Appends `message` to this message: the event to send is `Stream` with this stream's
    /// number and `message`.
    pub fn stream(&self, message: String) -> (event: ChatMessageEvent)
        ensures
            event_view(event) == EventView::Stream(self.stream_id(), message@),
    {
        ChatMessageEvent::Stream { id: self.id, content: message }
    }

    /// Ends this message, so that later text no longer reaches it: the event to send is
    /// `End` with this stream's number.
    pub fn end(self) -> (event: ChatMessageEvent)
        ensures
            event_view(event) == EventView::End(self.stream_id()),
    {
        ChatMessageEvent::End { id: self.id }
    }
}

/// The events that show the user's message in the chat window as a message of its own:
/// `Start` with `User: `, `Stream` with the message, and `End`, all under the handler's
/// next stream number.
pub fn emit_user_message(chat_message_handler: &mut ChatMessageHandler, user_message: &str) -> (events: Vec<ChatMessageEvent>)
    ensures
        events@.len() == 3,
        event_view(events@[0]) == EventView::Start(old(chat_message_handler).next_id(), "User: "@),
        event_view(events@[1]) == EventView::Stream(old(chat_message_handler).next_id(), user_message@),
        event_view(events@[2]) == EventView::End(old(chat_message_handler).next_id()),
        final(chat_message_handler).next_id() == next_stream_id(old(chat_message_handler).next_id()),
{
    let (user_stream, start) = chat_message_handler.user();
    let mut events: Vec<ChatMessageEvent> = Vec::new();
    events.push(start);
    events.push(user_stream.stream(String::from_str(user_message)));
    events.push(user_stream.end());
    events
}

} // verus!
