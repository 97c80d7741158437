//! One assistant turn: assembling the streamed reply and its tool calls, the messages of the
//! conversation, and what is recorded for each tool call.
use vstd::prelude::*;
use crate::arguments::{arguments_display, arguments_display_spec, arguments_object, arguments_object_spec, entries_view, ToolArguments};
use crate::assoc::{assoc_get, has_key, keys_distinct, lemma_key_index};
use crate::chat::{event_view, streamed_text, ChatMessageEvent, ChatMessageStream, EventView};
use crate::handlers::{request_matches, ToolRequest};
use crate::tooling::{tool_json, ToolHandler, ToolSpecification, ToolsManager};
use crate::json::{Json, JsonSpec, json_view, members_view, items_view, lemma_json_view, member, str_json};

verus! {

/// The part of a streamed tool call that one chunk carries. A delta without an index is
/// ignored.
#[derive(Debug)]
pub struct ToolCallDelta {
    pub index: Option<u64>,
    pub id: Option<String>,
    pub name: Option<String>,
    pub arguments: Option<String>,
}

/// What one streamed chunk adds to the reply: some text, and parts of tool calls.
#[derive(Debug)]
pub struct StreamDelta {
    pub content: Option<String>,
    pub tool_calls: Option<Vec<ToolCallDelta>>,
}

/// A tool call as far as it has been streamed.
#[derive(Debug)]
pub struct PendingToolCall {
    pub id: String,
    pub name: String,
    pub arguments: String,
}

/// The content of a tool call: its id, name and arguments text.
pub struct CallView {
    pub id: Seq<char>,
    pub name: Seq<char>,
    pub arguments: Seq<char>,
}

/// A tool call with nothing streamed yet.
pub open spec fn empty_call() -> CallView {
    CallView { id: Seq::empty(), name: Seq::empty(), arguments: Seq::empty() }
}

/// The content of a tool call.
pub open spec fn call_view(c: PendingToolCall) -> CallView {
    CallView { id: c.id@, name: c.name@, arguments: c.arguments@ }
}

/// An optional text, or nothing.
pub open spec fn text_or_empty(o: Option<String>) -> Seq<char> {
    match o {
        Some(s) => s@,
        None => Seq::empty(),
    }
}

/// A delta applied to a tool call: a given id replaces the id, and name and arguments
/// fragments are appended.
pub open spec fn append_delta_spec(c: CallView, d: ToolCallDelta) -> CallView {
    CallView {
        id: match d.id {
            Some(id) => id@,
            None => c.id,
        },
        name: c.name + text_or_empty(d.name),
        arguments: c.arguments + text_or_empty(d.arguments),
    }
}

impl PendingToolCall {
    /// A tool call with nothing streamed yet.
    pub fn new() -> (c: PendingToolCall)
        ensures
            call_view(c) == empty_call(),
    {
        PendingToolCall { id: String::new(), name: String::new(), arguments: String::new() }
    }

    /// Applies one streamed delta.
    pub fn append_delta(&mut self, delta: &ToolCallDelta)
        ensures
            call_view(*final(self)) == append_delta_spec(call_view(*old(self)), *delta),
    {
        if let Some(id) = &delta.id {
            self.id = id.clone();
        }
        if let Some(name) = &delta.name {
            self.name.append(name.as_str());
        } else {
            assert(self.name@ =~= self.name@ + Seq::<char>::empty());
        }
        if let Some(arguments) = &delta.arguments {
            self.arguments.append(arguments.as_str());
        } else {
            assert(self.arguments@ =~= self.arguments@ + Seq::<char>::empty());
        }
    }

    /// A copy of this tool call.
    pub fn duplicate(&self) -> (c: PendingToolCall)
        ensures
            call_view(c) == call_view(*self),
    {
        PendingToolCall { id: self.id.clone(), name: self.name.clone(), arguments: self.arguments.clone() }
    }

    /// The named arguments handed to the tool: the members of the model's JSON object;
    /// none when the JSON is not an object; `raw` holding the whole text when it is not
    /// JSON.
    pub fn arguments_object(&self) -> (arguments: ToolArguments)
        ensures
            arguments.wf(),
            entries_view(arguments.entries@) == arguments_object_spec(self.arguments@),
    {
        arguments_object(self.arguments.as_str())
    }

    /// The arguments as shown to the user: the model's JSON written back compactly, or
    /// `{"raw": ..}` around the text when it is not JSON.
    pub fn arguments_display(&self) -> (display: String)
        ensures
            display@ == arguments_display_spec(self.arguments@),
    {
        arguments_display(self.arguments.as_str())
    }
}

/// The keys of the calls are strictly increasing.
pub open spec fn calls_sorted(calls: Seq<(u64, CallView)>) -> bool {
    forall|i: int, j: int| 0 <= i < j < calls.len() ==> calls[i].0 < calls[j].0
}

/// How many calls have a key below `index`.
pub open spec fn count_below(calls: Seq<(u64, CallView)>, index: u64) -> nat
    decreases calls.len(),
{
    if calls.len() == 0 {
        0
    } else {
        count_below(calls.drop_last(), index) + if calls.last().0 < index { 1nat } else { 0nat }
    }
}

/// The calls after one delta: a delta with an index is applied to the call of that index,
/// which is created empty, in index order, when there is none yet.
pub open spec fn add_delta_spec(calls: Seq<(u64, CallView)>, d: ToolCallDelta) -> Seq<(u64, CallView)> {
    match d.index {
        None => calls,
        Some(index) => {
            let p = count_below(calls, index) as int;
            if p < calls.len() && calls[p].0 == index {
                calls.update(p, (index, append_delta_spec(calls[p].1, d)))
            } else {
                calls.insert(p, (index, append_delta_spec(empty_call(), d)))
            }
        },
    }
}

/// The calls after a list of deltas, applied in order.
pub open spec fn add_deltas_spec(calls: Seq<(u64, CallView)>, ds: Seq<ToolCallDelta>) -> Seq<(u64, CallView)>
    decreases ds.len(),
{
    if ds.len() == 0 {
        calls
    } else {
        add_delta_spec(add_deltas_spec(calls, ds.drop_last()), ds.last())
    }
}

/// Chunks compose: applying the deltas of one chunk and then those of the next gives the
/// same calls as applying all their deltas, in order, at once. So the tool calls of a
/// streamed turn are those that [`law_tool_call_assembly`] describes for the deltas of all
/// its chunks put together.
pub proof fn law_chunks_compose(calls: Seq<(u64, CallView)>, first: Seq<ToolCallDelta>, second: Seq<ToolCallDelta>)
    ensures
        add_deltas_spec(add_deltas_spec(calls, first), second) == add_deltas_spec(calls, first + second),
    decreases second.len(),
{
    if second.len() == 0 {
        assert(first + second =~= first);
    } else {
        law_chunks_compose(calls, first, second.drop_last());
        assert((first + second).drop_last() =~= first + second.drop_last());
        assert((first + second).last() == second.last());
    }
}

/// In sorted calls, those counted below `index` come first and the rest have keys at
/// least `index`.
pub proof fn lemma_count_below(calls: Seq<(u64, CallView)>, index: u64)
    requires
        calls_sorted(calls),
    ensures
        count_below(calls, index) <= calls.len(),
        forall|j: int| 0 <= j < count_below(calls, index) ==> calls[j].0 < index,
        forall|j: int| count_below(calls, index) <= j < calls.len() ==> calls[j].0 >= index,
    decreases calls.len(),
{
    if calls.len() > 0 {
        let d = calls.drop_last();
        lemma_count_below(d, index);
        assert forall|j: int| 0 <= j < d.len() implies d[j] == calls[j] by {}
        if calls.last().0 < index {
            assert(count_below(d, index) == d.len()) by {
                if count_below(d, index) < d.len() {
                    let j = count_below(d, index) as int;
                    assert(calls[j].0 < calls[calls.len() - 1].0);
                }
            }
        }
    }
}

proof fn lemma_add_delta_sorted(calls: Seq<(u64, CallView)>, d: ToolCallDelta)
    requires
        calls_sorted(calls),
    ensures
        calls_sorted(add_delta_spec(calls, d)),
{
    if let Some(index) = d.index {
        lemma_count_below(calls, index);
        let p = count_below(calls, index) as int;
        let r = add_delta_spec(calls, d);
        if !(p < calls.len() && calls[p].0 == index) {
            assert forall|i: int, j: int| 0 <= i < j < r.len() implies r[i].0 < r[j].0 by {
                if j < p {
                } else if j == p {
                } else if i < p {
                    assert(r[j] == calls[j - 1]);
                } else if i == p {
                    assert(r[j] == calls[j - 1]);
                    assert(calls[j - 1].0 >= index);
                } else {
                    assert(r[i] == calls[i - 1] && r[j] == calls[j - 1]);
                }
            }
        }
    }
}

/// The call the deltas with `index` make: those deltas applied, in order, to an empty call.
pub open spec fn call_from_deltas(ds: Seq<ToolCallDelta>, index: u64) -> CallView
    decreases ds.len(),
{
    if ds.len() == 0 {
        empty_call()
    } else if ds.last().index == Some(index) {
        append_delta_spec(call_from_deltas(ds.drop_last(), index), ds.last())
    } else {
        call_from_deltas(ds.drop_last(), index)
    }
}

/// Whether some delta carries `index`.
pub open spec fn has_index(ds: Seq<ToolCallDelta>, index: u64) -> bool {
    exists|m: int| 0 <= m < ds.len() && ds[m].index == Some(index)
}

proof fn lemma_call_from_no_deltas(ds: Seq<ToolCallDelta>, index: u64)
    requires
        !has_index(ds, index),
    ensures
        call_from_deltas(ds, index) == empty_call(),
    decreases ds.len(),
{
    if ds.len() > 0 {
        let d = ds.drop_last();
        assert(!has_index(d, index)) by {
            if has_index(d, index) {
                let m = choose|m: int| 0 <= m < d.len() && d[m].index == Some(index);
                assert(ds[m] == d[m]);
            }
        }
        lemma_call_from_no_deltas(d, index);
    }
}

/// How streamed tool calls are assembled: whatever deltas arrive, the calls come out in
/// increasing index order, one per index that some delta carries, and each call is what the
/// deltas with its index make, in the order they arrived (ids replaced, names and arguments
/// appended).
pub proof fn law_tool_call_assembly(ds: Seq<ToolCallDelta>)
    ensures
        calls_sorted(add_deltas_spec(Seq::empty(), ds)),
        forall|j: int|
            0 <= j < add_deltas_spec(Seq::empty(), ds).len() ==> (#[trigger] add_deltas_spec(
                Seq::empty(),
                ds,
            )[j]).1 == call_from_deltas(ds, add_deltas_spec(Seq::empty(), ds)[j].0),
        forall|index: u64|
            has_index(ds, index) <==> exists|j: int|
                0 <= j < add_deltas_spec(Seq::empty(), ds).len() && (#[trigger] add_deltas_spec(
                    Seq::empty(),
                    ds,
                )[j]).0 == index,
    decreases ds.len(),
{
    let r = add_deltas_spec(Seq::empty(), ds);
    if ds.len() == 0 {
        assert forall|index: u64| !has_index(ds, index) by {}
    } else {
        let dp = ds.drop_last();
        let d = ds.last();
        let s = add_deltas_spec(Seq::empty(), dp);
        law_tool_call_assembly(dp);
        lemma_add_delta_sorted(s, d);
        assert(r == add_delta_spec(s, d));
        assert forall|index: u64| has_index(ds, index) <==> (has_index(dp, index) || d.index == Some(index)) by {
            if has_index(ds, index) {
                let m = choose|m: int| 0 <= m < ds.len() && ds[m].index == Some(index);
                if m < dp.len() {
                    assert(dp[m] == ds[m]);
                }
            }
            if has_index(dp, index) {
                let m = choose|m: int| 0 <= m < dp.len() && dp[m].index == Some(index);
                assert(dp[m] == ds[m]);
            }
            if d.index == Some(index) {
                assert(ds[ds.len() - 1] == d);
            }
        }
        match d.index {
            None => {
                assert forall|j: int| 0 <= j < r.len() implies (#[trigger] r[j]).1 == call_from_deltas(ds, r[j].0) by {}
                assert forall|index: u64| has_index(ds, index) <==> exists|j: int| 0 <= j < r.len() && (#[trigger] r[j]).0 == index by {
                    if has_index(dp, index) {
                        let j = choose|j: int| 0 <= j < s.len() && (#[trigger] s[j]).0 == index;
                        assert(r[j].0 == index);
                    }
                }
            },
            Some(i) => {
                lemma_count_below(s, i);
                let p = count_below(s, i) as int;
                if p < s.len() && s[p].0 == i {
                    assert forall|j: int| 0 <= j < r.len() implies (#[trigger] r[j]).1 == call_from_deltas(ds, r[j].0) by {
                        if j != p {
                            assert(r[j] == s[j]);
                            assert(s[j].0 != s[p].0);
                        }
                    }
                    assert forall|index: u64| has_index(ds, index) <==> exists|j: int| 0 <= j < r.len() && (#[trigger] r[j]).0 == index by {
                        if has_index(dp, index) {
                            let j = choose|j: int| 0 <= j < s.len() && (#[trigger] s[j]).0 == index;
                            assert(r[j].0 == index);
                        }
                        if d.index == Some(index) {
                            assert(r[p].0 == index);
                        }
                        if exists|j: int| 0 <= j < r.len() && (#[trigger] r[j]).0 == index {
                            let j = choose|j: int| 0 <= j < r.len() && (#[trigger] r[j]).0 == index;
                            assert(r[j].0 == s[j].0);
                        }
                    }
                } else {
                    assert(!has_index(dp, i)) by {
                        if has_index(dp, i) {
                            let j = choose|j: int| 0 <= j < s.len() && (#[trigger] s[j]).0 == i;
                            if j < p {
                                assert(s[j].0 < i);
                            } else if j > p {
                                assert(s[p].0 < s[j].0);
                            }
                        }
                    }
                    lemma_call_from_no_deltas(dp, i);
                    assert forall|j: int| 0 <= j < r.len() implies (#[trigger] r[j]).1 == call_from_deltas(ds, r[j].0) by {
                        if j < p {
                            assert(r[j] == s[j]);
                            assert(s[j].0 < i);
                        } else if j > p {
                            assert(r[j] == s[j - 1]);
                            assert(s[j - 1].0 >= i);
                            assert(s[j - 1].0 != i) by {
                                if s[j - 1].0 == i {
                                    assert(has_index(dp, i) <==> exists|q: int| 0 <= q < s.len() && (#[trigger] s[q]).0 == i);
                                }
                            }
                        }
                    }
                    assert forall|index: u64| has_index(ds, index) <==> exists|j: int| 0 <= j < r.len() && (#[trigger] r[j]).0 == index by {
                        if has_index(dp, index) {
                            let j = choose|j: int| 0 <= j < s.len() && (#[trigger] s[j]).0 == index;
                            if j < p {
                                assert(r[j].0 == index);
                            } else {
                                assert(r[j + 1] == s[j]);
                            }
                        }
                        if d.index == Some(index) {
                            assert(r[p].0 == index);
                        }
                        if exists|j: int| 0 <= j < r.len() && (#[trigger] r[j]).0 == index {
                            let j = choose|j: int| 0 <= j < r.len() && (#[trigger] r[j]).0 == index;
                            if j < p {
                                assert(r[j] == s[j]);
                            } else if j > p {
                                assert(r[j] == s[j - 1]);
                            }
                        }
                    }
                }
            },
        }
    }
}

/// Accumulates the tool calls of one streamed turn, by their index.
pub struct ToolCallAccumulator {
    calls: Vec<(u64, PendingToolCall)>,
}

/// The content of accumulated calls.
pub open spec fn calls_view(calls: Seq<(u64, PendingToolCall)>) -> Seq<(u64, CallView)> {
    Seq::new(calls.len(), |i: int| (calls[i].0, call_view(calls[i].1)))
}

impl View for ToolCallAccumulator {
    type V = Seq<(u64, CallView)>;

    closed spec fn view(&self) -> Seq<(u64, CallView)> {
        calls_view(self.calls@)
    }
}

impl ToolCallAccumulator {
    /// The calls are kept in increasing index order.
    pub open spec fn wf(&self) -> bool {
        calls_sorted(self@)
    }

    /// No calls yet.
    pub fn new() -> (acc: ToolCallAccumulator)
        ensures
            acc.wf(),
            acc@ == Seq::<(u64, CallView)>::empty(),
    {
        let acc = ToolCallAccumulator { calls: Vec::new() };
        assert(acc@ =~= Seq::<(u64, CallView)>::empty());
        acc
    }

    /// Applies one delta.
    pub fn add_delta(&mut self, delta: &ToolCallDelta)
        requires
            old(self).wf(),
        ensures
            final(self).wf(),
            final(self)@ == add_delta_spec(old(self)@, *delta),
    {
        let ghost before = self@;
        proof {
            lemma_add_delta_sorted(before, *delta);
        }
        match delta.index {
            None => {},
            Some(index) => {
                proof {
                    lemma_count_below(before, index);
                }
                let mut p: usize = 0;
                while p < self.calls.len() && self.calls[p].0 < index
                    invariant
                        before == calls_view(self.calls@),
                        calls_sorted(before),
                        p <= self.calls@.len(),
                        forall|j: int| 0 <= j < p ==> self.calls@[j].0 < index,
                    decreases self.calls.len() - p,
                {
                    p = p + 1;
                }
                assert(p == count_below(before, index)) by {
                    let c = count_below(before, index) as int;
                    if p < c {
                        assert(before[p as int].0 < index);
                    } else if p > c {
                        assert(before[c].0 >= index);
                        assert(self.calls@[c].0 < index);
                    }
                }
                if p < self.calls.len() && self.calls[p].0 == index {
                    self.calls[p].1.append_delta(delta);
                    assert(self@ =~= before.update(
                        p as int,
                        (index, append_delta_spec(before[p as int].1, *delta)),
                    ));
                } else {
                    let mut call = PendingToolCall::new();
                    call.append_delta(delta);
                    self.calls.insert(p, (index, call));
                    assert(self@ =~= before.insert(
                        p as int,
                        (index, append_delta_spec(empty_call(), *delta)),
                    ));
                }
            },
        }
    }

    /// Applies the tool-call deltas of one chunk, in order.
    pub fn add_deltas(&mut self, deltas: &Vec<ToolCallDelta>)
        requires
            old(self).wf(),
        ensures
            final(self).wf(),
            final(self)@ == add_deltas_spec(old(self)@, deltas@),
    {
        let ghost start = self@;
        let mut i: usize = 0;
        while i < deltas.len()
            invariant
                self.wf(),
                i <= deltas@.len(),
                self@ == add_deltas_spec(start, deltas@.take(i as int)),
            decreases deltas.len() - i,
        {
            assert(deltas@.take(i + 1).drop_last() == deltas@.take(i as int));
            self.add_delta(&deltas[i]);
            i = i + 1;
        }
        assert(deltas@.take(i as int) == deltas@);
    }

    /// The calls, in increasing index order.
    pub fn into_calls(self) -> (calls: Vec<PendingToolCall>)
        ensures
            calls@.len() == self@.len(),
            forall|i: int| 0 <= i < calls@.len() ==> call_view(#[trigger] calls@[i]) == self@[i].1,
    {
        let mut calls: Vec<PendingToolCall> = Vec::new();
        let mut i: usize = 0;
        while i < self.calls.len()
            invariant
                i <= self.calls@.len(),
                calls@.len() == i,
                forall|k: int| 0 <= k < i ==> call_view(#[trigger] calls@[k]) == call_view(self.calls@[k].1),
            decreases self.calls.len() - i,
        {
            calls.push(self.calls[i].1.duplicate());
            i = i + 1;
        }
        calls
    }
}

/// Applies the tool-call deltas of one chunk, if it has any, in order.
pub fn collect_tool_call_deltas(delta: &StreamDelta, tool_calls: &mut ToolCallAccumulator)
    requires
        old(tool_calls).wf(),
    ensures
        final(tool_calls).wf(),
        final(tool_calls)@ == match delta.tool_calls {
            Some(ds) => add_deltas_spec(old(tool_calls)@, ds@),
            None => old(tool_calls)@,
        },
{
    match &delta.tool_calls {
        Some(ds) => tool_calls.add_deltas(ds),
        None => {},
    }
}

/// The reply of the assistant in one turn: its text and the tool calls it asked for.
#[derive(Debug)]
pub struct AssistantTurn {
    pub content: String,
    pub tool_calls: Vec<PendingToolCall>,
}

/// Assembles an assistant turn from the chunks of a streamed reply.
pub struct TurnBuilder {
    content: String,
    tool_calls: ToolCallAccumulator,
}

impl TurnBuilder {
    /// The text so far.
    pub closed spec fn content(&self) -> Seq<char> {
        self.content@
    }

    /// The tool calls so far, by index.
    pub closed spec fn calls(&self) -> Seq<(u64, CallView)> {
        self.tool_calls@
    }

    /// The tool calls are kept in index order.
    pub closed spec fn wf(&self) -> bool {
        self.tool_calls.wf()
    }

    /// Nothing streamed yet.
    pub fn new() -> (b: TurnBuilder)
        ensures
            b.wf(),
            b.content() == Seq::<char>::empty(),
            b.calls() == Seq::<(u64, CallView)>::empty(),
    {
        TurnBuilder { content: String::new(), tool_calls: ToolCallAccumulator::new() }
    }

    /// Applies one chunk: its text is appended, and its tool-call deltas are applied in
    /// order.
    pub fn apply(&mut self, delta: &StreamDelta)
        requires
            old(self).wf(),
        ensures
            final(self).wf(),
            final(self).content() == old(self).content() + text_or_empty(delta.content),
            final(self).calls() == match delta.tool_calls {
                Some(ds) => add_deltas_spec(old(self).calls(), ds@),
                None => old(self).calls(),
            },
    {
        match &delta.content {
            Some(text) => self.content.append(text.as_str()),
            None => {
                assert(self.content@ =~= self.content@ + Seq::<char>::empty());
            },
        }
        collect_tool_call_deltas(delta, &mut self.tool_calls);
    }

    /// Applies one chunk as [`TurnBuilder::apply`] does and gives the event that shows its
    /// text in the chat message `chat`: a `Stream` event with that text when the chunk
    /// carries text, none otherwise. So the text streamed to the chat is the text the turn
    /// gains.
    pub fn apply_streamed(&mut self, delta: &StreamDelta, chat: &ChatMessageStream) -> (event: Option<ChatMessageEvent>)
        requires
            old(self).wf(),
        ensures
            final(self).wf(),
            final(self).content() == old(self).content() + text_or_empty(delta.content),
            final(self).calls() == match delta.tool_calls {
                Some(ds) => add_deltas_spec(old(self).calls(), ds@),
                None => old(self).calls(),
            },
            match delta.content {
                Some(text) => event matches Some(e) && event_view(e) == EventView::Stream(chat.stream_id(), text@),
                None => event is None,
            },
            final(self).content() == old(self).content() + streamed_text(event),
    {
        let event = match &delta.content {
            Some(text) => Some(chat.stream(text.clone())),
            None => None,
        };
        self.apply(delta);
        event
    }

    /// The finished turn: the whole text, and the tool calls in index order.
    pub fn finish(self) -> (turn: AssistantTurn)
        ensures
            turn.content@ == self.content(),
            turn.tool_calls@.len() == self.calls().len(),
            forall|i: int|
                0 <= i < turn.tool_calls@.len() ==> call_view(#[trigger] turn.tool_calls@[i])
                    == self.calls()[i].1,
    {
        AssistantTurn { content: self.content, tool_calls: self.tool_calls.into_calls() }
    }
}

/// A message of the conversation with the model.
#[allow(inconsistent_fields)]
pub enum ChatMessage {
    System { content: String },
    User { content: String },
    /// The assistant's reply; its text is absent when it only called tools.
    Assistant { content: Option<String>, tool_calls: Vec<PendingToolCall> },
    /// The result of one tool call.
    Tool { tool_call_id: String, content: String },
}

/// The message recording an assistant turn: without tool calls, its text (even when empty);
/// with tool calls, its text unless that is empty, and the calls.
pub open spec fn turn_message_matches(turn: AssistantTurn, message: ChatMessage) -> bool {
    match message {
        ChatMessage::Assistant { content, tool_calls } => {
            &&& tool_calls@.len() == turn.tool_calls@.len()
            &&& forall|i: int|
                0 <= i < tool_calls@.len() ==> call_view(#[trigger] tool_calls@[i]) == call_view(
                    turn.tool_calls@[i],
                )
            &&& if turn.tool_calls@.len() == 0 {
                content matches Some(c) && c@ == turn.content@
            } else if turn.content@.len() == 0 {
                content is None
            } else {
                content matches Some(c) && c@ == turn.content@
            }
        },
        _ => false,
    }
}

fn copy_calls(calls: &Vec<PendingToolCall>) -> (copy: Vec<PendingToolCall>)
    ensures
        copy@.len() == calls@.len(),
        forall|i: int| 0 <= i < copy@.len() ==> call_view(#[trigger] copy@[i]) == call_view(calls@[i]),
{
    let mut copy = Vec::new();
    let mut i: usize = 0;
    while i < calls.len()
        invariant
            i <= calls@.len(),
            copy@.len() == i,
            forall|k: int| 0 <= k < i ==> call_view(#[trigger] copy@[k]) == call_view(calls@[k]),
        decreases calls.len() - i,
    {
        copy.push(calls[i].duplicate());
        i = i + 1;
    }
    copy
}

impl AssistantTurn {
    /// The message recording this turn in the conversation.
    pub fn message(&self) -> (message: ChatMessage)
        ensures
            turn_message_matches(*self, message),
    {
        let tool_calls = copy_calls(&self.tool_calls);
        if self.tool_calls.len() == 0 {
            return ChatMessage::Assistant { content: Some(self.content.clone()), tool_calls };
        }
        let content = if crate::text::chars_of(self.content.as_str()).len() == 0 {
            None
        } else {
            Some(self.content.clone())
        };
        ChatMessage::Assistant { content, tool_calls }
    }
}

/// A tool call as the model sees it:
/// `{"id": .., "type": "function", "function": {"name": .., "arguments": ..}}`.
pub open spec fn call_json(c: CallView) -> JsonSpec {
    JsonSpec::Object(
        seq![
            ("id"@, JsonSpec::Str(c.id)),
            ("type"@, JsonSpec::Str("function"@)),
            (
                "function"@,
                JsonSpec::Object(
                    seq![("name"@, JsonSpec::Str(c.name)), ("arguments"@, JsonSpec::Str(c.arguments))],
                ),
            ),
        ],
    )
}

/// A message as the model sees it: its role and content, a tool call's id for a tool
/// result, and the tool calls of an assistant reply that made any (the content of such a
/// reply being `null` when it has no text).
pub open spec fn message_json(m: ChatMessage) -> JsonSpec {
    match m {
        ChatMessage::System { content } => JsonSpec::Object(
            seq![("role"@, JsonSpec::Str("system"@)), ("content"@, JsonSpec::Str(content@))],
        ),
        ChatMessage::User { content } => JsonSpec::Object(
            seq![("role"@, JsonSpec::Str("user"@)), ("content"@, JsonSpec::Str(content@))],
        ),
        ChatMessage::Assistant { content, tool_calls } => {
            let text = match content {
                Some(c) => JsonSpec::Str(c@),
                None => JsonSpec::Null,
            };
            if tool_calls@.len() == 0 {
                JsonSpec::Object(seq![("role"@, JsonSpec::Str("assistant"@)), ("content"@, text)])
            } else {
                JsonSpec::Object(
                    seq![
                        ("role"@, JsonSpec::Str("assistant"@)),
                        ("content"@, text),
                        (
                            "tool_calls"@,
                            JsonSpec::Array(
                                Seq::new(tool_calls@.len(), |i: int| call_json(call_view(tool_calls@[i]))),
                            ),
                        ),
                    ],
                )
            }
        },
        ChatMessage::Tool { tool_call_id, content } => JsonSpec::Object(
            seq![
                ("role"@, JsonSpec::Str("tool"@)),
                ("tool_call_id"@, JsonSpec::Str(tool_call_id@)),
                ("content"@, JsonSpec::Str(content@)),
            ],
        ),
    }
}

/// The text of a message's `content` member, as the model sees it.
pub open spec fn content_member(m: ChatMessage) -> Option<JsonSpec> {
    match message_json(m) {
        JsonSpec::Object(members) => assoc_get(members, "content"@),
        _ => None,
    }
}

/// The JSON of an assistant message keeps its text: its `content` member is the text as a
/// string whenever there is one, with or without tool calls, and null only when there is
/// none.
pub proof fn law_assistant_json_keeps_text(content: Option<String>, tool_calls: Vec<PendingToolCall>)
    ensures
        content_member(ChatMessage::Assistant { content, tool_calls }) == Some(
            match content {
                Some(c) => JsonSpec::Str(c@),
                None => JsonSpec::Null,
            },
        ),
{
    reveal_strlit("role");
    reveal_strlit("content");
    reveal_strlit("tool_calls");
    let m = ChatMessage::Assistant { content, tool_calls };
    let text = match content {
        Some(c) => JsonSpec::Str(c@),
        None => JsonSpec::Null,
    };
    match message_json(m) {
        JsonSpec::Object(members) => {
            assert(members[1].0 == "content"@);
            assert("role"@.len() != "content"@.len());
            assert("tool_calls"@.len() != "content"@.len());
            assert(keys_distinct(members));
            lemma_key_index(members, "content"@, 1);
            assert(has_key(members, "content"@));
            assert(members[1].1 == text);
        },
        _ => {},
    }
}

/// The value of member `key` of a message's JSON, as the model sees it.
pub open spec fn message_member(m: ChatMessage, key: Seq<char>) -> Option<JsonSpec> {
    match message_json(m) {
        JsonSpec::Object(members) => assoc_get(members, key),
        _ => None,
    }
}

/// Every message carries its role and its text: system, user and tool messages have their
/// text as `content`, a tool message also has the id of the call it answers, and each has
/// the role of its kind.
pub proof fn law_message_json_members(m: ChatMessage)
    ensures
        message_member(m, "role"@) == Some(JsonSpec::Str(match m {
            ChatMessage::System { .. } => "system"@,
            ChatMessage::User { .. } => "user"@,
            ChatMessage::Assistant { .. } => "assistant"@,
            ChatMessage::Tool { .. } => "tool"@,
        })),
        m matches ChatMessage::System { content } ==> message_member(m, "content"@) == Some(JsonSpec::Str(content@)),
        m matches ChatMessage::User { content } ==> message_member(m, "content"@) == Some(JsonSpec::Str(content@)),
        m matches ChatMessage::Tool { content, .. } ==> message_member(m, "content"@) == Some(JsonSpec::Str(content@)),
        m matches ChatMessage::Tool { tool_call_id, .. } ==> message_member(m, "tool_call_id"@) == Some(
            JsonSpec::Str(tool_call_id@),
        ),
{
    reveal_strlit("role");
    reveal_strlit("content");
    reveal_strlit("tool_calls");
    reveal_strlit("tool_call_id");
    assert("role"@.len() != "content"@.len());
    assert("tool_calls"@.len() != "content"@.len());
    assert("tool_call_id"@.len() != "content"@.len());
    assert("tool_call_id"@.len() != "role"@.len());
    assert("tool_calls"@.len() != "role"@.len());
    match message_json(m) {
        JsonSpec::Object(members) => {
            assert(members[0].0 == "role"@);
            assert(keys_distinct(members));
            lemma_key_index(members, "role"@, 0);
            assert(has_key(members, "role"@));
            match m {
                ChatMessage::Tool { .. } => {
                    lemma_key_index(members, "tool_call_id"@, 1);
                    assert(has_key(members, "tool_call_id"@));
                    lemma_key_index(members, "content"@, 2);
                    assert(has_key(members, "content"@));
                },
                _ => {
                    lemma_key_index(members, "content"@, 1);
                    assert(has_key(members, "content"@));
                },
            }
        },
        _ => {},
    }
}

/// What the model is sent for an assistant turn keeps the turn's text: when the turn wrote
/// any, the `content` member of its message is that text, whether or not it called tools.
pub proof fn law_turn_message_keeps_text(turn: AssistantTurn, message: ChatMessage)
    requires
        turn_message_matches(turn, message),
        turn.content@.len() > 0,
    ensures
        content_member(message) == Some(JsonSpec::Str(turn.content@)),
{
    match message {
        ChatMessage::Assistant { content, tool_calls } => {
            law_assistant_json_keeps_text(content, tool_calls);
        },
        _ => {},
    }
}

impl PendingToolCall {
    /// This tool call as the model sees it.
    pub fn json(&self) -> (j: Json)
        ensures
            json_view(j) == call_json(call_view(*self)),
    {
        let mut function: Vec<(String, Json)> = Vec::new();
        function.push(member("name", str_json(self.name.as_str())));
        function.push(member("arguments", str_json(self.arguments.as_str())));
        let ghost fs = function@;
        let function = Json::Object(function);
        let mut members: Vec<(String, Json)> = Vec::new();
        members.push(member("id", str_json(self.id.as_str())));
        members.push(member("type", str_json("function")));
        members.push(member("function", function));
        let ghost ms = members@;
        let j = Json::Object(members);
        proof {
            lemma_json_view(function);
            lemma_json_view(j);
            assert(members_view(fs) =~= seq![("name"@, JsonSpec::Str(self.name@)), ("arguments"@, JsonSpec::Str(self.arguments@))]);
            assert(members_view(ms) =~= seq![
                ("id"@, JsonSpec::Str(self.id@)),
                ("type"@, JsonSpec::Str("function"@)),
                ("function"@, json_view(function)),
            ]);
        }
        j
    }
}

fn role(name: &str) -> (m: (String, Json))
    ensures
        m.0@ == "role"@,
        json_view(m.1) == JsonSpec::Str(name@),
{
    member("role", str_json(name))
}

impl ChatMessage {
    /// This message as the model sees it.
    pub fn json(&self) -> (j: Json)
        ensures
            json_view(j) == message_json(*self),
    {
        let mut members: Vec<(String, Json)> = Vec::new();
        match self {
            ChatMessage::System { content } => {
                members.push(role("system"));
                members.push(member("content", str_json(content.as_str())));
            },
            ChatMessage::User { content } => {
                members.push(role("user"));
                members.push(member("content", str_json(content.as_str())));
            },
            ChatMessage::Assistant { content, tool_calls } => {
                members.push(role("assistant"));
                let text = match content {
                    Some(c) => str_json(c.as_str()),
                    None => Json::Null,
                };
                members.push(member("content", text));
                if tool_calls.len() > 0 {
                    let mut calls: Vec<Json> = Vec::new();
                    let mut i: usize = 0;
                    while i < tool_calls.len()
                        invariant
                            i <= tool_calls@.len(),
                            items_view(calls@) =~= Seq::new(tool_calls@.len(), |k: int| call_json(call_view(tool_calls@[k]))).take(i as int),
                        decreases tool_calls.len() - i,
                    {
                        let ghost before = calls@;
                        calls.push(tool_calls[i].json());
                        assert(items_view(calls@) =~= items_view(before).push(call_json(call_view(tool_calls@[i as int]))));
                        i = i + 1;
                    }
                    let calls = Json::Array(calls);
                    proof {
                        lemma_json_view(calls);
                    }
                    members.push(member("tool_calls", calls));
                }
            },
            ChatMessage::Tool { tool_call_id, content } => {
                members.push(role("tool"));
                members.push(member("tool_call_id", str_json(tool_call_id.as_str())));
                members.push(member("content", str_json(content.as_str())));
            },
        }
        let ghost ms = members@;
        let j = Json::Object(members);
        proof {
            lemma_json_view(j);
            match self {
                ChatMessage::Assistant { content, tool_calls } => {
                    if tool_calls@.len() > 0 {
                        assert(Seq::new(tool_calls@.len(), |k: int| call_json(call_view(tool_calls@[k]))).take(tool_calls@.len() as int)
                            =~= Seq::new(tool_calls@.len(), |k: int| call_json(call_view(tool_calls@[k]))));
                    }
                },
                _ => {},
            }
            if let JsonSpec::Object(expected) = message_json(*self) {
                assert(members_view(ms) =~= expected);
            }
        }
        j
    }
}

/// What a tool returned: text, or a JSON value already written out.
#[derive(Debug)]
pub enum ToolOutput {
    Text(String),
    Json(String),
}

/// How a tool call ended.
#[derive(Debug)]
pub enum ToolOutcome {
    /// The user did not allow it.
    Denied,
    /// No handler is registered under the tool's name.
    NoHandler,
    /// The handler ran and returned this.
    Completed(ToolOutput),
}

/// The text recorded for the model about a tool call.
pub open spec fn outcome_content(outcome: ToolOutcome) -> Seq<char> {
    match outcome {
        ToolOutcome::Denied => "Tool execution denied by user"@,
        ToolOutcome::NoHandler => "Tool execution failed: no matching tool handler"@,
        ToolOutcome::Completed(ToolOutput::Text(t)) => t@,
        ToolOutcome::Completed(ToolOutput::Json(j)) => j@,
    }
}

/// The mark shown after a tool call in the chat window: ok when it ran, a cross otherwise.
pub open spec fn outcome_mark(outcome: ToolOutcome) -> Seq<char> {
    match outcome {
        ToolOutcome::Completed(_) => " [ok]"@,
        _ => " [x]"@,
    }
}

/// Every tool call that ran is marked ok, whatever its handler returned (text or a JSON
/// report); a call that was denied or had no handler is marked with a cross, and the two
/// marks differ.
pub proof fn law_ran_calls_marked_ok(outcome: ToolOutcome)
    ensures
        (outcome_mark(outcome) == " [ok]"@) == (outcome is Completed),
        !(outcome is Completed) ==> outcome_mark(outcome) == " [x]"@,
        " [ok]"@ != " [x]"@,
{
    reveal_strlit(" [ok]");
    reveal_strlit(" [x]");
    assert(" [ok]"@.len() != " [x]"@.len());
}

/// The mark shown after a tool call in the chat window.
pub fn tool_outcome_mark(outcome: &ToolOutcome) -> (mark: String)
    ensures
        mark@ == outcome_mark(*outcome),
        (mark@ == " [ok]"@) == (*outcome is Completed),
        !(*outcome is Completed) ==> mark@ == " [x]"@,
{
    proof {
        law_ran_calls_marked_ok(*outcome);
    }
    match outcome {
        ToolOutcome::Completed(_) => String::from_str(" [ok]"),
        _ => String::from_str(" [x]"),
    }
}

/// The text recorded for the model about a tool call.
pub fn tool_outcome_content(outcome: &ToolOutcome) -> (content: String)
    ensures
        content@ == outcome_content(*outcome),
{
    match outcome {
        ToolOutcome::Denied => String::from_str("Tool execution denied by user"),
        ToolOutcome::NoHandler => String::from_str("Tool execution failed: no matching tool handler"),
        ToolOutcome::Completed(ToolOutput::Text(t)) => t.clone(),
        ToolOutcome::Completed(ToolOutput::Json(j)) => j.clone(),
    }
}

/// What happens to a tool call once the user has answered.
#[derive(Debug)]
pub enum ToolDecision {
    /// The user did not allow it: nothing runs.
    Denied,
    /// No handler is registered under the tool's name: nothing runs.
    NoHandler,
    /// The handler registered under the tool's name runs with this request.
    Run(ToolRequest),
}

/// A tool call runs only when the user allowed it: then the handler registered under its
/// name gets what its arguments ask for; without approval nothing runs, and without a
/// handler nothing runs either.
pub open spec fn decision_matches(
    handlers: Seq<(Seq<char>, ToolHandler)>,
    c: CallView,
    approved: bool,
    decision: ToolDecision,
) -> bool {
    if !approved {
        decision is Denied
    } else {
        match assoc_get(handlers, c.name) {
            None => decision is NoHandler,
            Some(handler) => decision matches ToolDecision::Run(request) && request_matches(
                handler,
                arguments_object_spec(c.arguments),
                request,
            ),
        }
    }
}

/// Decides what happens to `call` once the user has answered `approved`.
pub fn decide_tool_call(tools: &ToolsManager, call: &PendingToolCall, approved: bool) -> (decision: ToolDecision)
    requires
        tools.wf(),
    ensures
        decision_matches(tools.handlers(), call_view(*call), approved, decision),
{
    if !approved {
        return ToolDecision::Denied;
    }
    let arguments = call.arguments_object();
    match tools.execute(call.name.as_str(), &arguments) {
        None => ToolDecision::NoHandler,
        Some(request) => ToolDecision::Run(request),
    }
}

/// Asking comes before running: whatever the call and the registered handlers, a decision
/// taken without the user's approval runs nothing, and a decision that runs a tool was
/// approved.
pub proof fn law_no_run_without_approval(
    handlers: Seq<(Seq<char>, ToolHandler)>,
    c: CallView,
    approved: bool,
    decision: ToolDecision,
)
    requires
        decision_matches(handlers, c, approved, decision),
    ensures
        !approved ==> decision is Denied,
        decision is Run ==> approved && assoc_get(handlers, c.name) is Some,
{
}

/// The question put to the user before a tool call runs.
pub open spec fn approval_prompt_spec(c: CallView) -> Seq<char> {
    "Execute tool `"@ + c.name + "` with arguments "@ + arguments_display_spec(c.arguments) + "?"@
}

/// The question put to the user before `call` runs.
pub fn approval_prompt(call: &PendingToolCall) -> (prompt: String)
    ensures
        prompt@ == approval_prompt_spec(call_view(*call)),
{
    let mut prompt = String::from_str("Execute tool `");
    prompt.append(call.name.as_str());
    prompt.append("` with arguments ");
    let display = call.arguments_display();
    prompt.append(display.as_str());
    prompt.append("?");
    prompt
}

/// `message` is a tool message under the call id `id`.
pub open spec fn answers(message: ChatMessage, id: Seq<char>) -> bool {
    message matches ChatMessage::Tool { tool_call_id, .. } && tool_call_id@ == id
}

/// `message` records, under the call id `id`, how that call ended.
pub open spec fn records_outcome(message: ChatMessage, id: Seq<char>, outcome: ToolOutcome) -> bool {
    message matches ChatMessage::Tool { tool_call_id, content } && tool_call_id@ == id && content@
        == outcome_content(outcome)
}

/// The assistant message at `i`, if it is one, is followed at once by one tool message per
/// call it made, answering the calls in order under their ids, and by no further tool
/// message.
pub open spec fn calls_answered(messages: Seq<ChatMessage>, i: int) -> bool {
    match messages[i] {
        ChatMessage::Assistant { tool_calls, .. } => {
            &&& i + tool_calls@.len() < messages.len()
            &&& forall|j: int|
                0 <= j < tool_calls@.len() ==> answers(messages[i + 1 + j], (#[trigger] tool_calls@[j]).id@)
            &&& i + tool_calls@.len() + 1 < messages.len() ==> !(messages[i + tool_calls@.len() + 1] is Tool)
        },
        _ => true,
    }
}

/// The shape of every conversation: it opens with the one system message; every assistant
/// message with `k` tool calls is followed at once by exactly `k` tool messages answering
/// those calls, in order, under their ids; and a tool message comes only after an assistant
/// message or another tool message.
pub open spec fn conversation_wf(messages: Seq<ChatMessage>) -> bool {
    &&& messages.len() >= 1
    &&& messages[0] is System
    &&& forall|i: int| 0 < i < messages.len() ==> !(#[trigger] messages[i] is System)
    &&& forall|i: int| 0 <= i < messages.len() ==> #[trigger] calls_answered(messages, i)
    &&& forall|j: int|
        0 < j < messages.len() && (#[trigger] messages[j]) is Tool ==> (messages[j - 1] is Assistant
            || messages[j - 1] is Tool)
}

/// Adding an assistant message that made `calls`, followed by one tool message per call
/// under its id, keeps the shape of a conversation.
proof fn lemma_turn_keeps_shape(before: Seq<ChatMessage>, after: Seq<ChatMessage>, calls: Seq<PendingToolCall>)
    requires
        conversation_wf(before),
        after.len() == before.len() + 1 + calls.len(),
        after.take(before.len() as int) == before,
        after[before.len() as int] matches ChatMessage::Assistant { tool_calls, .. } && tool_calls@.len()
            == calls.len() && forall|q: int|
            0 <= q < calls.len() ==> call_view(#[trigger] tool_calls@[q]) == call_view(calls[q]),
        forall|q: int| 0 <= q < calls.len() ==> answers(after[before.len() + 1 + q], (#[trigger] calls[q]).id@),
    ensures
        conversation_wf(after),
{
    let n = before.len() as int;
    let k = calls.len() as int;
    assert forall|i: int| 0 <= i < n implies after[i] == before[i] by {
        assert(after.take(n)[i] == after[i]);
    }
    assert forall|i: int| 0 < i < after.len() implies !(#[trigger] after[i] is System) by {
        if i < n {
            assert(after[i] == before[i]);
        } else if i > n {
            assert(answers(after[n + 1 + (i - n - 1)], calls[i - n - 1].id@));
        }
    }
    assert forall|i: int| 0 <= i < after.len() implies #[trigger] calls_answered(after, i) by {
        if i < n {
            assert(calls_answered(before, i));
            match before[i] {
                ChatMessage::Assistant { tool_calls, .. } => {
                    let m = tool_calls@.len() as int;
                    assert forall|q: int| #![trigger tool_calls@[q]] 0 <= q < m implies answers(after[i + 1 + q], tool_calls@[q].id@) by {
                        assert(after[i + 1 + q] == before[i + 1 + q]);
                    }
                    if i + m + 1 < n {
                        assert(after[i + m + 1] == before[i + m + 1]);
                    }
                },
                _ => {},
            }
        } else if i == n {
            match after[i] {
                ChatMessage::Assistant { tool_calls, .. } => {
                    assert forall|q: int| #![trigger tool_calls@[q]] 0 <= q < tool_calls@.len() implies answers(after[i + 1 + q], tool_calls@[q].id@) by {
                        assert(call_view(tool_calls@[q]) == call_view(calls[q]));
                        assert(answers(after[n + 1 + q], calls[q].id@));
                    }
                },
                _ => {},
            }
        } else {
            assert(answers(after[n + 1 + (i - n - 1)], calls[i - n - 1].id@));
        }
    }
    assert forall|j: int|
        0 < j < after.len() && (#[trigger] after[j]) is Tool implies (after[j - 1] is Assistant
            || after[j - 1] is Tool) by {
        if j < n {
            assert(after[j] == before[j]);
            assert(after[j - 1] == before[j - 1]);
        } else if j > n + 1 {
            assert(answers(after[n + 1 + (j - n - 2)], calls[j - n - 2].id@));
        }
    }
}

/// The conversation with the model, oldest message first.
pub struct Conversation {
    messages: Vec<ChatMessage>,
}

impl Conversation {
    /// The messages, oldest first.
    pub closed spec fn messages(&self) -> Seq<ChatMessage> {
        self.messages@
    }

    #[verifier::type_invariant]
    spec fn shape(&self) -> bool {
        conversation_wf(self.messages@)
    }

    /// The messages of a conversation made of one empty system message.
    fn lone_system_message() -> (messages: Vec<ChatMessage>)
        ensures
            conversation_wf(messages@),
    {
        let mut messages = Vec::new();
        messages.push(ChatMessage::System { content: String::new() });
        assert(calls_answered(messages@, 0));
        messages
    }

    /// A conversation that starts with the system prompt.
    pub fn new(system_prompt: String) -> (c: Conversation)
        ensures
            c.messages().len() == 1,
            c.messages()[0] matches ChatMessage::System { content } && content@ == system_prompt@,
            conversation_wf(c.messages()),
    {
        let mut messages = Vec::new();
        messages.push(ChatMessage::System { content: system_prompt });
        let c = Conversation { messages };
        assert(calls_answered(c.messages@, 0));
        c
    }

    /// Adds what the user typed.
    pub fn push_user(&mut self, content: String)
        ensures
            final(self).messages().len() == old(self).messages().len() + 1,
            final(self).messages().drop_last() == old(self).messages(),
            final(self).messages().last() matches ChatMessage::User { content: c } && c@ == content@,
            conversation_wf(final(self).messages()),
    {
        proof {
            use_type_invariant(&*self);
        }
        let mut messages = Self::lone_system_message();
        std::mem::swap(&mut messages, &mut self.messages);
        let ghost before = messages@;
        messages.push(ChatMessage::User { content });
        proof {
            let after = messages@;
            assert(after.drop_last() =~= before);
            assert forall|i: int| 0 <= i < after.len() implies #[trigger] calls_answered(after, i) by {
                if i < before.len() {
                    assert(calls_answered(before, i));
                }
            }
        }
        self.messages = messages;
    }

    /// Adds an assistant turn and, right after it, how each of its tool calls ended (one
    /// outcome per call, in order); tells whether the turn asked for tool calls.
    pub fn push_turn(&mut self, turn: &AssistantTurn, outcomes: &Vec<ToolOutcome>) -> (has_tool_calls: bool)
        requires
            outcomes@.len() == turn.tool_calls@.len(),
        ensures
            has_tool_calls == (turn.tool_calls@.len() > 0),
            final(self).messages().len() == old(self).messages().len() + 1 + turn.tool_calls@.len(),
            final(self).messages().take(old(self).messages().len() as int) == old(self).messages(),
            turn_message_matches(*turn, final(self).messages()[old(self).messages().len() as int]),
            forall|j: int|
                0 <= j < turn.tool_calls@.len() ==> records_outcome(
                    final(self).messages()[old(self).messages().len() + 1 + j],
                    (#[trigger] turn.tool_calls@[j]).id@,
                    outcomes@[j],
                ),
            conversation_wf(final(self).messages()),
    {
        proof {
            use_type_invariant(&*self);
        }
        let mut messages = Self::lone_system_message();
        std::mem::swap(&mut messages, &mut self.messages);
        let ghost before = messages@;
        let n = messages.len();
        let message = turn.message();
        messages.push(message);
        let mut j: usize = 0;
        while j < turn.tool_calls.len()
            invariant
                outcomes@.len() == turn.tool_calls@.len(),
                j <= turn.tool_calls@.len(),
                n == before.len(),
                messages@.len() == n + 1 + j,
                messages@.take(n as int) == before,
                turn_message_matches(*turn, messages@[n as int]),
                forall|q: int|
                    0 <= q < j ==> records_outcome(messages@[n + 1 + q], (#[trigger] turn.tool_calls@[q]).id@, outcomes@[q]),
            decreases turn.tool_calls.len() - j,
        {
            let content = tool_outcome_content(&outcomes[j]);
            let ghost prev = messages@;
            messages.push(ChatMessage::Tool { tool_call_id: turn.tool_calls[j].id.clone(), content });
            proof {
                assert(messages@.take(n as int) =~= prev.take(n as int));
                assert forall|q: int|
                    0 <= q < j + 1 implies records_outcome(messages@[n + 1 + q], (#[trigger] turn.tool_calls@[q]).id@, outcomes@[q]) by {
                    if q < j {
                        assert(messages@[n + 1 + q] == prev[n + 1 + q]);
                    }
                }
            }
            j = j + 1;
        }
        proof {
            lemma_turn_keeps_shape(before, messages@, turn.tool_calls@);
        }
        self.messages = messages;
        turn.tool_calls.len() > 0
    }

    /// The conversation as the model sees it.
    pub fn json(&self) -> (messages: Vec<Json>)
        ensures
            conversation_wf(self.messages()),
            messages@.len() == self.messages().len(),
            forall|i: int| 0 <= i < messages@.len() ==> json_view(#[trigger] messages@[i]) == message_json(self.messages()[i]),
    {
        proof {
            use_type_invariant(self);
        }
        let mut out = Vec::new();
        let mut i: usize = 0;
        while i < self.messages.len()
            invariant
                i <= self.messages@.len(),
                out@.len() == i,
                forall|k: int| 0 <= k < i ==> json_view(#[trigger] out@[k]) == message_json(self.messages@[k]),
            decreases self.messages.len() - i,
        {
            out.push(self.messages[i].json());
            i = i + 1;
        }
        out
    }
}

/// The body of a streamed chat-completion request:
/// `{"messages": .., "model": .., "tools": .., "stream": true}`.
pub open spec fn request_body_spec(messages: Seq<ChatMessage>, model: Seq<char>, tools: Seq<ToolSpecification>) -> JsonSpec {
    JsonSpec::Object(
        seq![
            ("messages"@, JsonSpec::Array(Seq::new(messages.len(), |i: int| message_json(messages[i])))),
            ("model"@, JsonSpec::Str(model)),
            ("tools"@, JsonSpec::Array(Seq::new(tools.len(), |i: int| tool_json(tools[i])))),
            ("stream"@, JsonSpec::Bool(true)),
        ],
    )
}

/// The request that asks the model named `model_name` for its next turn of `conversation`,
/// streamed, offering the tools of `tools`.
pub fn request_body(conversation: &Conversation, model_name: &str, tools: &ToolsManager) -> (body: Json)
    ensures
        json_view(body) == request_body_spec(conversation.messages(), model_name@, tools.tool_list()),
{
    let messages = conversation.json();
    let specs = tools.json();
    let ghost message_items = messages@;
    let ghost spec_items = specs@;
    let mut members: Vec<(String, Json)> = Vec::new();
    members.push(member("messages", Json::Array(messages)));
    members.push(member("model", str_json(model_name)));
    members.push(member("tools", Json::Array(specs)));
    members.push(member("stream", Json::Bool(true)));
    let ghost ms = members@;
    let body = Json::Object(members);
    proof {
        lemma_json_view(body);
        lemma_json_view(ms[0].1);
        lemma_json_view(ms[2].1);
        assert(items_view(message_items) =~= Seq::new(
            conversation.messages().len(),
            |i: int| message_json(conversation.messages()[i]),
        ));
        assert(items_view(spec_items) =~= Seq::new(tools.tool_list().len(), |i: int| tool_json(tools.tool_list()[i])));
        assert(members_view(ms) =~= seq![
            ("messages"@, JsonSpec::Array(items_view(message_items))),
            ("model"@, JsonSpec::Str(model_name@)),
            ("tools"@, JsonSpec::Array(items_view(spec_items))),
            ("stream"@, JsonSpec::Bool(true)),
        ]);
    }
    body
}

} // verus!
