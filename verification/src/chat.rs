//! The conversation with the model: messages, tool calls, and the decisions of an agentic
//! turn (when to stop, what goes into the history, how it is compacted).
use vstd::prelude::*;

use serde_json::Value;

use crate::text::{
    chars_of, join, join_chars, lines, push_lit, push_str, seqs, split_lines, string_from_chars,
    trim, trim_chars, u64_decimal, decimal,
};

verus! {

/// A JSON value, carried through as the arguments of a tool call.
#[verifier::external_type_specification]
#[verifier::external_body]
pub struct ExJsonValue(serde_json::Value);

/// `Clone` of a JSON value gives an equal value.
pub assume_specification[ <serde_json::Value as Clone>::clone ](v: &serde_json::Value) -> (r: serde_json::Value)
    ensures
        r == *v,
;

/// The error of parsing a text as JSON.
#[verifier::external_type_specification]
#[verifier::external_body]
pub struct ExJsonError(serde_json::Error);

/// What parsing a text as JSON gives (`serde_json::from_str::<Value>`): the value, or the
/// error. It is a function of the text alone; the JSON grammar that decides it is
/// serde_json's and is left unstated here.
pub uninterp spec fn json_parse(s: Seq<char>) -> Result<Value, serde_json::Error>;

/// `serde_json::from_str::<Value>`. The contract claims only that the outcome is the one
/// `json_parse` names for the text.
#[verifier::external_body]
pub(crate) fn parse_json(s: &str) -> (r: Result<Value, serde_json::Error>)
    ensures
        r == json_parse(s@),
{
    serde_json::from_str::<Value>(s)
}

/// The message of a JSON error, as `Display` writes it.
pub uninterp spec fn json_error_text(e: serde_json::Error) -> Seq<char>;

/// `Display` of a JSON error (`ToString::to_string`). The contract claims only that the
/// text is the one `json_error_text` names for the error.
#[verifier::external_body]
pub(crate) fn error_text(e: &serde_json::Error) -> (r: String)
    ensures
        r@ == json_error_text(*e),
{
    e.to_string()
}

/// The text that a JSON value holds when it is a string (`Value::as_str`).
pub uninterp spec fn json_string(v: Value) -> Option<Seq<char>>;

/// `Value::as_str`, the text copied out. The contract claims only that the outcome is the
/// one `json_string` names for the value.
#[verifier::external_body]
pub(crate) fn json_as_str(v: &Value) -> (r: Option<String>)
    ensures
        match r {
            Some(s) => json_string(*v) == Some(s@),
            None => json_string(*v) is None,
        },
{
    match v.as_str() {
        Some(s) => Some(s.to_string()),
        None => None,
    }
}

/// The function that a tool call names, with its JSON arguments.
pub struct FunctionCall {
    pub name: String,
    pub arguments: Value,
    pub index: Option<u32>,
}

/// A call of a tool that the model asks for.
pub struct ToolCall {
    pub id: String,
    pub function: FunctionCall,
}

/// One message of the conversation: its role (`system`, `user`, `assistant` or `tool`),
/// its text, and the tool calls an assistant message carries.
pub struct Message {
    pub role: String,
    pub content: String,
    pub tool_calls: Option<Vec<ToolCall>>,
}

/// A tool call with its strings taken as character sequences.
#[verifier::ext_equal]
pub ghost struct ToolCallView {
    pub id: Seq<char>,
    pub name: Seq<char>,
    pub arguments: Value,
    pub index: Option<u32>,
}

/// A message with its strings taken as character sequences.
#[verifier::ext_equal]
pub ghost struct MessageView {
    pub role: Seq<char>,
    pub content: Seq<char>,
    pub tool_calls: Option<Seq<ToolCallView>>,
}

impl View for ToolCall {
    type V = ToolCallView;

    open spec fn view(&self) -> ToolCallView {
        ToolCallView {
            id: self.id@,
            name: self.function.name@,
            arguments: self.function.arguments,
            index: self.function.index,
        }
    }
}

impl View for Message {
    type V = MessageView;

    open spec fn view(&self) -> MessageView {
        MessageView {
            role: self.role@,
            content: self.content@,
            tool_calls: match self.tool_calls {
                Some(calls) => Some(calls@.map_values(|c: ToolCall| c@)),
                None => None,
            },
        }
    }
}

/// The views of the messages of a history.
pub open spec fn history_view(h: Seq<Message>) -> Seq<MessageView> {
    h.map_values(|m: Message| m@)
}

impl Clone for FunctionCall {
    fn clone(&self) -> (r: Self)
        ensures
            r.name@ == self.name@ && r.arguments == self.arguments && r.index == self.index,
    {
        FunctionCall { name: self.name.clone(), arguments: self.arguments.clone(), index: self.index }
    }
}

impl Clone for ToolCall {
    fn clone(&self) -> (r: Self)
        ensures
            r@ == self@,
    {
        ToolCall { id: self.id.clone(), function: self.function.clone() }
    }
}

impl Clone for Message {
    fn clone(&self) -> (r: Self)
        ensures
            r@ == self@,
    {
        let tool_calls = match &self.tool_calls {
            Some(calls) => Some(clone_calls(calls)),
            None => None,
        };
        let r = Message { role: self.role.clone(), content: self.content.clone(), tool_calls };
        assert(r@ =~~= self@);
        r
    }
}

fn clone_calls(calls: &Vec<ToolCall>) -> (r: Vec<ToolCall>)
    ensures
        r@.map_values(|c: ToolCall| c@) == calls@.map_values(|c: ToolCall| c@),
{
    let mut r: Vec<ToolCall> = Vec::new();
    let mut i: usize = 0;
    while i < calls.len()
        invariant
            i <= calls.len(),
            r@.map_values(|c: ToolCall| c@) == calls@.subrange(0, i as int).map_values(
                |c: ToolCall| c@,
            ),
        decreases calls.len() - i,
    {
        let c = calls[i].clone();
        let ghost before = r@.map_values(|c: ToolCall| c@);
        let ghost cv = c@;
        r.push(c);
        assert(r@.map_values(|c: ToolCall| c@) =~= before.push(cv));
        i = i + 1;
        assert(r@.map_values(|c: ToolCall| c@) =~= calls@.subrange(0, i as int).map_values(
            |c: ToolCall| c@,
        ));
    }
    assert(calls@.subrange(0, calls.len() as int) =~= calls@);
    r
}

/// The view of a message with the given role and text and no tool calls.
pub open spec fn plain_view(role: Seq<char>, content: Seq<char>) -> MessageView {
    MessageView { role, content, tool_calls: None }
}

/// A message with the given role and text, without tool calls.
pub open spec fn plain(m: Message, role: Seq<char>, content: Seq<char>) -> bool {
    m.role@ == role && m.content@ == content && m.tool_calls is None
}

/// A message with the given role and text, without tool calls.
pub fn new_message(role: &str, content: String) -> (r: Message)
    ensures
        plain(r, role@, content@),
{
    Message { role: String::from_str(role), content, tool_calls: None }
}

/// The history that a conversation starts with: the system prompt alone.
pub fn initial_history(system_prompt: String) -> (r: Vec<Message>)
    ensures
        r@.len() == 1,
        plain(r@[0], "system"@, system_prompt@),
{
    let mut h: Vec<Message> = Vec::new();
    h.push(new_message("system", system_prompt));
    h
}

// ── one agentic round ─────────────────────────────────────────────────────────

/// Counts one more request to the model, or refuses it when `max` requests were made
/// already.
pub fn next_round(iters: &mut u32, max: u32) -> (r: bool)
    ensures
        r == (*old(iters) < max),
        r ==> *final(iters) == *old(iters) + 1,
        !r ==> *final(iters) == *old(iters),
{
    if *iters >= max {
        false
    } else {
        *iters = *iters + 1;
        true
    }
}

/// The error that ends a turn when it made `max` requests.
pub fn max_iters_message(max: u32) -> (r: String)
    ensures
        r@ == "Max tool iterations ("@ + decimal(max as nat) + ") reached."@,
{
    let mut v: Vec<char> = Vec::new();
    push_lit(&mut v, "Max tool iterations (");
    let d = u64_decimal(max as u64);
    push_str(&mut v, d.as_slice());
    push_lit(&mut v, ") reached.");
    string_from_chars(v.as_slice())
}

/// The error text that a cancelled request reports.
pub open spec fn cancelled_marker() -> Seq<char> {
    "__cancelled__"@
}

/// What a turn does next after the model answered.
pub enum Next {
    /// Run the tool calls of the last history message, then ask again.
    RunTools,
    /// The turn is over.
    Done,
    /// The turn failed with this error.
    Failed(String),
}

/// Records the model's answer in the history: an answer with tool calls is kept with them
/// (and the calls are then run), an answer without is kept when it has text, and ends the
/// turn; a cancelled request ends the turn quietly, any other error fails it.
pub fn record_reply(
    history: &mut Vec<Message>,
    reply: Result<(String, Option<Vec<ToolCall>>), String>,
) -> (r: Next)
    ensures
        match reply {
            Ok((content, Some(calls))) => r is RunTools && final(history)@ == old(history)@.push(
                Message { role: final(history)@.last().role, content, tool_calls: Some(calls) },
            ) && final(history)@.last().role@ == "assistant"@,
            Ok((content, None)) => r is Done && if content@.len() > 0 {
                final(history)@.len() == old(history)@.len() + 1 && final(history)@.subrange(
                    0,
                    old(history)@.len() as int,
                ) == old(history)@ && plain(final(history)@.last(), "assistant"@, content@)
            } else {
                final(history)@ == old(history)@
            },
            Err(e) => final(history)@ == old(history)@ && if e@ == cancelled_marker() {
                r is Done
            } else {
                r matches Next::Failed(m) && m@ == e@
            },
        },
{
    match reply {
        Ok((content, Some(calls))) => {
            history.push(
                Message { role: String::from_str("assistant"), content, tool_calls: Some(calls) },
            );
            Next::RunTools
        },
        Ok((content, None)) => {
            if content.as_str().is_empty() {
            } else {
                history.push(new_message("assistant", content));
                assert(history@.subrange(0, old(history)@.len() as int) =~= old(history)@);
            }
            Next::Done
        },
        Err(e) => {
            let c = chars_of(e.as_str());
            let marker = chars_of("__cancelled__");
            if crate::text::same(c.as_slice(), marker.as_slice()) {
                Next::Done
            } else {
                Next::Failed(e)
            }
        },
    }
}

/// The first `n` lines of `s` joined with ` | `: the preview of a tool's report.
pub open spec fn preview(s: Seq<char>, n: int) -> Seq<char> {
    join(lines(s).take(if n < lines(s).len() { n } else { lines(s).len() as int }), " | "@)
}

/// The first `n` lines of a tool's report joined with ` | `.
pub fn preview_lines(s: &str, n: usize) -> (r: String)
    ensures
        r@ == preview(s@, n as int),
{
    let c = chars_of(s);
    let mut ls = split_lines(c.as_slice());
    let ghost all = seqs(ls@);
    if ls.len() > n {
        ls.truncate(n);
    }
    assert(seqs(ls@) =~= all.take(if n < all.len() { n as int } else { all.len() as int }));
    let sep = chars_of(" | ");
    let j = join_chars(&ls, sep.as_slice());
    string_from_chars(j.as_slice())
}

/// The text a rejected tool call answers with.
pub open spec fn spec_rejection(reason: Seq<char>) -> Seq<char> {
    if reason.len() == 0 {
        "Tool call rejected by user."@
    } else {
        "Tool call rejected by user: "@ + reason
    }
}

/// The text a rejected tool call answers with.
pub fn rejection_text(reason: &str) -> (r: String)
    ensures
        r@ == spec_rejection(reason@),
{
    let mut v: Vec<char> = Vec::new();
    if reason.is_empty() {
        push_lit(&mut v, "Tool call rejected by user.");
    } else {
        push_lit(&mut v, "Tool call rejected by user: ");
        push_lit(&mut v, reason);
    }
    string_from_chars(v.as_slice())
}

/// Forgets the conversation: only the system prompt stays.
pub fn clear_history(history: &mut Vec<Message>)
    ensures
        history_view(final(history)@) == if old(history)@.len() > 0 {
            history_view(old(history)@).take(1)
        } else {
            history_view(old(history)@)
        },
{
    let ghost before = history_view(history@);
    let n = history.len();
    history.truncate(1);
    if n > 0 {
        assert(history_view(history@) =~= before.take(1));
    } else {
        assert(history_view(history@) =~= before);
    }
}

// ── compaction ────────────────────────────────────────────────────────────────

/// The message that introduces a summary in a compacted history.
pub open spec fn summary_intro() -> Seq<char> {
    "Summary of the prior conversation (context was compacted):"@
}

/// Replaces the history by its system message, an introduction and the summary, when the
/// summary is not blank; a blank summary leaves the history unchanged.
pub fn compact_history(history: &mut Vec<Message>, summary: String) -> (r: bool)
    requires
        old(history)@.len() >= 1,
    ensures
        r == (trim(summary@).len() > 0),
        r ==> final(history)@.len() == 3 && final(history)@[0] == old(history)@[0] && plain(
            final(history)@[1],
            "user"@,
            summary_intro(),
        ) && plain(final(history)@[2], "assistant"@, summary@),
        !r ==> final(history)@ == old(history)@,
{
    let s = chars_of(summary.as_str());
    let t = trim_chars(s.as_slice());
    if t.len() == 0 {
        return false;
    }
    history.truncate(1);
    history.push(
        new_message(
            "user",
            String::from_str("Summary of the prior conversation (context was compacted):"),
        ),
    );
    history.push(new_message("assistant", summary));
    true
}

// ── a streamed reply ──────────────────────────────────────────────────────────

/// One chunk of a streamed reply: a piece of text, a piece of reasoning, tool calls, and
/// whether the reply is complete.
pub struct StreamChunk {
    pub content: String,
    pub thinking: Option<String>,
    pub tool_calls: Option<Vec<ToolCall>>,
    pub done: bool,
}

/// What a streamed reply has given so far: its text, and the tool calls it asked for.
pub struct StreamState {
    pub content: Vec<char>,
    pub tool_calls: Option<Vec<ToolCall>>,
}

pub open spec fn calls_view(c: Option<Vec<ToolCall>>) -> Option<Seq<ToolCallView>> {
    match c {
        Some(v) => Some(v@.map_values(|t: ToolCall| t@)),
        None => None,
    }
}

/// The pieces of text a chunk shows, each with whether it is reasoning: the reasoning
/// first, when it is shown and not empty, then the text, when not empty.
pub open spec fn chunk_tokens(c: StreamChunk, show_thinking: bool) -> Seq<(Seq<char>, bool)> {
    (if show_thinking && c.thinking is Some && c.thinking.unwrap()@.len() > 0 {
        seq![(c.thinking.unwrap()@, true)]
    } else {
        Seq::empty()
    }) + (if c.content@.len() > 0 {
        seq![(c.content@, false)]
    } else {
        Seq::empty()
    })
}

/// The tool calls known after a chunk: a chunk with calls replaces the earlier ones.
pub open spec fn calls_after(before: Option<Seq<ToolCallView>>, c: StreamChunk) -> Option<
    Seq<ToolCallView>,
> {
    match c.tool_calls {
        Some(v) => if v@.len() > 0 {
            calls_view(c.tool_calls)
        } else {
            before
        },
        None => before,
    }
}

impl StreamState {
    /// Nothing received yet.
    pub fn new() -> (r: StreamState)
        ensures
            r.content@ == Seq::<char>::empty(),
            r.tool_calls is None,
    {
        StreamState { content: Vec::new(), tool_calls: None }
    }

    /// Takes in a chunk: gives the pieces of text to show, and whether the reply is
    /// complete.
    pub fn absorb(&mut self, chunk: StreamChunk, show_thinking: bool) -> (r: (
        Vec<(String, bool)>,
        bool,
    ))
        ensures
            r.0@.map_values(|p: (String, bool)| (p.0@, p.1)) == chunk_tokens(chunk, show_thinking),
            r.1 == chunk.done,
            final(self).content@ == old(self).content@ + chunk.content@,
            calls_view(final(self).tool_calls) == calls_after(calls_view(old(self).tool_calls), chunk),
    {
        let ghost c0 = chunk;
        let mut tokens: Vec<(String, bool)> = Vec::new();
        let StreamChunk { content, thinking, tool_calls, done } = chunk;
        if show_thinking {
            match thinking {
                Some(t) => {
                    if !t.as_str().is_empty() {
                        tokens.push((t, true));
                    }
                },
                None => {},
            }
        }
        let ghost after_think = tokens@.map_values(|p: (String, bool)| (p.0@, p.1));
        let text = chars_of(content.as_str());
        if text.len() > 0 {
            tokens.push((content, false));
        }
        push_str(&mut self.content, text.as_slice());
        match tool_calls {
            Some(tc) => {
                if tc.len() > 0 {
                    self.tool_calls = Some(tc);
                }
            },
            None => {},
        }
        assert(tokens@.map_values(|p: (String, bool)| (p.0@, p.1)) =~= chunk_tokens(c0, show_thinking));
        (tokens, done)
    }

    /// The reply: its text, and the tool calls it asked for.
    pub fn finish(self) -> (r: (String, Option<Vec<ToolCall>>))
        ensures
            r.0@ == self.content@,
            calls_view(r.1) == calls_view(self.tool_calls),
    {
        (string_from_chars(self.content.as_slice()), self.tool_calls)
    }
}

} // verus!
