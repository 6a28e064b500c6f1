//! The interactive session: what the screen shows, how keys edit the prompt, how commands
//! and the worker's events change the session, and which outside work it asks for next.
use vstd::prelude::*;

use crate::chat::{history_view, new_message, plain_view, Message, MessageView};
use crate::models::{format_model_listing, model_listing_text, ModelCaps, ModelInfo};
use crate::text::{
    byte_len, char_width, chars_of, decimal, join, lemma_byte_len_bounds, lemma_byte_len_concat,
    lines, push_lit, push_str, starts_with, string_from_chars, trim, trim_chars, utf8_len,
    utf8_width,
};
use crate::tools::{definitions, tool_table, ArgValue, ToolArgs};
use crate::wrap::{char_index, char_pos, lemma_char_pos_from, spec_word_wrap, word_wrap};

verus! {

// ── display entries ───────────────────────────────────────────────────────────

/// Who an entry of the conversation view comes from.
#[derive(Clone, Copy, PartialEq, Eq, Structural)]
pub enum Role {
    User,
    Assistant,
    Think,
    Tool,
    Error,
    Info,
}

/// One block of the conversation view: its kind, its label and its text.
pub struct Entry {
    pub role: Role,
    pub label: String,
    pub text: String,
}

/// An entry with its strings taken as character sequences.
#[verifier::ext_equal]
pub ghost struct EntryView {
    pub role: Role,
    pub label: Seq<char>,
    pub text: Seq<char>,
}

impl View for Entry {
    type V = EntryView;

    open spec fn view(&self) -> EntryView {
        EntryView { role: self.role, label: self.label@, text: self.text@ }
    }
}

pub open spec fn entry_of(role: Role, label: Seq<char>, text: Seq<char>) -> EntryView {
    EntryView { role, label, text }
}

impl Entry {
    /// A prompt the user sent.
    pub fn user(text: String) -> (r: Entry)
        ensures
            r@ == entry_of(Role::User, "you"@, text@),
    {
        Entry { role: Role::User, label: String::from_str("you"), text }
    }

    /// Text the model answered.
    pub fn assistant(text: String) -> (r: Entry)
        ensures
            r@ == entry_of(Role::Assistant, "offcode"@, text@),
    {
        Entry { role: Role::Assistant, label: String::from_str("offcode"), text }
    }

    /// Reasoning the model showed.
    pub fn think(text: String) -> (r: Entry)
        ensures
            r@ == entry_of(Role::Think, "thinking"@, text@),
    {
        Entry { role: Role::Think, label: String::from_str("thinking"), text }
    }

    /// A tool call: the tool's name and its arguments as shown.
    pub fn tool(name: String, args: String) -> (r: Entry)
        ensures
            r@ == entry_of(Role::Tool, name@, args@),
    {
        Entry { role: Role::Tool, label: name, text: args }
    }

    /// An error.
    pub fn error(text: String) -> (r: Entry)
        ensures
            r@ == entry_of(Role::Error, "error"@, text@),
    {
        Entry { role: Role::Error, label: String::from_str("error"), text }
    }

    /// A note of the application itself.
    pub fn info(text: String) -> (r: Entry)
        ensures
            r@ == entry_of(Role::Info, "info"@, text@),
    {
        Entry { role: Role::Info, label: String::from_str("info"), text }
    }
}

/// The views of a sequence of entries.
pub open spec fn entries_view(es: Seq<Entry>) -> Seq<EntryView> {
    es.map_values(|e: Entry| e@)
}

/// `a` followed by `b`, as a string.
pub fn concat(a: &str, b: &str) -> (r: String)
    ensures
        r@ == a@ + b@,
{
    let mut v = chars_of(a);
    let w = chars_of(b);
    push_str(&mut v, w.as_slice());
    string_from_chars(v.as_slice())
}

// ── the session ───────────────────────────────────────────────────────────────

/// Whether the session waits for a prompt or a reply is being generated.
#[derive(Clone, Copy, PartialEq, Eq, Structural)]
pub enum Mode {
    Input,
    Generating,
}

/// A key as the session reads it.
pub enum Key {
    Char(char),
    Enter,
    Backspace,
    Delete,
    Left,
    Right,
    Home,
    End,
    Up,
    Down,
    PageUp,
    PageDown,
    Esc,
    Other,
}

/// The outside work that a step of the session asks for.
#[derive(Clone, Copy, PartialEq, Eq, Structural)]
pub enum Action {
    /// Nothing to do.
    Nothing,
    /// Stop the reply being generated.
    Cancel,
    /// Start generating a reply to the history, with the session's model.
    Generate,
    /// Fetch the installed models and their capabilities, then call `show_models`.
    ListModels,
}

/// What the worker that talks to the model reports.
pub enum WorkerMsg {
    /// A piece of reasoning text.
    ThinkToken(String),
    /// A piece of answer text.
    Token(String),
    /// A tool call is about to run.
    ToolBegin { name: String, args: ToolArgs },
    /// The tool call ended, with the first lines of its report.
    ToolEnd { result_preview: String },
    /// A message to add to the history.
    AddMessage(Message),
    /// The reply is complete.
    Done,
    /// The reply failed.
    Error(String),
}

/// The state of an interactive session. `cursor` is a byte offset into the prompt being
/// typed; `scroll` is the first line of the conversation view shown.
pub struct App {
    pub model: String,
    pub show_thinking: bool,
    pub history: Vec<Message>,
    pub entries: Vec<Entry>,
    pub input: Vec<char>,
    pub cursor: usize,
    pub scroll: u16,
    pub auto_scroll: bool,
    pub mode: Mode,
    pub queued: Option<String>,
    pub should_quit: bool,
    pub tick: u64,
}

/// A session with its strings and vectors taken as their views.
#[verifier::ext_equal]
pub ghost struct AppView {
    pub model: Seq<char>,
    pub show_thinking: bool,
    pub history: Seq<MessageView>,
    pub entries: Seq<EntryView>,
    pub input: Seq<char>,
    pub cursor: int,
    pub scroll: int,
    pub auto_scroll: bool,
    pub mode: Mode,
    pub queued: Option<Seq<char>>,
    pub should_quit: bool,
    pub tick: int,
}

pub open spec fn opt_view(q: Option<String>) -> Option<Seq<char>> {
    match q {
        Some(s) => Some(s@),
        None => None,
    }
}

impl View for App {
    type V = AppView;

    open spec fn view(&self) -> AppView {
        AppView {
            model: self.model@,
            show_thinking: self.show_thinking,
            history: history_view(self.history@),
            entries: entries_view(self.entries@),
            input: self.input@,
            cursor: self.cursor as int,
            scroll: self.scroll as int,
            auto_scroll: self.auto_scroll,
            mode: self.mode,
            queued: opt_view(self.queued),
            should_quit: self.should_quit,
            tick: self.tick as int,
        }
    }
}

/// A well-formed session: the cursor lies within the prompt, and the history starts with
/// the system message.
pub open spec fn wf(v: AppView) -> bool {
    &&& 0 <= v.cursor <= byte_len(v.input)
    &&& byte_len(v.input) <= usize::MAX
    &&& v.queued matches Some(q) ==> byte_len(q) <= usize::MAX
    &&& 0 <= v.scroll <= u16::MAX
    &&& v.history.len() >= 1
    &&& v.history[0].role == "system"@
}

// ── the steps, stated ─────────────────────────────────────────────────────────

pub open spec fn info_entry(t: Seq<char>) -> EntryView {
    entry_of(Role::Info, "info"@, t)
}

pub open spec fn error_entry(t: Seq<char>) -> EntryView {
    entry_of(Role::Error, "error"@, t)
}

pub open spec fn help_text() -> Seq<char> {
    "/help  show help\n/clear  clear history\n/tools  list tools\n/model  list available models\n/model <name>  change model\n/think  toggle thinking display\n/exit or Ctrl+C  quit"@
}

pub open spec fn queued_note() -> Seq<char> {
    "\u{23ce} queued \u{2014} will send when done"@
}

pub open spec fn unknown_command() -> Seq<char> {
    "Unknown command. /help for list."@
}

/// The names of the tools, one per line, each after a bullet.
pub open spec fn tools_text() -> Seq<char> {
    join(tool_table().map_values(|t: crate::tools::ToolSpecView| "  \u{2022} "@ + t.name), "\n"@)
}

pub open spec fn on_off(b: bool) -> Seq<char> {
    if b {
        "on"@
    } else {
        "off"@
    }
}

pub open spec fn push_entry(v: AppView, e: EntryView) -> AppView {
    AppView { entries: v.entries.push(e), ..v }
}

/// What a command typed at the prompt does.
pub open spec fn spec_command(v: AppView, cmd: Seq<char>) -> (AppView, Action) {
    if cmd == "/help"@ {
        (push_entry(v, info_entry(help_text())), Action::Nothing)
    } else if cmd == "/clear"@ || cmd == "/reset"@ {
        (
            AppView {
                entries: seq![info_entry("History cleared."@)],
                history: v.history.take(1),
                ..v
            },
            Action::Nothing,
        )
    } else if cmd == "/tools"@ {
        (push_entry(v, info_entry(tools_text())), Action::Nothing)
    } else if cmd == "/think"@ {
        let on = !v.show_thinking;
        (
            push_entry(
                AppView { show_thinking: on, ..v },
                info_entry("Thinking display: "@ + on_off(on)),
            ),
            Action::Nothing,
        )
    } else if cmd == "/exit"@ || cmd == "/quit"@ {
        (AppView { should_quit: true, ..v }, Action::Nothing)
    } else if cmd == "/model"@ || cmd == "/models"@ {
        (v, Action::ListModels)
    } else if starts_with(cmd, "/model "@) {
        let m = trim(cmd.subrange(7, cmd.len() as int));
        (push_entry(AppView { model: m, ..v }, info_entry("Model \u{2192} "@ + m)), Action::Nothing)
    } else {
        (push_entry(v, error_entry(unknown_command())), Action::Nothing)
    }
}

/// What sending the prompt does: a blank prompt does nothing; a command runs at once; a
/// prompt typed while a reply is generated waits its turn; any other prompt starts a reply.
pub open spec fn spec_submit(v: AppView) -> (AppView, Action) {
    let text = trim(v.input);
    if text.len() == 0 {
        (v, Action::Nothing)
    } else {
        let v1 = AppView { input: Seq::empty(), cursor: 0, ..v };
        if text[0] == '/' {
            spec_command(v1, text)
        } else if v.mode == Mode::Generating {
            (push_entry(AppView { queued: Some(text), ..v1 }, info_entry(queued_note())), Action::Nothing)
        } else {
            (
                AppView {
                    auto_scroll: true,
                    mode: Mode::Generating,
                    entries: v1.entries.push(entry_of(Role::User, "you"@, text)),
                    history: v1.history.push(plain_view("user"@, text)),
                    ..v1
                },
                Action::Generate,
            )
        }
    }
}

/// The keys on which a step is defined: the edits that the prompt's byte offsets allow,
/// and a scroll position that stays a 16-bit number.
pub open spec fn key_safe(v: AppView, key: Key, control: bool) -> bool {
    match key {
        Key::Char(c) => (c == 'c' && control) || (char_pos(v.input, v.cursor) is Some && byte_len(
            v.input,
        ) + utf8_width(c) <= usize::MAX),
        Key::Backspace => v.cursor > 0 ==> char_pos(v.input, v.cursor - 1) is Some,
        Key::Delete => v.cursor < byte_len(v.input) ==> char_pos(v.input, v.cursor) is Some,
        Key::Down => v.scroll < u16::MAX,
        Key::PageDown => v.scroll + 10 <= u16::MAX,
        _ => true,
    }
}

pub open spec fn minus_sat(a: int, b: int) -> int {
    if a >= b {
        a - b
    } else {
        0
    }
}

/// What a key does: Ctrl+C quits; Esc stops a reply being generated, or else quits; the
/// other keys edit the prompt (at byte offset `cursor`), send it, or scroll.
pub open spec fn spec_key(v: AppView, key: Key, control: bool) -> (AppView, Action) {
    match key {
        Key::Char(c) => if c == 'c' && control {
            (AppView { should_quit: true, ..v }, Action::Nothing)
        } else {
            let k = char_pos(v.input, v.cursor).unwrap();
            (AppView { input: v.input.insert(k, c), cursor: v.cursor + 1, ..v }, Action::Nothing)
        },
        Key::Esc => if v.mode == Mode::Generating {
            (AppView { queued: None, ..v }, Action::Cancel)
        } else {
            (AppView { should_quit: true, ..v }, Action::Nothing)
        },
        Key::Enter => spec_submit(v),
        Key::Backspace => if v.cursor > 0 {
            let k = char_pos(v.input, v.cursor - 1).unwrap();
            (AppView { input: v.input.remove(k), cursor: v.cursor - 1, ..v }, Action::Nothing)
        } else {
            (v, Action::Nothing)
        },
        Key::Delete => if v.cursor < byte_len(v.input) {
            let k = char_pos(v.input, v.cursor).unwrap();
            (AppView { input: v.input.remove(k), ..v }, Action::Nothing)
        } else {
            (v, Action::Nothing)
        },
        Key::Left => (
            if v.cursor > 0 {
                AppView { cursor: v.cursor - 1, ..v }
            } else {
                v
            },
            Action::Nothing,
        ),
        Key::Right => (
            if v.cursor < byte_len(v.input) {
                AppView { cursor: v.cursor + 1, ..v }
            } else {
                v
            },
            Action::Nothing,
        ),
        Key::Home => (AppView { cursor: 0, ..v }, Action::Nothing),
        Key::End => (AppView { cursor: byte_len(v.input), ..v }, Action::Nothing),
        Key::Up => (
            AppView { auto_scroll: false, scroll: minus_sat(v.scroll, 1), ..v },
            Action::Nothing,
        ),
        Key::Down => (AppView { scroll: v.scroll + 1, ..v }, Action::Nothing),
        Key::PageUp => (
            AppView { auto_scroll: false, scroll: minus_sat(v.scroll, 10), ..v },
            Action::Nothing,
        ),
        Key::PageDown => (AppView { scroll: v.scroll + 10, ..v }, Action::Nothing),
        Key::Other => (v, Action::Nothing),
    }
}

// ── tool arguments, as shown ──────────────────────────────────────────────────

/// The first line of `s`, or nothing when it has none.
pub open spec fn first_line(s: Seq<char>) -> Seq<char> {
    if lines(s).len() > 0 {
        lines(s)[0]
    } else {
        Seq::empty()
    }
}

/// The first `n` characters of `s`, or all of it when it is shorter.
pub open spec fn clip(s: Seq<char>, n: int) -> Seq<char> {
    if s.len() <= n {
        s
    } else {
        s.take(n)
    }
}

/// An argument value as shown: a string by the first `n` characters of its first line,
/// with an ellipsis when it has more lines; any other value by its JSON text.
pub open spec fn shown_value(v: ArgValue, n: int) -> Seq<char> {
    match v {
        ArgValue::Str(s) => if lines(s@).len() > 1 {
            clip(first_line(s@), n) + "\u{2026}"@
        } else {
            clip(first_line(s@), n)
        },
        ArgValue::UInt(k) => decimal(k as nat),
        ArgValue::Other(j) => j@,
    }
}

pub open spec fn arg_pair(e: (String, ArgValue)) -> Seq<char> {
    e.0@ + "="@ + shown_value(e.1, 50)
}

/// The arguments of a tool call as one line: `key=value` pairs two spaces apart, or the
/// JSON text of arguments that are not an object.
pub open spec fn spec_fmt_args(args: ToolArgs) -> Seq<char> {
    match args.non_object {
        Some(j) => j@,
        None => join(args.entries@.map_values(|e: (String, ArgValue)| arg_pair(e)), "  "@),
    }
}

/// The arguments of a tool call, one `key: value` line per member (none when the
/// arguments are not an object).
pub open spec fn spec_arg_lines(args: ToolArgs) -> Seq<Seq<char>> {
    match args.non_object {
        Some(_) => Seq::empty(),
        None => args.entries@.map_values(
            |e: (String, ArgValue)| e.0@ + ": "@ + shown_value(e.1, 80),
        ),
    }
}

fn shown_value_chars(v: &ArgValue, n: usize) -> (r: Vec<char>)
    ensures
        r@ == shown_value(*v, n as int),
{
    match v {
        ArgValue::Str(s) => {
            let c = chars_of(s.as_str());
            let ls = crate::text::split_lines(c.as_slice());
            let mut out: Vec<char> = Vec::new();
            if ls.len() > 0 {
                let first = &ls[0];
                let m = if first.len() <= n {
                    first.len()
                } else {
                    n
                };
                out = crate::text::slice_chars(first.as_slice(), 0, m);
                assert(out@ =~= clip(first_line(s@), n as int));
            } else {
                assert(out@ =~= clip(first_line(s@), n as int));
            }
            if ls.len() > 1 {
                push_lit(&mut out, "\u{2026}");
            }
            out
        },
        ArgValue::UInt(k) => crate::text::u64_decimal(*k),
        ArgValue::Other(j) => chars_of(j.as_str()),
    }
}

/// The arguments of a tool call as one line.
pub fn fmt_args(args: &ToolArgs) -> (r: String)
    ensures
        r@ == spec_fmt_args(*args),
{
    match &args.non_object {
        Some(j) => j.clone(),
        None => {
            let ghost want = args.entries@.map_values(|e: (String, ArgValue)| arg_pair(e));
            let mut parts: Vec<Vec<char>> = Vec::new();
            let mut i: usize = 0;
            while i < args.entries.len()
                invariant
                    i <= args.entries.len(),
                    want == args.entries@.map_values(|e: (String, ArgValue)| arg_pair(e)),
                    crate::text::seqs(parts@) == want.subrange(0, i as int),
                decreases args.entries.len() - i,
            {
                let e = &args.entries[i];
                let mut p = chars_of(e.0.as_str());
                push_lit(&mut p, "=");
                let v = shown_value_chars(&e.1, 50);
                push_str(&mut p, v.as_slice());
                let ghost before = crate::text::seqs(parts@);
                let ghost pv = p@;
                parts.push(p);
                assert(crate::text::seqs(parts@) =~= before.push(pv));
                assert(crate::text::seqs(parts@) =~= want.subrange(0, i + 1));
                i = i + 1;
            }
            assert(want.subrange(0, args.entries.len() as int) =~= want);
            let sep = chars_of("  ");
            let j = crate::text::join_chars(&parts, sep.as_slice());
            string_from_chars(j.as_slice())
        },
    }
}

/// The arguments of a tool call, one `key: value` line per member.
pub fn arg_lines(args: &ToolArgs) -> (r: Vec<String>)
    ensures
        crate::text::views(r@) == spec_arg_lines(*args),
{
    let mut out: Vec<String> = Vec::new();
    if args.non_object.is_some() {
        assert(crate::text::views(out@) =~= spec_arg_lines(*args));
        return out;
    }
    let ghost want = args.entries@.map_values(
        |e: (String, ArgValue)| e.0@ + ": "@ + shown_value(e.1, 80),
    );
    let mut i: usize = 0;
    while i < args.entries.len()
        invariant
            i <= args.entries.len(),
            want == args.entries@.map_values(
                |e: (String, ArgValue)| e.0@ + ": "@ + shown_value(e.1, 80),
            ),
            crate::text::views(out@) == want.subrange(0, i as int),
        decreases args.entries.len() - i,
    {
        let e = &args.entries[i];
        let mut p = chars_of(e.0.as_str());
        push_lit(&mut p, ": ");
        let v = shown_value_chars(&e.1, 80);
        push_str(&mut p, v.as_slice());
        let line = string_from_chars(p.as_slice());
        let ghost before = crate::text::views(out@);
        let ghost lv = line@;
        out.push(line);
        assert(crate::text::views(out@) =~= before.push(lv));
        assert(crate::text::views(out@) =~= want.subrange(0, i + 1));
        i = i + 1;
    }
    assert(want.subrange(0, args.entries.len() as int) =~= want);
    out
}

// ── the worker's events, stated ───────────────────────────────────────────────

/// `es` with `t` added to the text of the last entry when that entry has the given role,
/// or else with a new entry.
pub open spec fn extend_or_add(es: Seq<EntryView>, role: Role, label: Seq<char>, t: Seq<char>) -> Seq<
    EntryView,
> {
    if es.len() > 0 && es.last().role == role {
        es.update(es.len() - 1, EntryView { text: es.last().text + t, ..es.last() })
    } else {
        es.push(entry_of(role, label, t))
    }
}

/// What an event of the worker does to the session.
pub open spec fn spec_worker(v: AppView, msg: WorkerMsg) -> (AppView, Action) {
    match msg {
        WorkerMsg::ThinkToken(t) => if v.show_thinking {
            (
                AppView {
                    entries: extend_or_add(v.entries, Role::Think, "thinking"@, t@),
                    auto_scroll: true,
                    ..v
                },
                Action::Nothing,
            )
        } else {
            (v, Action::Nothing)
        },
        WorkerMsg::Token(t) => (
            AppView {
                entries: extend_or_add(v.entries, Role::Assistant, "offcode"@, t@),
                auto_scroll: true,
                ..v
            },
            Action::Nothing,
        ),
        WorkerMsg::ToolBegin { name, args } => (
            AppView {
                entries: v.entries.push(entry_of(Role::Tool, name@, spec_fmt_args(args))),
                auto_scroll: true,
                ..v
            },
            Action::Nothing,
        ),
        WorkerMsg::ToolEnd { result_preview } => if v.entries.len() > 0 && v.entries.last().role
            == Role::Tool && result_preview@.len() > 0 {
            (
                AppView {
                    entries: v.entries.update(
                        v.entries.len() - 1,
                        EntryView {
                            text: v.entries.last().text + "\n\u{2192} "@ + result_preview@,
                            ..v.entries.last()
                        },
                    ),
                    ..v
                },
                Action::Nothing,
            )
        } else {
            (v, Action::Nothing)
        },
        WorkerMsg::AddMessage(m) => (AppView { history: v.history.push(m@), ..v }, Action::Nothing),
        WorkerMsg::Done => match v.queued {
            Some(q) => spec_submit(
                AppView { mode: Mode::Input, queued: None, input: q, cursor: byte_len(q), ..v },
            ),
            None => (AppView { mode: Mode::Input, ..v }, Action::Nothing),
        },
        WorkerMsg::Error(e) => {
            let v1 = AppView {
                mode: Mode::Input,
                queued: None,
                entries: v.entries.push(error_entry(e@)),
                ..v
            };
            (
                if v.history.last().role == "user"@ {
                    AppView { history: v.history.drop_last(), ..v1 }
                } else {
                    v1
                },
                Action::Nothing,
            )
        },
    }
}

/// The message that lists the installed models, or says why there is none.
pub open spec fn spec_show_models(
    v: AppView,
    listed: Result<Vec<ModelInfo>, String>,
    caps: Seq<ModelCaps>,
) -> AppView {
    match listed {
        Err(e) => push_entry(v, error_entry("list models: "@ + e@)),
        Ok(ms) => if ms@.len() == 0 {
            push_entry(v, info_entry("No models installed. Try `ollama pull <model>`."@))
        } else {
            push_entry(
                v,
                info_entry(
                    crate::models::rows_text(crate::models::listing_rows(ms@, caps, v.model))
                        + "selected: "@ + v.model,
                ),
            )
        },
    }
}

// ── byte offsets in the prompt ────────────────────────────────────────────────

proof fn lemma_byte_len_remove(s: Seq<char>, k: int)
    requires
        0 <= k < s.len(),
    ensures
        byte_len(s.remove(k)) == byte_len(s) - utf8_width(s[k]),
        byte_len(s.subrange(0, k)) <= byte_len(s.remove(k)),
{
    let a = s.subrange(0, k);
    let b = s.subrange(k + 1, s.len() as int);
    assert(s =~= a + seq![s[k]] + b);
    assert(s.remove(k) =~= a + b);
    lemma_byte_len_concat(a, seq![s[k]]);
    lemma_byte_len_concat(a + seq![s[k]], b);
    lemma_byte_len_concat(a, b);
    assert(seq![s[k]].drop_last() =~= Seq::<char>::empty());
    assert(byte_len(seq![s[k]]) == byte_len(Seq::<char>::empty()) + utf8_width(s[k]));
    lemma_byte_len_bounds(b);
}

proof fn lemma_byte_len_insert(s: Seq<char>, k: int, c: char)
    requires
        0 <= k <= s.len(),
    ensures
        byte_len(s.insert(k, c)) == byte_len(s) + utf8_width(c),
{
    let a = s.subrange(0, k);
    let b = s.subrange(k, s.len() as int);
    assert(s =~= a + b);
    assert(s.insert(k, c) =~= a + seq![c] + b);
    lemma_byte_len_concat(a, seq![c]);
    lemma_byte_len_concat(a + seq![c], b);
    lemma_byte_len_concat(a, b);
    assert(seq![c].drop_last() =~= Seq::<char>::empty());
    assert(byte_len(seq![c]) == byte_len(Seq::<char>::empty()) + utf8_width(c));
}

/// The character at byte offset `b` of `s`, where one starts there, is a character of `s`
/// when `b` lies before the end.
proof fn lemma_char_pos_inside(s: Seq<char>, b: int)
    requires
        char_pos(s, b) is Some,
    ensures
        0 <= char_pos(s, b).unwrap() <= s.len(),
        byte_len(s.subrange(0, char_pos(s, b).unwrap())) == b,
        b < byte_len(s) ==> char_pos(s, b).unwrap() < s.len(),
{
    lemma_char_pos_from(s, b, 0);
    assert(s.subrange(0, s.len() as int) =~= s);
}

/// Whether the characters `cmd` spell the literal `lit`.
fn is_lit(cmd: &[char], lit: &str) -> (r: bool)
    ensures
        r == (cmd@ == lit@),
{
    let l = chars_of(lit);
    crate::text::same(cmd, l.as_slice())
}

fn str_lit(s: &str) -> (r: String)
    ensures
        r@ == s@,
{
    String::from_str(s)
}

impl App {
    /// A new session with the given model, whose history holds the system prompt alone.
    pub fn new(model: String, show_thinking: bool, system_prompt: String) -> (r: App)
        ensures
            wf(r@),
            r@ == (AppView {
                model: model@,
                show_thinking,
                history: seq![plain_view("system"@, system_prompt@)],
                entries: Seq::empty(),
                input: Seq::empty(),
                cursor: 0,
                scroll: 0,
                auto_scroll: true,
                mode: Mode::Input,
                queued: None,
                should_quit: false,
                tick: 0,
            }),
    {
        let mut history: Vec<Message> = Vec::new();
        history.push(new_message("system", system_prompt));
        let r = App {
            model,
            show_thinking,
            history,
            entries: Vec::new(),
            input: Vec::new(),
            cursor: 0,
            scroll: 0,
            auto_scroll: true,
            mode: Mode::Input,
            queued: None,
            should_quit: false,
            tick: 0,
        };
        assert(r@.history =~~= seq![plain_view("system"@, system_prompt@)]);
        assert(r@.entries =~= Seq::<EntryView>::empty());
        r
    }

    fn push_info(&mut self, text: String)
        ensures
            final(self)@ == push_entry(old(self)@, info_entry(text@)),
    {
        let ghost before = entries_view(self.entries@);
        let e = Entry::info(text);
        let ghost ev = e@;
        self.entries.push(e);
        assert(entries_view(self.entries@) =~= before.push(ev));
        assert(self@ =~~= push_entry(old(self)@, info_entry(text@)));
    }

    fn push_error(&mut self, text: String)
        ensures
            final(self)@ == push_entry(old(self)@, error_entry(text@)),
    {
        let ghost before = entries_view(self.entries@);
        let e = Entry::error(text);
        let ghost ev = e@;
        self.entries.push(e);
        assert(entries_view(self.entries@) =~= before.push(ev));
        assert(self@ =~~= push_entry(old(self)@, error_entry(text@)));
    }

    /// Runs a command typed at the prompt.
    fn command(&mut self, cmd: &[char]) -> (act: Action)
        requires
            wf(old(self)@),
        ensures
            wf(final(self)@),
            (final(self)@, act) == spec_command(old(self)@, cmd@),
    {
        proof {
            reveal_strlit("system");
            reveal_strlit("/model ");
        }
        if is_lit(cmd, "/help") {
            self.push_info(str_lit(
                "/help  show help\n/clear  clear history\n/tools  list tools\n/model  list available models\n/model <name>  change model\n/think  toggle thinking display\n/exit or Ctrl+C  quit",
            ));
            Action::Nothing
        } else if is_lit(cmd, "/clear") || is_lit(cmd, "/reset") {
            self.entries.clear();
            self.history.truncate(1);
            self.push_info(str_lit("History cleared."));
            assert(entries_view(self.entries@) =~= seq![info_entry("History cleared."@)]);
            assert(history_view(self.history@) =~= history_view(old(self).history@).take(1));
            Action::Nothing
        } else if is_lit(cmd, "/tools") {
            let t = tools_listing();
            self.push_info(t);
            Action::Nothing
        } else if is_lit(cmd, "/think") {
            self.show_thinking = !self.show_thinking;
            let mut v: Vec<char> = Vec::new();
            push_lit(&mut v, "Thinking display: ");
            if self.show_thinking {
                push_lit(&mut v, "on");
            } else {
                push_lit(&mut v, "off");
            }
            self.push_info(string_from_chars(v.as_slice()));
            Action::Nothing
        } else if is_lit(cmd, "/exit") || is_lit(cmd, "/quit") {
            self.should_quit = true;
            Action::Nothing
        } else if is_lit(cmd, "/model") || is_lit(cmd, "/models") {
            Action::ListModels
        } else if crate::text::has_prefix(cmd, chars_of("/model ").as_slice()) {
            let rest = crate::text::slice_chars(cmd, 7, cmd.len());
            let m = trim_chars(rest.as_slice());
            self.model = string_from_chars(m.as_slice());
            let mut v: Vec<char> = Vec::new();
            push_lit(&mut v, "Model \u{2192} ");
            push_str(&mut v, m.as_slice());
            self.push_info(string_from_chars(v.as_slice()));
            Action::Nothing
        } else {
            self.push_error(str_lit("Unknown command. /help for list."));
            Action::Nothing
        }
    }

    /// Sends the prompt being typed.
    fn submit(&mut self) -> (act: Action)
        requires
            wf(old(self)@),
        ensures
            wf(final(self)@),
            (final(self)@, act) == spec_submit(old(self)@),
    {
        let text = trim_chars(self.input.as_slice());
        if text.len() == 0 {
            return Action::Nothing;
        }
        self.input = Vec::new();
        self.cursor = 0;
        assert(self@.input =~= Seq::<char>::empty());
        if text[0] == '/' {
            return self.command(text.as_slice());
        }
        let t = string_from_chars(text.as_slice());
        if self.mode == Mode::Generating {
            self.queued = Some(t);
            self.push_info(str_lit("\u{23ce} queued \u{2014} will send when done"));
            return Action::Nothing;
        }
        self.auto_scroll = true;
        self.mode = Mode::Generating;
        let ghost ents = entries_view(self.entries@);
        let ghost hist = history_view(self.history@);
        let e = Entry::user(t.clone());
        let ghost ev = e@;
        self.entries.push(e);
        let m = new_message("user", t);
        let ghost mv = m@;
        self.history.push(m);
        assert(entries_view(self.entries@) =~= ents.push(ev));
        assert(history_view(self.history@) =~= hist.push(mv));
        assert(mv =~~= plain_view("user"@, text@));
        Action::Generate
    }

    /// Whether a key can be handled: whether `key_safe` holds of it.
    pub fn key_allowed(&self, key: &Key, control: bool) -> (r: bool)
        requires
            wf(self@),
        ensures
            r == key_safe(self@, *key, control),
    {
        match key {
            Key::Char(c) => {
                if *c == 'c' && control {
                    return true;
                }
                let n = utf8_len(self.input.as_slice());
                let w = char_width(*c);
                char_index(self.input.as_slice(), self.cursor).is_some() && n + (w as u128)
                    <= usize::MAX as u128
            },
            Key::Backspace => self.cursor == 0 || char_index(
                self.input.as_slice(),
                self.cursor - 1,
            ).is_some(),
            Key::Delete => {
                let n = utf8_len(self.input.as_slice());
                !((self.cursor as u128) < n) || char_index(self.input.as_slice(), self.cursor).is_some()
            },
            Key::Down => self.scroll < u16::MAX,
            Key::PageDown => self.scroll <= u16::MAX - 10,
            _ => true,
        }
    }

    /// Handles a key: `control` tells whether Ctrl was held.
    pub fn handle_key(&mut self, key: Key, control: bool) -> (act: Action)
        requires
            wf(old(self)@),
            key_safe(old(self)@, key, control),
        ensures
            wf(final(self)@),
            (final(self)@, act) == spec_key(old(self)@, key, control),
    {
        match key {
            Key::Char(c) => {
                if c == 'c' && control {
                    self.should_quit = true;
                    assert(self@ =~~= spec_key(old(self)@, key, control).0);
                    return Action::Nothing;
                }
                let k = char_index(self.input.as_slice(), self.cursor).unwrap();
                proof {
                    lemma_char_pos_inside(self.input@, self.cursor as int);
                    lemma_byte_len_insert(self.input@, k as int, c);
                }
                self.input.insert(k, c);
                self.cursor = self.cursor + 1;
                assert(self@ =~~= spec_key(old(self)@, key, control).0);
                assert(self@ =~~= spec_key(old(self)@, key, control).0);
                Action::Nothing
            },
            Key::Esc => {
                if self.mode == Mode::Generating {
                    self.queued = None;
                    assert(self@ =~~= spec_key(old(self)@, key, control).0);
                    Action::Cancel
                } else {
                    self.should_quit = true;
                    assert(self@ =~~= spec_key(old(self)@, key, control).0);
                    Action::Nothing
                }
            },
            Key::Enter => self.submit(),
            Key::Backspace => {
                if self.cursor > 0 {
                    let k = char_index(self.input.as_slice(), self.cursor - 1).unwrap();
                    proof {
                        lemma_char_pos_inside(self.input@, self.cursor - 1);
                        lemma_byte_len_remove(self.input@, k as int);
                    }
                    self.input.remove(k);
                    self.cursor = self.cursor - 1;
                }
                assert(self@ =~~= spec_key(old(self)@, key, control).0);
                Action::Nothing
            },
            Key::Delete => {
                let n = utf8_len(self.input.as_slice());
                if (self.cursor as u128) < n {
                    let k = char_index(self.input.as_slice(), self.cursor).unwrap();
                    proof {
                        lemma_char_pos_inside(self.input@, self.cursor as int);
                        lemma_byte_len_remove(self.input@, k as int);
                    }
                    self.input.remove(k);
                }
                assert(self@ =~~= spec_key(old(self)@, key, control).0);
                Action::Nothing
            },
            Key::Left => {
                if self.cursor > 0 {
                    self.cursor = self.cursor - 1;
                }
                assert(self@ =~~= spec_key(old(self)@, key, control).0);
                Action::Nothing
            },
            Key::Right => {
                let n = utf8_len(self.input.as_slice());
                if (self.cursor as u128) < n {
                    self.cursor = self.cursor + 1;
                }
                assert(self@ =~~= spec_key(old(self)@, key, control).0);
                Action::Nothing
            },
            Key::Home => {
                self.cursor = 0;
                assert(self@ =~~= spec_key(old(self)@, key, control).0);
                Action::Nothing
            },
            Key::End => {
                let n = utf8_len(self.input.as_slice());
                self.cursor = n as usize;
                assert(self@ =~~= spec_key(old(self)@, key, control).0);
                Action::Nothing
            },
            Key::Up => {
                self.auto_scroll = false;
                self.scroll = self.scroll.saturating_sub(1);
                assert(self@ =~~= spec_key(old(self)@, key, control).0);
                Action::Nothing
            },
            Key::Down => {
                self.scroll = self.scroll + 1;
                assert(self@ =~~= spec_key(old(self)@, key, control).0);
                Action::Nothing
            },
            Key::PageUp => {
                self.auto_scroll = false;
                self.scroll = self.scroll.saturating_sub(10);
                assert(self@ =~~= spec_key(old(self)@, key, control).0);
                Action::Nothing
            },
            Key::PageDown => {
                self.scroll = self.scroll + 10;
                assert(self@ =~~= spec_key(old(self)@, key, control).0);
                Action::Nothing
            },
            Key::Other => Action::Nothing,
        }
    }
}

fn extend_or_add_entry(entries: &mut Vec<Entry>, role: Role, label: &str, t: &str)
    ensures
        entries_view(final(entries)@) == extend_or_add(
            entries_view(old(entries)@),
            role,
            label@,
            t@,
        ),
{
    let ghost before = entries_view(entries@);
    let n = entries.len();
    if n > 0 && entries[n - 1].role == role {
        let last = entries.pop().unwrap();
        let text = concat(last.text.as_str(), t);
        let e = Entry { role: last.role, label: last.label, text };
        let ghost ev = e@;
        entries.push(e);
        assert(entries_view(entries@) =~= before.update(n - 1, ev));
        assert(ev =~~= EntryView { text: before.last().text + t@, ..before.last() });
    } else {
        let e = Entry { role, label: str_lit(label), text: str_lit(t) };
        let ghost ev = e@;
        entries.push(e);
        assert(entries_view(entries@) =~= before.push(ev));
    }
}

impl App {
    /// Handles an event of the worker.
    pub fn handle_worker_msg(&mut self, msg: WorkerMsg) -> (act: Action)
        requires
            wf(old(self)@),
        ensures
            wf(final(self)@),
            (final(self)@, act) == spec_worker(old(self)@, msg),
    {
        proof {
            reveal_strlit("system");
            reveal_strlit("user");
        }
        match msg {
            WorkerMsg::ThinkToken(t) => {
                if self.show_thinking {
                    extend_or_add_entry(&mut self.entries, Role::Think, "thinking", t.as_str());
                    self.auto_scroll = true;
                }
                assert(self@ =~~= spec_worker(old(self)@, msg).0);
                Action::Nothing
            },
            WorkerMsg::Token(t) => {
                extend_or_add_entry(&mut self.entries, Role::Assistant, "offcode", t.as_str());
                self.auto_scroll = true;
                assert(self@ =~~= spec_worker(old(self)@, msg).0);
                Action::Nothing
            },
            WorkerMsg::ToolBegin { name, args } => {
                let a = fmt_args(&args);
                let e = Entry::tool(name, a);
                let ghost before = entries_view(self.entries@);
                let ghost ev = e@;
                self.entries.push(e);
                assert(entries_view(self.entries@) =~= before.push(ev));
                self.auto_scroll = true;
                assert(self@ =~~= spec_worker(old(self)@, msg).0);
                Action::Nothing
            },
            WorkerMsg::ToolEnd { result_preview } => {
                let n = self.entries.len();
                if n > 0 && self.entries[n - 1].role == Role::Tool && !result_preview.as_str().is_empty() {
                    let ghost before = entries_view(self.entries@);
                    let last = self.entries.pop().unwrap();
                    let mut v = chars_of(last.text.as_str());
                    push_lit(&mut v, "\n\u{2192} ");
                    let p = chars_of(result_preview.as_str());
                    push_str(&mut v, p.as_slice());
                    let e = Entry { role: last.role, label: last.label, text: string_from_chars(v.as_slice()) };
                    let ghost ev = e@;
                    self.entries.push(e);
                    assert(entries_view(self.entries@) =~= before.update(n - 1, ev));
                }
                assert(self@ =~~= spec_worker(old(self)@, msg).0);
                Action::Nothing
            },
            WorkerMsg::AddMessage(m) => {
                let ghost before = history_view(self.history@);
                let ghost mv = m@;
                self.history.push(m);
                assert(history_view(self.history@) =~= before.push(mv));
                assert(self@ =~~= spec_worker(old(self)@, msg).0);
                Action::Nothing
            },
            WorkerMsg::Done => {
                self.mode = Mode::Input;
                match self.queued.take() {
                    Some(q) => {
                        let c = chars_of(q.as_str());
                        let n = utf8_len(c.as_slice());
                        self.input = c;
                        self.cursor = n as usize;
                        self.submit()
                    },
                    None => {
                        assert(self@ =~~= spec_worker(old(self)@, msg).0);
                        Action::Nothing
                    },
                }
            },
            WorkerMsg::Error(e) => {
                self.mode = Mode::Input;
                self.queued = None;
                self.push_error(e);
                let n = self.history.len();
                let role = chars_of(self.history[n - 1].role.as_str());
                assert(history_view(self.history@)[n - 1].role == role@);
                if is_lit(role.as_slice(), "user") {
                    let ghost before = history_view(self.history@);
                    assert(n > 1) by {
                        if n == 1 {
                            assert(before[0].role == "system"@);
                        }
                    }
                    self.history.pop();
                    assert(history_view(self.history@) =~= before.drop_last());
                }
                assert(self@ =~~= spec_worker(old(self)@, msg).0);
                Action::Nothing
            },
        }
    }

    /// Shows the installed models, given what listing them gave and the capabilities of
    /// each.
    pub fn show_models(&mut self, listed: Result<Vec<ModelInfo>, String>, caps: &[ModelCaps])
        requires
            wf(old(self)@),
        ensures
            wf(final(self)@),
            final(self)@ == spec_show_models(old(self)@, listed, caps@),
    {
        match listed {
            Err(e) => {
                let t = concat("list models: ", e.as_str());
                self.push_error(t);
            },
            Ok(models) => {
                if models.len() == 0 {
                    self.push_info(str_lit("No models installed. Try `ollama pull <model>`."));
                } else {
                    let rows = format_model_listing(models.as_slice(), caps, self.model.as_str());
                    let text = model_listing_text(rows.as_slice(), self.model.as_str());
                    self.push_info(text);
                }
            },
        }
    }
}

// ── what the screen shows ────────────────────────────────────────────────────

/// How a piece of text is drawn.
#[derive(Clone, Copy, PartialEq, Eq, Structural)]
pub enum Tone {
    Plain,
    UserHead,
    AssistantHead,
    ThinkHead,
    ToolIcon,
    ToolName,
    ErrorHead,
    Text,
    Faint,
    Alert,
    Frame,
    Bold,
    Smile,
    Accent,
}

/// A line of the screen as pieces of text, each with how it is drawn.
pub type StyledLine = Vec<(String, Tone)>;

pub open spec fn line_view(l: Seq<(String, Tone)>) -> Seq<(Seq<char>, Tone)> {
    l.map_values(|p: (String, Tone)| (p.0@, p.1))
}

pub open spec fn lines_view(ls: Seq<Vec<(String, Tone)>>) -> Seq<Seq<(Seq<char>, Tone)>> {
    ls.map_values(|l: Vec<(String, Tone)>| line_view(l@))
}

/// The heading line of an entry (an informational entry has none).
pub open spec fn head_lines(e: EntryView) -> Seq<Seq<(Seq<char>, Tone)>> {
    match e.role {
        Role::User => seq![seq![("  \u{25b7} you"@, Tone::UserHead)]],
        Role::Assistant => seq![seq![("  \u{25c6} offcode"@, Tone::AssistantHead)]],
        Role::Think => seq![seq![("  \u{25c7} thinking"@, Tone::ThinkHead)]],
        Role::Tool => seq![seq![("  \u{2699} "@, Tone::ToolIcon), (e.label, Tone::ToolName)]],
        Role::Error => seq![seq![("  \u{2717} error"@, Tone::ErrorHead)]],
        Role::Info => Seq::empty(),
    }
}

pub open spec fn body_indent(r: Role) -> Seq<char> {
    if r == Role::Info {
        "  "@
    } else {
        "    "@
    }
}

pub open spec fn body_tone(r: Role) -> Tone {
    match r {
        Role::User | Role::Assistant => Tone::Text,
        Role::Error => Tone::Alert,
        _ => Tone::Faint,
    }
}

pub open spec fn body_line(r: Role, l: Seq<char>) -> Seq<(Seq<char>, Tone)> {
    seq![(body_indent(r), Tone::Plain), (l, body_tone(r))]
}

/// The width that an entry's text is wrapped at, in a view `width` columns wide.
pub open spec fn wrap_width(width: int) -> int {
    minus_sat(width, 4)
}

/// The text of `e` can be wrapped for a view `width` columns wide.
pub open spec fn entry_wraps(e: EntryView, width: int) -> bool {
    spec_word_wrap(e.text, wrap_width(width)) is Some
}

/// The lines of an entry: its heading, then its wrapped text, indented.
pub open spec fn spec_entry_lines(e: EntryView, width: int) -> Seq<Seq<(Seq<char>, Tone)>> {
    head_lines(e) + spec_word_wrap(e.text, wrap_width(width)).unwrap().map_values(
        |l: Seq<char>| body_line(e.role, l),
    )
}

/// The lines of the entries, each followed by a blank line.
pub open spec fn entries_lines(es: Seq<EntryView>, width: int) -> Seq<Seq<(Seq<char>, Tone)>>
    decreases es.len(),
{
    if es.len() == 0 {
        Seq::empty()
    } else {
        entries_lines(es.drop_last(), width) + spec_entry_lines(es.last(), width) + seq![
            Seq::empty(),
        ]
    }
}

/// The mascot that an empty conversation shows.
pub open spec fn mascot() -> Seq<Seq<(Seq<char>, Tone)>> {
    seq![
        Seq::empty(),
        seq![("      \u{256d}\u{2500}\u{2500}\u{2500}\u{2500}\u{2500}\u{2500}\u{2500}\u{2500}\u{2500}\u{2500}\u{256e}"@, Tone::Frame)],
        seq![
            ("      \u{2502}  "@, Tone::Frame),
            ("\u{25c9}"@, Tone::Bold),
            ("    "@, Tone::Plain),
            ("\u{25c9}"@, Tone::Bold),
            ("  \u{2502}   "@, Tone::Frame),
            ("offcode"@, Tone::Bold),
        ],
        seq![
            ("      \u{2502}   "@, Tone::Frame),
            ("\u{2570}\u{2500}\u{2500}\u{256f}"@, Tone::Smile),
            ("   \u{2502}   "@, Tone::Frame),
            ("offline coding assistant"@, Tone::Faint),
        ],
        seq![
            ("      \u{2570}\u{2500}\u{2500}\u{2500}\u{2500}\u{2500}\u{2500}\u{2500}\u{2500}\u{2500}\u{2500}\u{256f}   "@, Tone::Frame),
            ("powered by ollama \u{b7} type a prompt to begin"@, Tone::Faint),
        ],
        Seq::empty(),
        seq![("      "@, Tone::Accent)],
    ]
}

/// The lines of the conversation view: the mascot while it is empty, then each entry.
pub open spec fn spec_message_lines(v: AppView, width: int) -> Seq<Seq<(Seq<char>, Tone)>> {
    (if v.entries.len() == 0 {
        mascot()
    } else {
        Seq::empty()
    }) + entries_lines(v.entries, width)
}

/// The last position the view can be scrolled to, as a 16-bit number.
pub open spec fn bottom(total: int, height: int) -> int {
    minus_sat(total, height) % 0x10000
}

/// The scroll position after a frame of `total` lines was laid out in `height` rows: kept
/// at the bottom while following, never past the bottom, and following again once there.
pub open spec fn spec_settle(v: AppView, total: int, height: int) -> AppView {
    let m = bottom(total, height);
    let s = if v.auto_scroll {
        m
    } else {
        v.scroll
    };
    if s >= m {
        AppView { scroll: m, auto_scroll: true, ..v }
    } else {
        AppView { scroll: s, ..v }
    }
}

fn span(t: &str, tone: Tone) -> (r: (String, Tone))
    ensures
        r.0@ == t@,
        r.1 == tone,
{
    (str_lit(t), tone)
}

/// The lines of an entry in a view `width` columns wide.
pub fn entry_lines(e: &Entry, width: usize) -> (r: Vec<StyledLine>)
    requires
        entry_wraps(e@, width as int),
    ensures
        lines_view(r@) == spec_entry_lines(e@, width as int),
{
    let mut out: Vec<StyledLine> = Vec::new();
    match e.role {
        Role::User => out.push(vec![span("  \u{25b7} you", Tone::UserHead)]),
        Role::Assistant => out.push(vec![span("  \u{25c6} offcode", Tone::AssistantHead)]),
        Role::Think => out.push(vec![span("  \u{25c7} thinking", Tone::ThinkHead)]),
        Role::Tool => out.push(
            vec![span("  \u{2699} ", Tone::ToolIcon), (e.label.clone(), Tone::ToolName)],
        ),
        Role::Error => out.push(vec![span("  \u{2717} error", Tone::ErrorHead)]),
        Role::Info => {},
    }
    let ghost head = lines_view(out@);
    assert(head =~~= head_lines(e@));
    let w = if width >= 4 {
        width - 4
    } else {
        0
    };
    let ws = word_wrap(e.text.as_str(), w);
    let indent = if e.role == Role::Info {
        "  "
    } else {
        "    "
    };
    let tone = match e.role {
        Role::User | Role::Assistant => Tone::Text,
        Role::Error => Tone::Alert,
        _ => Tone::Faint,
    };
    let ghost body = crate::text::views(ws@).map_values(|l: Seq<char>| body_line(e.role, l));
    let mut i: usize = 0;
    while i < ws.len()
        invariant
            i <= ws.len(),
            indent@ == body_indent(e.role),
            tone == body_tone(e.role),
            body == crate::text::views(ws@).map_values(|l: Seq<char>| body_line(e.role, l)),
            lines_view(out@) == head + body.subrange(0, i as int),
        decreases ws.len() - i,
    {
        let line = vec![span(indent, Tone::Plain), (ws[i].clone(), tone)];
        let ghost before = lines_view(out@);
        let ghost lv = line_view(line@);
        assert(lv =~~= body[i as int]);
        out.push(line);
        assert(lines_view(out@) =~~= before.push(lv));
        assert(lines_view(out@) =~~= head + body.subrange(0, i + 1));
        i = i + 1;
    }
    assert(body.subrange(0, ws.len() as int) =~= body);
    out
}

/// The lines of the mascot.
pub fn mascot_lines() -> (r: Vec<StyledLine>)
    ensures
        lines_view(r@) == mascot(),
{
    let r: Vec<StyledLine> = vec![
        vec![],
        vec![span("      \u{256d}\u{2500}\u{2500}\u{2500}\u{2500}\u{2500}\u{2500}\u{2500}\u{2500}\u{2500}\u{2500}\u{256e}", Tone::Frame)],
        vec![
            span("      \u{2502}  ", Tone::Frame),
            span("\u{25c9}", Tone::Bold),
            span("    ", Tone::Plain),
            span("\u{25c9}", Tone::Bold),
            span("  \u{2502}   ", Tone::Frame),
            span("offcode", Tone::Bold),
        ],
        vec![
            span("      \u{2502}   ", Tone::Frame),
            span("\u{2570}\u{2500}\u{2500}\u{256f}", Tone::Smile),
            span("   \u{2502}   ", Tone::Frame),
            span("offline coding assistant", Tone::Faint),
        ],
        vec![
            span("      \u{2570}\u{2500}\u{2500}\u{2500}\u{2500}\u{2500}\u{2500}\u{2500}\u{2500}\u{2500}\u{2500}\u{256f}   ", Tone::Frame),
            span("powered by ollama \u{b7} type a prompt to begin", Tone::Faint),
        ],
        vec![],
        vec![span("      ", Tone::Accent)],
    ];
    assert(lines_view(r@) =~~= mascot());
    r
}

/// Which of the frames of the spinner shows at `tick`.
pub fn spinner_frame(tick: u64) -> (r: usize)
    ensures
        r == ((tick / 3) as usize) % 6,
{
    let t = #[verifier::truncate] ((tick / 3) as usize);
    t % 6
}

impl App {
    /// Whether every entry can be wrapped for a view `width` columns wide.
    pub fn renders_cleanly(&self, width: usize) -> (r: bool)
        ensures
            r == forall|i: int|
                0 <= i < self@.entries.len() ==> #[trigger] entry_wraps(self@.entries[i], width as int),
    {
        let w = if width >= 4 {
            width - 4
        } else {
            0
        };
        let mut i: usize = 0;
        while i < self.entries.len()
            invariant
                i <= self.entries.len(),
                w == wrap_width(width as int),
                forall|j: int| 0 <= j < i ==> #[trigger] entry_wraps(self@.entries[j], width as int),
            decreases self.entries.len() - i,
        {
            assert(self@.entries[i as int] == self.entries@[i as int]@);
            if !crate::wrap::wraps_cleanly(self.entries[i].text.as_str(), w) {
                assert(!entry_wraps(self@.entries[i as int], width as int));
                return false;
            }
            i = i + 1;
        }
        true
    }

    /// The lines of the conversation view, `width` columns wide.
    pub fn message_lines(&self, width: usize) -> (r: Vec<StyledLine>)
        requires
            forall|i: int|
                0 <= i < self@.entries.len() ==> #[trigger] entry_wraps(self@.entries[i], width as int),
        ensures
            lines_view(r@) == spec_message_lines(self@, width as int),
    {
        let mut out: Vec<StyledLine> = Vec::new();
        if self.entries.len() == 0 {
            out = mascot_lines();
        }
        let ghost start = lines_view(out@);
        let ghost es = self@.entries;
        let mut i: usize = 0;
        assert(es.subrange(0, 0) =~= Seq::<EntryView>::empty());
        assert(start + entries_lines(es.subrange(0, 0), width as int) =~= start);
        while i < self.entries.len()
            invariant
                i <= self.entries.len(),
                es == self@.entries,
                forall|j: int| 0 <= j < es.len() ==> #[trigger] entry_wraps(es[j], width as int),
                lines_view(out@) == start + entries_lines(es.subrange(0, i as int), width as int),
            decreases self.entries.len() - i,
        {
            assert(es[i as int] == self.entries@[i as int]@);
            assert(entry_wraps(es[i as int], width as int));
            let ls = entry_lines(&self.entries[i], width);
            let ghost before = lines_view(out@);
            let ghost lsv = lines_view(ls@);
            let mut ls = ls;
            out.append(&mut ls);
            let blank: StyledLine = Vec::new();
            out.push(blank);
            assert(es.subrange(0, i + 1).drop_last() =~= es.subrange(0, i as int));
            assert(lines_view(out@) =~~= before + lsv + seq![Seq::<(Seq<char>, Tone)>::empty()]);
            i = i + 1;
        }
        assert(es.subrange(0, self.entries.len() as int) =~= es);
        out
    }

    /// Settles the scroll position once a frame of `total` lines was laid out in `height`
    /// rows.
    pub fn settle_scroll(&mut self, total: usize, height: usize)
        ensures
            final(self)@ == spec_settle(old(self)@, total as int, height as int),
    {
        let d: usize = if total >= height {
            total - height
        } else {
            0
        };
        let m: u16 = #[verifier::truncate] (d as u16);
        proof {
            assert((d as u16) as int == d % 0x10000) by (bit_vector);
        }
        if self.auto_scroll {
            self.scroll = m;
        }
        if self.scroll >= m {
            self.scroll = m;
            self.auto_scroll = true;
        }
        assert(self@ =~~= spec_settle(old(self)@, total as int, height as int));
    }

    /// Advances the animation clock by one frame.
    pub fn advance_tick(&mut self)
        ensures
            final(self)@ == (AppView { tick: (old(self)@.tick + 1) % 0x1_0000_0000_0000_0000, ..old(self)@ }),
    {
        self.tick = self.tick.wrapping_add(1);
        assert(self@ =~~= (AppView { tick: (old(self)@.tick + 1) % 0x1_0000_0000_0000_0000, ..old(self)@ }));
    }
}

// ── laws of the session ───────────────────────────────────────────────────────

proof fn lemma_byte_len_prefix_grows(s: Seq<char>, j: int, k: int)
    requires
        0 <= j < k <= s.len(),
    ensures
        byte_len(s.subrange(0, j)) < byte_len(s.subrange(0, k)),
{
    assert(s.subrange(0, k) =~= s.subrange(0, j) + s.subrange(j, k));
    lemma_byte_len_concat(s.subrange(0, j), s.subrange(j, k));
    lemma_byte_len_bounds(s.subrange(j, k));
}

proof fn lemma_char_pos_from_prefix(s: Seq<char>, k: int, j: int)
    requires
        0 <= j <= k <= s.len(),
    ensures
        crate::wrap::char_pos_from(s, byte_len(s.subrange(0, k)), j) == Some(k),
    decreases k - j,
{
    if j < k {
        lemma_byte_len_prefix_grows(s, j, k);
        lemma_char_pos_from_prefix(s, k, j + 1);
    }
}

/// The character boundary at the end of the first `k` characters is found again.
proof fn lemma_char_pos_prefix(s: Seq<char>, k: int)
    requires
        0 <= k <= s.len(),
    ensures
        char_pos(s, byte_len(s.subrange(0, k))) == Some(k),
{
    lemma_char_pos_from_prefix(s, k, 0);
}

/// A command keeps the system prompt at the head of the history.
proof fn lemma_command_keeps_system_prompt(v: AppView, cmd: Seq<char>)
    requires
        wf(v),
    ensures
        spec_command(v, cmd).0.history.len() >= 1,
        spec_command(v, cmd).0.history[0] == v.history[0],
{
}

/// Sending the prompt keeps the system prompt at the head of the history.
proof fn lemma_submit_keeps_system_prompt(v: AppView)
    requires
        wf(v),
    ensures
        spec_submit(v).0.history.len() >= 1,
        spec_submit(v).0.history[0] == v.history[0],
{
    let text = trim(v.input);
    if text.len() > 0 {
        let v1 = AppView { input: Seq::empty(), cursor: 0, ..v };
        if text[0] == '/' {
            lemma_command_keeps_system_prompt(v1, text);
        }
    }
}

/// No key changes the system prompt, which stays at the head of the history.
pub proof fn law_key_keeps_system_prompt(v: AppView, key: Key, control: bool)
    requires
        wf(v),
        key_safe(v, key, control),
    ensures
        spec_key(v, key, control).0.history.len() >= 1,
        spec_key(v, key, control).0.history[0] == v.history[0],
{
    if key is Enter {
        lemma_submit_keeps_system_prompt(v);
    }
}

/// No event of the worker changes the system prompt, which stays at the head of the
/// history.
pub proof fn law_worker_keeps_system_prompt(v: AppView, msg: WorkerMsg)
    requires
        wf(v),
    ensures
        spec_worker(v, msg).0.history.len() >= 1,
        spec_worker(v, msg).0.history[0] == v.history[0],
{
    reveal_strlit("system");
    reveal_strlit("user");
    match msg {
        WorkerMsg::Done => {
            if let Some(q) = v.queued {
                lemma_byte_len_bounds(q);
                lemma_submit_keeps_system_prompt(
                    AppView { mode: Mode::Input, queued: None, input: q, cursor: byte_len(q), ..v },
                );
            }
        },
        WorkerMsg::Error(_) => {
            if v.history.len() == 1 {
                assert(v.history.last() == v.history[0]);
                assert("system"@.len() != "user"@.len());
                assert(v.history.last().role != "user"@);
            }
        },
        _ => {},
    }
}

/// A character typed and then erased with Backspace leaves the session as it was.
pub proof fn law_type_then_backspace(v: AppView, c: char)
    requires
        wf(v),
        key_safe(v, Key::Char(c), false),
    ensures
        key_safe(spec_key(v, Key::Char(c), false).0, Key::Backspace, false),
        spec_key(spec_key(v, Key::Char(c), false).0, Key::Backspace, false).0 == v,
{
    let k = char_pos(v.input, v.cursor).unwrap();
    lemma_char_pos_inside(v.input, v.cursor);
    let s2 = v.input.insert(k, c);
    assert(s2.subrange(0, k) =~= v.input.subrange(0, k));
    lemma_char_pos_prefix(s2, k);
    assert(s2.remove(k) =~= v.input);
    let v1 = spec_key(v, Key::Char(c), false).0;
    assert(spec_key(v1, Key::Backspace, false).0 =~~= v);
}

/// Every character of `s` is ASCII.
pub open spec fn all_ascii(s: Seq<char>) -> bool {
    forall|i: int| 0 <= i < s.len() ==> (#[trigger] s[i] as u32) < 0x80
}

proof fn lemma_ascii_byte_len(s: Seq<char>)
    requires
        all_ascii(s),
    ensures
        byte_len(s) == s.len(),
    decreases s.len(),
{
    if s.len() > 0 {
        let t = s.drop_last();
        assert(all_ascii(t)) by {
            assert forall|i: int| 0 <= i < t.len() implies (#[trigger] t[i] as u32) < 0x80 by {
                assert(t[i] == s[i]);
            }
        }
        lemma_ascii_byte_len(t);
        assert((s.last() as u32) < 0x80);
    }
}

/// In an ASCII prompt, byte offset `b` stands before the character at index `b`.
proof fn lemma_ascii_char_pos(s: Seq<char>, b: int)
    requires
        all_ascii(s),
        0 <= b <= s.len(),
    ensures
        char_pos(s, b) == Some(b),
{
    let t = s.subrange(0, b);
    assert(all_ascii(t)) by {
        assert forall|i: int| 0 <= i < t.len() implies (#[trigger] t[i] as u32) < 0x80 by {
            assert(t[i] == s[i]);
        }
    }
    lemma_ascii_byte_len(t);
    lemma_char_pos_prefix(s, b);
}

/// In a prompt of ASCII text, an ASCII character typed goes in at the cursor, which moves
/// past it; Backspace then gives back the prompt and the cursor as they were.
pub proof fn law_ascii_type_then_backspace(v: AppView, c: char)
    requires
        wf(v),
        all_ascii(v.input),
        (c as u32) < 0x80,
        v.input.len() < usize::MAX,
    ensures
        key_safe(v, Key::Char(c), false),
        spec_key(v, Key::Char(c), false).0.input == v.input.subrange(0, v.cursor) + seq![c]
            + v.input.subrange(v.cursor, v.input.len() as int),
        spec_key(v, Key::Char(c), false).0.cursor == v.cursor + 1,
        key_safe(spec_key(v, Key::Char(c), false).0, Key::Backspace, false),
        spec_key(spec_key(v, Key::Char(c), false).0, Key::Backspace, false).0 == v,
{
    lemma_ascii_byte_len(v.input);
    lemma_ascii_char_pos(v.input, v.cursor);
    let s2 = v.input.insert(v.cursor, c);
    assert(s2 =~= v.input.subrange(0, v.cursor) + seq![c] + v.input.subrange(
        v.cursor,
        v.input.len() as int,
    ));
    law_type_then_backspace(v, c);
}

/// A reply that fails takes back the prompt that asked for it: the history is as it was
/// before the prompt was sent.
pub proof fn law_failed_reply_forgets_prompt(v: AppView, e: String)
    requires
        wf(v),
        v.mode == Mode::Input,
        trim(v.input).len() > 0,
        trim(v.input)[0] != '/',
    ensures
        spec_submit(v).1 == Action::Generate,
        spec_worker(spec_submit(v).0, WorkerMsg::Error(e)).0.history == v.history,
        spec_worker(spec_submit(v).0, WorkerMsg::Error(e)).0.mode == Mode::Input,
{
    reveal_strlit("user");
    let v1 = spec_submit(v).0;
    assert(v1.history.last().role == "user"@);
    assert(v1.history.drop_last() =~= v.history);
}

/// A prompt sent while a reply is being generated waits: it is not sent and the history
/// does not change; when the reply is complete the prompt is sent, as if typed then.
pub proof fn law_queued_prompt_sent_when_done(v: AppView)
    requires
        wf(v),
        v.mode == Mode::Generating,
        trim(v.input).len() > 0,
        trim(v.input)[0] != '/',
    ensures
        spec_submit(v).1 == Action::Nothing,
        spec_submit(v).0.history == v.history,
        spec_submit(v).0.queued == Some(trim(v.input)),
        spec_worker(spec_submit(v).0, WorkerMsg::Done).1 == Action::Generate,
        spec_worker(spec_submit(v).0, WorkerMsg::Done).0.history == v.history.push(
            plain_view("user"@, trim(v.input)),
        ),
        spec_worker(spec_submit(v).0, WorkerMsg::Done).0.mode == Mode::Generating,
{
    crate::text::lemma_trim_idempotent(v.input);
}

/// Once settled, the view never stands past its last position, and a view that follows
/// the bottom stands at it.
pub proof fn law_settled_view_in_range(v: AppView, total: int, height: int)
    requires
        wf(v),
        total >= 0,
        height >= 0,
    ensures
        spec_settle(v, total, height).scroll <= bottom(total, height),
        spec_settle(v, total, height).auto_scroll ==> spec_settle(v, total, height).scroll
            == bottom(total, height),
{
}

/// The names of the tools, one per line, each after a bullet.
fn tools_listing() -> (r: String)
    ensures
        r@ == tools_text(),
{
    let defs = definitions();
    let ghost table = defs@.map_values(|t: crate::tools::ToolSpec| t@);
    let ghost want = tool_table().map_values(|t: crate::tools::ToolSpecView| "  \u{2022} "@ + t.name);
    let mut bullets: Vec<Vec<char>> = Vec::new();
    let mut i: usize = 0;
    while i < defs.len()
        invariant
            i <= defs.len(),
            table == defs@.map_values(|t: crate::tools::ToolSpec| t@),
            table == tool_table(),
            want == tool_table().map_values(|t: crate::tools::ToolSpecView| "  \u{2022} "@ + t.name),
            crate::text::seqs(bullets@) == want.subrange(0, i as int),
        decreases defs.len() - i,
    {
        let mut b: Vec<char> = Vec::new();
        push_lit(&mut b, "  \u{2022} ");
        let name = chars_of(defs[i].name.as_str());
        push_str(&mut b, name.as_slice());
        let ghost before = crate::text::seqs(bullets@);
        let ghost bv = b@;
        assert(table[i as int] == defs@[i as int]@);
        bullets.push(b);
        assert(crate::text::seqs(bullets@) =~= before.push(bv));
        assert(crate::text::seqs(bullets@) =~= want.subrange(0, i + 1));
        i = i + 1;
    }
    assert(want.subrange(0, defs.len() as int) =~= want);
    let sep = chars_of("\n");
    let j = crate::text::join_chars(&bullets, sep.as_slice());
    string_from_chars(j.as_slice())
}

} // verus!
