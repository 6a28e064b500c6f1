//! The command line and the plain prompt loop: arguments, prompt commands, the answers to
//! the confirmation of a tool call, and what a confirmed or refused call adds to the
//! history.
use vstd::prelude::*;

use serde_json::Value;

use crate::chat::{
    error_text, history_view, json_error_text, json_parse, new_message, parse_json, plain_view, rejection_text, spec_rejection,
    Message, MessageView, ToolCall, ToolCallView,
};
use crate::text::{
    byte_len, chars_of, is_whitespace, is_ws, join, lines, push_lit, push_str, same, seqs,
    slice_chars, starts_with, string_from_chars, trim, trim_chars, views,
};
use crate::wrap::{char_index, char_pos};

verus! {

// ── confirming a tool call ────────────────────────────────────────────────────

/// What the user decided about a tool call.
pub enum ConfirmAction {
    /// Run it as it is.
    Accept,
    /// Do not run it; the reason (possibly empty) goes to the model.
    Reject(String),
    /// Run it with these arguments instead.
    Modify(Value),
    /// Run it, then pass this note to the model.
    Comment(String),
}

/// What one answer to the confirmation prompt gives: a decision, or a note to show before
/// asking again.
pub enum ConfirmReply {
    Decided(ConfirmAction),
    Retry(String),
}

/// A reply with its strings taken as character sequences.
pub ghost enum ReplyView {
    Accept,
    Reject(Seq<char>),
    Modify(Value),
    Comment(Seq<char>),
    Retry(Seq<char>),
}

impl View for ConfirmReply {
    type V = ReplyView;

    open spec fn view(&self) -> ReplyView {
        match self {
            ConfirmReply::Decided(ConfirmAction::Accept) => ReplyView::Accept,
            ConfirmReply::Decided(ConfirmAction::Reject(r)) => ReplyView::Reject(r@),
            ConfirmReply::Decided(ConfirmAction::Modify(v)) => ReplyView::Modify(*v),
            ConfirmReply::Decided(ConfirmAction::Comment(c)) => ReplyView::Comment(c@),
            ConfirmReply::Retry(m) => ReplyView::Retry(m@),
        }
    }
}

/// `c` with an ASCII capital letter made small.
pub open spec fn ascii_lower(c: char) -> char {
    if 'A' <= c && c <= 'Z' {
        ((c as u32) + 32) as char
    } else {
        c
    }
}

/// `a` and `b` are equal but for the case of ASCII letters (`str::eq_ignore_ascii_case`).
pub open spec fn eq_ignore_ascii_case(a: Seq<char>, b: Seq<char>) -> bool {
    a.len() == b.len() && forall|i: int| 0 <= i < a.len() ==> ascii_lower(a[i]) == ascii_lower(b[i])
}

/// The index of the first whitespace character of `s` at or after `i`.
pub open spec fn first_ws_from(s: Seq<char>, i: int) -> Option<int>
    decreases s.len() - i,
{
    if i < 0 || i >= s.len() {
        None
    } else if is_ws(s[i]) {
        Some(i)
    } else {
        first_ws_from(s, i + 1)
    }
}

/// An answer cut at its first whitespace: the word before it, and the rest trimmed.
pub open spec fn split_head(s: Seq<char>) -> (Seq<char>, Seq<char>) {
    match first_ws_from(s, 0) {
        Some(i) => (s.subrange(0, i), trim(s.subrange(i + 1, s.len() as int))),
        None => (s, Seq::empty()),
    }
}

/// What an answer to the confirmation prompt gives (`None`: the answer could not be read).
/// A blank answer, `y` or `yes` accepts; `n` or `no` refuses; `r`/`reject`, `c`/`comment`
/// and `m`/`modify` take the rest of the line as a reason, a note or new JSON arguments.
pub open spec fn spec_confirm(line: Option<Seq<char>>) -> ReplyView {
    match line {
        None => ReplyView::Reject("stdin closed"@),
        Some(l) => {
            let t = trim(l);
            if t.len() == 0 || eq_ignore_ascii_case(t, "y"@) || eq_ignore_ascii_case(t, "yes"@) {
                ReplyView::Accept
            } else if eq_ignore_ascii_case(t, "n"@) || eq_ignore_ascii_case(t, "no"@) {
                ReplyView::Reject(Seq::empty())
            } else {
                let (head, rest) = split_head(t);
                if head == "r"@ || head == "reject"@ {
                    ReplyView::Reject(rest)
                } else if head == "c"@ || head == "comment"@ {
                    if rest.len() == 0 {
                        ReplyView::Retry("  (comment text required)"@)
                    } else {
                        ReplyView::Comment(rest)
                    }
                } else if head == "m"@ || head == "modify"@ {
                    if rest.len() == 0 {
                        ReplyView::Retry("  (json args required)"@)
                    } else {
                        match json_parse(rest) {
                            Ok(v) => ReplyView::Modify(v),
                            Err(e) => ReplyView::Retry("  invalid JSON: "@ + json_error_text(e)),
                        }
                    }
                } else {
                    ReplyView::Retry("  unknown response"@)
                }
            }
        },
    }
}

fn lower_char(c: char) -> (r: char)
    ensures
        r == ascii_lower(c),
{
    if 'A' <= c && c <= 'Z' {
        let u = (c as u32) + 32;
        proof {
            assert(0x61 <= u <= 0x7a);
        }
        #[verifier::truncate]
        (u as u8) as char
    } else {
        c
    }
}

fn eq_ignore_case(a: &[char], lit: &str) -> (r: bool)
    ensures
        r == eq_ignore_ascii_case(a@, lit@),
{
    let b = chars_of(lit);
    if a.len() != b.len() {
        return false;
    }
    let mut i: usize = 0;
    while i < a.len()
        invariant
            i <= a.len(),
            a.len() == b.len(),
            b@ == lit@,
            forall|j: int| 0 <= j < i ==> ascii_lower(a@[j]) == ascii_lower(b@[j]),
        decreases a.len() - i,
    {
        if lower_char(a[i]) != lower_char(b[i]) {
            return false;
        }
        i = i + 1;
    }
    true
}

fn is_lit(a: &[char], lit: &str) -> (r: bool)
    ensures
        r == (a@ == lit@),
{
    let b = chars_of(lit);
    same(a, b.as_slice())
}

fn split_head_chars(s: &[char]) -> (r: (Vec<char>, Vec<char>))
    ensures
        (r.0@, r.1@) == split_head(s@),
{
    let mut i: usize = 0;
    while i < s.len()
        invariant
            i <= s.len(),
            first_ws_from(s@, 0) == first_ws_from(s@, i as int),
        decreases s.len() - i,
    {
        if is_whitespace(s[i]) {
            let head = slice_chars(s, 0, i);
            let tail = slice_chars(s, i + 1, s.len());
            let rest = trim_chars(tail.as_slice());
            return (head, rest);
        }
        i = i + 1;
    }
    let whole = slice_chars(s, 0, s.len());
    assert(whole@ =~= s@);
    (whole, Vec::new())
}

fn retry(m: &str) -> (r: ConfirmReply)
    ensures
        r@ == ReplyView::Retry(m@),
{
    ConfirmReply::Retry(String::from_str(m))
}

/// What an answer to the confirmation prompt gives (`None`: it could not be read).
pub fn parse_confirm(line: Option<&str>) -> (r: ConfirmReply)
    ensures
        r@ == spec_confirm(
            match line {
                Some(l) => Some(l@),
                None => None,
            },
        ),
{
    let l = match line {
        None => {
            return ConfirmReply::Decided(ConfirmAction::Reject(String::from_str("stdin closed")));
        },
        Some(l) => l,
    };
    let c = chars_of(l);
    let t = trim_chars(c.as_slice());
    if t.len() == 0 || eq_ignore_case(t.as_slice(), "y") || eq_ignore_case(t.as_slice(), "yes") {
        return ConfirmReply::Decided(ConfirmAction::Accept);
    }
    if eq_ignore_case(t.as_slice(), "n") || eq_ignore_case(t.as_slice(), "no") {
        return ConfirmReply::Decided(ConfirmAction::Reject(String::new()));
    }
    let (head, rest) = split_head_chars(t.as_slice());
    if is_lit(head.as_slice(), "r") || is_lit(head.as_slice(), "reject") {
        ConfirmReply::Decided(ConfirmAction::Reject(string_from_chars(rest.as_slice())))
    } else if is_lit(head.as_slice(), "c") || is_lit(head.as_slice(), "comment") {
        if rest.len() == 0 {
            retry("  (comment text required)")
        } else {
            ConfirmReply::Decided(ConfirmAction::Comment(string_from_chars(rest.as_slice())))
        }
    } else if is_lit(head.as_slice(), "m") || is_lit(head.as_slice(), "modify") {
        if rest.len() == 0 {
            retry("  (json args required)")
        } else {
            let text = string_from_chars(rest.as_slice());
            match parse_json(text.as_str()) {
                Ok(v) => ConfirmReply::Decided(ConfirmAction::Modify(v)),
                Err(e) => {
                    let mut m: Vec<char> = Vec::new();
                    push_lit(&mut m, "  invalid JSON: ");
                    let et = error_text(&e);
                    let ec = chars_of(et.as_str());
                    push_str(&mut m, ec.as_slice());
                    ConfirmReply::Retry(string_from_chars(m.as_slice()))
                },
            }
        }
    } else {
        retry("  unknown response")
    }
}

/// Gives a tool call the arguments that a `Modify` decision holds; other decisions leave it
/// as it is.
pub fn apply_confirm(call: &mut ToolCall, action: &ConfirmAction)
    ensures
        match action {
            ConfirmAction::Modify(v) => final(call)@ == (ToolCallView { arguments: *v, ..old(call)@ }),
            _ => final(call)@ == old(call)@,
        },
{
    match action {
        ConfirmAction::Modify(v) => {
            call.function.arguments = v.clone();
        },
        _ => {},
    }
}

/// Whether a decision runs the tool.
pub open spec fn runs_tool(a: ConfirmAction) -> bool {
    !(a is Reject)
}

impl ConfirmAction {
    /// Whether this decision runs the tool: every decision but a refusal does.
    pub fn runs(&self) -> (r: bool)
        ensures
            r == runs_tool(*self),
    {
        match self {
            ConfirmAction::Reject(_) => false,
            _ => true,
        }
    }
}

/// What a decided tool call adds to the history: the tool's report (or, for a refused call,
/// the refusal), then the user's note for a commented one.
pub open spec fn settled(h: Seq<MessageView>, action: ConfirmAction, output: Option<String>) -> Seq<
    MessageView,
> {
    match action {
        ConfirmAction::Reject(reason) => h.push(plain_view("tool"@, spec_rejection(reason@))),
        ConfirmAction::Comment(note) => h.push(plain_view("tool"@, output.unwrap()@)).push(
            plain_view("user"@, note@),
        ),
        _ => h.push(plain_view("tool"@, output.unwrap()@)),
    }
}

/// Adds to the history what a decided tool call gives; `output` is the tool's report,
/// present exactly when the decision runs the tool.
pub fn settle_call(messages: &mut Vec<Message>, action: ConfirmAction, output: Option<String>)
    requires
        output is Some == runs_tool(action),
    ensures
        history_view(final(messages)@) == settled(history_view(old(messages)@), action, output),
{
    let ghost before = history_view(messages@);
    match action {
        ConfirmAction::Reject(reason) => {
            let m = new_message("tool", rejection_text(reason.as_str()));
            let ghost mv = m@;
            messages.push(m);
            assert(history_view(messages@) =~= before.push(mv));
        },
        ConfirmAction::Comment(note) => {
            let ghost nv = note@;
            let out = output.unwrap();
            let m = new_message("tool", out);
            let ghost mv = m@;
            messages.push(m);
            let u = new_message("user", note);
            let ghost uv = u@;
            messages.push(u);
            assert(history_view(messages@) =~= before.push(mv).push(uv));
        },
        _ => {
            let out = output.unwrap();
            let m = new_message("tool", out);
            let ghost mv = m@;
            messages.push(m);
            assert(history_view(messages@) =~= before.push(mv));
        },
    }
}

/// Drops the last message of a turn that failed.
pub fn abandon_turn(messages: &mut Vec<Message>)
    ensures
        history_view(final(messages)@) == if old(messages)@.len() > 0 {
            history_view(old(messages)@).drop_last()
        } else {
            history_view(old(messages)@)
        },
{
    let ghost before = history_view(messages@);
    if messages.len() > 0 {
        messages.pop();
        assert(history_view(messages@) =~= before.drop_last());
    }
}

// ── the command line ──────────────────────────────────────────────────────────

/// What the program is asked to do.
#[derive(Clone, Copy, PartialEq, Eq, Structural)]
pub enum CliAction {
    /// Answer the prompt given, or start an interactive session.
    Run,
    Help,
    Version,
    /// Print the configuration file's path and the configuration.
    ShowConfig,
}

/// The command line, read: the action, the settings it overrides, and the words of a
/// prompt given on it.
pub struct CliArgs {
    pub action: CliAction,
    pub model: Option<String>,
    pub url: Option<String>,
    pub think: bool,
    pub no_tui: bool,
    pub no_ctx: bool,
    pub prompt: Vec<String>,
}

#[verifier::ext_equal]
pub ghost struct CliView {
    pub action: CliAction,
    pub model: Option<Seq<char>>,
    pub url: Option<Seq<char>>,
    pub think: bool,
    pub no_tui: bool,
    pub no_ctx: bool,
    pub prompt: Seq<Seq<char>>,
}

pub open spec fn opt_str(o: Option<String>) -> Option<Seq<char>> {
    match o {
        Some(s) => Some(s@),
        None => None,
    }
}

impl View for CliArgs {
    type V = CliView;

    open spec fn view(&self) -> CliView {
        CliView {
            action: self.action,
            model: opt_str(self.model),
            url: opt_str(self.url),
            think: self.think,
            no_tui: self.no_tui,
            no_ctx: self.no_ctx,
            prompt: views(self.prompt@),
        }
    }
}

/// The command line read from argument `i` on: `-h`/`--help`, `-v`/`--version` and
/// `--config` stop the reading; `-m`/`--model` and `--url` take the next argument (none
/// when it is missing); `--think`, `--no-tui` and `--no-ctx` set their flag; any other
/// argument starts the prompt, which takes all the arguments from there on.
pub open spec fn cli_from(args: Seq<Seq<char>>, i: int, acc: CliView) -> CliView
    decreases args.len() + 2 - i,
{
    if i < 1 || i >= args.len() {
        acc
    } else {
        let a = args[i];
        if a == "-h"@ || a == "--help"@ {
            CliView { action: CliAction::Help, ..acc }
        } else if a == "-v"@ || a == "--version"@ {
            CliView { action: CliAction::Version, ..acc }
        } else if a == "--config"@ {
            CliView { action: CliAction::ShowConfig, ..acc }
        } else if a == "-m"@ || a == "--model"@ {
            cli_from(
                args,
                i + 2,
                if i + 1 < args.len() {
                    CliView { model: Some(args[i + 1]), ..acc }
                } else {
                    acc
                },
            )
        } else if a == "--url"@ {
            cli_from(
                args,
                i + 2,
                if i + 1 < args.len() {
                    CliView { url: Some(args[i + 1]), ..acc }
                } else {
                    acc
                },
            )
        } else if a == "--think"@ {
            cli_from(args, i + 1, CliView { think: true, ..acc })
        } else if a == "--no-tui"@ {
            cli_from(args, i + 1, CliView { no_tui: true, ..acc })
        } else if a == "--no-ctx"@ {
            cli_from(args, i + 1, CliView { no_ctx: true, ..acc })
        } else {
            CliView { prompt: args.subrange(i, args.len() as int), ..acc }
        }
    }
}

pub open spec fn no_options() -> CliView {
    CliView {
        action: CliAction::Run,
        model: None,
        url: None,
        think: false,
        no_tui: false,
        no_ctx: false,
        prompt: Seq::empty(),
    }
}

/// The command line `args` (the program's name first) read.
pub open spec fn spec_parse_args(args: Seq<Seq<char>>) -> CliView {
    cli_from(args, 1, no_options())
}

/// Reads the command line `args`, the program's name first.
pub fn parse_args(args: &[String]) -> (r: CliArgs)
    ensures
        r@ == spec_parse_args(views(args@)),
{
    let ghost all = views(args@);
    let mut r = CliArgs {
        action: CliAction::Run,
        model: None,
        url: None,
        think: false,
        no_tui: false,
        no_ctx: false,
        prompt: Vec::new(),
    };
    assert(r@ =~~= no_options());
    let mut i: usize = 1;
    while i < args.len()
        invariant
            1 <= i,
            all == views(args@),
            r.action == CliAction::Run,
            r.prompt@.len() == 0,
            spec_parse_args(all) == cli_from(all, i as int, r@),
        decreases args.len() + 2 - i,
    {
        let a = chars_of(args[i].as_str());
        assert(all[i as int] == a@);
        assert(all.len() == args.len());
        if is_lit(a.as_slice(), "-h") || is_lit(a.as_slice(), "--help") {
            r.action = CliAction::Help;
            return r;
        } else if is_lit(a.as_slice(), "-v") || is_lit(a.as_slice(), "--version") {
            r.action = CliAction::Version;
            return r;
        } else if is_lit(a.as_slice(), "--config") {
            r.action = CliAction::ShowConfig;
            return r;
        } else if is_lit(a.as_slice(), "-m") || is_lit(a.as_slice(), "--model") {
            if i + 1 < args.len() {
                assert(all[i + 1] == args@[i + 1]@);
                let ghost prev = r@;
                r.model = Some(args[i + 1].clone());
                assert(r@ =~~= (CliView { model: Some(all[i + 1]), ..prev }));
                assert(cli_from(all, i as int, prev) == cli_from(all, i + 2, r@));
                i = i + 2;
            } else {
                i = args.len();
            }
        } else if is_lit(a.as_slice(), "--url") {
            if i + 1 < args.len() {
                assert(all[i + 1] == args@[i + 1]@);
                let ghost prev = r@;
                r.url = Some(args[i + 1].clone());
                assert(r@ =~~= (CliView { url: Some(all[i + 1]), ..prev }));
                assert(cli_from(all, i as int, prev) == cli_from(all, i + 2, r@));
                i = i + 2;
            } else {
                i = args.len();
            }
        } else if is_lit(a.as_slice(), "--think") {
            let ghost prev = r@;
            r.think = true;
            assert(r@ =~~= (CliView { think: true, ..prev }));
            i = i + 1;
        } else if is_lit(a.as_slice(), "--no-tui") {
            let ghost prev = r@;
            r.no_tui = true;
            assert(r@ =~~= (CliView { no_tui: true, ..prev }));
            i = i + 1;
        } else if is_lit(a.as_slice(), "--no-ctx") {
            let ghost prev = r@;
            r.no_ctx = true;
            assert(r@ =~~= (CliView { no_ctx: true, ..prev }));
            i = i + 1;
        } else {
            let mut words: Vec<String> = Vec::new();
            let mut j: usize = i;
            while j < args.len()
                invariant
                    i <= j <= args.len(),
                    all == views(args@),
                    views(words@) == all.subrange(i as int, j as int),
                decreases args.len() - j,
            {
                let ghost before = views(words@);
                let w = args[j].clone();
                let ghost wv = w@;
                words.push(w);
                assert(views(words@) =~= before.push(wv));
                assert(all.subrange(i as int, j + 1) =~= all.subrange(i as int, j as int).push(
                    all[j as int],
                ));
                j = j + 1;
            }
            let ghost prev = r@;
            r.prompt = words;
            assert(all.subrange(i as int, args.len() as int) == views(r.prompt@));
            assert(r@ =~~= (CliView { prompt: all.subrange(i as int, all.len() as int), ..prev }));
            return r;
        }
    }
    r
}

// ── the plain prompt loop ─────────────────────────────────────────────────────

/// What a line typed at the plain prompt asks for.
pub enum ReplCommand {
    /// A blank line: ask again.
    Empty,
    Exit,
    Help,
    Clear,
    Compact,
    Tools,
    Yolo,
    ShowConfig,
    History,
    ListModels,
    SetModel(String),
    Unknown,
    /// Anything else: a prompt for the model.
    Prompt(String),
}

pub ghost enum ReplView {
    Empty,
    Exit,
    Help,
    Clear,
    Compact,
    Tools,
    Yolo,
    ShowConfig,
    History,
    ListModels,
    SetModel(Seq<char>),
    Unknown,
    Prompt(Seq<char>),
}

impl View for ReplCommand {
    type V = ReplView;

    open spec fn view(&self) -> ReplView {
        match self {
            ReplCommand::Empty => ReplView::Empty,
            ReplCommand::Exit => ReplView::Exit,
            ReplCommand::Help => ReplView::Help,
            ReplCommand::Clear => ReplView::Clear,
            ReplCommand::Compact => ReplView::Compact,
            ReplCommand::Tools => ReplView::Tools,
            ReplCommand::Yolo => ReplView::Yolo,
            ReplCommand::ShowConfig => ReplView::ShowConfig,
            ReplCommand::History => ReplView::History,
            ReplCommand::ListModels => ReplView::ListModels,
            ReplCommand::SetModel(m) => ReplView::SetModel(m@),
            ReplCommand::Unknown => ReplView::Unknown,
            ReplCommand::Prompt(p) => ReplView::Prompt(p@),
        }
    }
}

/// What a line typed at the plain prompt asks for, once trimmed.
pub open spec fn spec_repl_command(line: Seq<char>) -> ReplView {
    let t = trim(line);
    if t.len() == 0 {
        ReplView::Empty
    } else if t == "/exit"@ || t == "/quit"@ || t == "/q"@ {
        ReplView::Exit
    } else if t == "/help"@ {
        ReplView::Help
    } else if t == "/clear"@ || t == "/reset"@ {
        ReplView::Clear
    } else if t == "/compact"@ {
        ReplView::Compact
    } else if t == "/tools"@ {
        ReplView::Tools
    } else if t == "/yolo"@ {
        ReplView::Yolo
    } else if t == "/config"@ {
        ReplView::ShowConfig
    } else if t == "/history"@ {
        ReplView::History
    } else if t == "/model"@ || t == "/models"@ {
        ReplView::ListModels
    } else if starts_with(t, "/model "@) {
        ReplView::SetModel(trim(t.subrange(7, t.len() as int)))
    } else if t[0] == '/' {
        ReplView::Unknown
    } else {
        ReplView::Prompt(t)
    }
}

/// What a line typed at the plain prompt asks for.
pub fn repl_command(line: &str) -> (r: ReplCommand)
    ensures
        r@ == spec_repl_command(line@),
{
    proof {
        reveal_strlit("/model ");
    }
    let c = chars_of(line);
    let t = trim_chars(c.as_slice());
    let s = t.as_slice();
    if t.len() == 0 {
        ReplCommand::Empty
    } else if is_lit(s, "/exit") || is_lit(s, "/quit") || is_lit(s, "/q") {
        ReplCommand::Exit
    } else if is_lit(s, "/help") {
        ReplCommand::Help
    } else if is_lit(s, "/clear") || is_lit(s, "/reset") {
        ReplCommand::Clear
    } else if is_lit(s, "/compact") {
        ReplCommand::Compact
    } else if is_lit(s, "/tools") {
        ReplCommand::Tools
    } else if is_lit(s, "/yolo") {
        ReplCommand::Yolo
    } else if is_lit(s, "/config") {
        ReplCommand::ShowConfig
    } else if is_lit(s, "/history") {
        ReplCommand::History
    } else if is_lit(s, "/model") || is_lit(s, "/models") {
        ReplCommand::ListModels
    } else if crate::text::has_prefix(s, chars_of("/model ").as_slice()) {
        let rest = slice_chars(s, 7, t.len());
        let m = trim_chars(rest.as_slice());
        ReplCommand::SetModel(string_from_chars(m.as_slice()))
    } else if t[0] == '/' {
        ReplCommand::Unknown
    } else {
        ReplCommand::Prompt(string_from_chars(s))
    }
}

/// The note that says whether tool calls now run without asking.
pub open spec fn spec_yolo_note(on: bool) -> Seq<char> {
    "Yolo mode: "@ + if on {
        "on (tools run without prompting)"@
    } else {
        "off (prompt before each tool call)"@
    }
}

/// The note that says whether tool calls now run without asking.
pub fn yolo_note(on: bool) -> (r: String)
    ensures
        r@ == spec_yolo_note(on),
{
    let mut v: Vec<char> = Vec::new();
    push_lit(&mut v, "Yolo mode: ");
    if on {
        push_lit(&mut v, "on (tools run without prompting)");
    } else {
        push_lit(&mut v, "off (prompt before each tool call)");
    }
    string_from_chars(v.as_slice())
}

// ── the history, listed ───────────────────────────────────────────────────────

/// Who a message of the history comes from, as the history listing tells.
#[derive(Clone, Copy, PartialEq, Eq, Structural)]
pub enum Speaker {
    User,
    Assistant,
    Tool,
    Other,
}

pub open spec fn speaker_of(role: Seq<char>) -> Speaker {
    if role == "user"@ {
        Speaker::User
    } else if role == "assistant"@ {
        Speaker::Assistant
    } else if role == "tool"@ {
        Speaker::Tool
    } else {
        Speaker::Other
    }
}

/// The label of a speaker, padded to eight columns.
pub open spec fn speaker_label(s: Speaker) -> Seq<char> {
    match s {
        Speaker::User => "you     "@,
        Speaker::Assistant => "offcode "@,
        Speaker::Tool => "tool    "@,
        Speaker::Other => "other   "@,
    }
}

/// The first two lines of a message joined with ` · `.
pub open spec fn first_two_lines(content: Seq<char>) -> Seq<char> {
    let ls = lines(content);
    join(ls.take(if ls.len() < 2 { ls.len() as int } else { 2 }), " \u{b7} "@)
}

/// A message's preview can be cut at its hundredth byte: it is shorter, or a character
/// starts there.
pub open spec fn preview_cuts_cleanly(content: Seq<char>) -> bool {
    let j = first_two_lines(content);
    byte_len(j) > 100 ==> char_pos(j, 100) is Some
}

/// A message's preview: its first two lines, cut after 100 bytes with an ellipsis.
pub open spec fn spec_history_preview(content: Seq<char>) -> Seq<char> {
    let j = first_two_lines(content);
    if byte_len(j) > 100 {
        j.take(char_pos(j, 100).unwrap()) + "\u{2026}"@
    } else {
        j
    }
}

/// One line of the history listing.
pub struct HistoryRow {
    pub speaker: Speaker,
    pub label: String,
    pub preview: String,
}

#[verifier::ext_equal]
pub ghost struct HistoryRowView {
    pub speaker: Speaker,
    pub label: Seq<char>,
    pub preview: Seq<char>,
}

impl View for HistoryRow {
    type V = HistoryRowView;

    open spec fn view(&self) -> HistoryRowView {
        HistoryRowView { speaker: self.speaker, label: self.label@, preview: self.preview@ }
    }
}

pub open spec fn row_of(m: MessageView) -> HistoryRowView {
    let s = speaker_of(m.role);
    HistoryRowView { speaker: s, label: speaker_label(s), preview: spec_history_preview(m.content) }
}

/// The history listing: a row for each message after the system prompt.
pub open spec fn spec_history_rows(h: Seq<MessageView>) -> Seq<HistoryRowView> {
    if h.len() == 0 {
        Seq::empty()
    } else {
        h.skip(1).map_values(|m: MessageView| row_of(m))
    }
}

/// Every message after the system prompt has a preview that can be cut cleanly.
pub open spec fn history_cuts_cleanly(h: Seq<MessageView>) -> bool {
    forall|i: int| 1 <= i < h.len() ==> #[trigger] preview_cuts_cleanly(h[i].content)
}

fn first_two_lines_chars(content: &str) -> (r: Vec<char>)
    ensures
        r@ == first_two_lines(content@),
{
    let c = chars_of(content);
    let mut ls = crate::text::split_lines(c.as_slice());
    let ghost all = seqs(ls@);
    if ls.len() > 2 {
        ls.truncate(2);
    }
    assert(seqs(ls@) =~= all.take(if all.len() < 2 { all.len() as int } else { 2 }));
    let sep = chars_of(" \u{b7} ");
    crate::text::join_chars(&ls, sep.as_slice())
}

/// Whether a message's preview can be cut cleanly.
pub fn preview_ok(content: &str) -> (r: bool)
    ensures
        r == preview_cuts_cleanly(content@),
{
    let j = first_two_lines_chars(content);
    let n = crate::text::utf8_len(j.as_slice());
    if n > 100 {
        char_index(j.as_slice(), 100).is_some()
    } else {
        true
    }
}

/// A message's preview.
pub fn history_preview(content: &str) -> (r: String)
    requires
        preview_cuts_cleanly(content@),
    ensures
        r@ == spec_history_preview(content@),
{
    let j = first_two_lines_chars(content);
    let n = crate::text::utf8_len(j.as_slice());
    if n > 100 {
        let k = char_index(j.as_slice(), 100).unwrap();
        proof {
            crate::wrap::lemma_char_pos_from(j@, 100, 0);
        }
        let mut v = slice_chars(j.as_slice(), 0, k);
        push_lit(&mut v, "\u{2026}");
        assert(v@ =~= j@.take(k as int) + "\u{2026}"@);
        string_from_chars(v.as_slice())
    } else {
        string_from_chars(j.as_slice())
    }
}

fn speaker_row(m: &Message) -> (r: HistoryRow)
    requires
        preview_cuts_cleanly(m@.content),
    ensures
        r@ == row_of(m@),
{
    let role = chars_of(m.role.as_str());
    let (speaker, label) = if is_lit(role.as_slice(), "user") {
        (Speaker::User, "you     ")
    } else if is_lit(role.as_slice(), "assistant") {
        (Speaker::Assistant, "offcode ")
    } else if is_lit(role.as_slice(), "tool") {
        (Speaker::Tool, "tool    ")
    } else {
        (Speaker::Other, "other   ")
    };
    HistoryRow {
        speaker,
        label: String::from_str(label),
        preview: history_preview(m.content.as_str()),
    }
}

/// Whether every message after the system prompt has a preview that can be cut cleanly.
pub fn history_ok(messages: &[Message]) -> (r: bool)
    ensures
        r == history_cuts_cleanly(history_view(messages@)),
{
    let ghost h = history_view(messages@);
    let mut i: usize = 1;
    while i < messages.len()
        invariant
            1 <= i,
            h == history_view(messages@),
            forall|j: int| 1 <= j < i && j < h.len() ==> #[trigger] preview_cuts_cleanly(h[j].content),
        decreases messages.len() - i,
    {
        assert(h[i as int] == messages@[i as int]@);
        if !preview_ok(messages[i].content.as_str()) {
            assert(!preview_cuts_cleanly(h[i as int].content));
            return false;
        }
        i = i + 1;
    }
    true
}

/// The history listing: a row for each message after the system prompt.
pub fn history_rows(messages: &[Message]) -> (r: Vec<HistoryRow>)
    requires
        history_cuts_cleanly(history_view(messages@)),
    ensures
        r@.map_values(|x: HistoryRow| x@) == spec_history_rows(history_view(messages@)),
{
    let ghost h = history_view(messages@);
    let ghost want = spec_history_rows(h);
    let mut out: Vec<HistoryRow> = Vec::new();
    if messages.len() == 0 {
        assert(want =~= Seq::<HistoryRowView>::empty());
        return out;
    }
    let mut i: usize = 1;
    while i < messages.len()
        invariant
            1 <= i <= messages.len(),
            h == history_view(messages@),
            want == spec_history_rows(h),
            history_cuts_cleanly(h),
            out@.map_values(|x: HistoryRow| x@) == want.subrange(0, i - 1),
        decreases messages.len() - i,
    {
        assert(h[i as int] == messages@[i as int]@);
        assert(preview_cuts_cleanly(h[i as int].content));
        let row = speaker_row(&messages[i]);
        let ghost before = out@.map_values(|x: HistoryRow| x@);
        let ghost rv = row@;
        out.push(row);
        assert(out@.map_values(|x: HistoryRow| x@) =~= before.push(rv));
        assert(want[i - 1] == row_of(h[i as int]));
        assert(out@.map_values(|x: HistoryRow| x@) =~= want.subrange(0, i as int));
        i = i + 1;
    }
    assert(want.subrange(0, messages.len() - 1) =~= want);
    out
}

// ── the session's setting ─────────────────────────────────────────────────────

/// The note that tells the model of the saved history of earlier sessions.
pub open spec fn saved_context_hint() -> Seq<char> {
    "\n\nA file named .offcode.ctx exists in the current directory. It contains the conversation history from previous sessions in JSON format. Read it with the read_file tool at the start to restore context."@
}

/// The system prompt: the configured one, then the working directory and the operating
/// system, then the note on saved history when a saved history exists.
pub open spec fn spec_system_prompt(base: Seq<char>, cwd: Seq<char>, os: Seq<char>, saved: bool) -> Seq<
    char,
> {
    base + "\n\nCurrent directory: "@ + cwd + "\nOS: "@ + os + if saved {
        saved_context_hint()
    } else {
        Seq::empty()
    }
}

/// The system prompt for a session in `cwd` on the operating system `os`; `saved` tells
/// whether a saved history exists there.
pub fn compose_system_prompt(base: &str, cwd: &str, os: &str, saved: bool) -> (r: String)
    ensures
        r@ == spec_system_prompt(base@, cwd@, os@, saved),
{
    let mut v = chars_of(base);
    push_lit(&mut v, "\n\nCurrent directory: ");
    push_lit(&mut v, cwd);
    push_lit(&mut v, "\nOS: ");
    push_lit(&mut v, os);
    if saved {
        push_lit(
            &mut v,
            "\n\nA file named .offcode.ctx exists in the current directory. It contains the conversation history from previous sessions in JSON format. Read it with the read_file tool at the start to restore context.",
        );
    } else {
        assert(v@ =~= v@ + Seq::<char>::empty());
    }
    string_from_chars(v.as_slice())
}

/// The server's base URL without the slashes that end it (`str::trim_end_matches('/')`).
pub open spec fn spec_base_url(url: Seq<char>) -> Seq<char> {
    crate::text::strip_end_by(url, crate::text::slash_sep())
}

/// The server's base URL without the slashes that end it.
pub fn base_url(url: &str) -> (r: String)
    ensures
        r@ == spec_base_url(url@),
{
    let c = chars_of(url);
    let ghost p = crate::text::slash_sep();
    let mut b: usize = c.len();
    assert(c@.subrange(0, c.len() as int) =~= c@);
    while b > 0 && c[b - 1] == '/'
        invariant
            b <= c.len(),
            p == crate::text::slash_sep(),
            crate::text::strip_end_by(c@, p) == crate::text::strip_end_by(c@.subrange(0, b as int), p),
        decreases b,
    {
        let ghost t = c@.subrange(0, b as int);
        assert(t.drop_last() =~= c@.subrange(0, b - 1));
        b = b - 1;
    }
    let r = slice_chars(c.as_slice(), 0, b);
    string_from_chars(r.as_slice())
}

/// The request that asks the model to summarise the history: the history, then the
/// summarising prompt as the user's message; `None` when there is nothing but the system
/// prompt to summarise.
pub fn compaction_request(messages: &Vec<Message>, prompt: &str) -> (r: Option<Vec<Message>>)
    ensures
        match r {
            None => messages@.len() <= 1,
            Some(m) => messages@.len() > 1 && history_view(m@) == history_view(messages@).push(
                plain_view("user"@, prompt@),
            ),
        },
{
    if messages.len() <= 1 {
        return None;
    }
    let ghost h = history_view(messages@);
    let mut out: Vec<Message> = Vec::new();
    let mut i: usize = 0;
    while i < messages.len()
        invariant
            i <= messages.len(),
            h == history_view(messages@),
            history_view(out@) == h.subrange(0, i as int),
        decreases messages.len() - i,
    {
        let m = messages[i].clone();
        let ghost before = history_view(out@);
        let ghost mv = m@;
        out.push(m);
        assert(history_view(out@) =~= before.push(mv));
        assert(history_view(out@) =~= h.subrange(0, i + 1));
        i = i + 1;
    }
    assert(h.subrange(0, messages.len() as int) =~= h);
    let u = new_message("user", String::from_str(prompt));
    let ghost uv = u@;
    out.push(u);
    assert(history_view(out@) =~= h.push(uv));
    Some(out)
}

} // verus!
