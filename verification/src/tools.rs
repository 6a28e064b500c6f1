//! The tools that the model may call: their arguments, what each call does, and the text
//! that each reports back.
use vstd::prelude::*;

use crate::ansi::{spec_strip_ansi, strip_ansi};
use crate::sandbox::{check_command_paths, command_block};
use serde_json::Value;

use crate::chat::{json_as_str, json_parse, json_string, parse_json};
use crate::html::{parse_ddg_html, spec_parse_ddg_html, spec_strip_html, strip_html};
use crate::text::{
    byte_len, chars_of, decimal, decimal_int, has_prefix, i64_decimal, join, join_chars,
    lex_order, lines, lowercase, pad_left, push_lit, push_padded_left, push_str, same, seqs,
    slash_sep, slice_chars, sort_strings, split_by, split_chars, split_lines,
    starts_with, string_from_chars, to_lowercase, trim, trim_chars, u128_decimal, u64_decimal,
    utf8_len, views, CharClass,
};

verus! {

// ── arguments ─────────────────────────────────────────────────────────────────

/// A JSON argument value, as far as the tools read it.
pub enum ArgValue {
    /// A string.
    Str(String),
    /// A number that is a non-negative integer fitting in 64 bits.
    UInt(u64),
    /// Anything else, as its JSON text.
    Other(String),
}

/// The arguments of a tool call: the members of the JSON object, in the object's order;
/// when the arguments are not an object, no members and the JSON text of the arguments.
pub struct ToolArgs {
    pub entries: Vec<(String, ArgValue)>,
    pub non_object: Option<String>,
}

/// The value stored under `key`, the first entry with that key.
pub open spec fn arg_lookup(entries: Seq<(String, ArgValue)>, key: Seq<char>) -> Option<ArgValue>
    decreases entries.len(),
{
    if entries.len() == 0 {
        None
    } else if entries[0].0@ == key {
        Some(entries[0].1)
    } else {
        arg_lookup(entries.drop_first(), key)
    }
}

/// The string argument `key`, or the empty string when it is missing or not a string.
pub open spec fn str_arg(args: ToolArgs, key: Seq<char>) -> Seq<char> {
    match arg_lookup(args.entries@, key) {
        Some(ArgValue::Str(s)) => s@,
        _ => Seq::empty(),
    }
}

/// The integer argument `key`, or `default` when it is missing or not such an integer.
pub open spec fn uint_arg(args: ToolArgs, key: Seq<char>, default: u64) -> u64 {
    match arg_lookup(args.entries@, key) {
        Some(ArgValue::UInt(n)) => n,
        _ => default,
    }
}

fn lookup<'a>(args: &'a ToolArgs, key: &str) -> (r: Option<&'a ArgValue>)
    ensures
        match arg_lookup(args.entries@, key@) {
            Some(v) => r == Some(&v),
            None => r is None,
        },
{
    let k = chars_of(key);
    let mut i: usize = 0;
    assert(args.entries@.subrange(0, args.entries@.len() as int) =~= args.entries@);
    while i < args.entries.len()
        invariant
            i <= args.entries.len(),
            k@ == key@,
            arg_lookup(args.entries@, key@) == arg_lookup(
                args.entries@.subrange(i as int, args.entries@.len() as int),
                key@,
            ),
        decreases args.entries.len() - i,
    {
        let ghost rest = args.entries@.subrange(i as int, args.entries@.len() as int);
        assert(rest.drop_first() =~= args.entries@.subrange(i + 1, args.entries@.len() as int));
        let name = chars_of(args.entries[i].0.as_str());
        if same(name.as_slice(), k.as_slice()) {
            return Some(&args.entries[i].1);
        }
        i = i + 1;
    }
    None
}

/// The string argument `key`, or the empty string.
pub fn sarg(args: &ToolArgs, key: &str) -> (r: String)
    ensures
        r@ == str_arg(*args, key@),
{
    match lookup(args, key) {
        Some(ArgValue::Str(s)) => s.clone(),
        _ => String::new(),
    }
}

/// The integer argument `key`, or `default`.
pub fn uarg(args: &ToolArgs, key: &str, default: u64) -> (r: u64)
    ensures
        r == uint_arg(*args, key@, default),
{
    match lookup(args, key) {
        Some(ArgValue::UInt(n)) => *n,
        _ => default,
    }
}

/// Arguments that came as a string are read as the JSON text they hold, when they hold
/// some; any other arguments stay as they are.
pub open spec fn spec_coerce_args(v: Value) -> Value {
    match json_string(v) {
        Some(s) => match json_parse(s) {
            Ok(p) => p,
            Err(_) => v,
        },
        None => v,
    }
}

/// Arguments that came as a string, read as the JSON text they hold.
pub fn coerce_args(v: &Value) -> (r: Value)
    ensures
        r == spec_coerce_args(*v),
{
    match json_as_str(v) {
        Some(s) => match parse_json(s.as_str()) {
            Ok(p) => p,
            Err(_) => v.clone(),
        },
        None => v.clone(),
    }
}

/// The members of a JSON object in the order `Value::as_object` walks them (serde_json's
/// map, sorted by key); `None` when the value is not an object. It is a function of the
/// value alone.
pub uninterp spec fn json_members(v: Value) -> Option<Seq<(Seq<char>, Value)>>;

/// The number a JSON value holds when it is a non-negative integer that fits in 64 bits
/// (`Value::as_u64`).
pub uninterp spec fn json_u64(v: Value) -> Option<u64>;

/// The JSON text of a value, as `Display` writes it.
pub uninterp spec fn json_text(v: Value) -> Seq<char>;

/// Members with their keys taken as character sequences.
pub open spec fn members_view(m: Seq<(String, Value)>) -> Seq<(Seq<char>, Value)> {
    m.map_values(|e: (String, Value)| (e.0@, e.1))
}

/// `Value::as_object`, each member copied out in the map's order. The contract claims only
/// that the members are the ones `json_members` names for the value.
#[verifier::external_body]
fn object_members(v: &Value) -> (r: Option<Vec<(String, Value)>>)
    ensures
        match r {
            Some(m) => json_members(*v) == Some(members_view(m@)),
            None => json_members(*v) is None,
        },
{
    match v.as_object() {
        Some(obj) => Some(obj.iter().map(|(k, x)| (k.clone(), x.clone())).collect()),
        None => None,
    }
}

/// `Value::as_u64`. The contract claims only that the outcome is the one `json_u64` names
/// for the value.
#[verifier::external_body]
fn value_as_u64(v: &Value) -> (r: Option<u64>)
    ensures
        r == json_u64(*v),
{
    v.as_u64()
}

/// `Display` of a JSON value (`ToString::to_string`). The contract claims only that the
/// text is the one `json_text` names for the value.
#[verifier::external_body]
fn value_text(v: &Value) -> (r: String)
    ensures
        r@ == json_text(*v),
{
    v.to_string()
}

/// How an argument reads a JSON value: a string as `Str`, else a non-negative 64-bit
/// integer as `UInt`, else its JSON text as `Other`.
pub open spec fn arg_matches(a: ArgValue, v: Value) -> bool {
    match json_string(v) {
        Some(s) => a matches ArgValue::Str(t) && t@ == s,
        None => match json_u64(v) {
            Some(n) => a matches ArgValue::UInt(m) && m == n,
            None => a matches ArgValue::Other(t) && t@ == json_text(v),
        },
    }
}

/// An argument value read from JSON.
pub fn arg_value(v: &Value) -> (r: ArgValue)
    ensures
        arg_matches(r, *v),
{
    match json_as_str(v) {
        Some(s) => ArgValue::Str(s),
        None => match value_as_u64(v) {
            Some(n) => ArgValue::UInt(n),
            None => ArgValue::Other(value_text(v)),
        },
    }
}

/// The arguments of a tool call read from JSON: the members of an object, in its order,
/// each read by `arg_matches`; for anything else no members and the JSON text.
pub fn to_tool_args(v: &Value) -> (r: ToolArgs)
    ensures
        match json_members(*v) {
            Some(m) => {
                &&& r.non_object is None
                &&& r.entries@.len() == m.len()
                &&& forall|i: int|
                    0 <= i < m.len() ==> #[trigger] r.entries@[i].0@ == m[i].0 && arg_matches(
                        r.entries@[i].1,
                        m[i].1,
                    )
            },
            None => r.entries@.len() == 0 && (r.non_object matches Some(t) && t@ == json_text(*v)),
        },
{
    match object_members(v) {
        Some(members) => {
            let ghost m = members_view(members@);
            let mut entries: Vec<(String, ArgValue)> = Vec::new();
            let mut i: usize = 0;
            while i < members.len()
                invariant
                    i <= members@.len(),
                    m == members_view(members@),
                    entries@.len() == i,
                    forall|j: int|
                        0 <= j < i ==> #[trigger] entries@[j].0@ == m[j].0 && arg_matches(
                            entries@[j].1,
                            m[j].1,
                        ),
                decreases members@.len() - i,
            {
                let (k, x) = &members[i];
                let a = arg_value(x);
                entries.push((k.clone(), a));
                i = i + 1;
            }
            assert(m.len() == members@.len());
            ToolArgs { entries, non_object: None }
        },
        None => {
            let t = value_text(v);
            let r = ToolArgs { entries: Vec::new(), non_object: Some(t) };
            assert(r.entries@.len() == 0);
            r
        },
    }
}

// ── file kinds ────────────────────────────────────────────────────────────────

/// The extensions of files whose content is shown with line numbers.
pub open spec fn code_exts() -> Seq<Seq<char>> {
    seq![
        "rs"@, "py"@, "js"@, "ts"@, "jsx"@, "tsx"@, "go"@, "java"@, "c"@, "cpp"@,
        "h"@, "hpp"@, "cs"@, "rb"@, "php"@, "swift"@, "kt"@, "scala"@, "sh"@, "bash"@,
        "zsh"@, "fish"@, "ps1"@, "toml"@, "yaml"@, "yml"@, "json"@, "xml"@, "html"@,
        "css"@, "scss"@, "sql"@, "md"@, "lua"@, "r"@, "ex"@, "exs"@, "hs"@,
    ]
}

/// A path component that names something: not empty and not `.`.
pub open spec fn named_component(c: Seq<char>) -> bool {
    c.len() > 0 && c != "."@
}

/// The last named component among `comps`.
pub open spec fn last_named(comps: Seq<Seq<char>>) -> Option<Seq<char>>
    decreases comps.len(),
{
    if comps.len() == 0 {
        None
    } else if named_component(comps.last()) {
        Some(comps.last())
    } else {
        last_named(comps.drop_last())
    }
}

/// The final component of a path when it is a normal one (`Path::file_name`): `.`
/// components and empty ones (repeated or trailing `/`) are skipped, and `..` has none.
pub open spec fn file_name(p: Seq<char>) -> Option<Seq<char>> {
    match last_named(split_by(p, slash_sep())) {
        Some(c) => if c == ".."@ {
            None
        } else {
            Some(c)
        },
        None => None,
    }
}

/// The index of the last `.` in `s`, if any.
pub open spec fn last_dot(s: Seq<char>) -> Option<int>
    decreases s.len(),
{
    if s.len() == 0 {
        None
    } else if s.last() == '.' {
        Some(s.len() - 1)
    } else {
        last_dot(s.drop_last())
    }
}

/// The extension of a path (`Path::extension`): what follows the last `.` of its file name,
/// when that `.` is not the first character of the name.
pub open spec fn extension(p: Seq<char>) -> Option<Seq<char>> {
    match file_name(p) {
        None => None,
        Some(n) => match last_dot(n) {
            Some(k) => if k > 0 {
                Some(n.subrange(k + 1, n.len() as int))
            } else {
                None
            },
            None => None,
        },
    }
}

/// A path of source code or of a text format, by its extension.
pub open spec fn spec_is_code_ext(p: Seq<char>) -> bool {
    match extension(p) {
        Some(e) => code_exts().contains(e),
        None => false,
    }
}

fn is_dot(c: &[char]) -> (r: bool)
    ensures
        r == (c@ == "."@),
{
    let dot = chars_of(".");
    same(c, dot.as_slice())
}

fn file_name_chars(p: &[char]) -> (r: Option<Vec<char>>)
    ensures
        match file_name(p@) {
            Some(n) => r matches Some(v) && v@ == n,
            None => r is None,
        },
{
    let comps = split_chars(p, CharClass::Slash);
    let ghost all = seqs(comps@);
    let mut i: usize = comps.len();
    assert(all.subrange(0, all.len() as int) =~= all);
    while i > 0
        invariant
            i <= comps.len(),
            all == seqs(comps@),
            all == split_by(p@, slash_sep()),
            last_named(all) == last_named(all.subrange(0, i as int)),
        decreases i,
    {
        let ghost pre = all.subrange(0, i as int);
        assert(pre.drop_last() =~= all.subrange(0, i - 1));
        assert(pre.last() == comps@[i - 1]@);
        if comps[i - 1].len() > 0 && !is_dot(comps[i - 1].as_slice()) {
            let c = slice_chars(comps[i - 1].as_slice(), 0, comps[i - 1].len());
            assert(c@ =~= comps@[i - 1]@);
            let dots = chars_of("..");
            if same(c.as_slice(), dots.as_slice()) {
                return None;
            }
            return Some(c);
        }
        i = i - 1;
    }
    None
}

/// Whether the path names a file of source code or of a text format, by its extension.
pub fn is_code_ext(path: &str) -> (r: bool)
    ensures
        r == spec_is_code_ext(path@),
{
    let p = chars_of(path);
    let name = match file_name_chars(p.as_slice()) {
        Some(n) => n,
        None => return false,
    };
    let mut k: usize = name.len();
    assert(name@.subrange(0, name@.len() as int) =~= name@);
    while k > 0
        invariant
            k <= name.len(),
            last_dot(name@) == last_dot(name@.subrange(0, k as int)),
        ensures
            k == 0 ==> last_dot(name@) is None,
            k > 0 ==> last_dot(name@) == Some((k - 1) as int),
        decreases k,
    {
        assert(name@.subrange(0, k as int).drop_last() =~= name@.subrange(0, k - 1));
        if name[k - 1] == '.' {
            break;
        }
        k = k - 1;
    }
    if k <= 1 {
        return false;
    }
    let ext = slice_chars(name.as_slice(), k, name.len());
    assert(extension(path@) == Some(ext@));
    let exts: [&str; 38] = [
        "rs", "py", "js", "ts", "jsx", "tsx", "go", "java", "c", "cpp",
        "h", "hpp", "cs", "rb", "php", "swift", "kt", "scala", "sh", "bash",
        "zsh", "fish", "ps1", "toml", "yaml", "yml", "json", "xml", "html",
        "css", "scss", "sql", "md", "lua", "r", "ex", "exs", "hs",
    ];
    let mut j: usize = 0;
    while j < 38
        invariant
            j <= 38,
            forall|i: int| 0 <= i < 38 ==> (#[trigger] exts@[i])@ == code_exts()[i],
            forall|i: int| 0 <= i < j ==> code_exts()[i] != ext@,
            extension(path@) == Some(ext@),
        decreases 38 - j,
    {
        let e = chars_of(exts[j]);
        if same(e.as_slice(), ext.as_slice()) {
            assert(code_exts()[j as int] == ext@);
            return true;
        }
        j = j + 1;
    }
    false
}


// ── what a call does ──────────────────────────────────────────────────────────

/// What a tool call asks for: an answer given at once, or the work to be done.
pub enum ToolPlan {
    Reply(String),
    ReadFile { path: String },
    WriteFile { path: String, content: String },
    RunCommand { command: String },
    ListDir { path: String },
    SearchFiles { pattern: String, needle: String, root: String, ext: Option<String> },
    CreateDir { path: String },
    DeletePath { path: String },
    PathInfo { path: String },
    SshConnect { host: String, user: String, key: String, port: u64 },
    SshExec { command: String },
    SshDisconnect,
    FetchUrl { url: String },
    WebSearch { url: String, max: usize },
}

/// A `ToolPlan` with its strings taken as character sequences.
pub ghost enum PlanView {
    Reply(Seq<char>),
    ReadFile { path: Seq<char> },
    WriteFile { path: Seq<char>, content: Seq<char> },
    RunCommand { command: Seq<char> },
    ListDir { path: Seq<char> },
    SearchFiles { pattern: Seq<char>, needle: Seq<char>, root: Seq<char>, ext: Option<Seq<char>> },
    CreateDir { path: Seq<char> },
    DeletePath { path: Seq<char> },
    PathInfo { path: Seq<char> },
    SshConnect { host: Seq<char>, user: Seq<char>, key: Seq<char>, port: u64 },
    SshExec { command: Seq<char> },
    SshDisconnect,
    FetchUrl { url: Seq<char> },
    WebSearch { url: Seq<char>, max: usize },
}

impl View for ToolPlan {
    type V = PlanView;

    open spec fn view(&self) -> PlanView {
        match self {
            ToolPlan::Reply(m) => PlanView::Reply(m@),
            ToolPlan::ReadFile { path } => PlanView::ReadFile { path: path@ },
            ToolPlan::WriteFile { path, content } => PlanView::WriteFile {
                path: path@,
                content: content@,
            },
            ToolPlan::RunCommand { command } => PlanView::RunCommand { command: command@ },
            ToolPlan::ListDir { path } => PlanView::ListDir { path: path@ },
            ToolPlan::SearchFiles { pattern, needle, root, ext } => PlanView::SearchFiles {
                pattern: pattern@,
                needle: needle@,
                root: root@,
                ext: match ext {
                    Some(e) => Some(e@),
                    None => None,
                },
            },
            ToolPlan::CreateDir { path } => PlanView::CreateDir { path: path@ },
            ToolPlan::DeletePath { path } => PlanView::DeletePath { path: path@ },
            ToolPlan::PathInfo { path } => PlanView::PathInfo { path: path@ },
            ToolPlan::SshConnect { host, user, key, port } => PlanView::SshConnect {
                host: host@,
                user: user@,
                key: key@,
                port: *port,
            },
            ToolPlan::SshExec { command } => PlanView::SshExec { command: command@ },
            ToolPlan::SshDisconnect => PlanView::SshDisconnect,
            ToolPlan::FetchUrl { url } => PlanView::FetchUrl { url: url@ },
            ToolPlan::WebSearch { url, max } => PlanView::WebSearch { url: url@, max: *max },
        }
    }
}

/// The string argument `key` when it is present and not empty.
pub open spec fn nonempty_str_arg(args: ToolArgs, key: Seq<char>) -> Option<Seq<char>> {
    match arg_lookup(args.entries@, key) {
        Some(ArgValue::Str(s)) => if s@.len() > 0 {
            Some(s@)
        } else {
            None
        },
        _ => None,
    }
}

/// A search query with each space turned into `+`.
pub open spec fn plus_for_space(q: Seq<char>) -> Seq<char> {
    Seq::new(q.len(), |i: int| if q[i] == ' ' { '+' } else { q[i] })
}

/// What the call of the tool `name` with `args` asks for, when commands run in `cwd`.
pub open spec fn spec_plan(name: Seq<char>, args: ToolArgs, cwd: Seq<char>) -> PlanView {
    if name == "read_file"@ {
        PlanView::ReadFile { path: str_arg(args, "path"@) }
    } else if name == "write_file"@ {
        if str_arg(args, "path"@).len() == 0 {
            PlanView::Reply(
                "Error: 'path' argument is required and must not be empty. Provide a filename like 'notes.md' or 'src/foo.rs'."@,
            )
        } else {
            PlanView::WriteFile { path: str_arg(args, "path"@), content: str_arg(args, "content"@) }
        }
    } else if name == "run_command"@ {
        match command_block(str_arg(args, "command"@), cwd) {
            Some(reason) => PlanView::Reply("Blocked: "@ + reason),
            None => PlanView::RunCommand { command: str_arg(args, "command"@) },
        }
    } else if name == "list_dir"@ {
        PlanView::ListDir {
            path: if str_arg(args, "path"@).len() == 0 {
                "."@
            } else {
                str_arg(args, "path"@)
            },
        }
    } else if name == "search_files"@ {
        if str_arg(args, "pattern"@).len() == 0 {
            PlanView::Reply("Error: pattern is required"@)
        } else {
            PlanView::SearchFiles {
                pattern: str_arg(args, "pattern"@),
                needle: lowercase(str_arg(args, "pattern"@)),
                root: match nonempty_str_arg(args, "path"@) {
                    Some(r) => r,
                    None => "."@,
                },
                ext: nonempty_str_arg(args, "file_ext"@),
            }
        }
    } else if name == "create_dir"@ {
        PlanView::CreateDir { path: str_arg(args, "path"@) }
    } else if name == "delete_path"@ {
        PlanView::DeletePath { path: str_arg(args, "path"@) }
    } else if name == "path_info"@ {
        PlanView::PathInfo { path: str_arg(args, "path"@) }
    } else if name == "ssh_connect"@ {
        PlanView::SshConnect {
            host: str_arg(args, "host"@),
            user: str_arg(args, "user"@),
            key: str_arg(args, "key"@),
            port: uint_arg(args, "port"@, 22),
        }
    } else if name == "ssh_exec"@ {
        PlanView::SshExec { command: str_arg(args, "command"@) }
    } else if name == "ssh_disconnect"@ {
        PlanView::SshDisconnect
    } else if name == "fetch_url"@ {
        let url = str_arg(args, "url"@);
        if url.len() == 0 {
            PlanView::Reply("Error: 'url' is required"@)
        } else if !starts_with(url, "http://"@) && !starts_with(url, "https://"@) {
            PlanView::Reply("Error: URL must start with http:// or https://"@)
        } else {
            PlanView::FetchUrl { url }
        }
    } else if name == "web_search"@ {
        let query = str_arg(args, "query"@);
        if query.len() == 0 {
            PlanView::Reply("Error: 'query' is required"@)
        } else {
            PlanView::WebSearch {
                url: "https://html.duckduckgo.com/html/?q="@ + plus_for_space(query),
                max: uint_arg(args, "max_results"@, 5) as usize,
            }
        }
    } else {
        PlanView::Reply("Unknown tool '"@ + name + "'"@)
    }
}

/// `n as usize`, truncated where `usize` is narrower.
fn to_usize(n: u64) -> (r: usize)
    ensures
        r == n as usize,
{
    #[verifier::truncate]
    (n as usize)
}

fn str_of(s: &str) -> (r: String)
    ensures
        r@ == s@,
{
    String::from_str(s)
}

fn nonempty_sarg(args: &ToolArgs, key: &str) -> (r: Option<String>)
    ensures
        match nonempty_str_arg(*args, key@) {
            Some(v) => r matches Some(s) && s@ == v,
            None => r is None,
        },
{
    match lookup(args, key) {
        Some(ArgValue::Str(s)) => {
            if s.as_str().is_empty() {
                None
            } else {
                Some(s.clone())
            }
        },
        _ => None,
    }
}

fn is_name(name: &[char], lit: &str) -> (r: bool)
    ensures
        r == (name@ == lit@),
{
    let l = chars_of(lit);
    same(name, l.as_slice())
}

/// Decides what the call of the tool `name` with `args` does, when commands run in the
/// directory `cwd`: an answer given at once (a missing argument, a command that the sandbox
/// refuses, an unknown tool), or the work to be done, with its arguments read and
/// defaulted.
pub fn plan_tool(name: &str, args: &ToolArgs, cwd: &str) -> (r: ToolPlan)
    ensures
        r@ == spec_plan(name@, *args, cwd@),
{
    let n = chars_of(name);
    if is_name(n.as_slice(), "read_file") {
        ToolPlan::ReadFile { path: sarg(args, "path") }
    } else if is_name(n.as_slice(), "write_file") {
        let path = sarg(args, "path");
        if path.as_str().is_empty() {
            ToolPlan::Reply(
                str_of(
                    "Error: 'path' argument is required and must not be empty. Provide a filename like 'notes.md' or 'src/foo.rs'.",
                ),
            )
        } else {
            ToolPlan::WriteFile { path, content: sarg(args, "content") }
        }
    } else if is_name(n.as_slice(), "run_command") {
        let command = sarg(args, "command");
        match check_command_paths(command.as_str(), cwd) {
            Err(reason) => {
                let mut m: Vec<char> = Vec::new();
                push_lit(&mut m, "Blocked: ");
                push_lit(&mut m, reason.as_str());
                ToolPlan::Reply(string_from_chars(m.as_slice()))
            },
            Ok(()) => ToolPlan::RunCommand { command },
        }
    } else if is_name(n.as_slice(), "list_dir") {
        let path = sarg(args, "path");
        if path.as_str().is_empty() {
            ToolPlan::ListDir { path: str_of(".") }
        } else {
            ToolPlan::ListDir { path }
        }
    } else if is_name(n.as_slice(), "search_files") {
        let pattern = sarg(args, "pattern");
        if pattern.as_str().is_empty() {
            ToolPlan::Reply(str_of("Error: pattern is required"))
        } else {
            let needle = to_lowercase(pattern.as_str());
            let root = match nonempty_sarg(args, "path") {
                Some(r) => r,
                None => str_of("."),
            };
            let ext = nonempty_sarg(args, "file_ext");
            ToolPlan::SearchFiles { pattern, needle, root, ext }
        }
    } else if is_name(n.as_slice(), "create_dir") {
        ToolPlan::CreateDir { path: sarg(args, "path") }
    } else if is_name(n.as_slice(), "delete_path") {
        ToolPlan::DeletePath { path: sarg(args, "path") }
    } else if is_name(n.as_slice(), "path_info") {
        ToolPlan::PathInfo { path: sarg(args, "path") }
    } else if is_name(n.as_slice(), "ssh_connect") {
        ToolPlan::SshConnect {
            host: sarg(args, "host"),
            user: sarg(args, "user"),
            key: sarg(args, "key"),
            port: uarg(args, "port", 22),
        }
    } else if is_name(n.as_slice(), "ssh_exec") {
        ToolPlan::SshExec { command: sarg(args, "command") }
    } else if is_name(n.as_slice(), "ssh_disconnect") {
        ToolPlan::SshDisconnect
    } else if is_name(n.as_slice(), "fetch_url") {
        let url = sarg(args, "url");
        let u = chars_of(url.as_str());
        let http = chars_of("http://");
        let https = chars_of("https://");
        if u.len() == 0 {
            ToolPlan::Reply(str_of("Error: 'url' is required"))
        } else if !has_prefix(u.as_slice(), http.as_slice()) && !has_prefix(
            u.as_slice(),
            https.as_slice(),
        ) {
            ToolPlan::Reply(str_of("Error: URL must start with http:// or https://"))
        } else {
            ToolPlan::FetchUrl { url }
        }
    } else if is_name(n.as_slice(), "web_search") {
        let query = sarg(args, "query");
        let q = chars_of(query.as_str());
        if q.len() == 0 {
            ToolPlan::Reply(str_of("Error: 'query' is required"))
        } else {
            let max = to_usize(uarg(args, "max_results", 5));
            let mut url: Vec<char> = Vec::new();
            push_lit(&mut url, "https://html.duckduckgo.com/html/?q=");
            let ghost base = url@;
            let mut i: usize = 0;
            while i < q.len()
                invariant
                    i <= q.len(),
                    url@ == base + plus_for_space(q@.subrange(0, i as int)),
                decreases q.len() - i,
            {
                let c = q[i];
                if c == ' ' {
                    url.push('+');
                } else {
                    url.push(c);
                }
                i = i + 1;
                assert(url@ =~= base + plus_for_space(q@.subrange(0, i as int)));
            }
            assert(q@.subrange(0, q.len() as int) =~= q@);
            ToolPlan::WebSearch { url: string_from_chars(url.as_slice()), max }
        }
    } else {
        let mut m: Vec<char> = Vec::new();
        push_lit(&mut m, "Unknown tool '");
        push_lit(&mut m, name);
        push_lit(&mut m, "'");
        ToolPlan::Reply(string_from_chars(m.as_slice()))
    }
}


// ── what a call reports ───────────────────────────────────────────────────────

/// The note on how a write changed a file: the number of lines before and after it.
pub open spec fn spec_change_note(old: Seq<char>, new: Seq<char>) -> Seq<char> {
    "--- before: "@ + decimal(lines(old).len()) + " lines\n+++ after: "@ + decimal(
        lines(new).len(),
    ) + " lines"@
}

/// The note on how a write changed a file.
pub fn change_note(old: &str, new: &str) -> (r: String)
    ensures
        r@ == spec_change_note(old@, new@),
{
    let a = split_lines(chars_of(old).as_slice());
    let b = split_lines(chars_of(new).as_slice());
    let mut out: Vec<char> = Vec::new();
    push_lit(&mut out, "--- before: ");
    push_str(&mut out, u64_decimal(a.len() as u64).as_slice());
    push_lit(&mut out, " lines\n+++ after: ");
    push_str(&mut out, u64_decimal(b.len() as u64).as_slice());
    push_lit(&mut out, " lines");
    assert(out@ =~= spec_change_note(old@, new@));
    string_from_chars(out.as_slice())
}


/// The captured result of a command: its exit code (none when a signal ended it) and its
/// output streams, decoded as UTF-8 with invalid bytes replaced.
pub struct CommandOutput {
    pub code: Option<i32>,
    pub stdout: String,
    pub stderr: String,
}

/// Metadata of a path.
pub struct PathMeta {
    pub is_dir: bool,
    pub size: u64,
    /// Seconds since the Unix epoch of the last change, when known.
    pub modified: Option<u64>,
}

/// How an attempt to open an SSH connection ended.
pub enum SshStatus {
    /// The connection is up; the message of the day as the host printed it.
    Up(String),
    /// `ssh` exited without success, with this exit code if any.
    Failed(Option<i32>),
    /// `ssh` could not be started.
    Error(String),
}

/// What the work of a tool call gave, error texts included.
pub enum ToolOutcome {
    /// `read_file`: the content (decoded as UTF-8 with invalid bytes replaced).
    Read(Result<String, String>),
    /// `write_file`: what the file held before the write (empty when it could not be
    /// read), or the error of the write.
    Wrote(Result<String, String>),
    /// `run_command`.
    Ran(Result<CommandOutput, String>),
    /// `list_dir`: each entry's name and whether it is a directory.
    Listed(Result<Vec<(String, bool)>, String>),
    /// `search_files`: the matching lines.
    Found(Vec<String>),
    /// `create_dir`, `delete_path`.
    Done(Result<(), String>),
    /// `path_info`.
    Info(Result<PathMeta, String>),
    /// `ssh_connect`.
    Connected(SshStatus),
    /// `ssh_exec`: nothing when no host is connected.
    Executed(Option<Result<CommandOutput, String>>),
    /// `ssh_disconnect`: the user and host disconnected from, if any.
    Disconnected(Option<(String, String)>),
    /// `fetch_url`, `web_search`: the body, or the error reading it, or the error of the
    /// request.
    Fetched(Result<Result<String, String>, String>),
}

/// The report of a finished command: its exit code (-1 when there is none), then its output
/// and error streams with escape sequences removed, each under a heading when not empty, or
/// `(no output)`.
pub open spec fn command_report(out: CommandOutput) -> Seq<char> {
    let so = spec_strip_ansi(out.stdout@);
    let se = spec_strip_ansi(out.stderr@);
    "exit: "@ + decimal_int(
        match out.code {
            Some(c) => c as int,
            None => -1,
        },
    ) + "\n"@ + (if so.len() > 0 {
        "stdout:\n"@ + so
    } else {
        Seq::empty()
    }) + (if se.len() > 0 {
        "stderr:\n"@ + se
    } else {
        Seq::empty()
    }) + (if so.len() == 0 && se.len() == 0 {
        "(no output)"@
    } else {
        Seq::empty()
    })
}

/// The lines of `content`, each after its 1-based number right-aligned in 4 columns and
/// ` | `, joined with line breaks.
pub open spec fn numbered(content: Seq<char>) -> Seq<char> {
    let ls = lines(content);
    join(
        Seq::new(
            ls.len(),
            |k: int| pad_left(decimal((k + 1) as nat), 4) + " | "@ + ls[k],
        ),
        "\n"@,
    )
}

/// The name under which a directory entry is listed: a directory gets a `/`.
pub open spec fn entry_label(e: (String, bool)) -> Seq<char> {
    if e.1 {
        e.0@ + "/"@
    } else {
        e.0@
    }
}

/// The listing of a directory: the entry names sorted, one per line.
pub open spec fn dir_listing(entries: Seq<(String, bool)>) -> Seq<char> {
    let names = entries.map_values(|e: (String, bool)| entry_label(e));
    if names.len() == 0 {
        "(empty directory)"@
    } else {
        join(names.sort_by(lex_order()), "\n"@)
    }
}

/// The decimal text of an optional integer, or `unknown`.
pub open spec fn opt_decimal(m: Option<u64>) -> Seq<char> {
    match m {
        Some(n) => decimal(n as nat),
        None => "unknown"@,
    }
}

/// What `read_file` reports: the content, numbered for a code file, or the error.
pub open spec fn read_report(path: Seq<char>, r: Result<String, String>) -> Seq<char> {
    match r {
        Ok(content) => if spec_is_code_ext(path) {
            numbered(content@)
        } else {
            content@
        },
        Err(e) => "Error reading '"@ + path + "': "@ + e@,
    }
}

/// What `write_file` reports: the number of bytes written and how the file changed from
/// what it held before, or the error.
pub open spec fn write_report(path: Seq<char>, content: Seq<char>, r: Result<String, String>) -> Seq<
    char,
> {
    match r {
        Ok(before) => "Wrote "@ + decimal(byte_len(content) as nat) + " bytes to '"@ + path + "'\n"@
            + spec_change_note(before@, content),
        Err(e) => "Error writing '"@ + path + "': "@ + e@,
    }
}

/// What `path_info` reports.
pub open spec fn info_report(path: Seq<char>, r: Result<PathMeta, String>) -> Seq<char> {
    match r {
        Ok(m) => "path: "@ + path + "\ntype: "@ + (if m.is_dir {
            "directory"@
        } else {
            "file"@
        }) + "\nsize: "@ + decimal(m.size as nat) + " bytes\nmodified (unix): "@ + opt_decimal(
            m.modified,
        ),
        Err(e) => "Error: "@ + e@,
    }
}

/// What `ssh_connect` reports: the connection with the message of the day (escape
/// sequences removed, trimmed) when there is one, or the failure.
pub open spec fn connect_report(host: Seq<char>, user: Seq<char>, port: u64, st: SshStatus) -> Seq<
    char,
> {
    match st {
        SshStatus::Up(motd) => {
            let base = "Connected to "@ + user + "@"@ + host + ":"@ + decimal(port as nat);
            let m = trim(spec_strip_ansi(motd@));
            if m.len() == 0 {
                base
            } else {
                base + "\n\n"@ + m
            }
        },
        SshStatus::Failed(code) => "SSH connect failed (exit "@ + decimal_int(
            match code {
                Some(c) => c as int,
                None => -1,
            },
        ) + ")"@,
        SshStatus::Error(e) => "SSH error: "@ + e@,
    }
}

/// The text that a tool call reports, given what it asked for and what the work gave;
/// `None` when the outcome is not of the kind of work asked for.
pub open spec fn spec_report(plan: PlanView, outcome: ToolOutcome) -> Option<Seq<char>> {
    match (plan, outcome) {
        (PlanView::Reply(m), _) => Some(m),
        (PlanView::ReadFile { path }, ToolOutcome::Read(r)) => Some(read_report(path, r)),
        (PlanView::WriteFile { path, content }, ToolOutcome::Wrote(r)) => Some(
            write_report(path, content, r),
        ),
        (PlanView::RunCommand { .. }, ToolOutcome::Ran(r)) => Some(
            match r {
                Ok(out) => command_report(out),
                Err(e) => "Failed to run command: "@ + e@,
            },
        ),
        (PlanView::ListDir { path }, ToolOutcome::Listed(r)) => Some(
            match r {
                Ok(entries) => dir_listing(entries@),
                Err(e) => "Error listing '"@ + path + "': "@ + e@,
            },
        ),
        (PlanView::SearchFiles { pattern, .. }, ToolOutcome::Found(results)) => Some(
            if results@.len() == 0 {
                "No matches for '"@ + pattern + "'"@
            } else {
                join(views(results@), "\n"@)
            },
        ),
        (PlanView::CreateDir { path }, ToolOutcome::Done(r)) => Some(
            match r {
                Ok(_) => "Created '"@ + path + "'"@,
                Err(e) => "Error: "@ + e@,
            },
        ),
        (PlanView::DeletePath { path }, ToolOutcome::Done(r)) => Some(
            match r {
                Ok(_) => "Deleted '"@ + path + "'"@,
                Err(e) => "Error: "@ + e@,
            },
        ),
        (PlanView::PathInfo { path }, ToolOutcome::Info(r)) => Some(info_report(path, r)),
        (PlanView::SshConnect { host, user, port, .. }, ToolOutcome::Connected(st)) => Some(
            connect_report(host, user, port, st),
        ),
        (PlanView::SshExec { .. }, ToolOutcome::Executed(r)) => Some(
            match r {
                None => "Not connected to any SSH host. Use ssh_connect first."@,
                Some(Ok(out)) => command_report(out),
                Some(Err(e)) => "SSH exec error: "@ + e@,
            },
        ),
        (PlanView::SshDisconnect, ToolOutcome::Disconnected(r)) => Some(
            match r {
                Some((user, host)) => "Disconnected from "@ + user@ + "@"@ + host@,
                None => "Not connected to any SSH host."@,
            },
        ),
        (PlanView::FetchUrl { .. }, ToolOutcome::Fetched(r)) => Some(
            match r {
                Ok(Ok(body)) => spec_strip_html(body@),
                Ok(Err(e)) => "Failed to read response: "@ + e@,
                Err(e) => "Failed to fetch URL: "@ + e@,
            },
        ),
        (PlanView::WebSearch { max, .. }, ToolOutcome::Fetched(r)) => Some(
            match r {
                Ok(Ok(body)) => spec_parse_ddg_html(body@, max as int),
                Ok(Err(e)) => "Failed to read response: "@ + e@,
                Err(e) => "Search request failed: "@ + e@,
            },
        ),
        _ => None,
    }
}

fn code_of(c: Option<i32>) -> (r: i64)
    ensures
        r == match c {
            Some(x) => x as int,
            None => -1,
        },
{
    match c {
        Some(x) => x as i64,
        None => -1,
    }
}

/// The report of a finished command.
pub fn format_command_output(out: &CommandOutput) -> (r: String)
    ensures
        r@ == command_report(*out),
{
    let so = chars_of(strip_ansi(out.stdout.as_str()).as_str());
    let se = chars_of(strip_ansi(out.stderr.as_str()).as_str());
    let mut v: Vec<char> = Vec::new();
    push_lit(&mut v, "exit: ");
    let code = i64_decimal(code_of(out.code));
    push_str(&mut v, code.as_slice());
    push_lit(&mut v, "\n");
    let ghost head = v@;
    if so.len() > 0 {
        push_lit(&mut v, "stdout:\n");
        push_str(&mut v, so.as_slice());
    }
    let ghost mid = v@;
    if se.len() > 0 {
        push_lit(&mut v, "stderr:\n");
        push_str(&mut v, se.as_slice());
    }
    if so.len() == 0 && se.len() == 0 {
        push_lit(&mut v, "(no output)");
    }
    assert(v@ =~= command_report(*out));
    string_from_chars(v.as_slice())
}

/// The lines of `content`, numbered as `read_file` shows a code file.
pub fn number_lines(content: &str) -> (r: String)
    ensures
        r@ == numbered(content@),
{
    let c = chars_of(content);
    let ls = split_lines(c.as_slice());
    let ghost all = seqs(ls@);
    let mut parts: Vec<Vec<char>> = Vec::new();
    let mut k: usize = 0;
    while k < ls.len()
        invariant
            k <= ls.len(),
            all == seqs(ls@),
            all == lines(content@),
            c@ == content@,
            seqs(parts@) == Seq::new(
                k as nat,
                |j: int| pad_left(decimal((j + 1) as nat), 4) + " | "@ + all[j],
            ),
        decreases ls.len() - k,
    {
        let mut line: Vec<char> = Vec::new();
        let num = u64_decimal((k as u64) + 1);
        push_padded_left(&mut line, num.as_slice(), 4);
        push_lit(&mut line, " | ");
        push_str(&mut line, ls[k].as_slice());
        let ghost before = seqs(parts@);
        let ghost lv = line@;
        parts.push(line);
        assert(seqs(parts@) =~= before.push(lv));
        k = k + 1;
        assert(seqs(parts@) =~= Seq::new(
            k as nat,
            |j: int| pad_left(decimal((j + 1) as nat), 4) + " | "@ + all[j],
        ));
    }
    let nl = chars_of("\n");
    let joined = join_chars(&parts, nl.as_slice());
    string_from_chars(joined.as_slice())
}

fn listing_of(entries: &Vec<(String, bool)>) -> (r: String)
    ensures
        r@ == dir_listing(entries@),
{
    let mut names: Vec<Vec<char>> = Vec::new();
    let mut i: usize = 0;
    while i < entries.len()
        invariant
            i <= entries.len(),
            seqs(names@) == entries@.subrange(0, i as int).map_values(
                |e: (String, bool)| entry_label(e),
            ),
        decreases entries.len() - i,
    {
        let mut n = chars_of(entries[i].0.as_str());
        if entries[i].1 {
            push_lit(&mut n, "/");
        }
        let ghost before = seqs(names@);
        let ghost nv = n@;
        names.push(n);
        assert(seqs(names@) =~= before.push(nv));
        i = i + 1;
        assert(entries@.subrange(0, i as int).map_values(|e: (String, bool)| entry_label(e))
            =~= entries@.subrange(0, i - 1).map_values(|e: (String, bool)| entry_label(e)).push(
            nv,
        ));
    }
    assert(entries@.subrange(0, entries.len() as int) =~= entries@);
    if names.len() == 0 {
        return str_of("(empty directory)");
    }
    let sorted = sort_strings(names);
    let nl = chars_of("\n");
    let joined = join_chars(&sorted, nl.as_slice());
    string_from_chars(joined.as_slice())
}

fn text_of(parts: Vec<&str>) -> (r: String)
    ensures
        r@ == cat(parts@),
{
    let mut v: Vec<char> = Vec::new();
    let mut i: usize = 0;
    while i < parts.len()
        invariant
            i <= parts.len(),
            v@ == cat(parts@.subrange(0, i as int)),
        decreases parts.len() - i,
    {
        push_lit(&mut v, parts[i]);
        i = i + 1;
        assert(parts@.subrange(0, i as int).drop_last() =~= parts@.subrange(0, i - 1));
    }
    assert(parts@.subrange(0, parts.len() as int) =~= parts@);
    string_from_chars(v.as_slice())
}

/// The concatenation of string slices.
pub open spec fn cat(parts: Seq<&str>) -> Seq<char>
    decreases parts.len(),
{
    if parts.len() == 0 {
        Seq::empty()
    } else {
        cat(parts.drop_last()) + parts.last()@
    }
}

/// The text that a tool call reports, from what it asked for and what the work gave.
pub fn finish_tool(plan: &ToolPlan, outcome: ToolOutcome) -> (r: String)
    requires
        spec_report(plan@, outcome) is Some,
    ensures
        r@ == spec_report(plan@, outcome).unwrap(),
{
    proof {
        reveal_with_fuel(cat, 9);
    }
    let ghost o = outcome;
    let r = match (plan, outcome) {
        (ToolPlan::Reply(m), _) => m.clone(),
        (ToolPlan::ReadFile { path }, ToolOutcome::Read(r)) => report_read(path, r),
        (ToolPlan::WriteFile { path, content }, ToolOutcome::Wrote(r)) => report_write(path, content, r),
        (ToolPlan::RunCommand { .. }, ToolOutcome::Ran(r)) => match r {
            Ok(out) => format_command_output(&out),
            Err(e) => text_of(vec!["Failed to run command: ", e.as_str()]),
        },
        (ToolPlan::ListDir { path }, ToolOutcome::Listed(r)) => match r {
            Ok(entries) => listing_of(&entries),
            Err(e) => text_of(vec!["Error listing '", path.as_str(), "': ", e.as_str()]),
        },
        (ToolPlan::SearchFiles { pattern, .. }, ToolOutcome::Found(results)) => {
            if results.len() == 0 {
                text_of(vec!["No matches for '", pattern.as_str(), "'"])
            } else {
                join_strings(&results, "\n")
            }
        },
        (ToolPlan::CreateDir { path }, ToolOutcome::Done(r)) => match r {
            Ok(_) => text_of(vec!["Created '", path.as_str(), "'"]),
            Err(e) => text_of(vec!["Error: ", e.as_str()]),
        },
        (ToolPlan::DeletePath { path }, ToolOutcome::Done(r)) => match r {
            Ok(_) => text_of(vec!["Deleted '", path.as_str(), "'"]),
            Err(e) => text_of(vec!["Error: ", e.as_str()]),
        },
        (ToolPlan::PathInfo { path }, ToolOutcome::Info(r)) => report_info(path, r),
        (ToolPlan::SshConnect { host, user, port, .. }, ToolOutcome::Connected(st)) => report_connect(host, user, *port, st),
        (ToolPlan::SshExec { .. }, ToolOutcome::Executed(r)) => match r {
            None => str_of("Not connected to any SSH host. Use ssh_connect first."),
            Some(Ok(out)) => format_command_output(&out),
            Some(Err(e)) => text_of(vec!["SSH exec error: ", e.as_str()]),
        },
        (ToolPlan::SshDisconnect, ToolOutcome::Disconnected(r)) => match r {
            Some((user, host)) => text_of(vec!["Disconnected from ", user.as_str(), "@", host.as_str()]),
            None => str_of("Not connected to any SSH host."),
        },
        (ToolPlan::FetchUrl { .. }, ToolOutcome::Fetched(r)) => match r {
            Ok(Ok(body)) => strip_html(body.as_str()),
            Ok(Err(e)) => text_of(vec!["Failed to read response: ", e.as_str()]),
            Err(e) => text_of(vec!["Failed to fetch URL: ", e.as_str()]),
        },
        (ToolPlan::WebSearch { max, .. }, ToolOutcome::Fetched(r)) => match r {
            Ok(Ok(body)) => parse_ddg_html(body.as_str(), *max),
            Ok(Err(e)) => text_of(vec!["Failed to read response: ", e.as_str()]),
            Err(e) => text_of(vec!["Search request failed: ", e.as_str()]),
        },
        _ => str_of(""),
    };
    r
}

fn report_read(path: &String, r: Result<String, String>) -> (out: String)
    ensures
        out@ == read_report(path@, r),
{
    proof {
        reveal_with_fuel(cat, 9);
    }
    match r {
        Ok(content) => if is_code_ext(path.as_str()) {
            number_lines(content.as_str())
        } else {
            content
        },
        Err(e) => text_of(vec!["Error reading '", path.as_str(), "': ", e.as_str()]),
    }
}

fn report_write(path: &String, content: &String, r: Result<String, String>) -> (out: String)
    ensures
        out@ == write_report(path@, content@, r),
{
    proof {
        reveal_with_fuel(cat, 9);
    }
    match r {
        Ok(before) => {
            let c = chars_of(content.as_str());
            let n = utf8_len(c.as_slice());
            let d = u128_decimal_text(n);
            let diff = change_note(before.as_str(), content.as_str());
            text_of(vec!["Wrote ", d.as_str(), " bytes to '", path.as_str(), "'\n", diff.as_str()])
        },
        Err(e) => text_of(vec!["Error writing '", path.as_str(), "': ", e.as_str()]),
    }
}

fn report_info(path: &String, r: Result<PathMeta, String>) -> (out: String)
    ensures
        out@ == info_report(path@, r),
{
    proof {
        reveal_with_fuel(cat, 9);
    }
    match r {
        Ok(m) => {
            let size = string_from_chars(u64_decimal(m.size).as_slice());
            let modified = match m.modified {
                Some(t) => string_from_chars(u64_decimal(t).as_slice()),
                None => str_of("unknown"),
            };
            let kind = if m.is_dir {
                "directory"
            } else {
                "file"
            };
            text_of(
                vec![
                    "path: ",
                    path.as_str(),
                    "\ntype: ",
                    kind,
                    "\nsize: ",
                    size.as_str(),
                    " bytes\nmodified (unix): ",
                    modified.as_str(),
                ],
            )
        },
        Err(e) => text_of(vec!["Error: ", e.as_str()]),
    }
}

fn report_connect(host: &String, user: &String, port: u64, st: SshStatus) -> (out: String)
    ensures
        out@ == connect_report(host@, user@, port, st),
{
    proof {
        reveal_with_fuel(cat, 9);
    }
    match st {
        SshStatus::Up(motd) => {
            let p = string_from_chars(u64_decimal(port).as_slice());
            let base = text_of(
                vec!["Connected to ", user.as_str(), "@", host.as_str(), ":", p.as_str()],
            );
            let stripped = strip_ansi(motd.as_str());
            let m = trim_chars(chars_of(stripped.as_str()).as_slice());
            if m.len() == 0 {
                base
            } else {
                let ms = string_from_chars(m.as_slice());
                text_of(vec![base.as_str(), "\n\n", ms.as_str()])
            }
        },
        SshStatus::Failed(code) => {
            let c = string_from_chars(i64_decimal(code_of(code)).as_slice());
            text_of(vec!["SSH connect failed (exit ", c.as_str(), ")"])
        },
        SshStatus::Error(e) => text_of(vec!["SSH error: ", e.as_str()]),
    }
}

fn u128_decimal_text(n: u128) -> (r: String)
    ensures
        r@ == decimal(n as nat),
{
    string_from_chars(u128_decimal(n).as_slice())
}

/// The strings joined with `sep`.
pub fn join_strings(parts: &Vec<String>, sep: &str) -> (r: String)
    ensures
        r@ == join(views(parts@), sep@),
{
    let mut v: Vec<Vec<char>> = Vec::new();
    let mut i: usize = 0;
    while i < parts.len()
        invariant
            i <= parts.len(),
            seqs(v@) == views(parts@.subrange(0, i as int)),
        decreases parts.len() - i,
    {
        let c = chars_of(parts[i].as_str());
        let ghost before = seqs(v@);
        let ghost cv = c@;
        v.push(c);
        assert(seqs(v@) =~= before.push(cv));
        i = i + 1;
        assert(views(parts@.subrange(0, i as int)) =~= views(parts@.subrange(0, i - 1)).push(cv));
    }
    assert(parts@.subrange(0, parts.len() as int) =~= parts@);
    let s = chars_of(sep);
    let j = join_chars(&v, s.as_slice());
    string_from_chars(j.as_slice())
}


// ── the SSH session ───────────────────────────────────────────────────────────

/// An open SSH session: the host and user it was opened to, and its control socket.
pub struct SshSession {
    pub host: String,
    pub user: String,
    pub socket: String,
}

/// A session with its strings taken as character sequences.
pub ghost struct SshSessionView {
    pub host: Seq<char>,
    pub user: Seq<char>,
    pub socket: Seq<char>,
}

impl View for SshSession {
    type V = SshSessionView;

    open spec fn view(&self) -> SshSessionView {
        SshSessionView { host: self.host@, user: self.user@, socket: self.socket@ }
    }
}

/// The view of the session slot.
pub open spec fn session_view(s: Option<SshSession>) -> Option<SshSessionView> {
    match s {
        Some(x) => Some(x@),
        None => None,
    }
}

fn copy_session(s: &SshSession) -> (r: SshSession)
    ensures
        r@ == s@,
{
    SshSession { host: s.host.clone(), user: s.user.clone(), socket: s.socket.clone() }
}

/// What an SSH tool call does with the session.
pub enum SshStep {
    /// Nothing is run: the call ends with this outcome.
    Done(ToolOutcome),
    /// Run the command over the session.
    Exec(SshSession, String),
    /// Close the session, which is no longer held.
    Close(SshSession),
    /// Open a new session, after closing the earlier one, which is no longer held.
    Open(Option<SshSession>),
}

/// The kind of a step, with its strings taken as character sequences.
pub ghost enum SshStepView {
    Done(ToolOutcome),
    Exec(SshSessionView, Seq<char>),
    Close(SshSessionView),
    Open(Option<SshSessionView>),
}

impl View for SshStep {
    type V = SshStepView;

    open spec fn view(&self) -> SshStepView {
        match self {
            SshStep::Done(o) => SshStepView::Done(*o),
            SshStep::Exec(x, c) => SshStepView::Exec(x@, c@),
            SshStep::Close(x) => SshStepView::Close(x@),
            SshStep::Open(p) => SshStepView::Open(session_view(*p)),
        }
    }
}

/// Whether a plan is one of the SSH tools.
pub open spec fn is_ssh_plan(p: PlanView) -> bool {
    p is SshConnect || p is SshExec || p is SshDisconnect
}

/// The step an SSH call takes from the session it finds, and the session it leaves:
/// `ssh_exec` runs over an open session, `ssh_disconnect` closes it, and both find nothing
/// to do without one; `ssh_connect` gives up any earlier session before it opens its own.
pub open spec fn spec_ssh_step(p: PlanView, s: Option<SshSessionView>) -> (SshStepView, Option<
    SshSessionView,
>) {
    match p {
        PlanView::SshExec { command } => match s {
            Some(x) => (SshStepView::Exec(x, command), s),
            None => (SshStepView::Done(ToolOutcome::Executed(None)), None),
        },
        PlanView::SshDisconnect => match s {
            Some(x) => (SshStepView::Close(x), None),
            None => (SshStepView::Done(ToolOutcome::Disconnected(None)), None),
        },
        _ => (SshStepView::Open(s), None),
    }
}

/// Decides what an SSH tool call does with the session it finds.
pub fn ssh_step(plan: &ToolPlan, session: &mut Option<SshSession>) -> (r: SshStep)
    requires
        is_ssh_plan(plan@),
    ensures
        (r@, session_view(*final(session))) == spec_ssh_step(plan@, session_view(*old(session))),
{
    match plan {
        ToolPlan::SshExec { command } => match session {
            Some(x) => SshStep::Exec(copy_session(x), command.clone()),
            None => SshStep::Done(ToolOutcome::Executed(None)),
        },
        ToolPlan::SshDisconnect => match session.take() {
            Some(x) => SshStep::Close(x),
            None => SshStep::Done(ToolOutcome::Disconnected(None)),
        },
        _ => SshStep::Open(session.take()),
    }
}

/// The session after an attempt to open one: the new session when the connection is up,
/// else the session as it was.
pub fn ssh_opened(session: &mut Option<SshSession>, status: &SshStatus, new: SshSession)
    ensures
        session_view(*final(session)) == (if status is Up {
            Some(new@)
        } else {
            session_view(*old(session))
        }),
{
    if let SshStatus::Up(_) = status {
        *session = Some(new);
    }
}

/// With no session open, `ssh_exec` and `ssh_disconnect` run nothing, leave no session
/// open, and report that no host is connected.
pub proof fn law_ssh_without_session(p: PlanView)
    requires
        p is SshExec || p is SshDisconnect,
    ensures
        ({
            let (step, after) = spec_ssh_step(p, None);
            &&& after is None
            &&& step matches SshStepView::Done(o) && spec_report(p, o) == Some(
                if p is SshExec {
                    "Not connected to any SSH host. Use ssh_connect first."@
                } else {
                    "Not connected to any SSH host."@
                },
            )
        }),
{
}

// ── searching files ───────────────────────────────────────────────────────────

/// A directory entry that the search skips: hidden ones, and build and dependency
/// directories.
pub open spec fn spec_search_skips(name: Seq<char>) -> bool {
    (name.len() > 0 && name[0] == '.') || name == "target"@ || name == "node_modules"@ || name
        == ".git"@
}

/// Whether the search skips the directory entry `name`.
pub fn search_skips(name: &str) -> (r: bool)
    ensures
        r == spec_search_skips(name@),
{
    let n = chars_of(name);
    (n.len() > 0 && n[0] == '.') || is_name(n.as_slice(), "target") || is_name(
        n.as_slice(),
        "node_modules",
    ) || is_name(n.as_slice(), ".git")
}

/// Whether the search stops descending: deeper than 6 levels, or more than 500 matches
/// found.
pub fn search_stops(depth: usize, found: usize) -> (r: bool)
    ensures
        r == (depth > 6 || found > 500),
{
    depth > 6 || found > 500
}

/// Whether a file is searched when the search is restricted to the extension `ext`: its
/// extension (empty when it has none) is `ext`; without a restriction every file is.
pub open spec fn spec_search_wants(path: Seq<char>, ext: Option<Seq<char>>) -> bool {
    match ext {
        None => true,
        Some(e) => match extension(path) {
            Some(x) => x == e,
            None => e.len() == 0,
        },
    }
}

/// Whether the file at `path` is searched under the restriction `ext`.
pub fn search_wants(path: &str, ext: &Option<String>) -> (r: bool)
    ensures
        r == spec_search_wants(
            path@,
            match ext {
                Some(e) => Some(e@),
                None => None,
            },
        ),
{
    match ext {
        None => true,
        Some(e) => {
            let p = chars_of(path);
            let want = chars_of(e.as_str());
            match extension_chars(p.as_slice()) {
                Some(x) => same(x.as_slice(), want.as_slice()),
                None => want.len() == 0,
            }
        },
    }
}

fn extension_chars(p: &[char]) -> (r: Option<Vec<char>>)
    ensures
        match extension(p@) {
            Some(e) => r matches Some(v) && v@ == e,
            None => r is None,
        },
{
    let name = match file_name_chars(p) {
        Some(n) => n,
        None => return None,
    };
    let mut k: usize = name.len();
    assert(name@.subrange(0, name@.len() as int) =~= name@);
    while k > 0
        invariant
            k <= name.len(),
            last_dot(name@) == last_dot(name@.subrange(0, k as int)),
        ensures
            k == 0 ==> last_dot(name@) is None,
            k > 0 ==> last_dot(name@) == Some((k - 1) as int),
        decreases k,
    {
        assert(name@.subrange(0, k as int).drop_last() =~= name@.subrange(0, k - 1));
        if name[k - 1] == '.' {
            break;
        }
        k = k - 1;
    }
    if k <= 1 {
        return None;
    }
    Some(slice_chars(name.as_slice(), k, name.len()))
}

/// One match of the search: the file, the 1-based line number, and the trimmed line.
pub open spec fn search_hit(path: Seq<char>, lineno: int, line: Seq<char>) -> Seq<char> {
    path + ":"@ + decimal(lineno as nat) + ": "@ + trim(line)
}

/// The matches among the lines `ls` of the file `path`: the lines whose lowercase form
/// contains `needle`.
pub open spec fn search_hits(path: Seq<char>, ls: Seq<Seq<char>>, needle: Seq<char>) -> Seq<
    Seq<char>,
>
    decreases ls.len(),
{
    if ls.len() == 0 {
        Seq::empty()
    } else {
        search_hits(path, ls.drop_last(), needle) + (if crate::text::contains(
            lowercase(ls.last()),
            needle,
        ) {
            seq![search_hit(path, ls.len() as int, ls.last())]
        } else {
            Seq::empty()
        })
    }
}

/// The matches of the (lowercase) `needle` in the file `path` with content `content`.
pub fn search_matches(path: &str, content: &str, needle: &str) -> (r: Vec<String>)
    ensures
        views(r@) == search_hits(path@, lines(content@), needle@),
{
    let c = chars_of(content);
    let nd = chars_of(needle);
    let ls = split_lines(c.as_slice());
    let ghost all = seqs(ls@);
    let mut out: Vec<String> = Vec::new();
    let mut k: usize = 0;
    while k < ls.len()
        invariant
            k <= ls.len(),
            all == seqs(ls@),
            all == lines(content@),
            nd@ == needle@,
            views(out@) == search_hits(path@, all.subrange(0, k as int), needle@),
        decreases ls.len() - k,
    {
        assert(all.subrange(0, k + 1).drop_last() =~= all.subrange(0, k as int));
        assert(all.subrange(0, k + 1).last() == ls@[k as int]@);
        let line = string_from_chars(ls[k].as_slice());
        let lower = to_lowercase(line.as_str());
        let lc = chars_of(lower.as_str());
        let ghost before = views(out@);
        if crate::text::has_sub(lc.as_slice(), nd.as_slice()) {
            let mut h: Vec<char> = Vec::new();
            push_lit(&mut h, path);
            push_lit(&mut h, ":");
            let num = u64_decimal((k as u64) + 1);
            push_str(&mut h, num.as_slice());
            push_lit(&mut h, ": ");
            let t = trim_chars(ls[k].as_slice());
            push_str(&mut h, t.as_slice());
            let hs = string_from_chars(h.as_slice());
            let ghost hv = hs@;
            out.push(hs);
            assert(views(out@) =~= before.push(hv));
            assert(views(out@) =~= search_hits(path@, all.subrange(0, k as int), needle@) + seq![
                hv,
            ]);
        } else {
            assert(views(out@) =~= search_hits(path@, all.subrange(0, k as int), needle@)
                + Seq::<Seq<char>>::empty());
        }
        k = k + 1;
    }
    assert(all.subrange(0, ls.len() as int) =~= all);
    out
}


// ── the tool table ────────────────────────────────────────────────────────────

/// The JSON type of a tool parameter.
#[derive(PartialEq, Eq, Structural, Clone, Copy)]
pub enum ParamKind {
    Str,
    Int,
}

/// One parameter of a tool, as the model is told of it.
pub struct ParamSpec {
    pub name: String,
    pub kind: ParamKind,
    pub description: String,
}

/// A tool as the model is told of it: its name, what it does, its parameters and which of
/// them are required.
pub struct ToolSpec {
    pub name: String,
    pub description: String,
    pub params: Vec<ParamSpec>,
    pub required: Vec<String>,
}

#[verifier::ext_equal]
pub ghost struct ParamView {
    pub name: Seq<char>,
    pub kind: ParamKind,
    pub description: Seq<char>,
}

#[verifier::ext_equal]
pub ghost struct ToolSpecView {
    pub name: Seq<char>,
    pub description: Seq<char>,
    pub params: Seq<ParamView>,
    pub required: Seq<Seq<char>>,
}

impl View for ParamSpec {
    type V = ParamView;

    open spec fn view(&self) -> ParamView {
        ParamView { name: self.name@, kind: self.kind, description: self.description@ }
    }
}

impl View for ToolSpec {
    type V = ToolSpecView;

    open spec fn view(&self) -> ToolSpecView {
        ToolSpecView {
            name: self.name@,
            description: self.description@,
            params: self.params@.map_values(|p: ParamSpec| p@),
            required: views(self.required@),
        }
    }
}

/// The tools, in the order the model is told of them.
pub open spec fn tool_table() -> Seq<ToolSpecView> {
    seq![
        ToolSpecView {
            name: "read_file"@,
            description: "Read the full contents of a file. Adds line numbers for code files."@,
            params: seq![ParamView { name: "path"@, kind: ParamKind::Str, description: "File path to read"@ }],
            required: seq!["path"@],
        },
        ToolSpecView {
            name: "write_file"@,
            description: "Write (or overwrite) a file with the given content. Creates parent dirs automatically. 'path' is REQUIRED \u{2014} always supply a filename such as 'notes.md' or 'src/foo.rs'."@,
            params: seq![ParamView { name: "path"@, kind: ParamKind::Str, description: "Destination file path"@ }, ParamView { name: "content"@, kind: ParamKind::Str, description: "Content to write"@ }],
            required: seq!["path"@, "content"@],
        },
        ToolSpecView {
            name: "run_command"@,
            description: "Execute a shell command (via sh -c). Returns exit code, stdout, and stderr."@,
            params: seq![ParamView { name: "command"@, kind: ParamKind::Str, description: "Shell command to run"@ }],
            required: seq!["command"@],
        },
        ToolSpecView {
            name: "list_dir"@,
            description: "List files and subdirectories at a path. Directories are marked with /."@,
            params: seq![ParamView { name: "path"@, kind: ParamKind::Str, description: "Directory to list (use '.' for current)"@ }],
            required: seq!["path"@],
        },
        ToolSpecView {
            name: "search_files"@,
            description: "Recursively search for a text pattern inside files. Returns matching lines with paths and line numbers."@,
            params: seq![ParamView { name: "pattern"@, kind: ParamKind::Str, description: "Text to search for (case-insensitive)"@ }, ParamView { name: "path"@, kind: ParamKind::Str, description: "Root directory to search (default: current dir)"@ }, ParamView { name: "file_ext"@, kind: ParamKind::Str, description: "Restrict to files with this extension, e.g. 'rs'"@ }],
            required: seq!["pattern"@],
        },
        ToolSpecView {
            name: "create_dir"@,
            description: "Create a directory tree (like mkdir -p)."@,
            params: seq![ParamView { name: "path"@, kind: ParamKind::Str, description: "Directory path to create"@ }],
            required: seq!["path"@],
        },
        ToolSpecView {
            name: "delete_path"@,
            description: "Delete a file or an empty directory."@,
            params: seq![ParamView { name: "path"@, kind: ParamKind::Str, description: "Path to delete"@ }],
            required: seq!["path"@],
        },
        ToolSpecView {
            name: "path_info"@,
            description: "Get metadata about a file or directory (type, size, modified time)."@,
            params: seq![ParamView { name: "path"@, kind: ParamKind::Str, description: "Path to inspect"@ }],
            required: seq!["path"@],
        },
        ToolSpecView {
            name: "ssh_connect"@,
            description: "Connect to a remote host via SSH. Subsequent ssh_exec calls run on that host."@,
            params: seq![ParamView { name: "host"@, kind: ParamKind::Str, description: "Hostname or IP address"@ }, ParamView { name: "user"@, kind: ParamKind::Str, description: "SSH username"@ }, ParamView { name: "key"@, kind: ParamKind::Str, description: "Path to the private key file (-i)"@ }, ParamView { name: "port"@, kind: ParamKind::Int, description: "SSH port (default 22)"@ }],
            required: seq!["host"@, "user"@, "key"@],
        },
        ToolSpecView {
            name: "ssh_exec"@,
            description: "Execute a command on the currently connected remote SSH host."@,
            params: seq![ParamView { name: "command"@, kind: ParamKind::Str, description: "Shell command to run on the remote host"@ }],
            required: seq!["command"@],
        },
        ToolSpecView {
            name: "web_search"@,
            description: "Search the web using DuckDuckGo. Returns a summary and related results. Use for current events, documentation, news, or any information not in the local codebase."@,
            params: seq![ParamView { name: "query"@, kind: ParamKind::Str, description: "Search query"@ }, ParamView { name: "max_results"@, kind: ParamKind::Int, description: "Max related results to return (default: 5)"@ }],
            required: seq!["query"@],
        },
        ToolSpecView {
            name: "fetch_url"@,
            description: "Fetch the content of any HTTP or HTTPS URL. Returns plain text (HTML tags stripped). Use to read documentation, news articles, or any web page found via web_search."@,
            params: seq![ParamView { name: "url"@, kind: ParamKind::Str, description: "Full URL to fetch (http:// or https://)"@ }],
            required: seq!["url"@],
        },
        ToolSpecView {
            name: "ssh_disconnect"@,
            description: "Close the current SSH connection."@,
            params: seq![],
            required: seq![],
        },
    ]
}

fn param(name: &str, kind: ParamKind, description: &str) -> (r: ParamSpec)
    ensures
        r@ == (ParamView { name: name@, kind, description: description@ }),
{
    ParamSpec { name: str_of(name), kind, description: str_of(description) }
}

fn tool(name: &str, description: &str, params: Vec<ParamSpec>, required: Vec<String>) -> (r: ToolSpec)
    ensures
        r@ == (ToolSpecView {
            name: name@,
            description: description@,
            params: params@.map_values(|p: ParamSpec| p@),
            required: views(required@),
        }),
{
    ToolSpec { name: str_of(name), description: str_of(description), params, required }
}

/// The tools that the model may call, with their parameters.
pub fn definitions() -> (r: Vec<ToolSpec>)
    ensures
        r@.map_values(|t: ToolSpec| t@) == tool_table(),
{
    let r = vec![
        tool(
            "read_file",
            "Read the full contents of a file. Adds line numbers for code files.",
            vec![param("path", ParamKind::Str, "File path to read")],
            vec![str_of("path")],
        ),
        tool(
            "write_file",
            "Write (or overwrite) a file with the given content. Creates parent dirs automatically. 'path' is REQUIRED \u{2014} always supply a filename such as 'notes.md' or 'src/foo.rs'.",
            vec![param("path", ParamKind::Str, "Destination file path"), param("content", ParamKind::Str, "Content to write")],
            vec![str_of("path"), str_of("content")],
        ),
        tool(
            "run_command",
            "Execute a shell command (via sh -c). Returns exit code, stdout, and stderr.",
            vec![param("command", ParamKind::Str, "Shell command to run")],
            vec![str_of("command")],
        ),
        tool(
            "list_dir",
            "List files and subdirectories at a path. Directories are marked with /.",
            vec![param("path", ParamKind::Str, "Directory to list (use '.' for current)")],
            vec![str_of("path")],
        ),
        tool(
            "search_files",
            "Recursively search for a text pattern inside files. Returns matching lines with paths and line numbers.",
            vec![param("pattern", ParamKind::Str, "Text to search for (case-insensitive)"), param("path", ParamKind::Str, "Root directory to search (default: current dir)"), param("file_ext", ParamKind::Str, "Restrict to files with this extension, e.g. 'rs'")],
            vec![str_of("pattern")],
        ),
        tool(
            "create_dir",
            "Create a directory tree (like mkdir -p).",
            vec![param("path", ParamKind::Str, "Directory path to create")],
            vec![str_of("path")],
        ),
        tool(
            "delete_path",
            "Delete a file or an empty directory.",
            vec![param("path", ParamKind::Str, "Path to delete")],
            vec![str_of("path")],
        ),
        tool(
            "path_info",
            "Get metadata about a file or directory (type, size, modified time).",
            vec![param("path", ParamKind::Str, "Path to inspect")],
            vec![str_of("path")],
        ),
        tool(
            "ssh_connect",
            "Connect to a remote host via SSH. Subsequent ssh_exec calls run on that host.",
            vec![param("host", ParamKind::Str, "Hostname or IP address"), param("user", ParamKind::Str, "SSH username"), param("key", ParamKind::Str, "Path to the private key file (-i)"), param("port", ParamKind::Int, "SSH port (default 22)")],
            vec![str_of("host"), str_of("user"), str_of("key")],
        ),
        tool(
            "ssh_exec",
            "Execute a command on the currently connected remote SSH host.",
            vec![param("command", ParamKind::Str, "Shell command to run on the remote host")],
            vec![str_of("command")],
        ),
        tool(
            "web_search",
            "Search the web using DuckDuckGo. Returns a summary and related results. Use for current events, documentation, news, or any information not in the local codebase.",
            vec![param("query", ParamKind::Str, "Search query"), param("max_results", ParamKind::Int, "Max related results to return (default: 5)")],
            vec![str_of("query")],
        ),
        tool(
            "fetch_url",
            "Fetch the content of any HTTP or HTTPS URL. Returns plain text (HTML tags stripped). Use to read documentation, news articles, or any web page found via web_search.",
            vec![param("url", ParamKind::Str, "Full URL to fetch (http:// or https://)")],
            vec![str_of("url")],
        ),
        tool(
            "ssh_disconnect",
            "Close the current SSH connection.",
            vec![],
            vec![],
        ),
    ];
    assert(r@.map_values(|t: ToolSpec| t@) =~~= tool_table());
    r
}

/// The tools with a one-line summary each, as the plain prompt lists them.
pub open spec fn summary_table() -> Seq<(Seq<char>, Seq<char>)> {
    seq![
        ("read_file"@, "Read file contents with line numbers"@),
        ("write_file"@, "Write/overwrite a file"@),
        ("run_command"@, "Run a shell command"@),
        ("list_dir"@, "List directory contents"@),
        ("search_files"@, "Search pattern in files recursively"@),
        ("create_dir"@, "Create directories (mkdir -p)"@),
        ("delete_path"@, "Delete a file or empty directory"@),
        ("path_info"@, "File/directory metadata"@),
        ("ssh_connect"@, "Connect to a remote host via SSH"@),
        ("ssh_exec"@, "Run a command on the connected SSH host"@),
        ("ssh_disconnect"@, "Disconnect from the current SSH host"@),
        ("web_search"@, "Search the web via DuckDuckGo (no API key needed)"@),
        ("fetch_url"@, "Fetch and read any HTTP/HTTPS URL as plain text"@),
    ]
}

fn summary(name: &str, what: &str) -> (r: (String, String))
    ensures
        r.0@ == name@,
        r.1@ == what@,
{
    (str_of(name), str_of(what))
}

/// The tools with a one-line summary each.
pub fn tool_summaries() -> (r: Vec<(String, String)>)
    ensures
        r@.map_values(|p: (String, String)| (p.0@, p.1@)) == summary_table(),
{
    let r = vec![
        summary("read_file", "Read file contents with line numbers"),
        summary("write_file", "Write/overwrite a file"),
        summary("run_command", "Run a shell command"),
        summary("list_dir", "List directory contents"),
        summary("search_files", "Search pattern in files recursively"),
        summary("create_dir", "Create directories (mkdir -p)"),
        summary("delete_path", "Delete a file or empty directory"),
        summary("path_info", "File/directory metadata"),
        summary("ssh_connect", "Connect to a remote host via SSH"),
        summary("ssh_exec", "Run a command on the connected SSH host"),
        summary("ssh_disconnect", "Disconnect from the current SSH host"),
        summary("web_search", "Search the web via DuckDuckGo (no API key needed)"),
        summary("fetch_url", "Fetch and read any HTTP/HTTPS URL as plain text"),
    ];
    assert(r@.map_values(|p: (String, String)| (p.0@, p.1@)) =~= summary_table());
    r
}

// ── laws ──────────────────────────────────────────────────────────────────────

/// The names of the tools, in the table's order.
pub open spec fn tool_names() -> Seq<Seq<char>> {
    tool_table().map_values(|t: ToolSpecView| t.name)
}

proof fn lemma_tool_names()
    ensures
        tool_names() == seq![
            "read_file"@, "write_file"@, "run_command"@, "list_dir"@, "search_files"@,
            "create_dir"@, "delete_path"@, "path_info"@, "ssh_connect"@, "ssh_exec"@,
            "web_search"@, "fetch_url"@, "ssh_disconnect"@,
        ],
{
    assert(tool_names() =~= seq![
        "read_file"@, "write_file"@, "run_command"@, "list_dir"@, "search_files"@,
        "create_dir"@, "delete_path"@, "path_info"@, "ssh_connect"@, "ssh_exec"@,
        "web_search"@, "fetch_url"@, "ssh_disconnect"@,
    ]);
}

/// A call of a name that no tool in the table has is answered `Unknown tool '<name>'`,
/// whatever its arguments; a call of a tool's name never is.
pub proof fn law_unknown_tool(name: Seq<char>, args: ToolArgs, cwd: Seq<char>)
    ensures
        (spec_plan(name, args, cwd) == PlanView::Reply("Unknown tool '"@ + name + "'"@))
            <==> !tool_names().contains(name),
{
    lemma_tool_names();
    let names = tool_names();
    let unknown = "Unknown tool '"@ + name + "'"@;
    reveal_strlit("Unknown tool '");
    assert(unknown[0] == 'U');
    if names.contains(name) {
        let k = choose|k: int| 0 <= k < names.len() && names[k] == name;
        reveal_strlit(
            "Error: 'path' argument is required and must not be empty. Provide a filename like 'notes.md' or 'src/foo.rs'.",
        );
        reveal_strlit("Blocked: ");
        reveal_strlit("Error: pattern is required");
        reveal_strlit("Error: 'url' is required");
        reveal_strlit("Error: URL must start with http:// or https://");
        reveal_strlit("Error: 'query' is required");
        match spec_plan(name, args, cwd) {
            PlanView::Reply(m) => {
                assert(m[0] != 'U');
            },
            _ => {},
        }
    } else {
        assert(names[0] == "read_file"@);
        assert(names[1] == "write_file"@);
        assert(names[2] == "run_command"@);
        assert(names[3] == "list_dir"@);
        assert(names[4] == "search_files"@);
        assert(names[5] == "create_dir"@);
        assert(names[6] == "delete_path"@);
        assert(names[7] == "path_info"@);
        assert(names[8] == "ssh_connect"@);
        assert(names[9] == "ssh_exec"@);
        assert(names[10] == "web_search"@);
        assert(names[11] == "fetch_url"@);
        assert(names[12] == "ssh_disconnect"@);
    }
}

} // verus!
