use offcode::tools::{
    change_note, definitions, finish_tool, is_code_ext, plan_tool, sarg, ssh_opened, ssh_step,
    to_tool_args, tool_summaries, uarg, ArgValue, SshSession, SshStatus, SshStep, ToolArgs,
    ToolOutcome, ToolPlan,
};

fn args(pairs: Vec<(&str, ArgValue)>) -> ToolArgs {
    ToolArgs {
        entries: pairs.into_iter().map(|(k, v)| (k.to_string(), v)).collect(),
        non_object: None,
    }
}

fn s(v: &str) -> ArgValue {
    ArgValue::Str(v.to_string())
}

#[test]
fn read_file_returns_correct_content() {
    let a = args(vec![("path", s("/tmp/work/hello.txt"))]);
    let plan = plan_tool("read_file", &a, "/tmp/work");
    match &plan {
        ToolPlan::ReadFile { path } => assert_eq!(path, "/tmp/work/hello.txt"),
        _ => panic!("read_file should read the file"),
    }
    let result = finish_tool(&plan, ToolOutcome::Read(Ok("line one\nline two\nline three".to_string())));
    assert_eq!(result.trim(), "line one\nline two\nline three");
}

#[test]
fn read_file_numbers_lines_of_code_files() {
    let a = args(vec![("path", s("src/main.rs"))]);
    let plan = plan_tool("read_file", &a, "/w");
    let result = finish_tool(&plan, ToolOutcome::Read(Ok("fn main() {\n}\n".to_string())));
    assert_eq!(result, "   1 | fn main() {\n   2 | }");
}

#[test]
fn read_file_reports_errors() {
    let a = args(vec![("path", s("nope.txt"))]);
    let plan = plan_tool("read_file", &a, "/w");
    let result = finish_tool(&plan, ToolOutcome::Read(Err("No such file or directory (os error 2)".to_string())));
    assert_eq!(result, "Error reading 'nope.txt': No such file or directory (os error 2)");
}

#[test]
fn unknown_tool_is_answered_at_once() {
    let plan = plan_tool("frobnicate", &args(vec![]), "/w");
    match plan {
        ToolPlan::Reply(m) => assert_eq!(m, "Unknown tool 'frobnicate'"),
        _ => panic!("an unknown tool has no work"),
    }
}

#[test]
fn run_command_refused_by_sandbox() {
    let a = args(vec![("command", s("cat ../secret"))]);
    match plan_tool("run_command", &a, "/w") {
        ToolPlan::Reply(m) => assert_eq!(m, "Blocked: '../secret' contains '..' (directory traversal)"),
        _ => panic!("the sandbox refuses this command"),
    }
}

#[test]
fn string_and_integer_arguments() {
    let a = args(vec![("path", s("a.txt")), ("port", ArgValue::UInt(2222)), ("x", ArgValue::Other("true".to_string()))]);
    assert_eq!(sarg(&a, "path"), "a.txt");
    assert_eq!(sarg(&a, "port"), "");
    assert_eq!(sarg(&a, "missing"), "");
    assert_eq!(uarg(&a, "port", 22), 2222);
    assert_eq!(uarg(&a, "path", 22), 22);
    assert_eq!(uarg(&a, "x", 5), 5);
}

#[test]
fn code_extensions() {
    assert!(is_code_ext("src/main.rs"));
    assert!(is_code_ext("a/b/script.py"));
    assert!(is_code_ext("Cargo.toml"));
    assert!(!is_code_ext("notes.txt"));
    assert!(!is_code_ext("Makefile"));
    assert!(!is_code_ext("archive.RS"));
}

#[test]
fn the_tool_table() {
    let defs = definitions();
    let names: Vec<&str> = defs.iter().map(|t| t.name.as_str()).collect();
    assert_eq!(
        names,
        vec![
            "read_file", "write_file", "run_command", "list_dir", "search_files", "create_dir",
            "delete_path", "path_info", "ssh_connect", "ssh_exec", "web_search", "fetch_url",
            "ssh_disconnect"
        ]
    );
    assert_eq!(defs[8].required, vec!["host".to_string(), "user".to_string(), "key".to_string()]);
    let sums = tool_summaries();
    assert_eq!(sums.len(), 13);
    assert_eq!(sums[0], ("read_file".to_string(), "Read file contents with line numbers".to_string()));
}

#[test]
fn search_patterns_are_matched_in_lower_case() {
    let a = args(vec![("pattern", s("FooBar")), ("file_ext", s("rs")), ("path", s(""))]);
    match plan_tool("search_files", &a, "/w") {
        ToolPlan::SearchFiles { pattern, needle, root, ext } => {
            assert_eq!(pattern, "FooBar");
            assert_eq!(needle, "foobar");
            assert_eq!(root, ".");
            assert_eq!(ext.as_deref(), Some("rs"));
        }
        _ => panic!("a search"),
    }
    let hits = offcode::tools::search_matches("src/a.rs", "let FOOBAR = 1;\nnothing\n  x.foobar()  ", "foobar");
    assert_eq!(hits, vec!["src/a.rs:1: let FOOBAR = 1;", "src/a.rs:3: x.foobar()"]);
}

#[test]
fn arguments_given_as_json_text() {
    let text = serde_json::Value::String("{\"path\": \"a.txt\"}".to_string());
    let parsed = offcode::tools::coerce_args(&text);
    assert_eq!(parsed.get("path").and_then(|v| v.as_str()), Some("a.txt"));
    let plain = serde_json::Value::String("not json".to_string());
    assert_eq!(offcode::tools::coerce_args(&plain), plain);
    let object: serde_json::Value = serde_json::from_str("{\"n\": 1}").unwrap();
    assert_eq!(offcode::tools::coerce_args(&object), object);
}

#[test]
fn json_arguments_as_the_tools_read_them() {
    let v: serde_json::Value =
        serde_json::from_str("{\"path\": \"a.txt\", \"n\": 7, \"neg\": -1, \"f\": 1.5, \"b\": true}").unwrap();
    let a = to_tool_args(&v);
    assert!(a.non_object.is_none());
    let keys: Vec<&str> = a.entries.iter().map(|(k, _)| k.as_str()).collect();
    assert_eq!(keys, vec!["b", "f", "n", "neg", "path"]);
    assert!(matches!(&a.entries[0].1, ArgValue::Other(t) if t == "true"));
    assert!(matches!(&a.entries[1].1, ArgValue::Other(t) if t == "1.5"));
    assert!(matches!(&a.entries[2].1, ArgValue::UInt(7)));
    assert!(matches!(&a.entries[3].1, ArgValue::Other(t) if t == "-1"));
    assert!(matches!(&a.entries[4].1, ArgValue::Str(t) if t == "a.txt"));
    assert_eq!(sarg(&a, "path"), "a.txt");
    assert_eq!(uarg(&a, "n", 3), 7);
    assert_eq!(uarg(&a, "neg", 3), 3);

    let list: serde_json::Value = serde_json::from_str("[1, \"x\"]").unwrap();
    let b = to_tool_args(&list);
    assert!(b.entries.is_empty());
    assert_eq!(b.non_object, Some("[1,\"x\"]".to_string()));
}

#[test]
fn a_write_reports_how_the_file_changed() {
    assert_eq!(change_note("a\nb\n", "x"), "--- before: 2 lines\n+++ after: 1 lines");
    assert_eq!(change_note("", "one\r\ntwo\nthree"), "--- before: 0 lines\n+++ after: 3 lines");
    let a = args(vec![("path", s("notes.md")), ("content", s("hello\nworld\n"))]);
    let plan = plan_tool("write_file", &a, "/w");
    let report = finish_tool(&plan, ToolOutcome::Wrote(Ok("old\n".to_string())));
    assert_eq!(report, "Wrote 12 bytes to 'notes.md'\n--- before: 1 lines\n+++ after: 2 lines");
}

#[test]
fn every_tool_name_is_known() {
    for t in definitions() {
        match plan_tool(&t.name, &args(vec![]), "/w") {
            ToolPlan::Reply(m) => assert!(!m.starts_with("Unknown tool")),
            _ => {}
        }
    }
    match plan_tool("Read_File", &args(vec![]), "/w") {
        ToolPlan::Reply(m) => assert_eq!(m, "Unknown tool 'Read_File'"),
        _ => panic!("names are matched exactly"),
    }
}

#[test]
fn ssh_tools_without_a_session() {
    let mut session: Option<SshSession> = None;
    let exec = plan_tool("ssh_exec", &args(vec![("command", s("ls"))]), "/w");
    match ssh_step(&exec, &mut session) {
        SshStep::Done(o) => assert_eq!(finish_tool(&exec, o), "Not connected to any SSH host. Use ssh_connect first."),
        _ => panic!("nothing runs without a session"),
    }
    assert!(session.is_none());
    let bye = plan_tool("ssh_disconnect", &args(vec![]), "/w");
    match ssh_step(&bye, &mut session) {
        SshStep::Done(o) => assert_eq!(finish_tool(&bye, o), "Not connected to any SSH host."),
        _ => panic!("nothing to close without a session"),
    }
    assert!(session.is_none());
}

#[test]
fn ssh_session_opened_used_and_closed() {
    let mut session: Option<SshSession> = None;
    let connect = plan_tool("ssh_connect", &args(vec![("host", s("h")), ("user", s("u"))]), "/w");
    match ssh_step(&connect, &mut session) {
        SshStep::Open(None) => {}
        _ => panic!("a connect opens a session"),
    }
    let new = SshSession { host: "h".to_string(), user: "u".to_string(), socket: "/tmp/s".to_string() };
    ssh_opened(&mut session, &SshStatus::Failed(Some(255)), new);
    assert!(session.is_none());
    let new = SshSession { host: "h".to_string(), user: "u".to_string(), socket: "/tmp/s".to_string() };
    ssh_opened(&mut session, &SshStatus::Up(String::new()), new);
    assert!(session.is_some());

    let exec = plan_tool("ssh_exec", &args(vec![("command", s("ls"))]), "/w");
    match ssh_step(&exec, &mut session) {
        SshStep::Exec(x, c) => {
            assert_eq!((x.host.as_str(), x.user.as_str(), c.as_str()), ("h", "u", "ls"));
        }
        _ => panic!("a command runs over the session"),
    }
    assert!(session.is_some());
    match ssh_step(&connect, &mut session) {
        SshStep::Open(Some(old)) => assert_eq!(old.socket, "/tmp/s"),
        _ => panic!("a second connect gives up the first session"),
    }
    assert!(session.is_none());
    let new = SshSession { host: "h".to_string(), user: "u".to_string(), socket: "/tmp/t".to_string() };
    ssh_opened(&mut session, &SshStatus::Up(String::new()), new);
    let bye = plan_tool("ssh_disconnect", &args(vec![]), "/w");
    match ssh_step(&bye, &mut session) {
        SshStep::Close(x) => assert_eq!(finish_tool(&bye, ToolOutcome::Disconnected(Some((x.user, x.host)))), "Disconnected from u@h"),
        _ => panic!("a disconnect closes the session"),
    }
    assert!(session.is_none());
}
