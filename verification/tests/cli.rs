use offcode::chat::new_message;
use offcode::cli::{
    abandon_turn, base_url, compaction_request, compose_system_prompt, history_ok, history_rows,
    parse_args, parse_confirm, repl_command, settle_call, yolo_note, CliAction, ConfirmAction,
    ConfirmReply, ReplCommand, Speaker,
};

fn argv(words: &[&str]) -> Vec<String> {
    let mut v = vec!["offcode".to_string()];
    v.extend(words.iter().map(|w| w.to_string()));
    v
}

#[test]
fn command_line_options() {
    let a = parse_args(&argv(&["-m", "llama3", "--think", "--no-tui", "fix", "the", "bug"]));
    assert!(a.action == CliAction::Run);
    assert_eq!(a.model.as_deref(), Some("llama3"));
    assert!(a.think && a.no_tui && !a.no_ctx);
    assert_eq!(a.prompt, vec!["fix", "the", "bug"]);
    let b = parse_args(&argv(&["--url", "http://h:1/", "--no-ctx"]));
    assert_eq!(b.url.as_deref(), Some("http://h:1/"));
    assert!(b.no_ctx && b.prompt.is_empty());
    assert!(parse_args(&argv(&["-h", "x"])).action == CliAction::Help);
    assert!(parse_args(&argv(&["--version"])).action == CliAction::Version);
    let c = parse_args(&argv(&["--model", "m1", "--config", "--model", "m2"]));
    assert!(c.action == CliAction::ShowConfig);
    assert_eq!(c.model.as_deref(), Some("m1"));
    let d = parse_args(&argv(&["-m"]));
    assert!(d.model.is_none() && d.prompt.is_empty());
    let e = parse_args(&argv(&["hello", "--think"]));
    assert!(!e.think);
    assert_eq!(e.prompt, vec!["hello", "--think"]);
}

#[test]
fn plain_prompt_commands() {
    assert!(matches!(repl_command("   "), ReplCommand::Empty));
    assert!(matches!(repl_command("/q"), ReplCommand::Exit));
    assert!(matches!(repl_command(" /quit "), ReplCommand::Exit));
    assert!(matches!(repl_command("/reset"), ReplCommand::Clear));
    assert!(matches!(repl_command("/compact"), ReplCommand::Compact));
    assert!(matches!(repl_command("/history"), ReplCommand::History));
    assert!(matches!(repl_command("/yolo"), ReplCommand::Yolo));
    assert!(matches!(repl_command("/config"), ReplCommand::ShowConfig));
    assert!(matches!(repl_command("/models"), ReplCommand::ListModels));
    match repl_command("/model  qwen3 ") {
        ReplCommand::SetModel(m) => assert_eq!(m, "qwen3"),
        _ => panic!("a model is named"),
    }
    assert!(matches!(repl_command("/nope"), ReplCommand::Unknown));
    match repl_command("  explain this\n") {
        ReplCommand::Prompt(p) => assert_eq!(p, "explain this"),
        _ => panic!("a prompt"),
    }
    assert_eq!(yolo_note(true), "Yolo mode: on (tools run without prompting)");
    assert_eq!(yolo_note(false), "Yolo mode: off (prompt before each tool call)");
}

fn decided(r: ConfirmReply) -> ConfirmAction {
    match r {
        ConfirmReply::Decided(a) => a,
        ConfirmReply::Retry(m) => panic!("asked again: {m}"),
    }
}

fn retry(r: ConfirmReply) -> String {
    match r {
        ConfirmReply::Retry(m) => m,
        ConfirmReply::Decided(_) => panic!("decided"),
    }
}

#[test]
fn confirmation_answers() {
    assert!(matches!(decided(parse_confirm(Some("\n"))), ConfirmAction::Accept));
    assert!(matches!(decided(parse_confirm(Some("Y"))), ConfirmAction::Accept));
    assert!(matches!(decided(parse_confirm(Some(" yEs "))), ConfirmAction::Accept));
    match decided(parse_confirm(Some("NO"))) {
        ConfirmAction::Reject(r) => assert_eq!(r, ""),
        _ => panic!("refused"),
    }
    match decided(parse_confirm(Some("r  too risky "))) {
        ConfirmAction::Reject(r) => assert_eq!(r, "too risky"),
        _ => panic!("refused"),
    }
    match decided(parse_confirm(Some("comment check the tests"))) {
        ConfirmAction::Comment(c) => assert_eq!(c, "check the tests"),
        _ => panic!("commented"),
    }
    match decided(parse_confirm(Some("m {\"path\": \"b.txt\"}"))) {
        ConfirmAction::Modify(v) => assert_eq!(v["path"], "b.txt"),
        _ => panic!("modified"),
    }
    match decided(parse_confirm(None)) {
        ConfirmAction::Reject(r) => assert_eq!(r, "stdin closed"),
        _ => panic!("refused"),
    }
    assert_eq!(retry(parse_confirm(Some("c"))), "  (comment text required)");
    assert_eq!(retry(parse_confirm(Some("modify"))), "  (json args required)");
    let bad = retry(parse_confirm(Some("m {oops")));
    assert!(bad.starts_with("  invalid JSON: "));
    assert!(bad.contains("at line 1 column"));
    assert_eq!(retry(parse_confirm(Some("maybe"))), "  unknown response");
    assert_eq!(retry(parse_confirm(Some("R reason"))), "  unknown response");
}

#[test]
fn decided_calls_in_the_history() {
    let mut h = vec![new_message("system", "s".to_string())];
    settle_call(&mut h, ConfirmAction::Reject(String::new()), None);
    assert_eq!(h[1].role, "tool");
    assert_eq!(h[1].content, "Tool call rejected by user.");
    settle_call(&mut h, ConfirmAction::Reject("no".to_string()), None);
    assert_eq!(h[2].content, "Tool call rejected by user: no");
    settle_call(&mut h, ConfirmAction::Comment("note".to_string()), Some("out".to_string()));
    assert_eq!(h[3].content, "out");
    assert_eq!(h[4].role, "user");
    assert_eq!(h[4].content, "note");
    settle_call(&mut h, ConfirmAction::Accept, Some("done".to_string()));
    assert_eq!(h.len(), 6);
    assert!(ConfirmAction::Accept.runs());
    assert!(ConfirmAction::Comment("c".to_string()).runs());
    assert!(!ConfirmAction::Reject(String::new()).runs());
    abandon_turn(&mut h);
    assert_eq!(h.len(), 5);
}

#[test]
fn system_prompt_and_url() {
    assert_eq!(
        compose_system_prompt("Base.", "/w", "linux", false),
        "Base.\n\nCurrent directory: /w\nOS: linux"
    );
    let with = compose_system_prompt("B", "/w", "macos", true);
    assert!(with.starts_with("B\n\nCurrent directory: /w\nOS: macos\n\nA file named .offcode.ctx exists"));
    assert!(with.ends_with("Read it with the read_file tool at the start to restore context."));
    assert_eq!(base_url("http://localhost:11434//"), "http://localhost:11434");
    assert_eq!(base_url("http://h"), "http://h");
}

#[test]
fn compaction_needs_a_conversation() {
    let only = vec![new_message("system", "s".to_string())];
    assert!(compaction_request(&only, "sum up").is_none());
    let h = vec![new_message("system", "s".to_string()), new_message("user", "u".to_string())];
    let r = compaction_request(&h, "sum up").unwrap();
    assert_eq!(r.len(), 3);
    assert_eq!(r[2].role, "user");
    assert_eq!(r[2].content, "sum up");
}

#[test]
fn history_listing() {
    let long = "x".repeat(120);
    let h = vec![
        new_message("system", "s".to_string()),
        new_message("user", "first\nsecond\nthird".to_string()),
        new_message("assistant", long.clone()),
        new_message("tool", "t".to_string()),
        new_message("other", "o".to_string()),
    ];
    assert!(history_ok(&h));
    let rows = history_rows(&h);
    assert_eq!(rows.len(), 4);
    assert!(rows[0].speaker == Speaker::User && rows[0].label == "you     ");
    assert_eq!(rows[0].preview, "first \u{b7} second");
    assert_eq!(rows[1].preview, format!("{}\u{2026}", "x".repeat(100)));
    assert!(rows[2].speaker == Speaker::Tool && rows[3].speaker == Speaker::Other);
    let bad = vec![new_message("system", "s".to_string()), new_message("user", format!("{}\u{e9}", "x".repeat(99)))];
    assert!(!history_ok(&bad));
}
