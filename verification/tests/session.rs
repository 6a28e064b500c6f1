use offcode::chat::new_message;
use offcode::models::{ModelCaps, ModelInfo};
use offcode::tools::{ArgValue, ToolArgs};
use offcode::tui::{
    entry_lines, fmt_args, arg_lines, mascot_lines, spinner_frame, Action, App, Entry, Key, Mode, Role, Tone,
    WorkerMsg,
};

fn app() -> App {
    App::new("gemma".to_string(), false, "be helpful".to_string())
}

fn typed(app: &mut App, text: &str) {
    for c in text.chars() {
        assert!(app.handle_key(Key::Char(c), false) == Action::Nothing);
    }
}

fn input(app: &App) -> String {
    app.input.iter().collect()
}

#[test]
fn entries_have_their_labels() {
    let e = Entry::user("hi".to_string());
    assert!(e.role == Role::User && e.label == "you" && e.text == "hi");
    assert_eq!(Entry::assistant("a".to_string()).label, "offcode");
    assert_eq!(Entry::think("t".to_string()).label, "thinking");
    let t = Entry::tool("read_file".to_string(), "path=x".to_string());
    assert!(t.role == Role::Tool && t.label == "read_file" && t.text == "path=x");
    assert_eq!(Entry::error("e".to_string()).label, "error");
    assert_eq!(Entry::info("i".to_string()).label, "info");
}

#[test]
fn a_new_session() {
    let a = app();
    assert_eq!(a.history.len(), 1);
    assert_eq!(a.history[0].role, "system");
    assert_eq!(a.history[0].content, "be helpful");
    assert!(a.entries.is_empty() && a.input.is_empty() && a.cursor == 0);
    assert!(a.mode == Mode::Input && a.auto_scroll && !a.should_quit);
}

#[test]
fn typing_and_editing_the_prompt() {
    let mut a = app();
    typed(&mut a, "helo");
    assert_eq!(input(&a), "helo");
    assert_eq!(a.cursor, 4);
    a.handle_key(Key::Left, false);
    a.handle_key(Key::Char('l'), false);
    assert_eq!(input(&a), "hello");
    a.handle_key(Key::Home, false);
    a.handle_key(Key::Delete, false);
    assert_eq!(input(&a), "ello");
    a.handle_key(Key::End, false);
    assert_eq!(a.cursor, 4);
    a.handle_key(Key::Backspace, false);
    assert_eq!(input(&a), "ell");
    a.handle_key(Key::Right, false);
    assert_eq!(a.cursor, 3);
}

#[test]
fn typing_then_erasing_restores_the_prompt() {
    let mut a = app();
    typed(&mut a, "ab");
    a.handle_key(Key::Left, false);
    a.handle_key(Key::Char('x'), false);
    a.handle_key(Key::Backspace, false);
    assert_eq!(input(&a), "ab");
    assert_eq!(a.cursor, 1);
}

#[test]
fn sending_a_prompt_starts_a_reply() {
    let mut a = app();
    typed(&mut a, "  what is rust  ");
    assert!(a.handle_key(Key::Enter, false) == Action::Generate);
    assert!(a.mode == Mode::Generating);
    assert!(a.input.is_empty() && a.cursor == 0);
    assert_eq!(a.history.len(), 2);
    assert_eq!(a.history[1].role, "user");
    assert_eq!(a.history[1].content, "what is rust");
    assert!(a.entries[0].role == Role::User && a.entries[0].text == "what is rust");
}

#[test]
fn a_blank_prompt_does_nothing() {
    let mut a = app();
    typed(&mut a, "   ");
    assert!(a.handle_key(Key::Enter, false) == Action::Nothing);
    assert_eq!(a.history.len(), 1);
    assert_eq!(input(&a), "   ");
}

#[test]
fn quitting() {
    let mut a = app();
    a.handle_key(Key::Char('c'), true);
    assert!(a.should_quit);
    let mut b = app();
    b.handle_key(Key::Esc, false);
    assert!(b.should_quit);
}

#[test]
fn escape_cancels_a_reply() {
    let mut a = app();
    typed(&mut a, "q1");
    a.handle_key(Key::Enter, false);
    typed(&mut a, "q2");
    a.handle_key(Key::Enter, false);
    assert_eq!(a.queued.as_deref(), Some("q2"));
    assert!(a.handle_key(Key::Esc, false) == Action::Cancel);
    assert!(!a.should_quit && a.queued.is_none());
}

#[test]
fn a_prompt_typed_while_generating_waits() {
    let mut a = app();
    typed(&mut a, "first");
    a.handle_key(Key::Enter, false);
    typed(&mut a, "second");
    assert!(a.handle_key(Key::Enter, false) == Action::Nothing);
    assert_eq!(a.history.len(), 2);
    assert_eq!(a.entries.last().unwrap().text, "\u{23ce} queued \u{2014} will send when done");
    a.handle_worker_msg(WorkerMsg::AddMessage(new_message("assistant", "done".to_string())));
    assert!(a.handle_worker_msg(WorkerMsg::Done) == Action::Generate);
    assert_eq!(a.history.len(), 4);
    assert_eq!(a.history[3].content, "second");
    assert!(a.mode == Mode::Generating && a.queued.is_none());
}

#[test]
fn a_failed_reply_forgets_its_prompt() {
    let mut a = app();
    typed(&mut a, "hello");
    a.handle_key(Key::Enter, false);
    a.handle_worker_msg(WorkerMsg::Error("Connection error: refused".to_string()));
    assert_eq!(a.history.len(), 1);
    assert!(a.mode == Mode::Input);
    let last = a.entries.last().unwrap();
    assert!(last.role == Role::Error && last.text == "Connection error: refused");
}

#[test]
fn tokens_build_up_entries() {
    let mut a = app();
    a.handle_worker_msg(WorkerMsg::ThinkToken("hidden".to_string()));
    assert!(a.entries.is_empty());
    a.handle_worker_msg(WorkerMsg::Token("Hel".to_string()));
    a.handle_worker_msg(WorkerMsg::Token("lo".to_string()));
    assert_eq!(a.entries.len(), 1);
    assert_eq!(a.entries[0].text, "Hello");
    let args = ToolArgs {
        entries: vec![("path".to_string(), ArgValue::Str("a.rs".to_string()))],
        non_object: None,
    };
    a.handle_worker_msg(WorkerMsg::ToolBegin { name: "read_file".to_string(), args });
    a.handle_worker_msg(WorkerMsg::ToolEnd { result_preview: "1 | fn main".to_string() });
    assert!(a.entries[1].role == Role::Tool);
    assert_eq!(a.entries[1].text, "path=a.rs\n\u{2192} 1 | fn main");
    a.handle_worker_msg(WorkerMsg::ToolEnd { result_preview: String::new() });
    assert_eq!(a.entries[1].text, "path=a.rs\n\u{2192} 1 | fn main");
}

#[test]
fn commands() {
    let mut a = app();
    typed(&mut a, "/think");
    a.handle_key(Key::Enter, false);
    assert!(a.show_thinking);
    assert_eq!(a.entries.last().unwrap().text, "Thinking display: on");
    typed(&mut a, "/model  llama3 ");
    a.handle_key(Key::Enter, false);
    assert_eq!(a.model, "llama3");
    assert_eq!(a.entries.last().unwrap().text, "Model \u{2192} llama3");
    typed(&mut a, "/models");
    assert!(a.handle_key(Key::Enter, false) == Action::ListModels);
    typed(&mut a, "/bogus");
    a.handle_key(Key::Enter, false);
    let last = a.entries.last().unwrap();
    assert!(last.role == Role::Error && last.text == "Unknown command. /help for list.");
    typed(&mut a, "/tools");
    a.handle_key(Key::Enter, false);
    assert!(a.entries.last().unwrap().text.starts_with("  \u{2022} read_file\n  \u{2022} write_file"));
    typed(&mut a, "/clear");
    a.handle_key(Key::Enter, false);
    assert_eq!(a.entries.len(), 1);
    assert_eq!(a.entries[0].text, "History cleared.");
    assert_eq!(a.history.len(), 1);
    typed(&mut a, "/exit");
    a.handle_key(Key::Enter, false);
    assert!(a.should_quit);
}

#[test]
fn listing_models_in_the_session() {
    let mut a = app();
    a.show_models(Err("Failed to fetch models: refused".to_string()), &[]);
    assert_eq!(a.entries[0].text, "list models: Failed to fetch models: refused");
    a.show_models(Ok(vec![]), &[]);
    assert_eq!(a.entries[1].text, "No models installed. Try `ollama pull <model>`.");
    let models = vec![ModelInfo { name: "gemma".to_string(), size: 1048576 }];
    a.show_models(Ok(models), &[ModelCaps::default()]);
    assert!(a.entries[2].text.contains("\u{2190} current\nselected: gemma"));
}

#[test]
fn tool_arguments_as_shown() {
    let args = ToolArgs {
        entries: vec![
            ("path".to_string(), ArgValue::Str("a.rs".to_string())),
            ("content".to_string(), ArgValue::Str("line1\nline2".to_string())),
            ("n".to_string(), ArgValue::UInt(3)),
            ("flag".to_string(), ArgValue::Other("true".to_string())),
        ],
        non_object: None,
    };
    assert_eq!(fmt_args(&args), "path=a.rs  content=line1\u{2026}  n=3  flag=true");
    assert_eq!(arg_lines(&args), vec!["path: a.rs", "content: line1\u{2026}", "n: 3", "flag: true"]);
    let long = ToolArgs { entries: vec![("s".to_string(), ArgValue::Str("x".repeat(60)))], non_object: None };
    assert_eq!(fmt_args(&long), format!("s={}", "x".repeat(50)));
    let raw = ToolArgs { entries: vec![], non_object: Some("[1,2]".to_string()) };
    assert_eq!(fmt_args(&raw), "[1,2]");
    assert!(arg_lines(&raw).is_empty());
}

#[test]
fn entries_as_lines() {
    let e = Entry::user("hello world".to_string());
    let ls = entry_lines(&e, 20);
    assert_eq!(ls.len(), 2);
    assert!(ls[0][0].0 == "  \u{25b7} you" && ls[0][0].1 == Tone::UserHead);
    assert!(ls[1][0].0 == "    " && ls[1][1].0 == "hello world" && ls[1][1].1 == Tone::Text);
    let i = Entry::info("a b".to_string());
    let il = entry_lines(&i, 7);
    assert_eq!(il.len(), 1);
    assert!(il[0][0].0 == "  " && il[0][1].0 == "a b" && il[0][1].1 == Tone::Faint);
    assert_eq!(mascot_lines().len(), 7);
}

#[test]
fn the_view_follows_the_bottom() {
    let mut a = app();
    a.settle_scroll(30, 10);
    assert_eq!(a.scroll, 20);
    a.handle_key(Key::PageUp, false);
    assert!(!a.auto_scroll);
    a.settle_scroll(30, 10);
    assert_eq!(a.scroll, 10);
    a.handle_key(Key::PageDown, false);
    a.settle_scroll(30, 10);
    assert!(a.auto_scroll && a.scroll == 20);
    a.settle_scroll(5, 10);
    assert_eq!(a.scroll, 0);
}

#[test]
fn spinner_and_clock() {
    assert_eq!(spinner_frame(0), 0);
    assert_eq!(spinner_frame(3), 1);
    assert_eq!(spinner_frame(17), 5);
    assert_eq!(spinner_frame(18), 0);
    let mut a = app();
    a.tick = u64::MAX;
    a.advance_tick();
    assert_eq!(a.tick, 0);
}

#[test]
fn message_lines_of_a_session() {
    let mut a = app();
    assert!(a.renders_cleanly(40));
    assert_eq!(a.message_lines(40).len(), 7);
    a.handle_worker_msg(WorkerMsg::Token("hi".to_string()));
    let ls = a.message_lines(40);
    assert_eq!(ls.len(), 3);
    assert!(ls[2].is_empty());
}
