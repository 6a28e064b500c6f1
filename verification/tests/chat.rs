use offcode::chat::{
    clear_history, compact_history, initial_history, max_iters_message, new_message, next_round, preview_lines,
    record_reply, rejection_text, Next, StreamChunk, StreamState,
};

#[test]
fn a_turn_counts_its_requests() {
    let mut n = 0u32;
    assert!(next_round(&mut n, 2));
    assert!(next_round(&mut n, 2));
    assert!(!next_round(&mut n, 2));
    assert_eq!(n, 2);
    assert_eq!(max_iters_message(30), "Max tool iterations (30) reached.");
}

#[test]
fn replies_in_the_history() {
    let mut h = initial_history("sys".to_string());
    assert_eq!(h.len(), 1);
    assert!(matches!(record_reply(&mut h, Ok(("".to_string(), None))), Next::Done));
    assert_eq!(h.len(), 1);
    assert!(matches!(record_reply(&mut h, Ok(("answer".to_string(), None))), Next::Done));
    assert_eq!(h[1].role, "assistant");
    assert_eq!(h[1].content, "answer");
    assert!(matches!(record_reply(&mut h, Err("__cancelled__".to_string())), Next::Done));
    match record_reply(&mut h, Err("Connection error: x".to_string())) {
        Next::Failed(e) => assert_eq!(e, "Connection error: x"),
        _ => panic!("failed"),
    }
    assert_eq!(h.len(), 2);
    assert!(matches!(record_reply(&mut h, Ok(("".to_string(), Some(vec![])))), Next::RunTools));
    assert_eq!(h.len(), 3);
}

#[test]
fn previews_and_rejections() {
    assert_eq!(preview_lines("a\nb\nc\nd", 3), "a | b | c");
    assert_eq!(preview_lines("only", 3), "only");
    assert_eq!(preview_lines("", 3), "");
    assert_eq!(rejection_text(""), "Tool call rejected by user.");
    assert_eq!(rejection_text("why"), "Tool call rejected by user: why");
}

#[test]
fn compaction_keeps_the_system_prompt() {
    let mut h = vec![
        new_message("system", "sys".to_string()),
        new_message("user", "u".to_string()),
        new_message("assistant", "a".to_string()),
        new_message("user", "v".to_string()),
    ];
    assert!(!compact_history(&mut h, "   ".to_string()));
    assert_eq!(h.len(), 4);
    assert!(compact_history(&mut h, "summary".to_string()));
    assert_eq!(h.len(), 3);
    assert_eq!(h[0].content, "sys");
    assert_eq!(h[1].content, "Summary of the prior conversation (context was compacted):");
    assert_eq!(h[2].role, "assistant");
    assert_eq!(h[2].content, "summary");
}

#[test]
fn a_streamed_reply() {
    let mut st = StreamState::new();
    let (t1, done1) = st.absorb(
        StreamChunk { content: "Hel".to_string(), thinking: Some("hmm".to_string()), tool_calls: None, done: false },
        true,
    );
    assert_eq!(t1, vec![("hmm".to_string(), true), ("Hel".to_string(), false)]);
    assert!(!done1);
    let (t2, _) = st.absorb(
        StreamChunk { content: "lo".to_string(), thinking: Some("x".to_string()), tool_calls: None, done: false },
        false,
    );
    assert_eq!(t2, vec![("lo".to_string(), false)]);
    let (t3, done3) = st.absorb(
        StreamChunk { content: String::new(), thinking: Some(String::new()), tool_calls: Some(vec![]), done: true },
        true,
    );
    assert!(t3.is_empty() && done3);
    let (content, calls) = st.finish();
    assert_eq!(content, "Hello");
    assert!(calls.is_none());
}

#[test]
fn clearing_keeps_the_system_prompt() {
    let mut h = vec![new_message("system", "sys".to_string()), new_message("user", "u".to_string())];
    clear_history(&mut h);
    assert_eq!(h.len(), 1);
    assert_eq!(h[0].content, "sys");
    let mut empty: Vec<offcode::chat::Message> = vec![];
    clear_history(&mut empty);
    assert!(empty.is_empty());
}
