use local_agent::context::{
    auto_compact, estimate_tokens, fresh_context, maybe_compact, microcompact, token_threshold,
    SUMMARY_TOKENS,
};
use local_agent::llm_client::{
    conversation_to_json, FunctionCallSerde, Message, MessageToolCall,
};

fn call(id: &str, arguments: &str) -> Message {
    Message::assistant(
        Some(String::new()),
        Some(vec![MessageToolCall {
            id: id.to_string(),
            call_type: "function".to_string(),
            function: FunctionCallSerde {
                name: "bash".to_string(),
                arguments: arguments.to_string(),
            },
        }]),
    )
}

fn conversation(rounds: usize, size: usize) -> Vec<Message> {
    let mut out = vec![Message::user("hello")];
    for i in 0..rounds {
        out.push(call(&format!("c{}", i), &"a".repeat(size)));
        out.push(Message::tool(&format!("c{}", i), &"r".repeat(size)));
    }
    out
}

fn content(m: &Message) -> &str {
    m.content.as_deref().unwrap()
}

fn arguments(m: &Message) -> &str {
    &m.tool_calls.as_ref().unwrap()[0].function.arguments
}

#[test]
fn the_threshold_is_sixty_percent() {
    assert_eq!(token_threshold(0), 0);
    assert_eq!(token_threshold(9), 5);
    assert_eq!(token_threshold(32768), 19660);
    assert_eq!(token_threshold(u32::MAX), 2576980377);
}

#[test]
fn tokens_are_a_quarter_of_the_bytes() {
    assert_eq!(estimate_tokens(&[]), 0);
    let m = [Message::user("hé\"\n")];
    let json = conversation_to_json(&m);
    assert_eq!(json, "[{\"role\":\"user\",\"content\":\"hé\\\"\\n\"}]");
    assert_eq!(json.len(), 37);
    assert_eq!(estimate_tokens(&m), 9);
}

#[test]
fn old_results_and_their_arguments_are_cleared() {
    let mut m = conversation(5, 600);
    microcompact(&mut m, false);
    for i in 0..5 {
        let (a, r) = (&m[1 + 2 * i], &m[2 + 2 * i]);
        if i < 2 {
            assert_eq!((arguments(a), content(r)), ("{}", "[cleared]"));
        } else {
            assert_eq!((arguments(a).len(), content(r).len()), (600, 600));
        }
        assert_eq!(a.tool_calls.as_ref().unwrap()[0].id, format!("c{}", i));
        assert_eq!(r.tool_call_id, Some(format!("c{}", i)));
    }
    assert_eq!(content(&m[0]), "hello");
}

#[test]
fn near_the_threshold_only_one_result_stays() {
    let mut m = conversation(3, 600);
    microcompact(&mut m, false);
    assert_eq!(content(&m[2]).len(), 600);
    microcompact(&mut m, true);
    assert_eq!(content(&m[2]), "[cleared]");
    assert_eq!(content(&m[4]), "[cleared]");
    assert_eq!(content(&m[6]).len(), 600);
    assert_eq!(arguments(&m[3]), "{}");
    assert_eq!(arguments(&m[5]).len(), 600);
}

#[test]
fn mild_clearing_before_aggressive_clearing_makes_no_difference() {
    let mut both = conversation(6, 700);
    let mut one = conversation(6, 700);
    microcompact(&mut both, false);
    microcompact(&mut both, true);
    microcompact(&mut one, true);
    assert_eq!(conversation_to_json(&both), conversation_to_json(&one));
}

#[test]
fn short_texts_stay() {
    let mut m = conversation(4, 500);
    microcompact(&mut m, false);
    assert_eq!(content(&m[2]).len(), 500);
    assert_eq!(arguments(&m[1]), "{}");
    let mut m = conversation(4, 200);
    microcompact(&mut m, false);
    assert_eq!(arguments(&m[1]).len(), 200);
    // Sizes count in bytes.
    let mut m = conversation(4, 1);
    m[2] = Message::tool("c0", &"é".repeat(251));
    microcompact(&mut m, false);
    assert_eq!(content(&m[2]), "[cleared]");
}

#[test]
fn messages_without_an_id_are_no_results() {
    let mut m = conversation(4, 600);
    m[8].tool_call_id = None;
    microcompact(&mut m, false);
    assert_eq!(content(&m[2]).len(), 600);
    // Arguments go by the id, and only in messages of the assistant.
    let mut m = conversation(4, 600);
    m[3].tool_calls.as_mut().unwrap()[0].id = "c0".to_string();
    let mut odd = call("c0", &"x".repeat(300));
    odd.role = "user".to_string();
    m.push(odd);
    microcompact(&mut m, false);
    assert_eq!(arguments(&m[1]), "{}");
    assert_eq!(arguments(&m[3]), "{}");
    assert_eq!(arguments(&m[9]).len(), 300);
}

#[test]
fn clearing_twice_changes_nothing_more_and_never_grows() {
    let mut m = conversation(6, 700);
    let before = conversation_to_json(&m);
    microcompact(&mut m, true);
    let once = conversation_to_json(&m);
    microcompact(&mut m, true);
    assert_eq!(conversation_to_json(&m), once);
    assert!(once.len() < before.len());
    let mut few = conversation(3, 700);
    let same = conversation_to_json(&few);
    microcompact(&mut few, false);
    assert_eq!(conversation_to_json(&few), same);
}

#[test]
fn the_threshold_decides_on_compaction() {
    // Far below the threshold three results stay, and nothing more is needed.
    let mut m = conversation(3, 600);
    assert!(!maybe_compact(&mut m, 1_000_000));
    assert_eq!(content(&m[2]).len(), 600);
    // Between four fifths of it and the threshold one result stays.
    let est = estimate_tokens(&conversation(3, 600)) as u32;
    let mut m = conversation(3, 600);
    assert!(!maybe_compact(&mut m, est * 10 / 6 + 10));
    assert_eq!(content(&m[2]), "[cleared]");
    // Far above it a summary is needed.
    let mut m = conversation(3, 600);
    assert!(maybe_compact(&mut m, 100));
}

#[test]
fn a_transcript_is_saved_and_a_text_is_summarized() {
    let m = vec![Message::user("a"), call("i", "{}"), Message::tool("i", "b")];
    let c = auto_compact(&m, 1700000000);
    assert_eq!(c.file_name, "transcript_1700000000.jsonl");
    assert_eq!(
        c.transcript,
        "{\"role\":\"user\",\"content\":\"a\"}\n{\"role\":\"assistant\",\"content\":\"\",\"tool_calls\":[{\"id\":\"i\",\"type\":\"function\",\"function\":{\"name\":\"bash\",\"arguments\":\"{}\"}}]}\n{\"role\":\"tool\",\"content\":\"b\",\"tool_call_id\":\"i\"}\n"
    );
    assert_eq!(c.conversation, conversation_to_json(&m));
    assert_eq!(
        c.notice,
        "\x1b[90m[context compressed → transcript_1700000000.jsonl]\x1b[0m"
    );
    assert_eq!(SUMMARY_TOKENS, 2000);
}

#[test]
fn the_text_to_summarize_is_cut_between_characters() {
    // The text begins after 27 bytes, so the limit falls into the middle of a character.
    let m = [Message::user(&"あ".repeat(30_000))];
    let c = auto_compact(&m, 0);
    let whole = conversation_to_json(&m);
    assert!(whole.len() > 80_000);
    assert!(whole.starts_with(&c.conversation));
    assert_eq!(c.conversation.len(), 79_998);
    assert!(!whole.is_char_boundary(80_000));
}

#[test]
fn a_conversation_begins_anew_with_two_messages() {
    let m = fresh_context("/w/.transcripts/t.jsonl", "what was done");
    assert_eq!(m.len(), 2);
    assert_eq!(m[0].role, "user");
    assert_eq!(
        content(&m[0]),
        "[Context compressed. Transcript saved to /w/.transcripts/t.jsonl]\n\nwhat was done"
    );
    assert_eq!(m[1].role, "assistant");
    assert_eq!(content(&m[1]), "Understood. Continuing with the summarized context.");
    assert!(m[1].tool_calls.is_none());
}

#[test]
fn a_transcript_has_one_line_per_message() {
    let m = vec![Message::user("a\nb\r"), call("i", "{\"x\":\"\n\"}"), Message::tool("i", "\r\n")];
    let c = auto_compact(&m, 0);
    let lines: Vec<&str> = c.transcript.lines().collect();
    assert_eq!(lines.len(), 3);
    for i in 0..3 {
        assert_eq!(lines[i], m[i].to_json());
        assert!(serde_json::from_str::<serde_json::Value>(lines[i]).is_ok());
    }
}
