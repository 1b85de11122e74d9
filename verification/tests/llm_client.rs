use local_agent::llm_client::{
    is_connect_error, parse_u32, retry_step, summary_prompt, summary_text, to_openai_message,
    to_openai_messages, normalize_reason, CallFragment, ChoiceDelta, ErrorLink, FunctionCallSerde,
    LlmConfig, Message, MessageToolCall, RequestMessage, RetryStep, StreamState,
};
use local_agent::text::decimal_text;

fn delta(content: Option<&str>) -> ChoiceDelta {
    ChoiceDelta {
        finish_reason: None,
        content: content.map(|s| s.to_string()),
        tool_calls: None,
    }
}

fn fragment(index: u32, id: Option<&str>, name: Option<&str>, args: Option<&str>) -> CallFragment {
    CallFragment {
        index,
        id: id.map(|s| s.to_string()),
        name: name.map(|s| s.to_string()),
        arguments: args.map(|s| s.to_string()),
    }
}

#[test]
fn messages_have_their_roles() {
    let m = Message::user("u");
    assert_eq!((m.role.as_str(), m.content.as_deref()), ("user", Some("u")));
    let m = Message::system("s");
    assert_eq!((m.role.as_str(), m.content.as_deref()), ("system", Some("s")));
    let m = Message::tool("id", "out");
    assert_eq!((m.role.as_str(), m.content.as_deref()), ("tool", Some("out")));
    assert_eq!(m.tool_call_id.as_deref(), Some("id"));
    let m = Message::assistant(None, None);
    assert_eq!((m.role.as_str(), m.content), ("assistant", None));
}

#[test]
fn messages_are_written_as_json() {
    let m = Message::assistant(
        None,
        Some(vec![MessageToolCall {
            id: "1".to_string(),
            call_type: "function".to_string(),
            function: FunctionCallSerde {
                name: "n".to_string(),
                arguments: "{\"a\":\"\\\\\u{8}\u{c}\t\r\u{1f}\"}".to_string(),
            },
        }]),
    );
    assert_eq!(
        m.to_json(),
        "{\"role\":\"assistant\",\"content\":null,\"tool_calls\":[{\"id\":\"1\",\"type\":\"function\",\"function\":{\"name\":\"n\",\"arguments\":\"{\\\"a\\\":\\\"\\\\\\\\\\b\\f\\t\\r\\u001f\\\"}\"}}]}"
    );
    let copy = m.clone();
    assert_eq!(copy.to_json(), m.to_json());
}

#[test]
fn settings_have_defaults() {
    let c = LlmConfig::from_env(None, None, None, None);
    assert_eq!(c.base_url, "http://localhost:8080/v1");
    assert_eq!(c.api_key, "sk-no-key-required");
    assert_eq!(c.model, "any-model-name");
    assert_eq!(c.max_tokens, 32768);
    let s = |s: &str| Some(s.to_string());
    let c = LlmConfig::from_env(s("u"), s("k"), s("m"), s("100"));
    assert_eq!(
        (c.base_url.as_str(), c.api_key.as_str(), c.model.as_str(), c.max_tokens),
        ("u", "k", "m", 100)
    );
    assert_eq!(LlmConfig::from_env(None, None, None, s("many")).max_tokens, 32768);
}

#[test]
fn numbers_are_read_as_the_standard_library_reads_them() {
    let cases = [
        "", "0", "+", "-", "-1", "+7", "007", "4294967295", "4294967296", "99999999999", "1 ",
        " 1", "1a", "++1", "٣", "000000000000000000000001", "00000000000000000000099999999999",
    ];
    for s in cases {
        assert_eq!(parse_u32(s), s.parse::<u32>().ok());
    }
    for n in [0, 9, 10, 4095, u32::MAX] {
        assert_eq!(parse_u32(&decimal_text(n as u128)), Some(n));
    }
}

#[test]
fn a_missing_connection_is_found_anywhere_in_the_chain() {
    assert!(!is_connect_error(&[]));
    assert!(!is_connect_error(&[ErrorLink::Other, ErrorLink::Api { connect: false }]));
    assert!(is_connect_error(&[ErrorLink::Other, ErrorLink::Api { connect: true }]));
    assert!(is_connect_error(&[
        ErrorLink::Transport { connect: false },
        ErrorLink::Transport { connect: true },
    ]));
}

#[test]
fn three_attempts_are_made() {
    match retry_step(0, false, "u", "boom") {
        RetryStep::Retry { notice, seconds } => {
            assert_eq!(notice, "\x1b[31m[LLM retry 1] boom\x1b[0m");
            assert_eq!(seconds, 2);
        }
        _ => panic!("another attempt"),
    }
    match retry_step(1, false, "u", "boom") {
        RetryStep::Retry { notice, .. } => {
            assert_eq!(notice, "\x1b[31m[LLM retry 2] boom\x1b[0m");
        }
        _ => panic!("another attempt"),
    }
    assert!(matches!(retry_step(2, false, "u", "boom"), RetryStep::Fail));
    match retry_step(0, true, "http://x", "refused") {
        RetryStep::Abort(s) => assert_eq!(
            s,
            "\n\x1b[31;1m[Error] llama-server に接続できません: http://x\x1b[0m\nllama-server が起動しているか確認してください:\n  ./apps/scripts/start-llama-server.sh\n"
        ),
        _ => panic!("the end"),
    }
}

#[test]
fn finish_reasons_are_written_as_servers_write_them() {
    let cases = [
        ("stop", "stop"),
        ("toolcalls", "tool_calls"),
        ("length", "length"),
        ("contentfilter", "content_filter"),
        ("functioncall", "function_call"),
        ("other", "other"),
    ];
    for (a, b) in cases {
        assert_eq!(normalize_reason(a), b);
    }
}

#[test]
fn a_text_reply_is_put_together_and_shown() {
    let mut s = StreamState::new();
    assert_eq!(s.absorb(&delta(Some("Hel"))), Some("Hel".to_string()));
    assert_eq!(s.absorb(&delta(Some(""))), None);
    assert_eq!(s.absorb(&delta(None)), None);
    let last = ChoiceDelta {
        finish_reason: Some("ContentFilter".to_string()),
        content: Some("lo".to_string()),
        tool_calls: None,
    };
    assert_eq!(s.absorb(&last), Some("lo".to_string()));
    let (r, warnings, printed) = s.finish();
    assert_eq!(r.content.as_deref(), Some("Hello"));
    assert!(r.tool_calls.is_none());
    assert_eq!(r.finish_reason, "content_filter");
    assert!(warnings.is_empty() && printed);
}

#[test]
fn text_behind_tool_calls_is_kept_but_not_shown() {
    let mut s = StreamState::new();
    let both = ChoiceDelta {
        finish_reason: None,
        content: Some("a".to_string()),
        tool_calls: Some(vec![
            fragment(0, Some("x"), Some("bash"), Some("{\"command\":")),
            fragment(1, None, Some("read_file"), None),
            fragment(0, None, None, Some("\"ls\"}")),
        ]),
    };
    assert_eq!(s.absorb(&both), Some("a".to_string()));
    assert_eq!(s.absorb(&delta(Some("b"))), None);
    let end = ChoiceDelta {
        finish_reason: Some("ToolCalls".to_string()),
        content: None,
        tool_calls: None,
    };
    s.absorb(&end);
    let (r, _, printed) = s.finish();
    assert!(printed);
    assert_eq!(r.content.as_deref(), Some("ab"));
    assert_eq!(r.finish_reason, "tool_calls");
    let calls = r.tool_calls.unwrap();
    assert_eq!((calls[0].id.as_str(), calls[0].name.as_str()), ("x", "bash"));
    assert_eq!(calls[0].arguments.text_or("command", ""), "ls");
    assert_eq!((calls[1].id.as_str(), calls[1].name.as_str()), ("call_1", "read_file"));
}

#[test]
fn an_empty_reply_stops() {
    let (r, warnings, printed) = StreamState::new().finish();
    assert!(r.content.is_none() && r.tool_calls.is_none());
    assert_eq!(r.finish_reason, "stop");
    assert!(warnings.is_empty() && !printed);
    // An empty list of calls keeps later text from being shown.
    let mut s = StreamState::new();
    s.absorb(&ChoiceDelta { finish_reason: None, content: None, tool_calls: Some(vec![]) });
    assert_eq!(s.absorb(&delta(Some("x"))), None);
    let (r, _, _) = s.finish();
    assert!(r.tool_calls.is_none());
    assert_eq!(r.content.as_deref(), Some("x"));
}

#[test]
fn summaries_are_asked_for_and_taken() {
    assert_eq!(
        summary_prompt("[]"),
        "Summarize the following conversation for continuity:\n\n[]"
    );
    assert_eq!(summary_text(&[]), "(empty summary)");
    assert_eq!(summary_text(&[None, Some("b".to_string())]), "(empty summary)");
    assert_eq!(summary_text(&[Some("a".to_string()), Some("b".to_string())]), "a");
}

#[test]
fn messages_take_the_form_of_requests() {
    match to_openai_message(&Message::system("s")) {
        Ok(RequestMessage::System { content }) => assert_eq!(content, "s"),
        _ => panic!("a system message"),
    }
    match to_openai_message(&Message::user("u")) {
        Ok(RequestMessage::User { content }) => assert_eq!(content, "u"),
        _ => panic!("a user message"),
    }
    match to_openai_message(&Message::tool("i", "o")) {
        Ok(RequestMessage::Tool { content, tool_call_id }) => {
            assert_eq!((content.as_str(), tool_call_id.as_str()), ("o", "i"));
        }
        _ => panic!("a result"),
    }
    let calls = vec![MessageToolCall {
        id: "i".to_string(),
        call_type: "function".to_string(),
        function: FunctionCallSerde { name: "n".to_string(), arguments: "{}".to_string() },
    }];
    match to_openai_message(&Message::assistant(None, Some(calls))) {
        Ok(RequestMessage::Assistant { content, tool_calls }) => {
            assert_eq!(content, "");
            let c = &tool_calls.unwrap()[0];
            assert_eq!(
                (c.id.as_str(), c.name.as_str(), c.arguments.as_str()),
                ("i", "n", "{}")
            );
        }
        _ => panic!("a reply"),
    }
}

#[test]
fn other_roles_are_refused() {
    let mut odd = Message::user("x");
    odd.role = "critic".to_string();
    assert_eq!(
        to_openai_message(&odd).unwrap_err(),
        "unsupported message role: critic"
    );
    let mut other = Message::user("y");
    other.role = "robot".to_string();
    assert_eq!(
        to_openai_messages(&[Message::user("a"), odd, other]).unwrap_err(),
        "unsupported message role: critic"
    );
    assert_eq!(to_openai_messages(&[Message::user("a")]).unwrap().len(), 1);
}
