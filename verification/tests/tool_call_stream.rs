use local_agent::json::Json;
use local_agent::tool_call_stream::{settle_call, StreamingToolCallAccumulator};

#[test]
fn merges_chunks_by_index() {
    let mut acc = StreamingToolCallAccumulator::new();
    acc.ingest(0, Some("call_abc"), Some("bash"), Some("{\"comm"));
    acc.ingest(0, None, None, Some("and\":\"ls\"}"));
    let out = acc.finalize().unwrap();
    assert_eq!(out.len(), 1);
    assert_eq!(out[0].id, "call_abc");
    assert_eq!(out[0].name, "bash");
    assert_eq!(out[0].arguments.get("command"), Some(&Json::Text("ls".to_string())));
}

#[test]
fn synthesizes_id_when_missing() {
    let mut acc = StreamingToolCallAccumulator::new();
    acc.ingest(0, None, Some("bash"), Some("{}"));
    let out = acc.finalize().unwrap();
    assert_eq!(out[0].id, "call_0");
}

#[test]
fn parallel_calls_keep_separate_indices() {
    let mut acc = StreamingToolCallAccumulator::new();
    acc.ingest(0, Some("a"), Some("read_file"), Some("{\"path\":\"a\"}"));
    acc.ingest(1, Some("b"), Some("read_file"), Some("{\"path\":\"b\"}"));
    let out = acc.finalize().unwrap();
    assert_eq!(out.len(), 2);
    assert_eq!(out[0].arguments.get("path"), Some(&Json::Text("a".to_string())));
    assert_eq!(out[1].arguments.get("path"), Some(&Json::Text("b".to_string())));
}

#[test]
fn malformed_arguments_become_empty_object() {
    let mut acc = StreamingToolCallAccumulator::new();
    acc.ingest(0, Some("x"), Some("bash"), Some("{not json"));
    let out = acc.finalize().unwrap();
    assert_eq!(out[0].arguments, Json::Object(vec![]));
}

#[test]
fn out_of_order_indices_grow_slots() {
    let mut acc = StreamingToolCallAccumulator::new();
    acc.ingest(2, Some("c"), Some("bash"), Some("{}"));
    let out = acc.finalize().unwrap();
    assert_eq!(out.len(), 3);
    assert_eq!(out[2].id, "c");
    assert_eq!(out[2].name, "bash");
    assert_eq!((out[0].id.as_str(), out[0].name.as_str()), ("call_0", ""));
    assert_eq!((out[1].id.as_str(), out[1].name.as_str()), ("call_1", ""));
    assert_eq!(out[0].arguments, Json::Object(vec![]));
}

#[test]
fn nothing_comes_of_nothing() {
    assert!(StreamingToolCallAccumulator::default().finalize().is_none());
    let (calls, warnings) = StreamingToolCallAccumulator::new().finalize_with_warnings();
    assert!(calls.is_none() && warnings.is_empty());
}

#[test]
fn the_first_id_and_name_stay() {
    let mut acc = StreamingToolCallAccumulator::new();
    acc.ingest(0, Some(""), Some(""), None);
    acc.ingest(0, Some("a"), Some("n"), None);
    acc.ingest(0, Some("b"), Some("m"), Some("1"));
    let out = acc.finalize().unwrap();
    assert_eq!((out[0].id.as_str(), out[0].name.as_str()), ("a", "n"));
}

#[test]
fn fragments_of_different_calls_may_be_interleaved() {
    let mut one = StreamingToolCallAccumulator::new();
    one.ingest(0, Some("a"), Some("x"), Some("[1,"));
    one.ingest(1, Some("b"), Some("y"), Some("[2]"));
    one.ingest(0, None, None, Some("3]"));
    let mut other = StreamingToolCallAccumulator::new();
    other.ingest(1, Some("b"), Some("y"), Some("[2]"));
    other.ingest(0, Some("a"), Some("x"), Some("[1,3]"));
    let a = one.finalize().unwrap();
    let b = other.finalize().unwrap();
    assert_eq!(a.len(), b.len());
    for i in 0..2 {
        assert_eq!(a[i].id, b[i].id);
        assert_eq!(a[i].name, b[i].name);
        assert_eq!(a[i].arguments, b[i].arguments);
    }
}

#[test]
fn unreadable_arguments_are_warned_about() {
    let mut acc = StreamingToolCallAccumulator::new();
    acc.ingest(0, Some("x"), Some("bash"), Some("{not json"));
    acc.ingest(1, Some("y"), Some("read_file"), Some("{}"));
    let (calls, warnings) = acc.finalize_with_warnings();
    assert_eq!(calls.unwrap().len(), 2);
    assert_eq!(
        warnings,
        vec!["\x1b[33m[warn] tool 'bash' arguments not valid JSON (key must be a string at line 1 column 2); using empty object\x1b[0m"]
    );
}

#[test]
fn a_call_is_settled_by_what_came_of_its_arguments() {
    let (call, note) = settle_call(7, String::new(), "t".to_string(), None);
    assert_eq!((call.id.as_str(), call.arguments), ("call_7", Json::Object(vec![])));
    assert!(note.is_none());
    let read = Some(Ok(Json::Bool(true)));
    let (call, note) = settle_call(0, "i".to_string(), "t".to_string(), read);
    assert_eq!((call.id.as_str(), call.arguments), ("i", Json::Bool(true)));
    assert!(note.is_none());
    let failed = Some(Err("why".to_string()));
    let (call, note) = settle_call(0, "i".to_string(), "t".to_string(), failed);
    assert_eq!(call.arguments, Json::Object(vec![]));
    assert_eq!(
        note.unwrap(),
        "\x1b[33m[warn] tool 't' arguments not valid JSON (why); using empty object\x1b[0m"
    );
}

#[test]
fn an_empty_fragment_changes_nothing() {
    let mut acc = StreamingToolCallAccumulator::new();
    acc.ingest(0, Some("a"), Some("n"), Some("[1]"));
    acc.ingest(0, None, None, None);
    let out = acc.finalize().unwrap();
    assert_eq!(out.len(), 1);
    assert_eq!((out[0].id.as_str(), out[0].name.as_str()), ("a", "n"));
    assert_eq!(out[0].arguments.to_text().unwrap(), "[1]");
}
