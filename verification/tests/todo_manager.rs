use local_agent::json::Json;
use local_agent::todo_manager::{
    check_items, handle_todo_write, todo_tool_definition, TodoItem, TodoManager,
};

fn json(text: &str) -> Json {
    Json::parse(text).unwrap()
}

fn item(content: &str, status: &str) -> TodoItem {
    TodoItem { content: content.to_string(), status: status.to_string() }
}

#[test]
fn a_list_is_replaced_and_shown() {
    let mut todo = TodoManager::new();
    assert_eq!(todo.render(), "No todos.");
    let shown = todo
        .update(&json(
            "[{\"content\":\" read \",\"status\":\"Completed\"},{\"content\":\"write\",\"status\":\"IN_PROGRESS\"},{\"content\":\"test\"}]",
        ))
        .unwrap();
    assert_eq!(shown, "[x] read\n[>] write\n[ ] test\n\n(1/3 completed)");
    assert_eq!(todo.render(), shown);
    assert!(todo.has_open_items());
    let shown = todo.update(&json("[{\"content\":\"a\",\"status\":\"completed\"}]")).unwrap();
    assert_eq!(shown, "[x] a\n\n(1/1 completed)");
    assert!(!todo.has_open_items());
    assert_eq!(todo.update(&json("[]")).unwrap(), "No todos.");
    assert!(!todo.has_open_items());
}

#[test]
fn a_list_that_is_turned_down_changes_nothing() {
    let mut todo = TodoManager::new();
    todo.update(&json("[{\"content\":\"keep\"}]")).unwrap();
    let cases = [
        ("{}", "items must be an array"),
        ("[{\"content\":\"a\"},{\"content\":\"  \"}]", "Item 1: content required"),
        ("[{\"status\":\"pending\"}]", "Item 0: content required"),
        ("[5]", "Item 0: content required"),
        (
            "[{\"content\":\"a\",\"status\":\"Done\"}]",
            "Item 0: invalid status 'done'",
        ),
        (
            "[{\"content\":\"a\",\"status\":\"in_progress\"},{\"content\":\"b\",\"status\":\"in_progress\"}]",
            "Only one in_progress item allowed at a time",
        ),
    ];
    for (text, error) in cases {
        assert_eq!(todo.update(&json(text)).unwrap_err(), error);
        assert_eq!(todo.render(), "[ ] keep\n\n(0/1 completed)");
    }
    let many = format!("[{}]", vec!["{\"content\":\"x\"}"; 21].join(","));
    assert_eq!(todo.update(&json(&many)).unwrap_err(), "Max 20 todos");
    let twenty = format!("[{}]", vec!["{\"content\":\"x\"}"; 20].join(","));
    assert!(todo.update(&json(&twenty)).is_ok());
}

#[test]
fn a_faulty_item_counts_before_the_length() {
    let mut items: Vec<TodoItem> = (0..21).map(|_| item("x", "in_progress")).collect();
    assert_eq!(check_items(&items).unwrap(), "Max 20 todos");
    items[20].status = "later".to_string();
    assert_eq!(check_items(&items).unwrap(), "Item 20: invalid status 'later'");
    items[3].content = String::new();
    assert_eq!(check_items(&items).unwrap(), "Item 3: content required");
    assert!(check_items(&vec![item("a", "pending")]).is_none());
}

#[test]
fn items_are_replaced_directly() {
    let mut todo = TodoManager::new();
    assert_eq!(
        todo.replace(vec![item("a", "pending")]).unwrap(),
        "[ ] a\n\n(0/1 completed)"
    );
    assert_eq!(
        todo.replace(vec![item("", "pending")]).unwrap_err(),
        "Item 0: content required"
    );
    assert_eq!(todo.render(), "[ ] a\n\n(0/1 completed)");
}

#[test]
fn the_tool_answers_with_the_list_or_an_error() {
    let mut todo = TodoManager::new();
    assert_eq!(
        handle_todo_write(&mut todo, &json("{\"items\":[{\"content\":\"a\"}]}")),
        "[ ] a\n\n(0/1 completed)"
    );
    assert_eq!(
        handle_todo_write(&mut todo, &json("{}")),
        "Error: items must be an array"
    );
    assert_eq!(
        handle_todo_write(&mut todo, &Json::Null),
        "Error: items must be an array"
    );
    assert_eq!(todo.render(), "[ ] a\n\n(0/1 completed)");
}

#[test]
fn the_todo_tool_is_defined() {
    assert_eq!(
        todo_tool_definition().to_text().unwrap(),
        "{\"function\":{\"description\":\"Create or update a structured task tracking list. Send the FULL list each time (not just changes). Only one item can be in_progress at a time.\",\"name\":\"todo_write\",\"parameters\":{\"properties\":{\"items\":{\"description\":\"Complete list of todo items.\",\"items\":{\"properties\":{\"content\":{\"description\":\"Task description.\",\"type\":\"string\"},\"status\":{\"description\":\"Task status.\",\"enum\":[\"pending\",\"in_progress\",\"completed\"],\"type\":\"string\"}},\"required\":[\"content\",\"status\"],\"type\":\"object\"},\"type\":\"array\"}},\"required\":[\"items\"],\"type\":\"object\"}},\"type\":\"function\"}"
    );
}
