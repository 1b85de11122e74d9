use local_agent::json::Json;
use local_agent::listing::{sort_entries, DirEntry, Walk};
use local_agent::paths::{path_starts_with, safe_path, same_path, PathComponent, PathFacts};
use local_agent::tools::{
    command_output, count_occurrences, dispatch_tool, merged_output, read_lines, replace_first,
    run_bash, run_edit_file, run_grep_search, run_list_directory, run_read_file, run_write_file,
    tool_definitions, ToolEvent, ToolOutput, ToolRequest, ToolStep, ToolTask, OUTPUT_LIMIT,
};

fn path(names: &[&str]) -> Vec<PathComponent> {
    let mut out = vec![PathComponent::RootDir];
    for n in names {
        out.push(PathComponent::Normal(n.as_bytes().to_vec()));
    }
    out
}

fn inside() -> ToolEvent {
    ToolEvent::Resolved {
        facts: PathFacts {
            exists: true,
            resolved: path(&["w", "f"]),
            parent: Some(path(&["w"])),
            workdir: path(&["w"]),
        },
        shown: "/w/f".to_string(),
    }
}

fn outside() -> ToolEvent {
    ToolEvent::Resolved {
        facts: PathFacts {
            exists: true,
            resolved: path(&["etc", "passwd"]),
            parent: Some(path(&["etc"])),
            workdir: path(&["w"]),
        },
        shown: "/etc/passwd".to_string(),
    }
}

fn ask(step: ToolStep) -> (ToolRequest, ToolTask) {
    match step {
        ToolStep::Ask { request, task } => (request, task),
        ToolStep::Done(o) => panic!("done with {:?}", o),
    }
}

fn done(step: ToolStep) -> String {
    match step {
        ToolStep::Done(o) => {
            assert!(o.can_finish());
            o.finish()
        }
        ToolStep::Ask { request, .. } => panic!("asks for {:?}", request),
    }
}

fn go(task: ToolTask, event: ToolEvent) -> ToolStep {
    assert!(task.fits(&event));
    task.advance(event)
}

fn run_of(request: &ToolRequest) -> (&str, Vec<&str>) {
    match request {
        ToolRequest::Run(p) => (&p.program, p.args.iter().map(|a| a.as_str()).collect()),
        other => panic!("asks for {:?}", other),
    }
}

fn entry(name: &str, dir: bool, size: u64, id: u64) -> DirEntry {
    DirEntry {
        name: name.as_bytes().to_vec(),
        listed_dir: dir,
        is_dir: dir,
        label: name.to_string(),
        size,
        id,
    }
}

#[test]
fn dangerous_commands_are_blocked() {
    let cases = [
        "rm -rf /",
        "cd x && rm -rf ~/y",
        "sudo rm x",
        "shutdown now",
        "sleep 1; reboot",
        "echo x > /dev/sda",
        "mkfs.ext4 /dev/sda",
    ];
    for c in cases {
        assert_eq!(done(run_bash(c)), "Error: Dangerous command blocked");
    }
    let (request, _) = ask(run_bash("rm -r x"));
    assert_eq!(run_of(&request), ("sh", vec!["-c", "rm -r x"]));
}

#[test]
fn commands_give_their_output() {
    let start = || ask(run_bash("ls")).1;
    assert_eq!(done(go(start(), ToolEvent::Ran(Ok("a".to_string())))), "a");
    assert_eq!(done(go(start(), ToolEvent::Ran(Ok(String::new())))), "(no output)");
    assert_eq!(done(go(start(), ToolEvent::Ran(Err("no sh".to_string())))), "Error: no sh");
    let long = "x".repeat(OUTPUT_LIMIT + 1);
    assert_eq!(done(go(start(), ToolEvent::Ran(Ok(long)))), "x".repeat(50000));
    let exact = "x".repeat(OUTPUT_LIMIT);
    assert_eq!(done(go(start(), ToolEvent::Ran(Ok(exact.clone())))), exact);
}

#[test]
fn both_channels_are_decoded_and_trimmed() {
    assert_eq!(command_output(b"  out\n", b"err\n\n"), "out\nerr");
    assert_eq!(command_output("é".as_bytes(), b""), "é");
    assert_eq!(command_output(&[b'a', 0xff, b'b'], b"\n"), "a\u{fffd}b");
    assert_eq!(command_output(b" \n", b"\t"), "");
    assert_eq!(merged_output("\u{3000}a ", " b\r\n"), "a  b");
}

#[test]
fn an_output_with_a_character_across_the_limit_cannot_be_cut() {
    let o = ToolOutput {
        text: format!("x{}", "é".repeat(25000)),
        limited: true,
        note: String::new(),
        suffix: String::new(),
    };
    assert!(!o.can_finish());
    let o = ToolOutput {
        text: "é".repeat(25001),
        limited: true,
        note: "!".to_string(),
        suffix: "?".to_string(),
    };
    assert!(o.can_finish());
    assert_eq!(o.finish(), format!("{}!?", "é".repeat(25000)));
}

#[test]
fn paths_must_lie_in_the_workspace() {
    assert!(path_starts_with(&path(&["w", "a"]), &path(&["w"])));
    assert!(path_starts_with(&path(&["w"]), &path(&["w"])));
    assert!(!path_starts_with(&path(&["wx"]), &path(&["w"])));
    assert!(!path_starts_with(&path(&[]), &path(&["w"])));
    assert!(same_path(&path(&["w"]), &path(&["w"])));
    assert!(!same_path(&path(&["w", "a"]), &path(&["w"])));
    let facts = |exists: bool, at: &[&str], parent: Option<&[&str]>| PathFacts {
        exists,
        resolved: path(at),
        parent: parent.map(path),
        workdir: path(&["w"]),
    };
    assert_eq!(safe_path(&facts(true, &["w", "f"], Some(&["w"])), "f"), Ok(()));
    assert_eq!(
        safe_path(&facts(true, &["x"], Some(&["w"])), "../x"),
        Err("Path escapes workspace: ../x".to_string())
    );
    // What does not exist yet is judged by the directory that would hold it.
    assert_eq!(safe_path(&facts(false, &["x", "y"], Some(&["w", "d"])), "d/y"), Ok(()));
    assert_eq!(
        safe_path(&facts(false, &["w", "y"], Some(&["x"])), "y"),
        Err("Path escapes workspace: y".to_string())
    );
    assert_eq!(safe_path(&facts(false, &[], None), "/"), Ok(()));
}

#[test]
fn no_tool_touches_a_path_outside() {
    let starts = [
        run_read_file("p", 0, 0),
        run_write_file("p", "c"),
        run_edit_file("p", "a", "b"),
        run_list_directory("p", 1),
        run_grep_search("x", "p", ""),
    ];
    for s in starts {
        let (request, task) = ask(s);
        match request {
            ToolRequest::Resolve { path } => assert_eq!(path, "p"),
            other => panic!("asks for {:?}", other),
        }
        assert_eq!(done(go(task, outside())), "Error: Path escapes workspace: p");
    }
}

#[test]
fn files_are_read_with_line_numbers() {
    let text = "one\ntwo\r\nthree\n\nfive";
    let all = "   1  one\n   2  two\n   3  three\n   4  \n   5  five";
    assert_eq!(read_lines(text, 0, 0).finish(), all);
    assert_eq!(read_lines(text, 1, 0).finish(), all);
    assert_eq!(read_lines(text, 0, 9).finish(), all);
    assert_eq!(
        read_lines(text, 2, 2).finish(),
        "   2  two\n   3  three\n[5 lines total]"
    );
    assert_eq!(read_lines(text, 5, 0).finish(), "   5  five\n[5 lines total]");
    assert_eq!(read_lines(text, 6, 0).finish(), "\n[5 lines total]");
    assert_eq!(read_lines(text, usize::MAX, usize::MAX).finish(), "\n[5 lines total]");
    assert_eq!(read_lines("", 0, 0).finish(), "");
    let many = "x\n".repeat(12345);
    assert_eq!(
        read_lines(&many, 9999, 2).finish(),
        "9999  x\n10000  x\n[12345 lines total]"
    );
}

#[test]
fn long_files_are_truncated() {
    let text = "y".repeat(60000);
    let out = read_lines(&text, 0, 0).finish();
    assert_eq!(out, format!("   1  {}\n... (truncated)", "y".repeat(49994)));
    let two = format!("{}\nz", text);
    let out = read_lines(&two, 0, 1).finish();
    assert!(out.ends_with("\n... (truncated)\n[2 lines total]"));
}

#[test]
fn reading_goes_through_the_path_and_the_file() {
    let start = || {
        let (_, task) = ask(run_read_file("f", 0, 0));
        let (request, task) = ask(go(task, inside()));
        assert!(matches!(request, ToolRequest::ReadText));
        task
    };
    assert_eq!(done(go(start(), ToolEvent::Text(Ok("a".to_string())))), "   1  a");
    assert_eq!(
        done(go(start(), ToolEvent::Text(Err("gone".to_string())))),
        "Error: gone"
    );
}

#[test]
fn writing_makes_the_directory_first() {
    let start = || {
        let (_, task) = ask(run_write_file("d/f", "héllo"));
        let (request, task) = ask(go(task, inside()));
        assert!(matches!(request, ToolRequest::CreateParent));
        task
    };
    let (request, task) = ask(go(start(), ToolEvent::Done(Ok(()))));
    match request {
        ToolRequest::WriteText { content } => assert_eq!(content, "héllo"),
        other => panic!("asks for {:?}", other),
    }
    assert_eq!(done(go(task, ToolEvent::Done(Ok(())))), "Wrote 6 bytes to d/f");
    assert_eq!(
        done(go(start(), ToolEvent::Done(Err("full".to_string())))),
        "Error: full"
    );
    let (_, task) = ask(go(start(), ToolEvent::Done(Ok(()))));
    assert_eq!(
        done(go(task, ToolEvent::Done(Err("full".to_string())))),
        "Error: full"
    );
}

#[test]
fn the_first_occurrence_is_replaced() {
    let cases = [
        ("abcabc", "b", "X"),
        ("aaa", "aa", "b"),
        ("héé", "é", ""),
        ("abc", "", ">"),
        ("", "", "x"),
        ("aab", "ab", "c"),
    ];
    for (s, a, b) in cases {
        assert_eq!(replace_first(s, a, b), Some(s.replacen(a, b, 1)));
        assert_eq!(count_occurrences(s, a), s.matches(a).count() as u128);
    }
    assert_eq!(replace_first("abc", "d", "x"), None);
    assert_eq!(replace_first("a", "ab", "x"), None);
    assert_eq!(count_occurrences("abc", "d"), 0);
}

#[test]
fn edits_replace_text_or_say_why_not() {
    let start = |old: &str| {
        let (_, task) = ask(run_edit_file("f", old, "Z"));
        let (request, task) = ask(go(task, inside()));
        assert!(matches!(request, ToolRequest::ReadText));
        task
    };
    let text = |s: &str| ToolEvent::Text(Ok(s.to_string()));
    let (request, task) = ask(go(start("b"), text("abcb")));
    match request {
        ToolRequest::WriteText { content } => assert_eq!(content, "aZcb"),
        other => panic!("asks for {:?}", other),
    }
    assert_eq!(
        done(go(task, ToolEvent::Done(Ok(())))),
        "Edited f (1 of 2 occurrences replaced)"
    );
    let (_, task) = ask(go(start("c"), text("abcb")));
    assert_eq!(done(go(task, ToolEvent::Done(Ok(())))), "Edited f");
    let (_, task) = ask(go(start("c"), text("abcb")));
    assert_eq!(
        done(go(task, ToolEvent::Done(Err("read-only".to_string())))),
        "Error: read-only"
    );
    assert_eq!(done(go(start("x"), text("abcb"))), "Error: Text not found in f");
    assert_eq!(
        done(go(start("x"), ToolEvent::Text(Err("gone".to_string())))),
        "Error: gone"
    );
}

#[test]
fn searches_use_ripgrep_and_fall_back_to_grep() {
    let start = |glob: &str| {
        let (_, task) = ask(run_grep_search("fn", "src", glob));
        ask(go(task, inside()))
    };
    let (request, task) = start("");
    assert_eq!(
        run_of(&request),
        ("rg", vec!["--no-heading", "--line-number", "--color=never", "-m", "50", "fn", "/w/f"])
    );
    assert_eq!(done(go(task, ToolEvent::Ran(Ok(String::new())))), "(no matches)");
    let (request, task) = start("*.rs");
    assert_eq!(
        run_of(&request),
        (
            "rg",
            vec![
                "--no-heading", "--line-number", "--color=never", "-m", "50", "-g", "*.rs", "fn",
                "/w/f"
            ]
        )
    );
    let (request, task) = ask(go(task, ToolEvent::Ran(Err("no rg".to_string()))));
    assert_eq!(
        run_of(&request),
        ("grep", vec!["-rn", "--color=never", "--include", "*.rs", "fn", "/w/f"])
    );
    let many: Vec<String> = (0..60).map(|i| format!("l{}", i)).collect();
    assert_eq!(
        done(go(task, ToolEvent::Ran(Ok(many.join("\n"))))),
        many[..50].join("\n")
    );
    let (_, task) = start("");
    let (request, task) = ask(go(task, ToolEvent::Ran(Err("no rg".to_string()))));
    assert_eq!(run_of(&request), ("grep", vec!["-rn", "--color=never", "fn", "/w/f"]));
    assert_eq!(done(go(task, ToolEvent::Ran(Ok(String::new())))), "(no matches)");
    let (_, task) = start("");
    let (_, task) = ask(go(task, ToolEvent::Ran(Err("no rg".to_string()))));
    assert_eq!(
        done(go(task, ToolEvent::Ran(Err("no grep".to_string())))),
        "Error: no grep"
    );
}

#[test]
fn directories_come_first_and_case_does_not_count() {
    let sorted = sort_entries(vec![
        entry("b.txt", false, 1, 1),
        entry("Zoo", true, 0, 2),
        entry("A.txt", false, 2, 3),
        entry("alpha", true, 0, 4),
        entry("a.TXT", false, 3, 5),
        entry("a", false, 4, 6),
    ]);
    let ids: Vec<u64> = sorted.iter().map(|e| e.id).collect();
    // "A.txt" and "a.TXT" stay in the order in which they came.
    assert_eq!(ids, vec![4, 2, 6, 3, 5, 1]);
}

#[test]
fn a_tree_is_listed_to_its_depth() {
    let mut walk = Walk::new(0, 1);
    assert_eq!(walk.pending(), Some(0));
    walk = walk.feed(Some(vec![
        entry("x.txt", false, 12, 9),
        entry(".git", true, 0, 8),
        entry("sub", true, 0, 7),
        entry("empty", true, 0, 6),
    ]));
    assert_eq!(walk.pending(), Some(6));
    walk = walk.feed(None);
    assert_eq!(walk.pending(), Some(7));
    walk = walk.feed(Some(vec![entry("deep", true, 0, 5), entry("y", false, 3, 4)]));
    assert_eq!(walk.pending(), None);
    assert_eq!(
        walk.text(),
        "empty/\nsub/\n  deep/\n  y  (3 bytes)\nx.txt  (12 bytes)"
    );
}

#[test]
fn listings_say_what_is_no_directory_and_what_is_empty() {
    let start = || {
        let (_, task) = ask(run_list_directory("d", 0));
        let (request, task) = ask(go(task, inside()));
        assert!(matches!(request, ToolRequest::CheckDirectory));
        task
    };
    assert_eq!(
        done(go(start(), ToolEvent::Directory(false))),
        "Error: d is not a directory"
    );
    let (request, task) = ask(go(start(), ToolEvent::Directory(true)));
    assert!(matches!(request, ToolRequest::ListDirectory { id: 0 }));
    assert_eq!(
        done(go(task, ToolEvent::Listing(Some(vec![entry(".h", false, 1, 1)])))),
        "(empty directory)"
    );
    // At depth zero directories are shown and not entered.
    let (_, task) = ask(go(start(), ToolEvent::Directory(true)));
    assert_eq!(
        done(go(task, ToolEvent::Listing(Some(vec![entry("s", true, 0, 1)])))),
        "s/"
    );
    let (_, task) = ask(go(start(), ToolEvent::Directory(true)));
    assert_eq!(done(go(task, ToolEvent::Listing(None))), "(empty directory)");
}

#[test]
fn events_must_answer_the_request() {
    let (_, task) = ask(run_bash("ls"));
    assert!(!task.fits(&ToolEvent::Directory(true)));
    assert!(!task.fits(&ToolEvent::Text(Ok(String::new()))));
    assert!(task.fits(&ToolEvent::Ran(Ok(String::new()))));
    let (_, task) = ask(run_read_file("f", 0, 0));
    assert!(!task.fits(&ToolEvent::Ran(Ok(String::new()))));
    assert!(task.fits(&inside()));
}

#[test]
fn tools_begin_by_name_with_defaults() {
    let json = |s: &str| Json::parse(s).unwrap();
    let (request, _) = ask(dispatch_tool("bash", &json("{\"command\":\"pwd\"}")));
    assert_eq!(run_of(&request), ("sh", vec!["-c", "pwd"]));
    match ask(dispatch_tool("read_file", &json("{\"path\":\"a\",\"offset\":2,\"limit\":3}"))).1 {
        ToolTask::ReadPath { path, offset, limit } => {
            assert_eq!((path.as_str(), offset, limit), ("a", 2, 3));
        }
        other => panic!("{:?}", other),
    }
    match ask(dispatch_tool("read_file", &json("{\"offset\":-2,\"limit\":\"3\"}"))).1 {
        ToolTask::ReadPath { path, offset, limit } => {
            assert_eq!((path.as_str(), offset, limit), ("", 0, 0));
        }
        other => panic!("{:?}", other),
    }
    match ask(dispatch_tool("write_file", &json("{\"path\":\"a\",\"content\":\"c\"}"))).1 {
        ToolTask::WritePath { path, content } => {
            assert_eq!((path.as_str(), content.as_str()), ("a", "c"));
        }
        other => panic!("{:?}", other),
    }
    let edit = json("{\"path\":\"a\",\"old_text\":\"o\",\"new_text\":\"n\"}");
    match ask(dispatch_tool("edit_file", &edit)).1 {
        ToolTask::EditPath { path, old_text, new_text } => assert_eq!(
            (path.as_str(), old_text.as_str(), new_text.as_str()),
            ("a", "o", "n")
        ),
        other => panic!("{:?}", other),
    }
    match ask(dispatch_tool("list_directory", &json("{}"))).1 {
        ToolTask::ListPath { path, max_depth } => {
            assert_eq!((path.as_str(), max_depth), (".", 2));
        }
        other => panic!("{:?}", other),
    }
    match ask(dispatch_tool("grep_search", &json("{\"pattern\":\"p\",\"include\":\"*.py\"}"))).1 {
        ToolTask::GrepPath { pattern, path, glob } => assert_eq!(
            (pattern.as_str(), path.as_str(), glob.as_str()),
            ("p", ".", "*.py")
        ),
        other => panic!("{:?}", other),
    }
    assert_eq!(
        done(dispatch_tool("format_disk", &Json::Null)),
        "Error: Unknown tool 'format_disk'"
    );
}

#[test]
fn the_tools_are_defined() {
    let defs = tool_definitions();
    let names: Vec<String> = defs
        .iter()
        .map(|d| d.get("function").unwrap().text_or("name", "").to_string())
        .collect();
    assert_eq!(
        names,
        vec!["bash", "read_file", "write_file", "edit_file", "list_directory", "grep_search"]
    );
    assert_eq!(
        defs[4].to_text().unwrap(),
        "{\"function\":{\"description\":\"List files and directories in a tree structure.\",\"name\":\"list_directory\",\"parameters\":{\"properties\":{\"max_depth\":{\"description\":\"Max depth to traverse (default: 2).\",\"type\":\"integer\"},\"path\":{\"description\":\"Directory path (default: workspace root).\",\"type\":\"string\"}},\"type\":\"object\"}},\"type\":\"function\"}"
    );
    assert_eq!(
        defs[5].to_text().unwrap(),
        "{\"function\":{\"description\":\"Search for a regex pattern in files using ripgrep. Returns matching lines with file paths and line numbers.\",\"name\":\"grep_search\",\"parameters\":{\"properties\":{\"include\":{\"description\":\"Glob filter, e.g. '*.py' (optional).\",\"type\":\"string\"},\"path\":{\"description\":\"Directory or file to search in (default: workspace root).\",\"type\":\"string\"},\"pattern\":{\"description\":\"Regex pattern to search for.\",\"type\":\"string\"}},\"required\":[\"pattern\"],\"type\":\"object\"}},\"type\":\"function\"}"
    );
    for d in &defs {
        assert_eq!(&Json::from_value(d.to_value()), d);
    }
}
