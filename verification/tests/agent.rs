use local_agent::agent::{
    all_tools, announcement, assistant_message, begin_call, finish_warning, format_args_summary,
    preview, system_prompt, with_system_prompt, CallStep,
};
use local_agent::json::Json;
use local_agent::llm_client::{
    to_openai_messages, CallFragment, ChatResult, ChoiceDelta, LlmConfig, Message, ParsedToolCall,
    StreamState,
};
use local_agent::repl::{
    banner, classify, is_kept, make_prompt, one_shot, react, read_command, toggle_plan,
    toggle_plan_by_key, Command, Reaction,
};
use local_agent::rounds::{AgentAction, AgentEvent, AgentRun, Line, Setting};
use local_agent::skills::{SkillDir, SkillEntry, SkillFile, SkillRegistry};
use local_agent::todo_manager::TodoManager;
use local_agent::tools::{ToolRequest, ToolStep};

fn json(s: &str) -> Json {
    Json::parse(s).unwrap()
}

fn no_skills() -> SkillRegistry {
    SkillRegistry::load(vec![]).0
}

fn one_skill() -> SkillRegistry {
    let file = SkillFile {
        name: "SKILL.md".to_string(),
        path: "p".to_string(),
        text: Ok("---\ndescription: d\n---\nbody".to_string()),
    };
    let entry = SkillEntry { is_dir: true, name: Some("s".to_string()), files: vec![file] };
    SkillRegistry::load(vec![SkillDir {
        path: "x".to_string(),
        is_dir: true,
        entries: Ok(vec![entry]),
    }])
    .0
}

fn call(name: &str, args: &str) -> ParsedToolCall {
    ParsedToolCall { id: "i".to_string(), name: name.to_string(), arguments: json(args) }
}

fn setting() -> Setting {
    Setting {
        workdir: "/w".to_string(),
        os: "linux".to_string(),
        windows: false,
        max_tokens: 64,
        context_tokens: 32768,
    }
}

/// A reply with tool calls, given as name and arguments.
fn reply(content: &str, calls: &[(&str, &str)]) -> StreamState {
    let mut s = StreamState::new();
    s.absorb(&ChoiceDelta {
        finish_reason: None,
        content: Some(content.to_string()),
        tool_calls: None,
    });
    if !calls.is_empty() {
        let fragments = calls
            .iter()
            .enumerate()
            .map(|(i, (name, args))| CallFragment {
                index: i as u32,
                id: Some(format!("id{}", i)),
                name: Some(name.to_string()),
                arguments: Some(args.to_string()),
            })
            .collect();
        s.absorb(&ChoiceDelta { finish_reason: None, content: None, tool_calls: Some(fragments) });
    }
    s
}

fn step(
    run: AgentRun,
    event: AgentEvent,
    skills: &SkillRegistry,
) -> (AgentRun, Vec<Line>, AgentAction) {
    assert!(run.accepts(&event));
    run.step(event, &setting(), skills)
}

fn plain(lines: &[Line]) -> Vec<&str> {
    lines
        .iter()
        .map(|l| match l {
            Line::Plain(s) => s.as_str(),
            Line::Warning(s) => panic!("a warning: {}", s),
        })
        .collect()
}

fn waiting(in_plan: bool, skills: &SkillRegistry, todo: TodoManager) -> AgentRun {
    let run = AgentRun::new(vec![Message::user("go")], todo);
    let (run, lines, action) = step(run, AgentEvent::Begin { in_plan, seconds: 1 }, skills);
    assert!(lines.is_empty());
    match action {
        AgentAction::Chat(m) => {
            assert_eq!(m.len(), 2);
            assert_eq!(m[0].role, "system");
            assert_eq!(m[0].content.as_ref().unwrap().contains("## Mode: PLAN"), in_plan);
            assert_eq!(m[1].content.as_deref(), Some("go"));
        }
        other => panic!("{:?}", other),
    }
    run
}

#[test]
fn the_system_prompt_tells_of_the_workspace() {
    let p = system_prompt("/w", "linux", false, &no_skills(), false);
    assert!(p.starts_with(
        "You are an expert coding agent working in: /w\nOperating system: linux\nShell environment: POSIX sh. Use forward-slash paths and standard sh syntax.\n\nYour capabilities:\n- Execute shell commands (bash tool — note: maps to cmd.exe on Windows)\n"
    ));
    assert!(p.ends_with(
        "\n7. Match shell syntax to the OS above. Do not invent paths from other operating systems."
    ));
    let w = system_prompt("C:\\w", "windows", true, &no_skills(), false);
    assert!(w.contains("Windows cmd.exe (NOT bash). Use Windows-style paths (C:\\foo\\bar) and cmd syntax. Do NOT use bash-isms"));
    let plan = system_prompt("/w", "linux", false, &no_skills(), true);
    assert!(plan.starts_with(&p));
    assert!(plan.ends_with(
        "Do not modify anything. End your response with: \"Switch off plan mode (Shift+Tab or /plan) to execute.\""
    ));
    let s = system_prompt("/w", "linux", false, &one_skill(), true);
    assert!(s.contains("\n\n## Available skills\n") && s.contains("- **s**: d\n\n\n## Mode: PLAN\n"));
    assert!(!s.contains("body"));
}

#[test]
fn requests_begin_with_the_system_prompt() {
    let m = with_system_prompt("p", &[Message::user("a"), Message::tool("i", "b")]);
    let roles: Vec<&str> = m.iter().map(|m| m.role.as_str()).collect();
    assert_eq!(roles, vec!["system", "user", "tool"]);
    assert_eq!(m[0].content.as_deref(), Some("p"));
    assert_eq!(m[2].tool_call_id.as_deref(), Some("i"));
}

#[test]
fn arguments_are_summarized() {
    assert_eq!(
        format_args_summary(&json("{\"path\":\"a\",\"limit\":3}")),
        "limit=3, path=\"a\""
    );
    assert_eq!(format_args_summary(&Json::Null), "");
    assert_eq!(format_args_summary(&json("[1]")), "");
    // The text in quotes takes 62 bytes, and the limit falls into a character.
    let long = format!("{{\"t\":\"{}\"}}", "あ".repeat(20));
    assert_eq!(
        format_args_summary(&json(&long)),
        format!("t=\"{}...", "あ".repeat(19))
    );
    let fits = format!("{{\"t\":\"{}\"}}", "x".repeat(58));
    assert_eq!(format_args_summary(&json(&fits)), format!("t=\"{}\"", "x".repeat(58)));
}

#[test]
fn calls_are_announced() {
    assert_eq!(
        announcement("bash", &json("{\"command\":\"ls\"}")),
        "\x1b[33m$ ls\x1b[0m"
    );
    assert_eq!(announcement("todo_write", &Json::Null), "\x1b[90m[updating todos]\x1b[0m");
    assert_eq!(
        announcement("load_skill", &json("{\"name\":\"s\"}")),
        "\x1b[35m[loading skill: s]\x1b[0m"
    );
    assert_eq!(
        announcement("read_file", &json("{\"path\":\"a\"}")),
        "\x1b[90m> read_file(path=\"a\")\x1b[0m"
    );
}

#[test]
fn outputs_are_previewed() {
    assert_eq!(preview("bash", "out"), "out");
    assert_eq!(preview("bash", &"x".repeat(500)), "x".repeat(500));
    assert_eq!(
        preview("bash", &"x".repeat(501)),
        format!("{}\n... (501 chars total)", "x".repeat(500))
    );
    assert_eq!(
        preview("bash", &"あ".repeat(200)),
        format!("{}\n... (600 chars total)", "あ".repeat(166))
    );
    let long = "y".repeat(600);
    assert_eq!(preview("todo_write", &long), format!("\x1b[90m{}\x1b[0m", long));
}

#[test]
fn early_ends_are_explained() {
    for r in ["stop", "tool_calls", ""] {
        assert!(finish_warning(r, 9).is_none());
    }
    assert_eq!(
        finish_warning("length", 9).unwrap(),
        "\x1b[33m[warn] response truncated by max_tokens limit (LLM_MAX_TOKENS=9)\x1b[0m"
    );
    assert_eq!(
        finish_warning("content_filter", 9).unwrap(),
        "\x1b[33m[warn] response stopped by content filter\x1b[0m"
    );
    assert_eq!(
        finish_warning("odd", 9).unwrap(),
        "\x1b[33m[warn] unexpected finish_reason: odd\x1b[0m"
    );
}

#[test]
fn replies_are_kept_with_their_arguments_as_json() {
    let r = ChatResult {
        content: None,
        tool_calls: Some(vec![call("bash", "{ \"command\" : \"ls\" }")]),
        finish_reason: "tool_calls".to_string(),
    };
    let m = assistant_message(&r);
    assert_eq!(
        m.to_json(),
        "{\"role\":\"assistant\",\"content\":\"\",\"tool_calls\":[{\"id\":\"i\",\"type\":\"function\",\"function\":{\"name\":\"bash\",\"arguments\":\"{\\\"command\\\":\\\"ls\\\"}\"}}]}"
    );
}

#[test]
fn plan_mode_blocks_the_tools_that_change_things() {
    let skills = one_skill();
    let mut todo = TodoManager::new();
    for name in ["bash", "write_file", "edit_file"] {
        match begin_call(&call(name, "{\"path\":\"a\"}"), true, &mut todo, &skills) {
            CallStep::Blocked(s) => assert_eq!(
                s,
                format!("[system] Plan mode is active. The '{}' tool is unavailable in this mode. Do not retry — instead, finish your investigation using read-only tools and output a Markdown plan. The user will toggle plan mode off (Shift+Tab or /plan) to execute when they approve the plan.", name)
            ),
            other => panic!("{:?}", other),
        }
        let free = begin_call(&call(name, "{\"path\":\"a\"}"), false, &mut todo, &skills);
        assert!(matches!(free, CallStep::Tool(ToolStep::Ask { .. })));
    }
    for name in ["read_file", "list_directory", "grep_search"] {
        let s = begin_call(&call(name, "{}"), true, &mut todo, &skills);
        assert!(matches!(s, CallStep::Tool(ToolStep::Ask { .. })));
    }
    match begin_call(&call("load_skill", "{\"name\":\"s\"}"), true, &mut todo, &skills) {
        CallStep::Done(s) => assert_eq!(s, "# Skill: s\n\nbody"),
        other => panic!("{:?}", other),
    }
    let items = "{\"items\":[{\"content\":\"a\"}]}";
    match begin_call(&call("todo_write", items), true, &mut todo, &skills) {
        CallStep::Done(s) => assert_eq!(s, "[ ] a\n\n(0/1 completed)"),
        other => panic!("{:?}", other),
    }
    assert!(todo.has_open_items());
}

#[test]
fn the_skill_tool_is_offered_with_skills_only() {
    assert_eq!(all_tools(&no_skills()).len(), 7);
    let all = all_tools(&one_skill());
    assert_eq!(all.len(), 8);
    assert_eq!(all[7].get("function").unwrap().text_or("name", ""), "load_skill");
    assert_eq!(all[6].get("function").unwrap().text_or("name", ""), "todo_write");
}

#[test]
fn a_reply_without_calls_ends_the_agent() {
    let skills = no_skills();
    let run = waiting(false, &skills, TodoManager::new());
    let (run, lines, action) = step(run, AgentEvent::Replied(reply("hi", &[])), &skills);
    assert_eq!(plain(&lines), vec![""]);
    assert!(matches!(action, AgentAction::Finish));
    let (messages, _) = run.into_parts();
    assert_eq!(messages.len(), 2);
    assert_eq!(messages[1].content.as_deref(), Some("hi"));
    assert!(messages[1].tool_calls.is_none());
}

#[test]
fn every_call_gets_its_result() {
    let skills = no_skills();
    let run = waiting(false, &skills, TodoManager::new());
    let calls = [
        ("todo_write", "{\"items\":[{\"content\":\"a\"}]}"),
        ("bash", "{\"command\":\"ls\"}"),
        ("load_skill", "{}"),
    ];
    let (run, lines, action) = step(run, AgentEvent::Replied(reply("", &calls)), &skills);
    assert_eq!(
        plain(&lines),
        vec![
            "\x1b[90m[updating todos]\x1b[0m",
            "\x1b[90m[ ] a\n\n(0/1 completed)\x1b[0m",
            "\x1b[33m$ ls\x1b[0m",
        ]
    );
    match action {
        AgentAction::Tool(ToolStep::Ask { request: ToolRequest::Run(p), .. }) => {
            assert_eq!(p.program, "sh");
        }
        other => panic!("{:?}", other),
    }
    let done = AgentEvent::CallDone { output: "files".to_string() };
    let (run, lines, action) = step(run, done, &skills);
    assert_eq!(
        plain(&lines),
        vec![
            "files",
            "\x1b[35m[loading skill: ]\x1b[0m",
            "Error: load_skill requires a 'name' argument.",
        ]
    );
    assert!(matches!(action, AgentAction::Round));
    let (messages, todo) = run.into_parts();
    assert!(todo.has_open_items());
    assert_eq!(messages.len(), 5);
    let sent = messages[1].tool_calls.as_ref().unwrap();
    for i in 0..3 {
        assert_eq!(messages[2 + i].role, "tool");
        assert_eq!(messages[2 + i].tool_call_id.as_ref(), Some(&sent[i].id));
    }
    assert_eq!(messages[3].content.as_deref(), Some("files"));
    assert_eq!(to_openai_messages(&messages).unwrap().len(), 5);
}

/// Counts the results behind the messages with calls, each in its place.
fn paired_results(messages: &[Message]) -> usize {
    let mut results = 0;
    let mut i = 0;
    while i < messages.len() {
        assert_ne!(messages[i].role, "tool");
        let calls = messages[i].tool_calls.as_deref().unwrap_or(&[]);
        for (j, call) in calls.iter().enumerate() {
            let result = &messages[i + 1 + j];
            assert_eq!(result.role, "tool");
            assert_eq!(result.tool_call_id.as_ref(), Some(&call.id));
        }
        results += calls.len();
        i += 1 + calls.len();
    }
    results
}

#[test]
fn calls_and_results_stay_paired_through_a_run() {
    let skills = no_skills();
    let mut run = AgentRun::new(vec![Message::user("go")], TodoManager::new());
    for round in 0..6 {
        let begin = AgentEvent::Begin { in_plan: round == 2, seconds: 1 };
        let (waiting, _, action) = step(run, begin, &skills);
        match action {
            AgentAction::Chat(m) => assert_eq!(paired_results(&m), 3 * round),
            other => panic!("{:?}", other),
        }
        let long = format!("{{\"path\":\"{}\"}}", "p".repeat(300));
        let calls = [
            ("todo_write", "{\"items\":[{\"content\":\"a\"}]}"),
            ("read_file", long.as_str()),
            ("load_skill", "{\"name\":\"x\"}"),
        ];
        let event = AgentEvent::Replied(reply("", &calls));
        let (calling, _, action) = step(waiting, event, &skills);
        assert!(matches!(action, AgentAction::Tool(_)));
        let done = AgentEvent::CallDone { output: "o".repeat(600) };
        let (next, _, action) = step(calling, done, &skills);
        assert!(matches!(action, AgentAction::Round));
        run = next;
    }
    let begin = AgentEvent::Begin { in_plan: false, seconds: 1 };
    let (run, _, _) = step(run, begin, &skills);
    let (run, _, action) = step(run, AgentEvent::Replied(reply("done", &[])), &skills);
    assert!(matches!(action, AgentAction::Finish));
    let messages = run.into_parts().0;
    assert_eq!(paired_results(&messages), 18);
    assert_eq!(messages[3].content.as_deref(), Some("[cleared]"));
    assert_eq!(messages[1].tool_calls.as_ref().unwrap()[1].function.arguments, "{}");
}

#[test]
fn a_plan_mode_round_answers_blocked_calls_itself() {
    let skills = no_skills();
    let run = waiting(true, &skills, TodoManager::new());
    let calls = [("bash", "{\"command\":\"ls\"}"), ("write_file", "{\"path\":\"a\"}")];
    let (run, lines, action) = step(run, AgentEvent::Replied(reply("", &calls)), &skills);
    assert!(matches!(action, AgentAction::Round));
    let shown = plain(&lines);
    assert_eq!(shown.len(), 6);
    assert_eq!(shown[1], "\x1b[31m[blocked: plan mode]\x1b[0m");
    assert!(shown[2].starts_with("[system] Plan mode is active. The 'bash' tool"));
    assert_eq!(run.into_parts().0.len(), 4);
}

#[test]
fn open_items_are_brought_to_mind_after_three_rounds() {
    let skills = no_skills();
    let mut todo = TodoManager::new();
    todo.update(&json("[{\"content\":\"a\"}]")).unwrap();
    let mut run = AgentRun::new(vec![Message::user("go")], todo);
    for _ in 0..4 {
        let begin = AgentEvent::Begin { in_plan: false, seconds: 0 };
        let (asked, _, _) = step(run, begin, &skills);
        let calls = [("load_skill", "{}")];
        let (done, _, action) = step(asked, AgentEvent::Replied(reply("", &calls)), &skills);
        assert!(matches!(action, AgentAction::Round));
        run = done;
    }
    let (messages, _) = run.into_parts();
    let reminders: Vec<usize> = messages
        .iter()
        .enumerate()
        .filter(|(_, m)| m.role == "user")
        .map(|(i, _)| i)
        .collect();
    // The first message, then one after the third and one after the fourth round.
    assert_eq!(reminders, vec![0, 7, 10]);
    assert_eq!(
        messages[7].content.as_deref(),
        Some("<reminder>You have open todo items. Please update them with todo_write.</reminder>")
    );
}

#[test]
fn a_conversation_that_is_too_long_is_begun_anew() {
    let skills = no_skills();
    let long = Message::user(&"x".repeat(200_000));
    let run = AgentRun::new(vec![long], TodoManager::new());
    let begin = AgentEvent::Begin { in_plan: true, seconds: 42 };
    let (run, lines, action) = step(run, begin, &skills);
    assert!(matches!(&lines[0], Line::Warning(s) if s == "\x1b[90m[auto-compact triggered]\x1b[0m"));
    match action {
        AgentAction::Compact(c) => {
            assert_eq!(c.file_name, "transcript_42.jsonl");
            assert_eq!(c.conversation.len(), 80_000);
        }
        other => panic!("{:?}", other),
    }
    let event = AgentEvent::Compacted { path: "/t".to_string(), summary: "sum".to_string() };
    let (run, lines, action) = step(run, event, &skills);
    assert!(lines.is_empty());
    match action {
        AgentAction::Chat(m) => {
            assert_eq!(m.len(), 3);
            assert!(m[0].content.as_ref().unwrap().contains("## Mode: PLAN"));
            assert!(m[1].content.as_ref().unwrap().ends_with("\n\nsum"));
        }
        other => panic!("{:?}", other),
    }
    assert_eq!(run.into_parts().0.len(), 2);
}

#[test]
fn warnings_about_a_reply_are_shown() {
    let skills = no_skills();
    let run = waiting(false, &skills, TodoManager::new());
    let mut s = reply("", &[("load_skill", "{oops")]);
    s.absorb(&ChoiceDelta {
        finish_reason: Some("Length".to_string()),
        content: None,
        tool_calls: None,
    });
    let (_, lines, _) = step(run, AgentEvent::Replied(s), &skills);
    match (&lines[0], &lines[1]) {
        (Line::Warning(a), Line::Warning(b)) => {
            assert!(a.starts_with("\x1b[33m[warn] tool 'load_skill' arguments not valid JSON ("));
            assert_eq!(
                b,
                "\x1b[33m[warn] response truncated by max_tokens limit (LLM_MAX_TOKENS=64)\x1b[0m"
            );
        }
        other => panic!("{:?}", other),
    }
}

#[test]
fn events_come_in_their_order() {
    let skills = no_skills();
    let run = AgentRun::new(vec![], TodoManager::new());
    assert!(!run.accepts(&AgentEvent::CallDone { output: String::new() }));
    assert!(!run.accepts(&AgentEvent::Replied(StreamState::new())));
    let run = waiting(false, &skills, TodoManager::new());
    assert!(!run.accepts(&AgentEvent::Begin { in_plan: false, seconds: 0 }));
    assert!(!run.accepts(&AgentEvent::Compacted { path: String::new(), summary: String::new() }));
}

#[test]
fn lines_are_read_as_commands() {
    let cases = [
        (" Q ", Command::Quit),
        ("EXIT", Command::Quit),
        ("quit", Command::Quit),
        (" \t", Command::Blank),
        ("/Help", Command::Help),
        ("/COMPACT", Command::Compact),
        ("/todos", Command::Todos),
        ("/tokens", Command::Tokens),
        ("/clear", Command::Clear),
        ("/skills", Command::Skills),
        ("/plan", Command::Plan),
        ("/planx", Command::Say),
        ("hello", Command::Say),
    ];
    for (line, command) in cases {
        assert_eq!(read_command(line), command);
    }
    assert_eq!(classify("Q"), Command::Say);
    assert!(!is_kept(Command::Quit) && !is_kept(Command::Blank) && is_kept(Command::Say));
}

fn printed(r: Reaction) -> String {
    match r {
        Reaction::Print(s) => s,
        other => panic!("{:?}", other),
    }
}

#[test]
fn commands_are_answered() {
    let (none, some, mut todo) = (no_skills(), one_skill(), TodoManager::new());
    let mut history = vec![];
    match react(Command::Quit, "q", &mut history, &todo, &none, 100) {
        Reaction::Quit(s) => assert_eq!(s, "Bye!"),
        other => panic!("{:?}", other),
    }
    let blank = react(Command::Blank, "", &mut history, &todo, &none, 100);
    assert!(matches!(blank, Reaction::Nothing));
    let plan = react(Command::Plan, "/plan", &mut history, &todo, &none, 100);
    assert!(matches!(plan, Reaction::TogglePlan));
    assert_eq!(
        printed(react(Command::Help, "/help", &mut history, &todo, &none, 100)),
        "\n\x1b[1mLocal Agent - Commands\x1b[0m\n  /compact   Force context compression\n  /todos     Show current todo list\n  /tokens    Show estimated token usage\n  /skills    List loaded skills\n  /plan      Toggle plan mode (alias for Shift+Tab)\n  /clear     Clear conversation history\n  /help      Show this help\n  q / exit   Quit\n\n  Shift+Tab  Toggle plan mode (read-only investigation; bash/write/edit blocked)\n"
    );
    assert_eq!(
        printed(react(Command::Compact, "", &mut history, &todo, &none, 100)),
        "Nothing to compact."
    );
    assert_eq!(
        printed(react(Command::Todos, "", &mut history, &todo, &none, 100)),
        "No todos."
    );
    todo.update(&json("[{\"content\":\"a\"}]")).unwrap();
    assert_eq!(
        printed(react(Command::Todos, "", &mut history, &todo, &none, 100)),
        "[ ] a\n\n(0/1 completed)"
    );
    assert_eq!(
        printed(react(Command::Skills, "", &mut history, &todo, &none, 100)),
        "No skills loaded. Place SKILL.md files under ./skills/<name>/ next to the binary."
    );
    assert_eq!(
        printed(react(Command::Skills, "", &mut history, &todo, &some, 100)),
        "  \x1b[35ms\x1b[0m: d"
    );
    let say = react(Command::Say, "  Hello ", &mut history, &todo, &none, 100);
    assert!(matches!(say, Reaction::Ask));
    assert_eq!(history.len(), 1);
    assert_eq!(history[0].content.as_deref(), Some("Hello"));
    assert_eq!(
        printed(react(Command::Tokens, "", &mut history, &todo, &none, 1000)),
        "Estimated tokens: ~8 (threshold: 600)"
    );
    match react(Command::Compact, "", &mut history, &todo, &none, 100) {
        Reaction::Compact(s) => assert_eq!(s, "\x1b[90m[manual compact]\x1b[0m"),
        other => panic!("{:?}", other),
    }
    assert_eq!(
        printed(react(Command::Clear, "", &mut history, &todo, &none, 100)),
        "Conversation cleared."
    );
    assert!(history.is_empty());
}

#[test]
fn plan_mode_is_switched_and_shown() {
    assert_eq!(toggle_plan(false), (true, "\x1b[35m[plan mode: ON]\x1b[0m".to_string()));
    let (on, _) = toggle_plan(false);
    assert_eq!(toggle_plan(on), (false, "\x1b[35m[plan mode: OFF]\x1b[0m".to_string()));
    assert_eq!(
        toggle_plan_by_key(false),
        (true, "\r\x1b[2K\x1b[35m[plan mode: ON]\x1b[0m\n".to_string())
    );
    assert_eq!(make_prompt(false), "\x1b[36m>>> \x1b[0m");
    assert_eq!(make_prompt(true), "\x1b[35m[PLAN]\x1b[0m \x1b[36m>>> \x1b[0m");
}

#[test]
fn the_user_is_greeted() {
    let config = LlmConfig::from_env(None, None, None, None);
    assert_eq!(
        banner("/w", &config, &no_skills()),
        vec![
            "\x1b[1;36mLocal Agent\x1b[0m @ /w",
            "Model: any-model-name | Server: http://localhost:8080/v1",
            "Type /help for commands, q to quit. Shift+Tab toggles plan mode.\n",
        ]
    );
    assert_eq!(
        banner("/w", &config, &one_skill())[2],
        "Skills: 1 loaded (use /skills to list)"
    );
}

#[test]
fn arguments_of_the_program_make_one_request() {
    assert!(one_shot(&[]).is_none());
    let (m, todo) = one_shot(&["fix".to_string(), "the bug".to_string()]).unwrap().into_parts();
    assert_eq!(m.len(), 1);
    assert_eq!((m[0].role.as_str(), m[0].content.as_deref()), ("user", Some("fix the bug")));
    assert_eq!(todo.render(), "No todos.");
}

#[test]
fn plan_mode_is_always_off_in_a_run_without_a_user() {
    let skills = no_skills();
    let run = one_shot(&["go".to_string()]).unwrap();
    let begin = AgentEvent::Begin { in_plan: true, seconds: 0 };
    let (run, _, action) = step(run, begin, &skills);
    match action {
        AgentAction::Chat(m) => assert!(!m[0].content.as_ref().unwrap().contains("## Mode: PLAN")),
        other => panic!("{:?}", other),
    }
    let calls = [("bash", "{\"command\":\"ls\"}")];
    let (_, _, action) = step(run, AgentEvent::Replied(reply("", &calls)), &skills);
    assert!(matches!(action, AgentAction::Tool(ToolStep::Ask { .. })));
}

#[test]
fn settings_can_be_copied() {
    let config = LlmConfig::from_env(None, None, Some("m".to_string()), Some("7".to_string()));
    let copy = config.clone();
    assert_eq!(
        (copy.base_url, copy.api_key, copy.model, copy.max_tokens),
        (config.base_url, config.api_key, config.model, config.max_tokens)
    );
}
