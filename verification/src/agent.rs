//! The rounds between the user, the model and the tools.
use vstd::prelude::*;
use vstd::string::*;

use crate::json;
use crate::json::{Json, JsonView};
use crate::llm_client;
use crate::llm_client::{
    ChatResult, ChatView, FunctionCallSerde, Message, MessageToolCall, MessageView, ParsedCallView,
    ParsedToolCall, ToolCallView,
};
use crate::schema;
use crate::skills;
use crate::skills::{handle_load_skill, SkillRegistry, SkillView};
use crate::text;
use crate::text::same_text;
use crate::todo_manager;
use crate::todo_manager::{handle_todo_write, todo_tool_definition, TodoManager, TodoView};
use crate::tools;
use crate::tools::{dispatch_tool, tool_definitions, StepView, ToolStep};

verus! {

// ---------------------------------------------------------------------------
// System prompt
// ---------------------------------------------------------------------------

/// What the model is told of the shell.
pub open spec fn shell_hint(windows: bool) -> Seq<char> {
    if windows {
        "Windows cmd.exe (NOT bash). Use Windows-style paths (C:\\foo\\bar) and cmd syntax. Do NOT use bash-isms like '&&' chaining beyond cmd's support, '2>/dev/null', backticks, or POSIX globs. For redirection use '> NUL 2>&1'. For pipelines use '|'. The 'bash' tool actually invokes cmd /C on this OS."@
    } else {
        "POSIX sh. Use forward-slash paths and standard sh syntax."@
    }
}

/// What the model is told in plan mode.
pub open spec fn plan_section() -> Seq<char> {
    "\n\n## Mode: PLAN\nYou are in PLAN mode. Investigate the codebase first, then propose a numbered, Markdown-formatted plan of the work you would do.\n- Allowed: read_file, list_directory, grep_search, load_skill, todo_write\n- Forbidden: bash, write_file, edit_file (these tools will be blocked and return errors)\nDo not modify anything. End your response with: \"Switch off plan mode (Shift+Tab or /plan) to execute.\""@
}

/// What the model is told of its work, before the parts on skills and on plan mode.
pub open spec fn base_prompt(workdir: Seq<char>, os: Seq<char>, windows: bool) -> Seq<char> {
    "You are an expert coding agent working in: "@ + workdir + "\nOperating system: "@ + os
        + "\nShell environment: "@ + shell_hint(windows)
        + "\n\nYour capabilities:\n- Execute shell commands (bash tool — note: maps to cmd.exe on Windows)\n- Read, write, and edit files\n- Search code with grep_search (uses ripgrep, falls back to PowerShell Select-String on Windows)\n- List directory contents\n- Track tasks with todo_write\n\nRules:\n1. Use tools to accomplish tasks. Don't just explain — act.\n2. Read files before editing to understand context.\n3. For multi-step tasks, use todo_write to track progress.\n4. Prefer small, targeted edits over full file rewrites.\n5. Verify your changes work (e.g., run tests, check syntax).\n6. Be concise in your responses. Show results, not explanations.\n7. Match shell syntax to the OS above. Do not invent paths from other operating systems."@
}

/// The system prompt.
pub open spec fn prompt(
    workdir: Seq<char>,
    os: Seq<char>,
    windows: bool,
    skills: Seq<SkillView>,
    plan_mode: bool,
) -> Seq<char> {
    base_prompt(workdir, os, windows) + (match skills::prompt_section(skills) {
        Some(s) => s,
        None => Seq::empty(),
    }) + (if plan_mode {
        plan_section()
    } else {
        Seq::empty()
    })
}

/// Writes the system prompt for a workspace and an operating system.
pub fn system_prompt(
    workdir: &str,
    os: &str,
    windows: bool,
    skills: &SkillRegistry,
    plan_mode: bool,
) -> (r: String)
    ensures
        r@ == prompt(workdir@, os@, windows, skills@, plan_mode),
{
    let mut out = "You are an expert coding agent working in: ".to_owned();
    out.append(workdir);
    out.append("\nOperating system: ");
    out.append(os);
    out.append("\nShell environment: ");
    if windows {
        out.append(
            "Windows cmd.exe (NOT bash). Use Windows-style paths (C:\\foo\\bar) and cmd syntax. Do NOT use bash-isms like '&&' chaining beyond cmd's support, '2>/dev/null', backticks, or POSIX globs. For redirection use '> NUL 2>&1'. For pipelines use '|'. The 'bash' tool actually invokes cmd /C on this OS.",
        );
    } else {
        out.append("POSIX sh. Use forward-slash paths and standard sh syntax.");
    }
    out.append(
        "\n\nYour capabilities:\n- Execute shell commands (bash tool — note: maps to cmd.exe on Windows)\n- Read, write, and edit files\n- Search code with grep_search (uses ripgrep, falls back to PowerShell Select-String on Windows)\n- List directory contents\n- Track tasks with todo_write\n\nRules:\n1. Use tools to accomplish tasks. Don't just explain — act.\n2. Read files before editing to understand context.\n3. For multi-step tasks, use todo_write to track progress.\n4. Prefer small, targeted edits over full file rewrites.\n5. Verify your changes work (e.g., run tests, check syntax).\n6. Be concise in your responses. Show results, not explanations.\n7. Match shell syntax to the OS above. Do not invent paths from other operating systems.",
    );
    if let Some(section) = skills.system_prompt_section() {
        out.append(section.as_str());
    }
    if plan_mode {
        out.append(
            "\n\n## Mode: PLAN\nYou are in PLAN mode. Investigate the codebase first, then propose a numbered, Markdown-formatted plan of the work you would do.\n- Allowed: read_file, list_directory, grep_search, load_skill, todo_write\n- Forbidden: bash, write_file, edit_file (these tools will be blocked and return errors)\nDo not modify anything. End your response with: \"Switch off plan mode (Shift+Tab or /plan) to execute.\"",
        );
    }
    assert(out@ =~= prompt(workdir@, os@, windows, skills@, plan_mode));
    out
}

/// The messages of a request: the system prompt, then the conversation.
pub fn with_system_prompt(prompt: &str, messages: &[Message]) -> (r: Vec<Message>)
    ensures
        llm_client::message_views(r@) == seq![MessageView::plain("system"@, prompt@)]
            + llm_client::message_views(messages@),
{
    let mut out: Vec<Message> = Vec::new();
    out.push(Message::system(prompt));
    let mut i: usize = 0;
    while i < messages.len()
        invariant
            i <= messages@.len(),
            out@.len() == i + 1,
            out@[0]@ == MessageView::plain("system"@, prompt@),
            forall|k: int| 0 <= k < i ==> (#[trigger] out@[k + 1])@ == messages@[k]@,
        decreases messages.len() - i,
    {
        out.push(messages[i].clone());
        i += 1;
    }
    let ghost want = seq![MessageView::plain("system"@, prompt@)] + llm_client::message_views(
        messages@,
    );
    assert forall|k: int| 0 <= k < out@.len() implies llm_client::message_views(out@)[k]
        == want[k] by {
        if k > 0 {
            assert(out@[(k - 1) + 1]@ == messages@[k - 1]@);
        }
    }
    assert(llm_client::message_views(out@) =~= want);
    out
}

// ---------------------------------------------------------------------------
// What the user sees
// ---------------------------------------------------------------------------

/// A value as it stands in the summary of arguments: its JSON text, cut to sixty bytes.
pub open spec fn short_value(v: JsonView) -> Seq<char> {
    let repr = json::json_text(v);
    if text::byte_len(repr) > 60 {
        text::clipped(repr, 60) + "..."@
    } else {
        repr
    }
}

/// The parts of the summary of some arguments.
pub open spec fn short_entries(entries: Seq<(Seq<char>, JsonView)>) -> Seq<Seq<char>> {
    Seq::new(entries.len(), |i: int| entries[i].0 + "="@ + short_value(entries[i].1))
}

/// The summary of some arguments; what is no object has an empty one.
pub open spec fn args_summary(args: JsonView) -> Seq<char> {
    match args {
        JsonView::Object(entries) => text::joined(short_entries(entries), ", "@),
        _ => Seq::empty(),
    }
}

/// Summarizes the arguments of a tool call.
pub fn format_args_summary(args: &Json) -> (r: String)
    ensures
        json::proper(args@) ==> r@ == args_summary(args@),
{
    match args {
        Json::Object(v) => {
            let ghost entries = json::entries_of(v@);
            proof {
                json::lemma_entries_of(v@);
            }
            let mut parts: Vec<String> = Vec::new();
            let mut i: usize = 0;
            while i < v.len()
                invariant
                    i <= v@.len(),
                    args@ == JsonView::Object(entries),
                    entries.len() == v@.len(),
                    forall|k: int|
                        0 <= k < v@.len() ==> #[trigger] entries[k] == (
                            v@[k].0@,
                            json::view_of(v@[k].1),
                        ),
                    parts@.len() == i,
                    json::proper(args@) ==> forall|k: int|
                        0 <= k < i ==> (#[trigger] parts@[k])@ == short_entries(entries)[k],
                decreases v.len() - i,
            {
                let repr = v[i].1.show();
                let mut part = v[i].0.clone();
                part.append("=");
                if text::text_len(repr.as_str()) > 60 {
                    let mut short = text::clip(repr.as_str(), 60).to_owned();
                    short.append("...");
                    part.append(short.as_str());
                } else {
                    part.append(repr.as_str());
                }
                proof {
                    assert(entries[i as int] == (v@[i as int].0@, json::view_of(v@[i as int].1)));
                    if json::proper(args@) {
                        json::lemma_proper_entries_all(entries, i as int);
                    }
                }
                parts.push(part);
                i += 1;
            }
            assert(json::proper(args@) ==> text::strings(parts@) =~= short_entries(entries));
            text::join(parts.as_slice(), ", ")
        },
        _ => String::new(),
    }
}

/// What is shown when a tool is called.
pub open spec fn announced(name: Seq<char>, args: JsonView) -> Seq<char> {
    if name == "bash"@ {
        "\x1b[33m$ "@ + args.text_or("command"@, ""@) + "\x1b[0m"@
    } else if name == "todo_write"@ {
        "\x1b[90m[updating todos]\x1b[0m"@
    } else if name == "load_skill"@ {
        "\x1b[35m[loading skill: "@ + args.text_or("name"@, ""@) + "]\x1b[0m"@
    } else {
        "\x1b[90m> "@ + name + "("@ + args_summary(args) + ")\x1b[0m"@
    }
}

/// Announces a tool call.
pub fn announcement(name: &str, args: &Json) -> (r: String)
    ensures
        json::proper(args@) ==> r@ == announced(name@, args@),
{
    if same_text(name, "bash") {
        let mut s = "\x1b[33m$ ".to_owned();
        s.append(args.text_or("command", ""));
        s.append("\x1b[0m");
        s
    } else if same_text(name, "todo_write") {
        "\x1b[90m[updating todos]\x1b[0m".to_owned()
    } else if same_text(name, "load_skill") {
        let mut s = "\x1b[35m[loading skill: ".to_owned();
        s.append(args.text_or("name", ""));
        s.append("]\x1b[0m");
        s
    } else {
        let mut s = "\x1b[90m> ".to_owned();
        s.append(name);
        s.append("(");
        s.append(format_args_summary(args).as_str());
        s.append(")\x1b[0m");
        s
    }
}

/// What is shown of the output of a tool: all of it for the todo list, otherwise at most five
/// hundred bytes and the size.
pub open spec fn previewed(name: Seq<char>, output: Seq<char>) -> Seq<char> {
    if name == "todo_write"@ {
        "\x1b[90m"@ + output + "\x1b[0m"@
    } else if text::byte_len(output) > 500 {
        text::clipped(output, 500) + "\n... ("@ + text::decimal(text::byte_len(output))
            + " chars total)"@
    } else {
        output
    }
}

/// Shows the output of a tool.
pub fn preview(name: &str, output: &str) -> (r: String)
    ensures
        r@ == previewed(name@, output@),
{
    if same_text(name, "todo_write") {
        let mut s = "\x1b[90m".to_owned();
        s.append(output);
        s.append("\x1b[0m");
        s
    } else if text::text_len(output) > 500 {
        let mut s = text::clip(output, 500).to_owned();
        s.append("\n... (");
        s.append(text::decimal_text(text::text_len(output) as u128).as_str());
        s.append(" chars total)");
        s
    } else {
        output.to_owned()
    }
}

/// What the user is told of a reply that did not end in the ordinary way.
pub open spec fn finish_notice(reason: Seq<char>, max_tokens: nat) -> Option<Seq<char>> {
    if reason == "stop"@ || reason == "tool_calls"@ || reason.len() == 0 {
        None
    } else if reason == "length"@ {
        Some(
            "\x1b[33m[warn] response truncated by max_tokens limit (LLM_MAX_TOKENS="@
                + text::decimal(max_tokens) + ")\x1b[0m"@,
        )
    } else if reason == "content_filter"@ {
        Some("\x1b[33m[warn] response stopped by content filter\x1b[0m"@)
    } else {
        Some("\x1b[33m[warn] unexpected finish_reason: "@ + reason + "\x1b[0m"@)
    }
}

/// Tells why a reply ended early.
pub fn finish_warning(reason: &str, max_tokens: u32) -> (r: Option<String>)
    ensures
        llm_client::optional_text(r) == finish_notice(reason@, max_tokens as nat),
{
    if same_text(reason, "stop") || same_text(reason, "tool_calls") || reason.is_empty() {
        None
    } else if same_text(reason, "length") {
        let mut s =
            "\x1b[33m[warn] response truncated by max_tokens limit (LLM_MAX_TOKENS=".to_owned();
        s.append(text::decimal_text(max_tokens as u128).as_str());
        s.append(")\x1b[0m");
        Some(s)
    } else if same_text(reason, "content_filter") {
        Some("\x1b[33m[warn] response stopped by content filter\x1b[0m".to_owned())
    } else {
        let mut s = "\x1b[33m[warn] unexpected finish_reason: ".to_owned();
        s.append(reason);
        s.append("\x1b[0m");
        Some(s)
    }
}

// ---------------------------------------------------------------------------
// Tool calls
// ---------------------------------------------------------------------------

/// Whether a tool is refused in plan mode.
pub open spec fn is_blocked(name: Seq<char>) -> bool {
    name == "bash"@ || name == "write_file"@ || name == "edit_file"@
}

/// What the model is told of a tool that is refused in plan mode.
pub open spec fn blocked_message(name: Seq<char>) -> Seq<char> {
    "[system] Plan mode is active. The '"@ + name
        + "' tool is unavailable in this mode. Do not retry — instead, finish your investigation using read-only tools and output a Markdown plan. The user will toggle plan mode off (Shift+Tab or /plan) to execute when they approve the plan."@
}

/// How a tool call begins.
#[derive(Debug)]
pub enum CallStep {
    /// The call is refused in plan mode, with this output.
    Blocked(String),
    /// The call is done, with this output.
    Done(String),
    /// The call is the work of a tool.
    Tool(ToolStep),
}

/// What a [`CallStep`] stands for.
pub enum CallStepView {
    Blocked(Seq<char>),
    Done(Seq<char>),
    Tool(StepView),
}

impl View for CallStep {
    type V = CallStepView;

    open spec fn view(&self) -> CallStepView {
        match *self {
            CallStep::Blocked(s) => CallStepView::Blocked(s@),
            CallStep::Done(s) => CallStepView::Done(s@),
            CallStep::Tool(t) => CallStepView::Tool(t@),
        }
    }
}

/// How a call begins, and the todo list after it.
pub open spec fn begun(
    call: ParsedCallView,
    in_plan: bool,
    todo: Seq<TodoView>,
    skills: Seq<SkillView>,
) -> (CallStepView, Seq<TodoView>) {
    if in_plan && is_blocked(call.name) {
        (CallStepView::Blocked(blocked_message(call.name)), todo)
    } else if call.name == "todo_write"@ {
        let (s, after) = todo_manager::written(todo, call.arguments);
        (CallStepView::Done(s), after)
    } else if call.name == "load_skill"@ {
        (CallStepView::Done(skills::skill_answer(skills, call.arguments)), todo)
    } else {
        (CallStepView::Tool(tools::started(call.name, call.arguments)), todo)
    }
}

/// Begins a tool call. In plan mode the tools that change things are refused.
pub fn begin_call(
    call: &ParsedToolCall,
    in_plan: bool,
    todo: &mut TodoManager,
    skills: &SkillRegistry,
) -> (r: CallStep)
    ensures
        (r@, final(todo)@) == begun(call@, in_plan, old(todo)@, skills@),
{
    let name = call.name.as_str();
    if in_plan && (same_text(name, "bash") || same_text(name, "write_file") || same_text(
        name,
        "edit_file",
    )) {
        let mut s = "[system] Plan mode is active. The '".to_owned();
        s.append(name);
        s.append(
            "' tool is unavailable in this mode. Do not retry — instead, finish your investigation using read-only tools and output a Markdown plan. The user will toggle plan mode off (Shift+Tab or /plan) to execute when they approve the plan.",
        );
        CallStep::Blocked(s)
    } else if same_text(name, "todo_write") {
        CallStep::Done(handle_todo_write(todo, &call.arguments))
    } else if same_text(name, "load_skill") {
        CallStep::Done(handle_load_skill(skills, &call.arguments))
    } else {
        CallStep::Tool(dispatch_tool(name, &call.arguments))
    }
}

// ---------------------------------------------------------------------------
// Rounds
// ---------------------------------------------------------------------------

/// The tool call of an assistant message for a parsed one: its arguments are written as JSON
/// again.
pub open spec fn message_call(call: ParsedCallView) -> ToolCallView {
    ToolCallView {
        id: call.id,
        call_type: "function"@,
        name: call.name,
        arguments: json::json_text(call.arguments),
    }
}

/// The tool calls of an assistant message.
pub open spec fn message_calls(calls: Seq<ParsedCallView>) -> Seq<ToolCallView> {
    Seq::new(calls.len(), |i: int| message_call(calls[i]))
}

/// The message that keeps a reply in the conversation. Its content is always a text.
pub open spec fn reply_message(reply: ChatView) -> MessageView {
    MessageView {
        role: "assistant"@,
        content: Some(llm_client::text_or_empty(reply.content)),
        tool_calls: match reply.tool_calls {
            Some(calls) => Some(message_calls(calls)),
            None => None,
        },
        tool_call_id: None,
    }
}

/// Makes the message that keeps a reply in the conversation.
pub fn assistant_message(reply: &ChatResult) -> (r: Message)
    ensures
        llm_client::proper_calls(reply.tool_calls) ==> r@ == reply_message(reply@),
{
    let content = match &reply.content {
        Some(s) => s.clone(),
        None => String::new(),
    };
    let tool_calls = match &reply.tool_calls {
        Some(calls) => {
            let ghost proper = llm_client::proper_calls(reply.tool_calls);
            let mut out: Vec<MessageToolCall> = Vec::new();
            let mut i: usize = 0;
            while i < calls.len()
                invariant
                    i <= calls@.len(),
                    out@.len() == i,
                    proper ==> forall|k: int|
                        0 <= k < calls@.len() ==> json::proper((#[trigger] calls@[k]).arguments@),
                    proper ==> forall|k: int|
                        0 <= k < i ==> (#[trigger] out@[k])@ == message_call(calls@[k]@),
                decreases calls.len() - i,
            {
                let c = &calls[i];
                let arguments = match c.arguments.to_text() {
                    Ok(s) => s,
                    Err(_) => "{}".to_owned(),
                };
                assert(calls@[i as int].arguments@ == c.arguments@);
                out.push(
                    MessageToolCall {
                        id: c.id.clone(),
                        call_type: "function".to_owned(),
                        function: FunctionCallSerde { name: c.name.clone(), arguments },
                    },
                );
                i += 1;
            }
            assert(proper ==> llm_client::call_views(out@) =~= message_calls(
                llm_client::parsed_views(calls@),
            ));
            Some(out)
        },
        None => None,
    };
    Message::assistant(Some(content), tool_calls)
}

/// The tool calls of one reply, while they are carried out.
#[derive(Debug)]
pub struct Turn {
    calls: Vec<ParsedToolCall>,
    next: usize,
    in_plan: bool,
    used_todo: bool,
}

/// What a [`Turn`] stands for.
pub struct TurnView {
    pub calls: Seq<ParsedCallView>,
    /// How many of the calls are done.
    pub next: nat,
    pub in_plan: bool,
    pub used_todo: bool,
}

impl View for Turn {
    type V = TurnView;

    closed spec fn view(&self) -> TurnView {
        TurnView {
            calls: llm_client::parsed_views(self.calls@),
            next: self.next as nat,
            in_plan: self.in_plan,
            used_todo: self.used_todo,
        }
    }
}

impl TurnView {
    /// The turn after the result of the next call.
    pub open spec fn after_call(self) -> TurnView {
        TurnView {
            next: self.next + 1,
            used_todo: self.used_todo || self.calls[self.next as int].name == "todo_write"@,
            ..self
        }
    }

    /// The message with the result of the next call.
    pub open spec fn result_message(self, output: Seq<char>) -> MessageView {
        MessageView::tool_result(self.calls[self.next as int].id, output)
    }
}

/// The number of rounds without a use of the todo list, after a turn.
pub open spec fn rounds_after(rounds: nat, used_todo: bool) -> nat {
    if used_todo {
        0
    } else {
        rounds + 1
    }
}

/// The reminder of open items.
pub open spec fn reminder() -> MessageView {
    MessageView::plain(
        "user"@,
        "<reminder>You have open todo items. Please update them with todo_write.</reminder>"@,
    )
}

/// Whether the model is reminded: there are open items, and the list was not used in the last
/// three rounds.
pub open spec fn needs_reminder(todo: Seq<TodoView>, rounds: nat) -> bool {
    (exists|i: int| 0 <= i < todo.len() && (#[trigger] todo[i]).status != "completed"@) && rounds
        >= 3
}

/// A conversation, with a reminder at its end where one is needed.
pub open spec fn with_reminder(
    messages: Seq<MessageView>,
    todo: Seq<TodoView>,
    rounds: nat,
) -> Seq<MessageView> {
    if needs_reminder(todo, rounds) {
        messages.push(reminder())
    } else {
        messages
    }
}

impl Turn {
    #[verifier::type_invariant]
    spec fn holds(self) -> bool {
        &&& self.next <= self.calls@.len()
        &&& forall|i: int|
            0 <= i < self.calls@.len() ==> json::proper((#[trigger] self.calls@[i]).arguments@)
    }

    /// Keeps a reply in the conversation. A turn comes out where the reply calls tools;
    /// otherwise the model is done.
    pub(crate) fn open(messages: &mut Vec<Message>, reply: ChatResult, in_plan: bool) -> (r: Option<
        Turn,
    >)
        requires
            llm_client::proper_calls(reply.tool_calls),
        ensures
            llm_client::message_views(final(messages)@) == llm_client::message_views(
                old(messages)@,
            ).push(reply_message(reply@)),
            match r {
                Some(turn) => {
                    &&& reply@.tool_calls is Some
                    &&& reply@.tool_calls->Some_0.len() > 0
                    &&& turn@ == (TurnView {
                        calls: reply@.tool_calls->Some_0,
                        next: 0,
                        in_plan,
                        used_todo: false,
                    })
                },
                None => reply@.tool_calls is None || reply@.tool_calls->Some_0.len() == 0,
            },
    {
        let ghost before = messages@;
        messages.push(assistant_message(&reply));
        assert(llm_client::message_views(messages@) =~= llm_client::message_views(before).push(
            reply_message(reply@),
        ));
        match reply.tool_calls {
            Some(calls) => {
                if calls.len() == 0 {
                    None
                } else {
                    Some(Turn { calls, next: 0, in_plan, used_todo: false })
                }
            },
            None => None,
        }
    }

    /// The call that has to be carried out next.
    pub fn call(&self) -> (r: Option<&ParsedToolCall>)
        ensures
            match r {
                Some(c) => self@.next < self@.calls.len() && c@ == self@.calls[self@.next as int]
                    && json::proper(c@.arguments),
                None => self@.next == self@.calls.len(),
            },
    {
        proof {
            use_type_invariant(self);
        }
        if self.next < self.calls.len() {
            Some(&self.calls[self.next])
        } else {
            None
        }
    }

    /// Begins the next call. Nothing comes out where all are done.
    pub fn begin(&self, todo: &mut TodoManager, skills: &SkillRegistry) -> (r: Option<CallStep>)
        ensures
            match r {
                Some(step) => {
                    &&& self@.next < self@.calls.len()
                    &&& (step@, final(todo)@) == begun(
                        self@.calls[self@.next as int],
                        self@.in_plan,
                        old(todo)@,
                        skills@,
                    )
                },
                None => self@.next == self@.calls.len() && final(todo)@ == old(todo)@,
            },
    {
        match self.call() {
            Some(call) => Some(begin_call(call, self.in_plan, todo, skills)),
            None => None,
        }
    }

    /// Keeps the output of the next call in the conversation, under the id of the call.
    pub fn record(self, messages: &mut Vec<Message>, output: &str) -> (r: Turn)
        requires
            self@.next < self@.calls.len(),
        ensures
            r@ == self@.after_call(),
            llm_client::message_views(final(messages)@) == llm_client::message_views(
                old(messages)@,
            ).push(self@.result_message(output@)),
    {
        proof {
            use_type_invariant(&self);
        }
        let ghost before = messages@;
        assert(self.next < self.calls.len());
        let call = &self.calls[self.next];
        messages.push(Message::tool(call.id.as_str(), output));
        assert(llm_client::message_views(messages@) =~= llm_client::message_views(before).push(
            self@.result_message(output@),
        ));
        let used_todo = self.used_todo || same_text(call.name.as_str(), "todo_write");
        Turn { calls: self.calls, next: self.next + 1, in_plan: self.in_plan, used_todo }
    }

    /// Ends the turn, with a reminder where one is needed. What comes out is the number of
    /// rounds without a use of the todo list.
    pub fn close(self, messages: &mut Vec<Message>, rounds: u32, todo: &TodoManager) -> (r: u32)
        requires
            rounds < u32::MAX,
        ensures
            r == rounds_after(rounds as nat, self@.used_todo),
            llm_client::message_views(final(messages)@) == with_reminder(
                llm_client::message_views(old(messages)@),
                todo@,
                r as nat,
            ),
    {
        let rounds = if self.used_todo {
            0
        } else {
            rounds + 1
        };
        if todo.has_open_items() && rounds >= 3 {
            let ghost before = messages@;
            messages.push(
                Message::user(
                    "<reminder>You have open todo items. Please update them with todo_write.</reminder>",
                ),
            );
            assert(llm_client::message_views(messages@) =~= llm_client::message_views(before).push(
                reminder(),
            ));
        }
        rounds
    }
}

/// The definitions of all tools: those of the machine, the todo list, and the skills where there
/// are any.
pub open spec fn tool_set(skills: Seq<SkillView>) -> Seq<JsonView> {
    let own = tools::tool_list().push(todo_manager::todo_tool());
    if skills.len() == 0 {
        own
    } else {
        own.push(skills::skill_tool(skills::names_of(skills)))
    }
}

/// Gives the definitions of all tools.
pub fn all_tools(skills: &SkillRegistry) -> (r: Vec<Json>)
    ensures
        r@.len() == tool_set(skills@).len(),
        forall|i: int|
            0 <= i < r@.len() ==> (#[trigger] r@[i])@ == tool_set(skills@)[i] && json::proper(
                r@[i]@,
            ),
{
    let mut out = tool_definitions();
    out.push(todo_tool_definition());
    if let Some(def) = skills.tool_definition() {
        out.push(def);
    }
    out
}

// ---------------------------------------------------------------------------
// Laws
// ---------------------------------------------------------------------------

/// In plan mode no shell command is run and no file is written or edited: such a call is
/// answered at once, and changes nothing.
pub proof fn law_plan_mode_blocks_changes(
    call: ParsedCallView,
    todo: Seq<TodoView>,
    skills: Seq<SkillView>,
)
    requires
        call.name == "bash"@ || call.name == "write_file"@ || call.name == "edit_file"@,
    ensures
        begun(call, true, todo, skills) == (
            CallStepView::Blocked(blocked_message(call.name)),
            todo,
        ),
{
}

/// Out of plan mode no call is blocked, and in plan mode every call that is not blocked goes on
/// as it does out of it.
pub proof fn law_other_calls_go_on(
    call: ParsedCallView,
    todo: Seq<TodoView>,
    skills: Seq<SkillView>,
)
    ensures
        !(begun(call, false, todo, skills).0 is Blocked),
        !is_blocked(call.name) ==> begun(call, true, todo, skills) == begun(
            call,
            false,
            todo,
            skills,
        ),
{
}

/// Whether a task is on the way to writing a file, or runs a shell command.
pub open spec fn may_write(task: tools::TaskView) -> bool {
    match task {
        tools::TaskView::WritePath { .. } | tools::TaskView::WriteParent { .. }
        | tools::TaskView::WriteFile { .. } | tools::TaskView::EditPath { .. }
        | tools::TaskView::EditRead { .. } | tools::TaskView::EditWrite { .. }
        | tools::TaskView::Bash => true,
        _ => false,
    }
}

/// Whether events answer, one after the other, what a tool asks for.
pub open spec fn answers(step: StepView, events: Seq<tools::EventView>) -> bool
    decreases events.len(),
{
    events.len() == 0 || match step {
        StepView::Done(_) => false,
        StepView::Ask(_, task) => task.fits(events[0]) && answers(
            task.next(events[0]),
            events.drop_first(),
        ),
    }
}

/// What a tool asks for while it gets some answers.
pub open spec fn requests(step: StepView, events: Seq<tools::EventView>) -> Seq<tools::AskView>
    decreases events.len(),
{
    match step {
        StepView::Done(_) => Seq::empty(),
        StepView::Ask(request, task) => if events.len() == 0 {
            seq![request]
        } else {
            seq![request] + requests(task.next(events[0]), events.drop_first())
        },
    }
}

/// Whether a request changes no file: nothing is written, no directory is made, and no program
/// but a search is run.
pub open spec fn only_reads(request: tools::AskView) -> bool {
    match request {
        tools::AskView::WriteText(_) | tools::AskView::CreateParent => false,
        tools::AskView::Run(process) => process.program == "rg"@ || process.program == "grep"@,
        _ => true,
    }
}

/// A task that is not on the way to writing a file stays so, and asks for nothing to be written.
proof fn lemma_readers_write_nothing(step: StepView, events: Seq<tools::EventView>)
    requires
        answers(step, events),
        step is Ask ==> !may_write(step->Ask_1) && only_reads(step->Ask_0),
    ensures
        forall|i: int|
            0 <= i < requests(step, events).len() ==> only_reads(
                #[trigger] requests(step, events)[i],
            ),
    decreases events.len(),
{
    if events.len() > 0 {
        let task = step->Ask_1;
        let next = task.next(events[0]);
        let rest = requests(next, events.drop_first());
        lemma_readers_write_nothing(next, events.drop_first());
        assert forall|i: int| 0 <= i < requests(step, events).len() implies only_reads(
            #[trigger] requests(step, events)[i],
        ) by {
            if i > 0 {
                assert(requests(step, events)[i] == rest[i - 1]);
            }
        }
    }
}

/// In plan mode no tool asks for a file to be written, for a directory to be made, or for a
/// program but `rg` and `grep` to be run, whatever answers it gets.
pub proof fn law_plan_mode_writes_nothing(
    call: ParsedCallView,
    todo: Seq<TodoView>,
    skills: Seq<SkillView>,
    events: Seq<tools::EventView>,
)
    ensures
        match begun(call, true, todo, skills).0 {
            CallStepView::Tool(step) => answers(step, events) ==> forall|i: int|
                0 <= i < requests(step, events).len() ==> only_reads(
                    #[trigger] requests(step, events)[i],
                ),
            _ => true,
        },
{
    match begun(call, true, todo, skills).0 {
        CallStepView::Tool(step) => {
            if answers(step, events) {
                lemma_readers_write_nothing(step, events);
            }
        },
        _ => {},
    }
}

/// The ids of the calls in the message of a reply are those that their results refer to.
pub proof fn law_results_refer_to_calls(reply: ChatView, i: int, output: Seq<char>)
    requires
        reply.tool_calls is Some,
        0 <= i < reply.tool_calls->Some_0.len(),
    ensures
        ({
            let turn = TurnView {
                calls: reply.tool_calls->Some_0,
                next: i as nat,
                in_plan: false,
                used_todo: false,
            };
            turn.result_message(output).tool_call_id == Some(
                reply_message(reply).tool_calls->Some_0[i].id,
            )
        }),
{
}

/// The model is reminded at the earliest after three rounds without the todo list, and not in a
/// round that used it.
pub proof fn law_reminder_waits_three_rounds(todo: Seq<TodoView>, rounds: nat, used_todo: bool)
    requires
        needs_reminder(todo, rounds_after(rounds, used_todo)),
    ensures
        !used_todo,
        rounds >= 2,
{
}

/// The system prompt says that plan mode is on exactly where it is on: the two prompts differ in
/// that part alone.
pub proof fn law_plan_mode_extends_prompt(
    workdir: Seq<char>,
    os: Seq<char>,
    windows: bool,
    skills: Seq<SkillView>,
)
    ensures
        prompt(workdir, os, windows, skills, true) == prompt(workdir, os, windows, skills, false)
            + plan_section(),
{
    assert(prompt(workdir, os, windows, skills, true) =~= prompt(
        workdir,
        os,
        windows,
        skills,
        false,
    ) + plan_section());
}

/// The `load_skill` tool is offered exactly where there are skills.
pub proof fn law_skill_tool_needs_skills(skills: Seq<SkillView>)
    ensures
        skills.len() == 0 ==> tool_set(skills).len() == tools::tool_list().len() + 1,
        skills.len() > 0 ==> tool_set(skills).len() == tools::tool_list().len() + 2
            && tool_set(skills).last() == skills::skill_tool(skills::names_of(skills)),
        skills::prompt_section(skills) is Some <==> skills.len() > 0,
{
}

/// The result of a call holds the whole output of the tool, whatever its length and whatever the
/// user is shown of it, under the id of the call.
pub proof fn law_results_hold_the_whole_output(turn: TurnView, output: Seq<char>)
    requires
        turn.next < turn.calls.len(),
    ensures
        turn.result_message(output).role == "tool"@,
        turn.result_message(output).content == Some(output),
        turn.result_message(output).tool_call_id == Some(turn.calls[turn.next as int].id),
        turn.result_message(output).tool_calls is None,
{
}

/// The user is shown an output of at most five hundred bytes as it is, and of a longer one as many
/// characters at its front as fit, with its size. A todo list is shown whole.
pub proof fn law_previews_are_fronts(name: Seq<char>, output: Seq<char>)
    ensures
        name == "todo_write"@ ==> previewed(name, output) == "\x1b[90m"@ + output + "\x1b[0m"@,
        name != "todo_write"@ && text::byte_len(output) <= 500 ==> previewed(name, output)
            == output,
        name != "todo_write"@ && text::byte_len(output) > 500 ==> exists|k: int|
            {
                &&& 0 <= k < output.len()
                &&& text::byte_len(#[trigger] output.take(k)) <= 500
                &&& text::byte_len(output.take(k + 1)) > 500
                &&& previewed(name, output) == output.take(k) + "\n... ("@ + text::decimal(
                    text::byte_len(output),
                ) + " chars total)"@
            },
{
    if name != "todo_write"@ && text::byte_len(output) > 500 {
        text::law_clipped_is_front(output, 500);
        let k = text::clipped(output, 500).len() as int;
        if k == output.len() {
            assert(output.take(k) =~= output);
        }
        assert(text::byte_len(output.take(k)) <= 500);
        assert(text::byte_len(output.take(k + 1)) > 500);
    }
}

/// A call is announced with what it is about: a command with its text, a skill with its name, any
/// other but the todo list with its name and its arguments.
pub proof fn law_announcements_tell_the_call(name: Seq<char>, args: JsonView)
    ensures
        name == "bash"@ ==> announced(name, args) == "\x1b[33m$ "@ + args.text_or("command"@, ""@)
            + "\x1b[0m"@,
        name == "todo_write"@ ==> announced(name, args) == "\x1b[90m[updating todos]\x1b[0m"@,
        name == "load_skill"@ ==> announced(name, args) == "\x1b[35m[loading skill: "@
            + args.text_or("name"@, ""@) + "]\x1b[0m"@,
        name != "bash"@ && name != "todo_write"@ && name != "load_skill"@ ==> announced(name, args)
            == "\x1b[90m> "@ + name + "("@ + args_summary(args) + ")\x1b[0m"@,
{
    reveal_strlit("bash");
    reveal_strlit("todo_write");
    reveal_strlit("load_skill");
    assert("bash"@.len() == 4);
    assert("todo_write"@.len() == 10);
    assert("load_skill"@.len() == 10);
    assert("todo_write"@[0] != "load_skill"@[0]);
}

/// A summary names every argument, in the order of the entries, with its JSON text: whole where
/// it takes at most sixty bytes, otherwise as many characters at its front as fit.
pub proof fn law_summaries_name_all_arguments(
    entries: Seq<(Seq<char>, JsonView)>,
    parts: Seq<Seq<char>>,
    other: JsonView,
)
    requires
        parts.len() == entries.len(),
        forall|i: int|
            0 <= i < entries.len() ==> {
                let repr = json::json_text((#[trigger] entries[i]).1);
                &&& text::byte_len(repr) <= 60 ==> parts[i] == entries[i].0 + "="@ + repr
                &&& text::byte_len(repr) > 60 ==> exists|k: int|
                    {
                        &&& 0 <= k < repr.len()
                        &&& text::byte_len(#[trigger] repr.take(k)) <= 60
                        &&& text::byte_len(repr.take(k + 1)) > 60
                        &&& parts[i] == entries[i].0 + "="@ + (repr.take(k) + "..."@)
                    }
            },
    ensures
        args_summary(JsonView::Object(entries)) == text::joined(parts, ", "@),
        !(other is Object) ==> args_summary(other).len() == 0,
{
    let all = short_entries(entries);
    assert forall|i: int| 0 <= i < all.len() implies all[i] == parts[i] by {
        let repr = json::json_text(entries[i].1);
        if text::byte_len(repr) > 60 {
            let k = choose|k: int|
                {
                    &&& 0 <= k < repr.len()
                    &&& text::byte_len(#[trigger] repr.take(k)) <= 60
                    &&& text::byte_len(repr.take(k + 1)) > 60
                    &&& parts[i] == entries[i].0 + "="@ + (repr.take(k) + "..."@)
                };
            text::lemma_clipped(repr, 60, k);
        }
    }
    assert(all =~= parts);
}

/// Out of plan mode, and in it for all but the shell and the two tools that change files, a call
/// goes where its name says: the todo list is written and answers, a skill is loaded, and any
/// other call is the work of the tool with that name, on the arguments of the call.
pub proof fn law_calls_go_where_their_names_say(
    call: ParsedCallView,
    in_plan: bool,
    todo: Seq<TodoView>,
    skills: Seq<SkillView>,
)
    ensures
        ({
            let (step, after) = begun(call, in_plan, todo, skills);
            let refused = in_plan && (call.name == "bash"@ || call.name == "write_file"@
                || call.name == "edit_file"@);
            &&& refused <==> step is Blocked
            &&& refused ==> after == todo && step->Blocked_0
                == "[system] Plan mode is active. The '"@ + call.name
                + "' tool is unavailable in this mode. Do not retry — instead, finish your investigation using read-only tools and output a Markdown plan. The user will toggle plan mode off (Shift+Tab or /plan) to execute when they approve the plan."@
            &&& !refused && call.name == "todo_write"@ ==> {
                let (answer, list) = todo_manager::written(todo, call.arguments);
                step is Done && step->Done_0 == answer && after == list
            }
            &&& !refused && call.name == "load_skill"@ ==> step is Done && step->Done_0
                == skills::skill_answer(skills, call.arguments) && after == todo
            &&& !refused && call.name != "todo_write"@ && call.name != "load_skill"@
                ==> step is Tool && step->Tool_0 == tools::started(call.name, call.arguments)
                && after == todo
        }),
{
    reveal_strlit("bash");
    reveal_strlit("write_file");
    reveal_strlit("edit_file");
    reveal_strlit("todo_write");
    reveal_strlit("load_skill");
    assert("bash"@.len() == 4);
    assert("write_file"@.len() == 10);
    assert("edit_file"@.len() == 9);
    assert("todo_write"@.len() == 10);
    assert("load_skill"@.len() == 10);
    assert("todo_write"@[0] != "load_skill"@[0]);
    assert("todo_write"@[0] != "write_file"@[0]);
    assert("load_skill"@[0] != "write_file"@[0]);
}

/// The message that keeps a reply holds its whole text, empty only where it has none, and all its
/// calls, in their order, with their ids, their names and their arguments as JSON text.
pub proof fn law_replies_are_kept_whole(reply: ChatView)
    ensures
        ({
            let m = reply_message(reply);
            &&& m.role == "assistant"@
            &&& m.tool_call_id is None
            &&& reply.content is Some ==> m.content == reply.content
            &&& reply.content is None ==> m.content is Some && m.content->Some_0.len() == 0
            &&& m.tool_calls is Some <==> reply.tool_calls is Some
            &&& reply.tool_calls is Some ==> {
                let kept = m.tool_calls->Some_0;
                let calls = reply.tool_calls->Some_0;
                &&& kept.len() == calls.len()
                &&& forall|i: int|
                    0 <= i < calls.len() ==> {
                        &&& (#[trigger] kept[i]).id == calls[i].id
                        &&& kept[i].call_type == "function"@
                        &&& kept[i].name == calls[i].name
                        &&& kept[i].arguments == json::json_text(calls[i].arguments)
                    }
            }
        }),
{
}

/// The user is told nothing of a reply that ended in the ordinary way, and of any other why it
/// ended.
pub proof fn law_early_ends_are_told(reason: Seq<char>, max_tokens: nat)
    ensures
        finish_notice(reason, max_tokens) is None <==> reason == "stop"@ || reason
            == "tool_calls"@ || reason.len() == 0,
        reason == "length"@ ==> finish_notice(reason, max_tokens) == Some(
            "\x1b[33m[warn] response truncated by max_tokens limit (LLM_MAX_TOKENS="@
                + text::decimal(max_tokens) + ")\x1b[0m"@,
        ),
        reason == "content_filter"@ ==> finish_notice(reason, max_tokens) == Some(
            "\x1b[33m[warn] response stopped by content filter\x1b[0m"@,
        ),
        finish_notice(reason, max_tokens) is Some && reason != "length"@ && reason
            != "content_filter"@ ==> finish_notice(reason, max_tokens) == Some(
            "\x1b[33m[warn] unexpected finish_reason: "@ + reason + "\x1b[0m"@,
        ),
{
    reveal_strlit("stop");
    reveal_strlit("tool_calls");
    reveal_strlit("length");
    reveal_strlit("content_filter");
    assert("stop"@.len() == 4);
    assert("tool_calls"@.len() == 10);
    assert("length"@.len() == 6);
    assert("content_filter"@.len() == 14);
}

/// A turn leaves the conversation as it is, but for one message of the user at its end where an
/// item is open and the todo list was not used in the last three rounds. The count of rounds
/// begins again with every use of the list.
pub proof fn law_reminder_iff_list_is_forgotten(
    messages: Seq<MessageView>,
    todo: Seq<TodoView>,
    rounds: nat,
    used_todo: bool,
)
    ensures
        used_todo ==> rounds_after(rounds, used_todo) == 0,
        !used_todo ==> rounds_after(rounds, used_todo) == rounds + 1,
        ({
            let after = with_reminder(messages, todo, rounds);
            let forgotten = rounds >= 3 && exists|i: int|
                0 <= i < todo.len() && (#[trigger] todo[i]).status != "completed"@;
            &&& !forgotten ==> after == messages
            &&& forgotten ==> {
                &&& after.len() == messages.len() + 1
                &&& after.drop_last() == messages
                &&& after.last().role == "user"@
                &&& after.last().content == Some(
                    "<reminder>You have open todo items. Please update them with todo_write.</reminder>"@,
                )
            }
        }),
{
    assert(messages.push(reminder()).drop_last() =~= messages);
}

/// The system prompt names the workspace, the operating system and the shell that commands are
/// for, and holds the part on skills where there are any.
pub proof fn law_prompt_tells_the_environment(
    workdir: Seq<char>,
    os: Seq<char>,
    windows: bool,
    skills: Seq<SkillView>,
    plan_mode: bool,
)
    ensures
        ({
            let p = prompt(workdir, os, windows, skills, plan_mode);
            let hint = if windows {
                "Windows cmd.exe (NOT bash). Use Windows-style paths (C:\\foo\\bar) and cmd syntax. Do NOT use bash-isms like '&&' chaining beyond cmd's support, '2>/dev/null', backticks, or POSIX globs. For redirection use '> NUL 2>&1'. For pipelines use '|'. The 'bash' tool actually invokes cmd /C on this OS."@
            } else {
                "POSIX sh. Use forward-slash paths and standard sh syntax."@
            };
            &&& text::starts_with(
                p,
                "You are an expert coding agent working in: "@ + workdir + "\nOperating system: "@
                    + os + "\nShell environment: "@ + hint,
            )
            &&& skills::prompt_section(skills) is Some ==> text::contains(
                p,
                skills::prompt_section(skills)->Some_0,
            )
        }),
{
    let p = prompt(workdir, os, windows, skills, plan_mode);
    let head = "You are an expert coding agent working in: "@ + workdir + "\nOperating system: "@
        + os + "\nShell environment: "@ + shell_hint(windows);
    assert(p.take(head.len() as int) =~= head);
    if let Some(section) = skills::prompt_section(skills) {
        let base = base_prompt(workdir, os, windows);
        let back = if plan_mode {
            plan_section()
        } else {
            Seq::empty()
        };
        assert(p =~= base + section + back);
        text::law_occurrence_splits(p, section, base, back);
    }
}

/// The model is offered all tools of the machine, the todo list, and skills last where there are
/// any.
pub proof fn law_all_tools_are_offered(skills: Seq<SkillView>)
    ensures
        tool_set(skills).len() == if skills.len() == 0 {
            7int
        } else {
            8
        },
        tool_set(skills).take(6) == tools::tool_list(),
        schema::tool_name(tool_set(skills)[6]) == Some("todo_write"@),
        skills.len() > 0 ==> schema::tool_name(tool_set(skills)[7]) == Some("load_skill"@),
{
    tools::law_these_tools_are_offered();
    assert(tool_set(skills).take(6) =~= tools::tool_list());
    assert forall|n: Seq<char>, d: Seq<char>, p: JsonView|
        schema::tool_name(#[trigger] schema::function_tool(n, d, p)) == Some(n) by {
        schema::lemma_tool_name(n, d, p);
    }
}

/// The system prompt tells the environment, what the model can do and the rules it works by; then
/// the skills where there are any, each with its line; and last, exactly in plan mode, what is
/// allowed and forbidden there.
pub proof fn law_prompt_has_its_parts(
    workdir: Seq<char>,
    os: Seq<char>,
    windows: bool,
    skills: Seq<SkillView>,
    plan_mode: bool,
)
    ensures
        ({
            let head = "You are an expert coding agent working in: "@ + workdir
                + "\nOperating system: "@ + os + "\nShell environment: "@ + shell_hint(windows);
            let rules =
                "\n\nYour capabilities:\n- Execute shell commands (bash tool — note: maps to cmd.exe on Windows)\n- Read, write, and edit files\n- Search code with grep_search (uses ripgrep, falls back to PowerShell Select-String on Windows)\n- List directory contents\n- Track tasks with todo_write\n\nRules:\n1. Use tools to accomplish tasks. Don't just explain — act.\n2. Read files before editing to understand context.\n3. For multi-step tasks, use todo_write to track progress.\n4. Prefer small, targeted edits over full file rewrites.\n5. Verify your changes work (e.g., run tests, check syntax).\n6. Be concise in your responses. Show results, not explanations.\n7. Match shell syntax to the OS above. Do not invent paths from other operating systems."@;
            let listed = if skills.len() == 0 {
                Seq::<char>::empty()
            } else {
                "\n\n## Available skills\n"@
                    + "You have access to the following skills. Each skill is a saved instruction set you can load on demand by calling the `load_skill` tool with its name. After loading, follow the returned instructions for the rest of the task.\n\n"@
                    + skills::skill_lines(skills)
            };
            let plan = if plan_mode {
                "\n\n## Mode: PLAN\nYou are in PLAN mode. Investigate the codebase first, then propose a numbered, Markdown-formatted plan of the work you would do.\n- Allowed: read_file, list_directory, grep_search, load_skill, todo_write\n- Forbidden: bash, write_file, edit_file (these tools will be blocked and return errors)\nDo not modify anything. End your response with: \"Switch off plan mode (Shift+Tab or /plan) to execute.\""@
            } else {
                Seq::<char>::empty()
            };
            prompt(workdir, os, windows, skills, plan_mode) == head + rules + listed + plan
        }),
{
}

} // verus!
