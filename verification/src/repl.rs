//! The lines that the user types, and what is shown in answer.
use vstd::prelude::*;
use vstd::string::*;

use crate::context;
use crate::context::{estimate_tokens, token_threshold};
use crate::llm_client;
use crate::llm_client::{LlmConfig, Message, MessageView};
use crate::rounds;
use crate::rounds::AgentRun;
use crate::skills;
use crate::skills::{SkillRegistry, SkillView};
use crate::text;
use crate::text::same_text;
use crate::todo_manager;
use crate::todo_manager::TodoManager;

verus! {

// ---------------------------------------------------------------------------
// Commands
// ---------------------------------------------------------------------------

/// What a line asks for.
#[derive(Clone, Copy, Debug, PartialEq, Eq, Structural)]
pub enum Command {
    Quit,
    Blank,
    Help,
    Compact,
    Todos,
    Tokens,
    Clear,
    Skills,
    Plan,
    /// The line is meant for the model.
    Say,
}

/// The command that a line asks for, once it is trimmed and in lower case.
pub open spec fn command_of(stripped: Seq<char>) -> Command {
    if stripped == "q"@ || stripped == "exit"@ || stripped == "quit"@ {
        Command::Quit
    } else if stripped.len() == 0 {
        Command::Blank
    } else if stripped == "/help"@ {
        Command::Help
    } else if stripped == "/compact"@ {
        Command::Compact
    } else if stripped == "/todos"@ {
        Command::Todos
    } else if stripped == "/tokens"@ {
        Command::Tokens
    } else if stripped == "/clear"@ {
        Command::Clear
    } else if stripped == "/skills"@ {
        Command::Skills
    } else if stripped == "/plan"@ {
        Command::Plan
    } else {
        Command::Say
    }
}

/// Tells what a trimmed line in lower case asks for.
pub fn classify(stripped: &str) -> (r: Command)
    ensures
        r == command_of(stripped@),
{
    if same_text(stripped, "q") || same_text(stripped, "exit") || same_text(stripped, "quit") {
        Command::Quit
    } else if stripped.is_empty() {
        Command::Blank
    } else if same_text(stripped, "/help") {
        Command::Help
    } else if same_text(stripped, "/compact") {
        Command::Compact
    } else if same_text(stripped, "/todos") {
        Command::Todos
    } else if same_text(stripped, "/tokens") {
        Command::Tokens
    } else if same_text(stripped, "/clear") {
        Command::Clear
    } else if same_text(stripped, "/skills") {
        Command::Skills
    } else if same_text(stripped, "/plan") {
        Command::Plan
    } else {
        Command::Say
    }
}

/// Tells what a line asks for, whatever the case of its letters and the white space around it.
pub fn read_command(line: &str) -> (r: Command)
    ensures
        r == command_of(text::lowercased(text::trimmed(line@))),
        text::is_ascii(text::trimmed(line@)) ==> r == command_of(
            text::ascii_lowered(text::trimmed(line@)),
        ),
{
    let lowered = text::to_lowercase(text::trim(line));
    classify(lowered.as_str())
}

/// Whether a line that asks for something is one to come back to.
pub open spec fn worth_keeping(command: Command) -> bool {
    command != Command::Quit && command != Command::Blank
}

/// Whether a line is kept in the history of lines.
pub fn is_kept(command: Command) -> (r: bool)
    ensures
        r == worth_keeping(command),
{
    command != Command::Quit && command != Command::Blank
}

// ---------------------------------------------------------------------------
// Texts
// ---------------------------------------------------------------------------

/// The help.
pub open spec fn help() -> Seq<char> {
    "\n\x1b[1mLocal Agent - Commands\x1b[0m\n  /compact   Force context compression\n  /todos     Show current todo list\n  /tokens    Show estimated token usage\n  /skills    List loaded skills\n  /plan      Toggle plan mode (alias for Shift+Tab)\n  /clear     Clear conversation history\n  /help      Show this help\n  q / exit   Quit\n\n  Shift+Tab  Toggle plan mode (read-only investigation; bash/write/edit blocked)\n"@
}

/// The prompt before a line.
pub open spec fn prompt_text(plan_mode: bool) -> Seq<char> {
    if plan_mode {
        "\x1b[35m[PLAN]\x1b[0m \x1b[36m>>> \x1b[0m"@
    } else {
        "\x1b[36m>>> \x1b[0m"@
    }
}

/// Gives the prompt before a line.
pub fn make_prompt(plan_mode: bool) -> (r: String)
    ensures
        r@ == prompt_text(plan_mode),
{
    if plan_mode {
        "\x1b[35m[PLAN]\x1b[0m \x1b[36m>>> \x1b[0m".to_owned()
    } else {
        "\x1b[36m>>> \x1b[0m".to_owned()
    }
}

/// What is said of plan mode.
pub open spec fn plan_text(on: bool) -> Seq<char> {
    "\x1b[35m[plan mode: "@ + (if on {
        "ON"@
    } else {
        "OFF"@
    }) + "]\x1b[0m"@
}

/// Switches plan mode: what it was becomes what it is, and what is said of it.
pub fn toggle_plan(was_on: bool) -> (r: (bool, String))
    ensures
        r.0 == !was_on,
        r.1@ == plan_text(!was_on),
{
    let now_on = !was_on;
    let mut s = "\x1b[35m[plan mode: ".to_owned();
    if now_on {
        s.append("ON");
    } else {
        s.append("OFF");
    }
    s.append("]\x1b[0m");
    (now_on, s)
}

/// What is shown when plan mode is switched by a key: the line under way is wiped first.
pub fn toggle_plan_by_key(was_on: bool) -> (r: (bool, String))
    ensures
        r.0 == !was_on,
        r.1@ == "\r\x1b[2K"@ + plan_text(!was_on) + "\n"@,
{
    let (now_on, notice) = toggle_plan(was_on);
    let mut s = "\r\x1b[2K".to_owned();
    s.append(notice.as_str());
    s.append("\n");
    (now_on, s)
}

/// The lines that greet the user.
pub open spec fn greeting(
    workdir: Seq<char>,
    model: Seq<char>,
    server: Seq<char>,
    skills: nat,
) -> Seq<Seq<char>> {
    let first = seq![
        "\x1b[1;36mLocal Agent\x1b[0m @ "@ + workdir,
        "Model: "@ + model + " | Server: "@ + server,
    ];
    (if skills == 0 {
        first
    } else {
        first.push("Skills: "@ + text::decimal(skills) + " loaded (use /skills to list)"@)
    }).push("Type /help for commands, q to quit. Shift+Tab toggles plan mode.\n"@)
}

/// Gives the lines that greet the user.
pub fn banner(workdir: &str, config: &LlmConfig, skills: &SkillRegistry) -> (r: Vec<String>)
    ensures
        text::strings(r@) == greeting(
            workdir@,
            config.model@,
            config.base_url@,
            skills@.len(),
        ),
{
    let mut out: Vec<String> = Vec::new();
    let mut s = "\x1b[1;36mLocal Agent\x1b[0m @ ".to_owned();
    s.append(workdir);
    out.push(s);
    let mut s = "Model: ".to_owned();
    s.append(config.model.as_str());
    s.append(" | Server: ");
    s.append(config.base_url.as_str());
    out.push(s);
    if !skills.is_empty() {
        let mut s = "Skills: ".to_owned();
        s.append(text::decimal_text(skills.list().len() as u128).as_str());
        s.append(" loaded (use /skills to list)");
        out.push(s);
    }
    out.push("Type /help for commands, q to quit. Shift+Tab toggles plan mode.\n".to_owned());
    assert(text::strings(out@) =~= greeting(
        workdir@,
        config.model@,
        config.base_url@,
        skills@.len(),
    ));
    out
}

/// The lines that list the skills.
pub open spec fn skill_rows(skills: Seq<SkillView>) -> Seq<Seq<char>> {
    Seq::new(
        skills.len(),
        |i: int| "  \x1b[35m"@ + skills[i].name + "\x1b[0m: "@ + skills[i].description,
    )
}

/// What is shown of the skills.
pub open spec fn skills_text(skills: Seq<SkillView>) -> Seq<char> {
    if skills.len() == 0 {
        "No skills loaded. Place SKILL.md files under ./skills/<name>/ next to the binary."@
    } else {
        text::joined(skill_rows(skills), "\n"@)
    }
}

fn list_skills(skills: &SkillRegistry) -> (r: String)
    ensures
        r@ == skills_text(skills@),
{
    if skills.is_empty() {
        return "No skills loaded. Place SKILL.md files under ./skills/<name>/ next to the binary.".to_owned();
    }
    let all = skills.list();
    let ghost views = skills::skill_views(all@);
    let mut rows: Vec<String> = Vec::new();
    let mut i: usize = 0;
    while i < all.len()
        invariant
            i <= all@.len(),
            views == skills::skill_views(all@),
            rows@.len() == i,
            forall|k: int| 0 <= k < i ==> (#[trigger] rows@[k])@ == skill_rows(views)[k],
        decreases all.len() - i,
    {
        let mut s = "  \x1b[35m".to_owned();
        s.append(all[i].name.as_str());
        s.append("\x1b[0m: ");
        s.append(all[i].description.as_str());
        rows.push(s);
        i += 1;
    }
    assert(text::strings(rows@) =~= skill_rows(views));
    text::join(rows.as_slice(), "\n")
}

/// What is shown of the size of a conversation.
pub open spec fn tokens_text(tokens: nat, context_tokens: nat) -> Seq<char> {
    "Estimated tokens: ~"@ + text::decimal(tokens) + " (threshold: "@ + text::decimal(
        context_tokens * 6 / 10,
    ) + ")"@
}

fn show_tokens(history: &Vec<Message>, context_tokens: u32) -> (r: String)
    ensures
        r@ == tokens_text(
            context::tokens(llm_client::message_views(history@)),
            context_tokens as nat,
        ),
{
    let mut s = "Estimated tokens: ~".to_owned();
    s.append(text::decimal_text(estimate_tokens(history.as_slice()) as u128).as_str());
    s.append(" (threshold: ");
    s.append(text::decimal_text(token_threshold(context_tokens) as u128).as_str());
    s.append(")");
    s
}

// ---------------------------------------------------------------------------
// Answers
// ---------------------------------------------------------------------------

/// What follows a line.
#[derive(Debug)]
pub enum Reaction {
    /// Say this and end.
    Quit(String),
    /// Wait for another line.
    Nothing,
    /// Say this and wait for another line.
    Print(String),
    /// Say this, and begin the conversation anew with a summary.
    Compact(String),
    /// Switch plan mode.
    TogglePlan,
    /// Let the model answer.
    Ask,
}

/// What a [`Reaction`] stands for.
pub enum ReactionView {
    Quit(Seq<char>),
    Nothing,
    Print(Seq<char>),
    Compact(Seq<char>),
    TogglePlan,
    Ask,
}

impl View for Reaction {
    type V = ReactionView;

    open spec fn view(&self) -> ReactionView {
        match *self {
            Reaction::Quit(s) => ReactionView::Quit(s@),
            Reaction::Nothing => ReactionView::Nothing,
            Reaction::Print(s) => ReactionView::Print(s@),
            Reaction::Compact(s) => ReactionView::Compact(s@),
            Reaction::TogglePlan => ReactionView::TogglePlan,
            Reaction::Ask => ReactionView::Ask,
        }
    }
}

/// What follows a command, and the conversation after it.
pub open spec fn reacted(
    command: Command,
    line: Seq<char>,
    history: Seq<MessageView>,
    todo: Seq<todo_manager::TodoView>,
    skills: Seq<SkillView>,
    context_tokens: nat,
) -> (ReactionView, Seq<MessageView>) {
    match command {
        Command::Quit => (ReactionView::Quit("Bye!"@), history),
        Command::Blank => (ReactionView::Nothing, history),
        Command::Help => (ReactionView::Print(help()), history),
        Command::Compact => if history.len() == 0 {
            (ReactionView::Print("Nothing to compact."@), history)
        } else {
            (ReactionView::Compact("\x1b[90m[manual compact]\x1b[0m"@), history)
        },
        Command::Todos => (ReactionView::Print(todo_manager::rendered(todo)), history),
        Command::Tokens => (
            ReactionView::Print(tokens_text(context::tokens(history), context_tokens)),
            history,
        ),
        Command::Clear => (ReactionView::Print("Conversation cleared."@), Seq::empty()),
        Command::Skills => (ReactionView::Print(skills_text(skills)), history),
        Command::Plan => (ReactionView::TogglePlan, history),
        Command::Say => (
            ReactionView::Ask,
            history.push(MessageView::plain("user"@, text::trimmed(line))),
        ),
    }
}

/// Carries out a command, as far as it needs nothing from outside.
pub fn react(
    command: Command,
    line: &str,
    history: &mut Vec<Message>,
    todo: &TodoManager,
    skills: &SkillRegistry,
    context_tokens: u32,
) -> (r: Reaction)
    ensures
        (r@, llm_client::message_views(final(history)@)) == reacted(
            command,
            line@,
            llm_client::message_views(old(history)@),
            todo@,
            skills@,
            context_tokens as nat,
        ),
{
    let ghost before = history@;
    match command {
        Command::Quit => Reaction::Quit("Bye!".to_owned()),
        Command::Blank => Reaction::Nothing,
        Command::Help => Reaction::Print(
            "\n\x1b[1mLocal Agent - Commands\x1b[0m\n  /compact   Force context compression\n  /todos     Show current todo list\n  /tokens    Show estimated token usage\n  /skills    List loaded skills\n  /plan      Toggle plan mode (alias for Shift+Tab)\n  /clear     Clear conversation history\n  /help      Show this help\n  q / exit   Quit\n\n  Shift+Tab  Toggle plan mode (read-only investigation; bash/write/edit blocked)\n".to_owned(),
        ),
        Command::Compact => {
            if history.len() == 0 {
                Reaction::Print("Nothing to compact.".to_owned())
            } else {
                Reaction::Compact("\x1b[90m[manual compact]\x1b[0m".to_owned())
            }
        },
        Command::Todos => Reaction::Print(todo.render()),
        Command::Tokens => Reaction::Print(show_tokens(history, context_tokens)),
        Command::Clear => {
            history.clear();
            assert(llm_client::message_views(history@) =~= Seq::empty());
            Reaction::Print("Conversation cleared.".to_owned())
        },
        Command::Skills => Reaction::Print(list_skills(skills)),
        Command::Plan => Reaction::TogglePlan,
        Command::Say => {
            let m = Message::user(text::trim(line));
            history.push(m);
            assert(llm_client::message_views(history@) =~= llm_client::message_views(before).push(
                m@,
            ));
            Reaction::Ask
        },
    }
}

/// The conversation that the arguments of the program begin; there is none where it has no
/// arguments.
pub open spec fn first_words(args: Seq<Seq<char>>) -> Option<Seq<MessageView>> {
    if args.len() == 0 {
        None
    } else {
        Some(seq![MessageView::plain("user"@, text::joined(args, " "@))])
    }
}

/// Sets the agent to work on what the arguments of the program ask for. There is no user to
/// switch plan mode, so it is off in every round.
pub fn one_shot(args: &[String]) -> (r: Option<AgentRun>)
    ensures
        match r {
            Some(run) => {
                &&& first_words(text::strings(args@)) == Some(run@.messages)
                &&& run@.todo == Seq::<todo_manager::TodoView>::empty()
                &&& run@.rounds == 0
                &&& run@.stage is Start
                &&& rounds::is_unattended(run@)
            },
            None => first_words(text::strings(args@)) is None,
        },
{
    if args.len() == 0 {
        return None;
    }
    let query = text::join(args, " ");
    let mut history: Vec<Message> = Vec::new();
    history.push(Message::user(query.as_str()));
    assert(llm_client::message_views(history@)
        =~= seq![MessageView::plain("user"@, text::joined(text::strings(args@), " "@))]);
    Some(AgentRun::unattended(history))
}

// ---------------------------------------------------------------------------
// Laws
// ---------------------------------------------------------------------------

/// Only `/clear` and lines for the model change the conversation, and a line for the model is
/// added at its end.
pub proof fn law_commands_keep_history(
    command: Command,
    line: Seq<char>,
    history: Seq<MessageView>,
    todo: Seq<todo_manager::TodoView>,
    skills: Seq<SkillView>,
    context_tokens: nat,
)
    ensures
        ({
            let after = reacted(command, line, history, todo, skills, context_tokens).1;
            &&& command != Command::Clear && command != Command::Say ==> after == history
            &&& command == Command::Say ==> after.drop_last() == history
        }),
{
    let m = MessageView::plain("user"@, text::trimmed(line));
    assert(history.push(m).drop_last() =~= history);
}

/// A conversation that was cleared has nothing to compact.
pub proof fn law_cleared_history_is_empty(
    line: Seq<char>,
    history: Seq<MessageView>,
    todo: Seq<todo_manager::TodoView>,
    skills: Seq<SkillView>,
    context_tokens: nat,
)
    ensures
        ({
            let after = reacted(Command::Clear, line, history, todo, skills, context_tokens).1;
            reacted(Command::Compact, line, after, todo, skills, context_tokens).0
                == ReactionView::Print("Nothing to compact."@)
        }),
{
}

/// A command leaves a conversation in which every call has its result, and every result its call,
/// as one of that kind. So is the one that the arguments of the program begin.
pub proof fn law_commands_leave_all_answered(
    command: Command,
    line: Seq<char>,
    history: Seq<MessageView>,
    todo: Seq<todo_manager::TodoView>,
    skills: Seq<SkillView>,
    context_tokens: nat,
    args: Seq<Seq<char>>,
)
    requires
        rounds::all_answered(history),
    ensures
        rounds::all_answered(reacted(command, line, history, todo, skills, context_tokens).1),
        first_words(args) matches Some(messages) ==> rounds::all_answered(messages),
{
    reveal_strlit("tool");
    reveal_strlit("user");
    assert("user"@[0] != "tool"@[0]);
    rounds::lemma_push_plain(history, MessageView::plain("user"@, text::trimmed(line)));
    let m = MessageView::plain("user"@, text::joined(args, " "@));
    rounds::lemma_push_plain(Seq::empty(), m);
    assert(seq![m] =~= Seq::empty().push(m));
}

/// A line asks for what it says, in these words and no others; all other lines are for the model.
pub proof fn law_commands_are_these_words(s: Seq<char>)
    ensures
        command_of(s) == Command::Quit <==> s == "q"@ || s == "exit"@ || s == "quit"@,
        command_of(s) == Command::Blank <==> s.len() == 0,
        command_of(s) == Command::Help <==> s == "/help"@,
        command_of(s) == Command::Compact <==> s == "/compact"@,
        command_of(s) == Command::Todos <==> s == "/todos"@,
        command_of(s) == Command::Tokens <==> s == "/tokens"@,
        command_of(s) == Command::Clear <==> s == "/clear"@,
        command_of(s) == Command::Skills <==> s == "/skills"@,
        command_of(s) == Command::Plan <==> s == "/plan"@,
{
    reveal_strlit("q");
    reveal_strlit("exit");
    reveal_strlit("quit");
    reveal_strlit("/help");
    reveal_strlit("/compact");
    reveal_strlit("/todos");
    reveal_strlit("/tokens");
    reveal_strlit("/clear");
    reveal_strlit("/skills");
    reveal_strlit("/plan");
    assert("q"@[0] == 'q');
    assert("exit"@[0] == 'e');
    assert("quit"@[0] == 'q');
    assert("/help"@[0] == '/' && "/help"@[1] == 'h');
    assert("/compact"@[0] == '/' && "/compact"@[2] == 'o' && "/compact"@[1] == 'c');
    assert("/todos"@[0] == '/' && "/todos"@[1] == 't' && "/todos"@.len() == 6);
    assert("/tokens"@[0] == '/' && "/tokens"@[1] == 't' && "/tokens"@.len() == 7);
    assert("/clear"@[0] == '/' && "/clear"@[2] == 'l' && "/clear"@[1] == 'c');
    assert("/skills"@[0] == '/' && "/skills"@[1] == 's');
    assert("/plan"@[0] == '/' && "/plan"@[1] == 'p');
}

/// A line for the model is put at the end of the conversation as a message of the user, without
/// the white space around it, and the model is asked. `/clear` leaves an empty conversation.
pub proof fn law_lines_reach_the_model(
    line: Seq<char>,
    history: Seq<MessageView>,
    todo: Seq<todo_manager::TodoView>,
    skills: Seq<SkillView>,
    context_tokens: nat,
)
    ensures
        ({
            let (r, after) = reacted(Command::Say, line, history, todo, skills, context_tokens);
            &&& r is Ask
            &&& after.len() == history.len() + 1
            &&& after.drop_last() == history
            &&& after.last().role == "user"@
            &&& after.last().content == Some(text::trimmed(line))
        }),
        reacted(Command::Clear, line, history, todo, skills, context_tokens).1.len() == 0,
{
    let m = MessageView::plain("user"@, text::trimmed(line));
    assert(history.push(m).drop_last() =~= history);
}

/// Every other command has its own answer: the list, the size of the conversation, the skills, the
/// help, or what it sets going.
pub proof fn law_commands_have_their_answers(
    line: Seq<char>,
    history: Seq<MessageView>,
    todo: Seq<todo_manager::TodoView>,
    skills: Seq<SkillView>,
    context_tokens: nat,
)
    ensures
        ({
            let answer = |c: Command| reacted(c, line, history, todo, skills, context_tokens).0;
            &&& answer(Command::Quit) == ReactionView::Quit("Bye!"@)
            &&& answer(Command::Blank) is Nothing
            &&& answer(Command::Help) is Print
            &&& answer(Command::Compact) is Compact <==> history.len() > 0
            &&& history.len() == 0 ==> answer(Command::Compact) == ReactionView::Print(
                "Nothing to compact."@,
            )
            &&& answer(Command::Todos) == ReactionView::Print(todo_manager::rendered(todo))
            &&& answer(Command::Tokens) == ReactionView::Print(
                "Estimated tokens: ~"@ + text::decimal(context::tokens(history)) + " (threshold: "@
                    + text::decimal(context_tokens * 6 / 10) + ")"@,
            )
            &&& answer(Command::Clear) == ReactionView::Print("Conversation cleared."@)
            &&& answer(Command::Plan) is TogglePlan
        }),
{
}

/// The skills are listed with one line for each, in their order, which shows its name and its
/// description.
pub proof fn law_skills_are_listed(
    line: Seq<char>,
    history: Seq<MessageView>,
    todo: Seq<todo_manager::TodoView>,
    skills: Seq<SkillView>,
    context_tokens: nat,
    rows: Seq<Seq<char>>,
)
    requires
        rows.len() == skills.len(),
        forall|i: int|
            0 <= i < rows.len() ==> #[trigger] rows[i] == "  \x1b[35m"@ + skills[i].name
                + "\x1b[0m: "@ + skills[i].description,
    ensures
        ({
            let r = reacted(Command::Skills, line, history, todo, skills, context_tokens).0;
            &&& skills.len() > 0 ==> r == ReactionView::Print(text::joined(rows, "\n"@))
            &&& skills.len() == 0 ==> r == ReactionView::Print(
                "No skills loaded. Place SKILL.md files under ./skills/<name>/ next to the binary."@,
            )
        }),
{
    assert(skill_rows(skills) =~= rows);
}

/// The arguments of the program are one request of the user, with a space between neighbours.
pub proof fn law_arguments_are_one_request(args: Seq<Seq<char>>)
    ensures
        first_words(args) is None <==> args.len() == 0,
        args.len() > 0 ==> {
            let m = first_words(args)->Some_0;
            &&& m.len() == 1
            &&& m[0].role == "user"@
            &&& m[0].content == Some(text::joined(args, " "@))
        },
{
}

/// The user is greeted with the workspace, the model and the server, and with the number of skills
/// where there are any.
pub proof fn law_greeting_tells_the_setting(
    workdir: Seq<char>,
    model: Seq<char>,
    server: Seq<char>,
    skills: nat,
)
    ensures
        ({
            let g = greeting(workdir, model, server, skills);
            &&& g.len() == if skills == 0 {
                3int
            } else {
                4
            }
            &&& g[0] == "\x1b[1;36mLocal Agent\x1b[0m @ "@ + workdir
            &&& g[1] == "Model: "@ + model + " | Server: "@ + server
            &&& skills > 0 ==> g[2] == "Skills: "@ + text::decimal(skills)
                + " loaded (use /skills to list)"@
        }),
{
}

/// All lines are kept but those that are empty and the one that ends the program.
pub proof fn law_lines_are_kept(stripped: Seq<char>)
    ensures
        worth_keeping(command_of(stripped)) <==> stripped.len() > 0 && stripped != "q"@ && stripped
            != "exit"@ && stripped != "quit"@,
{
    law_commands_are_these_words(stripped);
}

/// The prompt before a line and the notice of a switch tell whether plan mode is on.
pub proof fn law_plan_mode_is_shown()
    ensures
        prompt_text(true) == "\x1b[35m[PLAN]\x1b[0m "@ + prompt_text(false),
        prompt_text(false) == "\x1b[36m>>> \x1b[0m"@,
        plan_text(true) == "\x1b[35m[plan mode: "@ + "ON"@ + "]\x1b[0m"@,
        plan_text(false) == "\x1b[35m[plan mode: "@ + "OFF"@ + "]\x1b[0m"@,
{
    reveal_strlit("\x1b[35m[PLAN]\x1b[0m \x1b[36m>>> \x1b[0m");
    reveal_strlit("\x1b[35m[PLAN]\x1b[0m ");
    reveal_strlit("\x1b[36m>>> \x1b[0m");
    assert(prompt_text(true) =~= "\x1b[35m[PLAN]\x1b[0m "@ + prompt_text(false));
}

} // verus!
