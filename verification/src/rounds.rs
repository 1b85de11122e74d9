//! The loop of the agent: compaction, a request to the model, its tool calls, and again, until
//! the model calls no tool any longer.
use vstd::prelude::*;
use vstd::string::*;

use crate::agent;
use crate::agent::{
    announcement, finish_warning, preview, system_prompt, with_system_prompt, CallStep, CallStepView,
    Turn, TurnView,
};
use crate::context;
use crate::context::{auto_compact, fresh_context, maybe_compact, Compaction};
use crate::json;
use crate::llm_client;
use crate::llm_client::{Message, MessageView, StreamState, StreamView, ToolCallView};
use crate::skills::{SkillRegistry, SkillView};
use crate::text;
use crate::todo_manager;
use crate::todo_manager::{TodoManager, TodoView};
use crate::tool_call_stream;
use crate::tools;
use crate::tools::{StepView, ToolStep};

verus! {

// ---------------------------------------------------------------------------
// State
// ---------------------------------------------------------------------------

/// What stays the same through all rounds.
#[derive(Debug)]
pub struct Setting {
    pub workdir: String,
    pub os: String,
    pub windows: bool,
    /// The number of tokens that a reply may take.
    pub max_tokens: u32,
    /// The number of tokens that the model can take in.
    pub context_tokens: u32,
}

/// What a [`Setting`] stands for.
pub struct SettingView {
    pub workdir: Seq<char>,
    pub os: Seq<char>,
    pub windows: bool,
    pub max_tokens: nat,
    pub context_tokens: nat,
}

impl View for Setting {
    type V = SettingView;

    open spec fn view(&self) -> SettingView {
        SettingView {
            workdir: self.workdir@,
            os: self.os@,
            windows: self.windows,
            max_tokens: self.max_tokens as nat,
            context_tokens: self.context_tokens as nat,
        }
    }
}

/// What the agent waits for.
#[derive(Debug)]
enum Stage {
    /// A new round.
    Start,
    /// The summary of the conversation.
    Compacting { in_plan: bool },
    /// The reply of the model.
    Waiting { in_plan: bool },
    /// The output of a tool.
    Calling { turn: Turn },
    /// Nothing: the model is done.
    Finished,
}

/// What a stage stands for.
pub enum StageView {
    Start,
    Compacting { in_plan: bool },
    Waiting { in_plan: bool },
    Calling { turn: TurnView },
    Finished,
}

impl Stage {
    spec fn shape(self) -> StageView {
        match self {
            Stage::Start => StageView::Start,
            Stage::Compacting { in_plan } => StageView::Compacting { in_plan },
            Stage::Waiting { in_plan } => StageView::Waiting { in_plan },
            Stage::Calling { turn } => StageView::Calling { turn: turn@ },
            Stage::Finished => StageView::Finished,
        }
    }
}

/// The agent at work on a conversation.
#[derive(Debug)]
pub struct AgentRun {
    messages: Vec<Message>,
    todo: TodoManager,
    rounds: u32,
    stage: Stage,
    interactive: bool,
}

/// What an [`AgentRun`] stands for.
pub struct AgentView {
    pub messages: Seq<MessageView>,
    pub todo: Seq<TodoView>,
    /// How many rounds have passed without a use of the todo list.
    pub rounds: nat,
    pub stage: StageView,
    /// Whether a user is there who can switch plan mode. Without one it is always off.
    pub interactive: bool,
}

impl View for AgentRun {
    type V = AgentView;

    closed spec fn view(&self) -> AgentView {
        AgentView {
            messages: llm_client::message_views(self.messages@),
            todo: self.todo@,
            rounds: self.rounds as nat,
            stage: self.stage.shape(),
            interactive: self.interactive,
        }
    }
}

// ---------------------------------------------------------------------------
// Events and actions
// ---------------------------------------------------------------------------

/// What happens to the agent.
pub enum AgentEvent {
    /// A round begins, in plan mode or not, at a time in seconds.
    Begin { in_plan: bool, seconds: u64 },
    /// The conversation was saved at a path and summarized.
    Compacted { path: String, summary: String },
    /// The model has replied.
    Replied(StreamState),
    /// A tool has an output.
    CallDone { output: String },
}

/// What an [`AgentEvent`] stands for.
pub enum HappeningView {
    Begin { in_plan: bool, seconds: nat },
    Compacted { path: Seq<char>, summary: Seq<char> },
    Replied(StreamView),
    CallDone { output: Seq<char> },
}

impl View for AgentEvent {
    type V = HappeningView;

    open spec fn view(&self) -> HappeningView {
        match *self {
            AgentEvent::Begin { in_plan, seconds } => HappeningView::Begin {
                in_plan,
                seconds: seconds as nat,
            },
            AgentEvent::Compacted { path, summary } => HappeningView::Compacted {
                path: path@,
                summary: summary@,
            },
            AgentEvent::Replied(s) => HappeningView::Replied(s@),
            AgentEvent::CallDone { output } => HappeningView::CallDone { output: output@ },
        }
    }
}

/// What the agent needs next.
#[derive(Debug)]
pub enum AgentAction {
    /// Save and summarize the conversation.
    Compact(Compaction),
    /// Send these messages to the model.
    Chat(Vec<Message>),
    /// Carry out a tool.
    Tool(ToolStep),
    /// Begin another round.
    Round,
    /// Nothing more.
    Finish,
}

/// What an [`AgentAction`] stands for.
pub enum ActionView {
    Compact(CompactionView),
    Chat(Seq<MessageView>),
    Tool(StepView),
    Round,
    Finish,
}

/// What a [`Compaction`] stands for.
pub struct CompactionView {
    pub file_name: Seq<char>,
    pub transcript: Seq<char>,
    pub conversation: Seq<char>,
    pub notice: Seq<char>,
}

/// What is saved and summarized of a conversation at a time.
pub open spec fn compaction_of(messages: Seq<MessageView>, seconds: nat) -> CompactionView {
    CompactionView {
        file_name: context::transcript_name(seconds),
        transcript: context::transcript(messages),
        conversation: text::clipped(llm_client::conversation_json(messages), 80_000),
        notice: context::compressed_notice(context::transcript_name(seconds)),
    }
}

impl View for AgentAction {
    type V = ActionView;

    open spec fn view(&self) -> ActionView {
        match *self {
            AgentAction::Compact(c) => ActionView::Compact(
                CompactionView {
                    file_name: c.file_name@,
                    transcript: c.transcript@,
                    conversation: c.conversation@,
                    notice: c.notice@,
                },
            ),
            AgentAction::Chat(m) => ActionView::Chat(llm_client::message_views(m@)),
            AgentAction::Tool(t) => ActionView::Tool(t@),
            AgentAction::Round => ActionView::Round,
            AgentAction::Finish => ActionView::Finish,
        }
    }
}

/// A line for the user.
#[derive(Debug)]
pub enum Line {
    /// A line for the standard output.
    Plain(String),
    /// A line for the error output.
    Warning(String),
}

/// What a [`Line`] stands for.
pub enum LineView {
    Plain(Seq<char>),
    Warning(Seq<char>),
}

impl View for Line {
    type V = LineView;

    open spec fn view(&self) -> LineView {
        match *self {
            Line::Plain(s) => LineView::Plain(s@),
            Line::Warning(s) => LineView::Warning(s@),
        }
    }
}

/// What some lines stand for.
pub open spec fn line_views(lines: Seq<Line>) -> Seq<LineView> {
    Seq::new(lines.len(), |i: int| lines[i]@)
}

/// How the agent has gone on: its state, what the user is shown, and what it needs next.
pub struct Progress {
    pub state: AgentView,
    pub lines: Seq<LineView>,
    pub action: ActionView,
}

// ---------------------------------------------------------------------------
// What the agent does
// ---------------------------------------------------------------------------

/// The messages of a request: the system prompt of the round, then the conversation.
pub open spec fn request_messages(
    setting: SettingView,
    skills: Seq<SkillView>,
    in_plan: bool,
    messages: Seq<MessageView>,
) -> Seq<MessageView> {
    seq![
        MessageView::plain(
            "system"@,
            agent::prompt(setting.workdir, setting.os, setting.windows, skills, in_plan),
        ),
    ] + messages
}

/// The agent sends the conversation to the model.
pub open spec fn asking(
    state: AgentView,
    setting: SettingView,
    skills: Seq<SkillView>,
    in_plan: bool,
    lines: Seq<LineView>,
) -> Progress {
    Progress {
        state: AgentView { stage: StageView::Waiting { in_plan }, ..state },
        lines,
        action: ActionView::Chat(request_messages(setting, skills, in_plan, state.messages)),
    }
}

/// What is shown of a call, before it is carried out.
pub open spec fn call_lines(
    call: llm_client::ParsedCallView,
    step: CallStepView,
) -> Seq<LineView> {
    let first = seq![LineView::Plain(agent::announced(call.name, call.arguments))];
    match step {
        CallStepView::Blocked(output) => first.push(
            LineView::Plain("\x1b[31m[blocked: plan mode]\x1b[0m"@),
        ).push(LineView::Plain(agent::previewed(call.name, output))),
        CallStepView::Done(output) => first.push(
            LineView::Plain(agent::previewed(call.name, output)),
        ),
        CallStepView::Tool(_) => first,
    }
}

/// The agent carries out the calls of a turn, one after the other, as far as it can by itself.
/// After the last one it ends the turn.
pub open spec fn proceeding(
    state: AgentView,
    turn: TurnView,
    skills: Seq<SkillView>,
    lines: Seq<LineView>,
) -> Progress
    decreases turn.calls.len() - turn.next,
{
    if turn.next >= turn.calls.len() {
        let rounds = agent::rounds_after(state.rounds, turn.used_todo);
        Progress {
            state: AgentView {
                messages: agent::with_reminder(state.messages, state.todo, rounds),
                rounds,
                stage: StageView::Start,
                ..state
            },
            lines,
            action: ActionView::Round,
        }
    } else {
        let call = turn.calls[turn.next as int];
        let (step, todo) = agent::begun(call, turn.in_plan, state.todo, skills);
        let shown = lines + call_lines(call, step);
        match step {
            CallStepView::Tool(tool) => Progress {
                state: AgentView { todo, stage: StageView::Calling { turn }, ..state },
                lines: shown,
                action: ActionView::Tool(tool),
            },
            CallStepView::Blocked(output) => proceeding(
                AgentView {
                    todo,
                    messages: state.messages.push(turn.result_message(output)),
                    ..state
                },
                turn.after_call(),
                skills,
                shown,
            ),
            CallStepView::Done(output) => proceeding(
                AgentView {
                    todo,
                    messages: state.messages.push(turn.result_message(output)),
                    ..state
                },
                turn.after_call(),
                skills,
                shown,
            ),
        }
    }
}

/// What the user is shown of a reply: a line end behind its text, warnings about its tool calls,
/// and why it ended early.
pub open spec fn reply_lines(reply: StreamView, max_tokens: nat) -> Seq<LineView> {
    let first: Seq<LineView> = if reply.printed_anything {
        seq![LineView::Plain(Seq::empty())]
    } else {
        Seq::empty()
    };
    let warnings = tool_call_stream::warnings(reply.slots);
    let warned = first + Seq::new(warnings.len(), |i: int| LineView::Warning(warnings[i]));
    match agent::finish_notice(reply.finish_reason, max_tokens) {
        Some(s) => warned.push(LineView::Warning(s)),
        None => warned,
    }
}

impl AgentView {
    /// Whether an event can happen to the agent now.
    pub open spec fn accepts(self, event: HappeningView) -> bool {
        match event {
            HappeningView::Begin { .. } => self.stage is Start,
            HappeningView::Compacted { .. } => self.stage is Compacting,
            HappeningView::Replied(_) => self.stage is Waiting && self.rounds < u32::MAX,
            HappeningView::CallDone { .. } => self.stage is Calling && self.rounds < u32::MAX
                && self.stage->Calling_turn.next < self.stage->Calling_turn.calls.len(),
        }
    }

    /// How the agent goes on after an event.
    pub open spec fn next(
        self,
        event: HappeningView,
        setting: SettingView,
        skills: Seq<SkillView>,
    ) -> Progress {
        match event {
            HappeningView::Begin { in_plan: asked, seconds } => {
                let in_plan = asked && self.interactive;
                let messages = context::microcompacted(
                    self.messages,
                    context::kept(context::is_near(self.messages, setting.context_tokens)),
                );
                let state = AgentView { messages, ..self };
                if context::tokens(messages) > setting.context_tokens * 6 / 10 {
                    Progress {
                        state: AgentView { stage: StageView::Compacting { in_plan }, ..state },
                        lines: seq![LineView::Warning("\x1b[90m[auto-compact triggered]\x1b[0m"@)],
                        action: ActionView::Compact(compaction_of(messages, seconds)),
                    }
                } else {
                    asking(state, setting, skills, in_plan, Seq::empty())
                }
            },
            HappeningView::Compacted { path, summary } => asking(
                AgentView { messages: context::fresh(path, summary), ..self },
                setting,
                skills,
                self.stage->Compacting_in_plan,
                Seq::empty(),
            ),
            HappeningView::Replied(reply) => {
                let result = reply.result();
                let lines = reply_lines(reply, setting.max_tokens);
                let state = AgentView {
                    messages: self.messages.push(agent::reply_message(result)),
                    ..self
                };
                match result.tool_calls {
                    Some(calls) => proceeding(
                        state,
                        TurnView {
                            calls,
                            next: 0,
                            in_plan: self.stage->Waiting_in_plan,
                            used_todo: false,
                        },
                        skills,
                        lines,
                    ),
                    None => Progress {
                        state: AgentView { stage: StageView::Finished, ..state },
                        lines,
                        action: ActionView::Finish,
                    },
                }
            },
            HappeningView::CallDone { output } => {
                let turn = self.stage->Calling_turn;
                let name = turn.calls[turn.next as int].name;
                proceeding(
                    AgentView { messages: self.messages.push(turn.result_message(output)), ..self },
                    turn.after_call(),
                    skills,
                    seq![LineView::Plain(agent::previewed(name, output))],
                )
            },
        }
    }
}

fn request(
    messages: &Vec<Message>,
    setting: &Setting,
    skills: &SkillRegistry,
    in_plan: bool,
) -> (r: Vec<Message>)
    ensures
        llm_client::message_views(r@) == request_messages(
            setting@,
            skills@,
            in_plan,
            llm_client::message_views(messages@),
        ),
{
    let prompt = system_prompt(
        setting.workdir.as_str(),
        setting.os.as_str(),
        setting.windows,
        skills,
        in_plan,
    );
    with_system_prompt(prompt.as_str(), messages.as_slice())
}

/// What a step of the agent stands for.
pub open spec fn progress(r: (AgentRun, Vec<Line>, AgentAction)) -> Progress {
    Progress { state: r.0@, lines: line_views(r.1@), action: r.2@ }
}

fn show(lines: &mut Vec<Line>, line: Line)
    ensures
        line_views(final(lines)@) == line_views(old(lines)@).push(line@),
{
    let ghost before = lines@;
    lines.push(line);
    assert(line_views(lines@) =~= line_views(before).push(line@));
}

impl AgentRun {
    /// The agent before the first round on a conversation with a user.
    pub fn new(messages: Vec<Message>, todo: TodoManager) -> (r: AgentRun)
        ensures
            r@ == (AgentView {
                messages: llm_client::message_views(messages@),
                todo: todo@,
                rounds: 0,
                stage: StageView::Start,
                interactive: true,
            }),
    {
        AgentRun { messages, todo, rounds: 0, stage: Stage::Start, interactive: true }
    }

    /// The agent before the first round on a conversation without a user, in which plan mode is
    /// always off.
    pub fn unattended(messages: Vec<Message>) -> (r: AgentRun)
        ensures
            r@ == (AgentView {
                messages: llm_client::message_views(messages@),
                todo: Seq::empty(),
                rounds: 0,
                stage: StageView::Start,
                interactive: false,
            }),
    {
        AgentRun {
            messages,
            todo: TodoManager::new(),
            rounds: 0,
            stage: Stage::Start,
            interactive: false,
        }
    }

    /// The conversation and the todo list.
    pub fn into_parts(self) -> (r: (Vec<Message>, TodoManager))
        ensures
            llm_client::message_views(r.0@) == self@.messages,
            r.1@ == self@.todo,
    {
        (self.messages, self.todo)
    }

    /// Whether an event can happen to the agent now.
    pub fn accepts(&self, event: &AgentEvent) -> (r: bool)
        ensures
            r == self@.accepts(event@),
    {
        match (event, &self.stage) {
            (AgentEvent::Begin { .. }, Stage::Start) => true,
            (AgentEvent::Compacted { .. }, Stage::Compacting { .. }) => true,
            (AgentEvent::Replied(_), Stage::Waiting { .. }) => self.rounds < u32::MAX,
            (AgentEvent::CallDone { .. }, Stage::Calling { turn }) => self.rounds < u32::MAX
                && turn.call().is_some(),
            _ => false,
        }
    }

    fn ask(
        messages: Vec<Message>,
        todo: TodoManager,
        rounds: u32,
        interactive: bool,
        setting: &Setting,
        skills: &SkillRegistry,
        in_plan: bool,
    ) -> (r: (AgentRun, Vec<Line>, AgentAction))
        ensures
            forall|stage: StageView|
                progress(r) == #[trigger] asking(
                    (AgentView {
                        messages: llm_client::message_views(messages@),
                        todo: todo@,
                        rounds: rounds as nat,
                        stage,
                        interactive,
                    }),
                    setting@,
                    skills@,
                    in_plan,
                    Seq::empty(),
                ),
    {
        let full = request(&messages, setting, skills, in_plan);
        let run = AgentRun { messages, todo, rounds, stage: Stage::Waiting { in_plan }, interactive };
        let lines: Vec<Line> = Vec::new();
        assert(line_views(lines@) =~= Seq::empty());
        (run, lines, AgentAction::Chat(full))
    }

    fn proceed(
        history: Vec<Message>,
        list: TodoManager,
        rounds: u32,
        interactive: bool,
        opened: Turn,
        skills: &SkillRegistry,
        shown: Vec<Line>,
        Ghost(stage): Ghost<StageView>,
    ) -> (r: (AgentRun, Vec<Line>, AgentAction))
        requires
            rounds < u32::MAX,
        ensures
            progress(r) == proceeding(
                (AgentView {
                    messages: llm_client::message_views(history@),
                    todo: list@,
                    rounds: rounds as nat,
                    stage,
                    interactive,
                }),
                opened@,
                skills@,
                line_views(shown@),
            ),
    {
        let mut messages = history;
        let mut todo = list;
        let mut turn = opened;
        let mut lines = shown;
        loop
            invariant
                rounds < u32::MAX,
                proceeding(
                    (AgentView {
                        messages: llm_client::message_views(history@),
                        todo: list@,
                        rounds: rounds as nat,
                        stage,
                        interactive,
                    }),
                    opened@,
                    skills@,
                    line_views(shown@),
                ) == proceeding(
                    (AgentView {
                        messages: llm_client::message_views(messages@),
                        todo: todo@,
                        rounds: rounds as nat,
                        stage,
                        interactive,
                    }),
                    turn@,
                    skills@,
                    line_views(lines@),
                ),
            decreases turn@.calls.len() - turn@.next,
        {
            let ghost before = line_views(lines@);
            let name = match turn.call() {
                Some(call) => {
                    let s = announcement(call.name.as_str(), &call.arguments);
                    show(&mut lines, Line::Plain(s));
                    call.name.clone()
                },
                None => {
                    let rounds = turn.close(&mut messages, rounds, &todo);
                    let run = AgentRun { messages, todo, rounds, stage: Stage::Start, interactive };
                    return (run, lines, AgentAction::Round);
                },
            };
            let ghost call = turn@.calls[turn@.next as int];
            let step = match turn.begin(&mut todo, skills) {
                Some(step) => step,
                None => CallStep::Done(String::new()),
            };
            let output = match step {
                CallStep::Tool(tool) => {
                    assert(line_views(lines@) =~= before + call_lines(
                        call,
                        CallStepView::Tool(tool@),
                    ));
                    let run = AgentRun { messages, todo, rounds, stage: Stage::Calling { turn }, interactive };
                    return (run, lines, AgentAction::Tool(tool));
                },
                CallStep::Blocked(output) => {
                    show(&mut lines, Line::Plain("\x1b[31m[blocked: plan mode]\x1b[0m".to_owned()));
                    output
                },
                CallStep::Done(output) => output,
            };
            show(&mut lines, Line::Plain(preview(name.as_str(), output.as_str())));
            assert(line_views(lines@) =~= before + call_lines(call, step@));
            turn = turn.record(&mut messages, output.as_str());
        }
    }

    /// Goes on after an event. Beside the agent come the lines for the user and what the agent
    /// needs next.
    pub fn step(self, event: AgentEvent, setting: &Setting, skills: &SkillRegistry) -> (r: (
        AgentRun,
        Vec<Line>,
        AgentAction,
    ))
        requires
            self@.accepts(event@),
        ensures
            progress(r) == self@.next(event@, setting@, skills@),
    {
        let ghost stage = self@.stage;
        let mut messages = self.messages;
        let todo = self.todo;
        let rounds = self.rounds;
        let interactive = self.interactive;
        match event {
            AgentEvent::Begin { in_plan: asked, seconds } => {
                let in_plan = asked && interactive;
                let over = maybe_compact(messages.as_mut_slice(), setting.context_tokens);
                if over {
                    let plan = auto_compact(messages.as_slice(), seconds);
                    let mut lines: Vec<Line> = Vec::new();
                    lines.push(
                        Line::Warning("\x1b[90m[auto-compact triggered]\x1b[0m".to_owned()),
                    );
                    assert(line_views(lines@)
                        =~= seq![LineView::Warning("\x1b[90m[auto-compact triggered]\x1b[0m"@)]);
                    let run = AgentRun {
                        messages,
                        todo,
                        rounds,
                        stage: Stage::Compacting { in_plan },
                        interactive,
                    };
                    (run, lines, AgentAction::Compact(plan))
                } else {
                    AgentRun::ask(messages, todo, rounds, interactive, setting, skills, in_plan)
                }
            },
            AgentEvent::Compacted { path, summary } => {
                let in_plan = match self.stage {
                    Stage::Compacting { in_plan } => in_plan,
                    _ => false,
                };
                let fresh = fresh_context(path.as_str(), summary.as_str());
                AgentRun::ask(fresh, todo, rounds, interactive, setting, skills, in_plan)
            },
            AgentEvent::Replied(reply) => {
                let in_plan = match self.stage {
                    Stage::Waiting { in_plan } => in_plan,
                    _ => false,
                };
                let ghost stream = reply@;
                let (result, warnings, printed) = reply.finish();
                let mut lines: Vec<Line> = Vec::new();
                if printed {
                    lines.push(Line::Plain(String::new()));
                }
                let ghost first = line_views(lines@);
                assert(first =~= if printed {
                    seq![LineView::Plain(Seq::empty())]
                } else {
                    Seq::<LineView>::empty()
                });
                let ghost said = text::strings(warnings@);
                let ghost listed = warnings@;
                for w in it: warnings
                    invariant
                        it.seq() == listed,
                        said == text::strings(listed),
                        line_views(lines@) == first + Seq::new(
                            it.index() as nat,
                            |i: int| LineView::Warning(said[i]),
                        ),
                {
                    let ghost n = it.index();
                    show(&mut lines, Line::Warning(w));
                    assert(line_views(lines@) =~= first + Seq::new(
                        (n + 1) as nat,
                        |i: int| LineView::Warning(said[i]),
                    ));
                }
                if let Some(s) = finish_warning(result.finish_reason.as_str(), setting.max_tokens) {
                    show(&mut lines, Line::Warning(s));
                }
                assert(line_views(lines@) =~= reply_lines(stream, setting.max_tokens as nat));
                match Turn::open(&mut messages, result, in_plan) {
                    Some(turn) => AgentRun::proceed(
                        messages,
                        todo,
                        rounds,
                        interactive,
                        turn,
                        skills,
                        lines,
                        Ghost(stage),
                    ),
                    None => {
                        let run = AgentRun { messages, todo, rounds, stage: Stage::Finished, interactive };
                        (run, lines, AgentAction::Finish)
                    },
                }
            },
            AgentEvent::CallDone { output } => {
                match self.stage {
                    Stage::Calling { turn } => {
                        let mut lines: Vec<Line> = Vec::new();
                        if let Some(call) = turn.call() {
                            lines.push(Line::Plain(preview(call.name.as_str(), output.as_str())));
                        }
                        assert(line_views(lines@) =~= seq![
                            LineView::Plain(
                                agent::previewed(turn@.calls[turn@.next as int].name, output@),
                            ),
                        ]);
                        let turn = turn.record(&mut messages, output.as_str());
                        AgentRun::proceed(
                            messages,
                            todo,
                            rounds,
                            interactive,
                            turn,
                            skills,
                            lines,
                            Ghost(stage),
                        )
                    },
                    _ => {
                        let run = AgentRun { messages, todo, rounds, stage: Stage::Finished, interactive };
                        (run, Vec::new(), AgentAction::Finish)
                    },
                }
            },
        }
    }
}

// ---------------------------------------------------------------------------
// Laws
// ---------------------------------------------------------------------------

/// Whether, from a place on, a conversation holds one result for each of some calls of a turn,
/// in their order and under their ids.
pub open spec fn holds_results(
    messages: Seq<MessageView>,
    from: int,
    turn: TurnView,
    count: int,
) -> bool {
    &&& from + count <= messages.len()
    &&& forall|i: int|
        0 <= i < count ==> {
            &&& (#[trigger] messages[from + i]).role == "tool"@
            &&& messages[from + i].tool_call_id == Some(turn.calls[turn.next + i].id)
        }
}

/// While the calls of a turn are carried out the conversation only grows, by one result for
/// each call that is done, in the order of the calls and under their ids. A round ends only after
/// the results of all calls.
pub proof fn law_results_follow_calls(
    state: AgentView,
    turn: TurnView,
    skills: Seq<SkillView>,
    lines: Seq<LineView>,
)
    requires
        turn.next <= turn.calls.len(),
    ensures
        ({
            let p = proceeding(state, turn, skills, lines);
            let start = state.messages.len() as int;
            &&& start <= p.state.messages.len()
            &&& p.state.messages.take(start) == state.messages
            &&& match p.action {
                ActionView::Tool(_) => {
                    let now = p.state.stage->Calling_turn;
                    &&& p.state.stage is Calling
                    &&& now.calls == turn.calls
                    &&& now.in_plan == turn.in_plan
                    &&& turn.next <= now.next < turn.calls.len()
                    &&& p.state.messages.len() == start + now.next - turn.next
                    &&& holds_results(p.state.messages, start, turn, now.next - turn.next)
                },
                ActionView::Round => {
                    &&& p.state.stage is Start
                    &&& holds_results(
                        p.state.messages,
                        start,
                        turn,
                        turn.calls.len() - turn.next,
                    )
                },
                _ => false,
            }
        }),
    decreases turn.calls.len() - turn.next,
{
    let p = proceeding(state, turn, skills, lines);
    let start = state.messages.len() as int;
    if turn.next >= turn.calls.len() {
        assert(p.state.messages.take(start) =~= state.messages);
    } else {
        let call = turn.calls[turn.next as int];
        let (step, todo) = agent::begun(call, turn.in_plan, state.todo, skills);
        let shown = lines + call_lines(call, step);
        if step is Tool {
            assert(p.state.messages.take(start) =~= state.messages);
        } else {
            let output = match step {
                CallStepView::Blocked(output) => output,
                CallStepView::Done(output) => output,
                CallStepView::Tool(_) => arbitrary(),
            };
            let grown = AgentView {
                todo,
                messages: state.messages.push(turn.result_message(output)),
                ..state
            };
            let later = turn.after_call();
            law_results_follow_calls(grown, later, skills, shown);
            let m = p.state.messages;
            assert(m.take(start + 1) == grown.messages);
            assert(m.take(start) =~= m.take(start + 1).take(start));
            assert(grown.messages.take(start) =~= state.messages);
            assert(m[start] == m.take(start + 1)[start]);
            let count = match p.action {
                ActionView::Tool(_) => p.state.stage->Calling_turn.next - turn.next,
                _ => turn.calls.len() - turn.next,
            };
            assert forall|i: int| 0 <= i < count implies {
                &&& (#[trigger] m[start + i]).role == "tool"@
                &&& m[start + i].tool_call_id == Some(turn.calls[turn.next + i].id)
            } by {
                if i > 0 {
                    assert(m[(start + 1) + (i - 1)].role == "tool"@);
                    assert(later.calls[later.next + (i - 1)] == turn.calls[turn.next + i]);
                }
            }
        }
    }
}

/// In a turn of plan mode the agent never asks for a tool that is on the way to writing a file
/// or runs a shell command.
pub proof fn law_plan_mode_turn_starts_no_writer(
    state: AgentView,
    turn: TurnView,
    skills: Seq<SkillView>,
    lines: Seq<LineView>,
)
    requires
        turn.in_plan,
    ensures
        match proceeding(state, turn, skills, lines).action {
            ActionView::Tool(StepView::Ask(request, task)) => !agent::may_write(task),
            _ => true,
        },
    decreases turn.calls.len() - turn.next,
{
    if turn.next < turn.calls.len() {
        let call = turn.calls[turn.next as int];
        let (step, todo) = agent::begun(call, turn.in_plan, state.todo, skills);
        let shown = lines + call_lines(call, step);
        if step is Blocked || step is Done {
            let output = match step {
                CallStepView::Blocked(output) => output,
                CallStepView::Done(output) => output,
                CallStepView::Tool(_) => arbitrary(),
            };
            let grown = AgentView {
                todo,
                messages: state.messages.push(turn.result_message(output)),
                ..state
            };
            law_plan_mode_turn_starts_no_writer(grown, turn.after_call(), skills, shown);
        }
    }
}

/// The agent ends exactly where the model calls no tool, and its last message is then the reply.
pub proof fn law_agent_ends_without_tool_calls(
    state: AgentView,
    reply: StreamView,
    setting: SettingView,
    skills: Seq<SkillView>,
)
    requires
        state.stage is Waiting,
    ensures
        ({
            let p = state.next(HappeningView::Replied(reply), setting, skills);
            &&& p.action is Finish <==> reply.slots.len() == 0
            &&& reply.slots.len() == 0 ==> p.state.messages == state.messages.push(
                agent::reply_message(reply.result()),
            )
        }),
{
    if reply.slots.len() > 0 {
        let turn = TurnView {
            calls: reply.result().tool_calls->Some_0,
            next: 0,
            in_plan: state.stage->Waiting_in_plan,
            used_todo: false,
        };
        let grown = AgentView {
            messages: state.messages.push(agent::reply_message(reply.result())),
            ..state
        };
        law_results_follow_calls(grown, turn, skills, reply_lines(reply, setting.max_tokens));
    }
}

/// A request is sent only with a conversation whose estimate is within the threshold of the
/// context, or with one that was begun anew with a summary.
pub proof fn law_requests_fit_the_context(
    state: AgentView,
    event: HappeningView,
    setting: SettingView,
    skills: Seq<SkillView>,
)
    requires
        state.accepts(event),
        state.next(event, setting, skills).action is Chat,
    ensures
        ({
            let p = state.next(event, setting, skills);
            ||| context::tokens(p.state.messages) <= setting.context_tokens * 6 / 10
            ||| event is Compacted && p.state.messages == context::fresh(
                event->Compacted_path,
                event->Compacted_summary,
            )
        }),
{
    match event {
        HappeningView::Replied(reply) => {
            law_agent_ends_without_tool_calls(state, reply, setting, skills);
            if reply.slots.len() > 0 {
                let turn = TurnView {
                    calls: reply.result().tool_calls->Some_0,
                    next: 0,
                    in_plan: state.stage->Waiting_in_plan,
                    used_todo: false,
                };
                let grown = AgentView {
                    messages: state.messages.push(agent::reply_message(reply.result())),
                    ..state
                };
                law_results_follow_calls(
                    grown,
                    turn,
                    skills,
                    reply_lines(reply, setting.max_tokens),
                );
            }
        },
        HappeningView::CallDone { output } => {
            let turn = state.stage->Calling_turn;
            let name = turn.calls[turn.next as int].name;
            law_results_follow_calls(
                AgentView { messages: state.messages.push(turn.result_message(output)), ..state },
                turn.after_call(),
                skills,
                seq![LineView::Plain(agent::previewed(name, output))],
            );
        },
        _ => {},
    }
}

/// A round is in plan mode from its beginning to its end exactly where it began so, with a user
/// there: the prompt of its request and the turn of its tool calls go by it.
pub proof fn law_round_keeps_its_mode(
    state: AgentView,
    event: HappeningView,
    setting: SettingView,
    skills: Seq<SkillView>,
    in_plan: bool,
)
    requires
        state.accepts(event),
        match event {
            HappeningView::Begin { in_plan: asked, .. } => (asked && state.interactive) == in_plan,
            HappeningView::Compacted { .. } => state.stage->Compacting_in_plan == in_plan,
            HappeningView::Replied(_) => state.stage->Waiting_in_plan == in_plan,
            HappeningView::CallDone { .. } => state.stage->Calling_turn.in_plan == in_plan,
        },
    ensures
        ({
            let p = state.next(event, setting, skills);
            match p.state.stage {
                StageView::Compacting { in_plan: mode } => mode == in_plan,
                StageView::Waiting { in_plan: mode } => mode == in_plan && p.action
                    == ActionView::Chat(
                    request_messages(setting, skills, in_plan, p.state.messages),
                ),
                StageView::Calling { turn } => turn.in_plan == in_plan,
                _ => true,
            }
        }),
{
    match event {
        HappeningView::Replied(reply) => {
            if reply.slots.len() > 0 {
                let turn = TurnView {
                    calls: reply.result().tool_calls->Some_0,
                    next: 0,
                    in_plan,
                    used_todo: false,
                };
                let grown = AgentView {
                    messages: state.messages.push(agent::reply_message(reply.result())),
                    ..state
                };
                law_results_follow_calls(
                    grown,
                    turn,
                    skills,
                    reply_lines(reply, setting.max_tokens),
                );
            }
        },
        HappeningView::CallDone { output } => {
            let turn = state.stage->Calling_turn;
            let name = turn.calls[turn.next as int].name;
            law_results_follow_calls(
                AgentView { messages: state.messages.push(turn.result_message(output)), ..state },
                turn.after_call(),
                skills,
                seq![LineView::Plain(agent::previewed(name, output))],
            );
        },
        _ => {},
    }
}

/// Whether every message of a conversation has a role that requests have, and a content.
pub open spec fn can_be_sent(messages: Seq<MessageView>) -> bool {
    forall|i: int|
        0 <= i < messages.len() ==> llm_client::requested(#[trigger] messages[i]) is Some
            && messages[i].content is Some
}

proof fn lemma_push_can_be_sent(messages: Seq<MessageView>, m: MessageView)
    requires
        can_be_sent(messages),
        m.role == "user"@ || m.role == "tool"@ || m.role == "assistant"@ || m.role == "system"@,
        m.content is Some,
    ensures
        can_be_sent(messages.push(m)),
{
    let all = messages.push(m);
    assert forall|i: int| 0 <= i < all.len() implies llm_client::requested(#[trigger] all[i]) is Some
        && all[i].content is Some by {
        if i < messages.len() {
            assert(all[i] == messages[i]);
        }
    }
}

proof fn lemma_proceeding_can_be_sent(
    state: AgentView,
    turn: TurnView,
    skills: Seq<SkillView>,
    lines: Seq<LineView>,
)
    requires
        can_be_sent(state.messages),
    ensures
        can_be_sent(proceeding(state, turn, skills, lines).state.messages),
        !(proceeding(state, turn, skills, lines).action is Chat),
    decreases turn.calls.len() - turn.next,
{
    if turn.next >= turn.calls.len() {
        lemma_push_can_be_sent(state.messages, agent::reminder());
    } else {
        let call = turn.calls[turn.next as int];
        let (step, todo) = agent::begun(call, turn.in_plan, state.todo, skills);
        let shown = lines + call_lines(call, step);
        if !(step is Tool) {
            let output = match step {
                CallStepView::Blocked(output) => output,
                CallStepView::Done(output) => output,
                CallStepView::Tool(_) => arbitrary(),
            };
            lemma_push_can_be_sent(state.messages, turn.result_message(output));
            let grown = AgentView {
                todo,
                messages: state.messages.push(turn.result_message(output)),
                ..state
            };
            lemma_proceeding_can_be_sent(grown, turn.after_call(), skills, shown);
        }
    }
}

/// The agent keeps its conversation in a form that can be sent, whatever happens: every message
/// has a role that requests have, and a content. So has every message that it sends.
pub proof fn law_conversation_can_always_be_sent(
    state: AgentView,
    event: HappeningView,
    setting: SettingView,
    skills: Seq<SkillView>,
)
    requires
        state.accepts(event),
        can_be_sent(state.messages),
    ensures
        ({
            let p = state.next(event, setting, skills);
            &&& can_be_sent(p.state.messages)
            &&& p.action matches ActionView::Chat(messages) ==> can_be_sent(messages)
        }),
{
    let p = state.next(event, setting, skills);
    let empty = Seq::<MessageView>::empty();
    match event {
        HappeningView::Begin { .. } => {
            let keep = context::kept(context::is_near(state.messages, setting.context_tokens));
            let after = context::microcompacted(state.messages, keep);
            assert forall|i: int| 0 <= i < after.len() implies llm_client::requested(
                #[trigger] after[i],
            ) is Some && after[i].content is Some by {
                assert(llm_client::requested(state.messages[i]) is Some);
            }
        },
        HappeningView::Compacted { path, summary } => {
            let fresh = context::fresh(path, summary);
            assert(can_be_sent(fresh)) by {
                lemma_push_can_be_sent(empty, fresh[0]);
                lemma_push_can_be_sent(empty.push(fresh[0]), fresh[1]);
                assert(fresh =~= empty.push(fresh[0]).push(fresh[1]));
            }
        },
        HappeningView::Replied(reply) => {
            let m = agent::reply_message(reply.result());
            lemma_push_can_be_sent(state.messages, m);
            if reply.slots.len() > 0 {
                let turn = TurnView {
                    calls: reply.result().tool_calls->Some_0,
                    next: 0,
                    in_plan: state.stage->Waiting_in_plan,
                    used_todo: false,
                };
                let grown = AgentView { messages: state.messages.push(m), ..state };
                lemma_proceeding_can_be_sent(
                    grown,
                    turn,
                    skills,
                    reply_lines(reply, setting.max_tokens),
                );
            }
        },
        HappeningView::CallDone { output } => {
            let turn = state.stage->Calling_turn;
            let name = turn.calls[turn.next as int].name;
            lemma_push_can_be_sent(state.messages, turn.result_message(output));
            lemma_proceeding_can_be_sent(
                AgentView { messages: state.messages.push(turn.result_message(output)), ..state },
                turn.after_call(),
                skills,
                seq![LineView::Plain(agent::previewed(name, output))],
            );
        },
    }
    if let ActionView::Chat(messages) = p.action {
        let first = messages[0];
        assert(messages =~= empty.push(first) + p.state.messages);
        lemma_push_can_be_sent(empty, first);
        assert forall|i: int| 0 <= i < messages.len() implies llm_client::requested(
            #[trigger] messages[i],
        ) is Some && messages[i].content is Some by {
            if i == 0 {
                assert(empty.push(first)[0] == first);
            } else {
                assert(messages[i] == p.state.messages[i - 1]);
            }
        }
    }
}

/// The tool calls of a message. Only the model calls tools.
pub open spec fn calls_of(m: MessageView) -> Seq<ToolCallView> {
    match m.tool_calls {
        Some(calls) => if m.role == "assistant"@ {
            calls
        } else {
            Seq::empty()
        },
        None => Seq::empty(),
    }
}

/// Whether the result of a call of the message at a place stands where it belongs: behind the
/// results of the calls before it, under the id of the call.
pub open spec fn has_result(messages: Seq<MessageView>, i: int, j: int) -> bool {
    &&& i + 1 + j < messages.len()
    &&& messages[i + 1 + j].role == "tool"@
    &&& messages[i + 1 + j].tool_call_id == Some(calls_of(messages[i])[j].id)
}

/// Whether all calls of the message at a place have their results.
pub open spec fn is_answered(messages: Seq<MessageView>, i: int) -> bool {
    forall|j: int| 0 <= j < calls_of(messages[i]).len() ==> #[trigger] has_result(messages, i, j)
}

/// Whether every result of a conversation stands at the place of a result of some call.
pub open spec fn has_no_stray_result(messages: Seq<MessageView>) -> bool {
    forall|k: int|
        0 <= k < messages.len() && (#[trigger] messages[k]).role == "tool"@ ==> exists|i: int|
            0 <= i < k && k <= i + calls_of(#[trigger] messages[i]).len()
}

/// Whether every message with calls is followed at once by one result for each call, in their
/// order and under their ids, and there are no other results.
pub open spec fn all_answered(messages: Seq<MessageView>) -> bool {
    &&& forall|i: int| 0 <= i < messages.len() ==> #[trigger] is_answered(messages, i)
    &&& has_no_stray_result(messages)
}

/// Whether a conversation ends with the message of a turn and the results of those of its calls
/// that are done, and all is answered before it.
pub open spec fn ends_with_turn(messages: Seq<MessageView>, turn: TurnView) -> bool {
    let at = messages.len() - 1 - turn.next;
    &&& 0 <= at
    &&& turn.next <= turn.calls.len()
    &&& calls_of(messages[at]) == agent::message_calls(turn.calls)
    &&& forall|j: int| 0 <= j < turn.next ==> #[trigger] has_result(messages, at, j)
    &&& forall|i: int| 0 <= i < messages.len() && i != at ==> #[trigger] is_answered(messages, i)
    &&& has_no_stray_result(messages)
}

impl AgentView {
    /// Whether every call has its result. While a tool is at work the results of its call and of
    /// those behind it are still to come; at every other time none is.
    pub open spec fn is_paired(self) -> bool {
        match self.stage {
            StageView::Calling { turn } => turn.next < turn.calls.len() && ends_with_turn(
                self.messages,
                turn,
            ),
            _ => all_answered(self.messages),
        }
    }
}

/// A result that is in its place stays there when a message is added.
proof fn lemma_push_keeps_result(messages: Seq<MessageView>, m: MessageView, i: int, j: int)
    requires
        0 <= i < messages.len(),
        0 <= j,
        has_result(messages, i, j),
    ensures
        has_result(messages.push(m), i, j),
{
    assert(messages.push(m)[i] == messages[i]);
    assert(messages.push(m)[i + 1 + j] == messages[i + 1 + j]);
}

/// Messages that are answered stay so when a message is added.
proof fn lemma_push_keeps_answers(messages: Seq<MessageView>, m: MessageView, i: int)
    requires
        0 <= i < messages.len(),
        is_answered(messages, i),
    ensures
        is_answered(messages.push(m), i),
{
    let all = messages.push(m);
    assert(all[i] == messages[i]);
    assert forall|j: int| 0 <= j < calls_of(all[i]).len() implies #[trigger] has_result(all, i, j) by {
        assert(has_result(messages, i, j));
        lemma_push_keeps_result(messages, m, i, j);
    }
}

/// Where the added message is no stray result, there is none.
proof fn lemma_push_no_stray(messages: Seq<MessageView>, m: MessageView)
    requires
        has_no_stray_result(messages),
        m.role == "tool"@ ==> exists|i: int|
            0 <= i < messages.len() && messages.len() <= i + calls_of(#[trigger] messages[i]).len(),
    ensures
        has_no_stray_result(messages.push(m)),
{
    let all = messages.push(m);
    assert forall|k: int| 0 <= k < all.len() && (#[trigger] all[k]).role == "tool"@ implies exists|i:
        int| 0 <= i < k && k <= i + calls_of(#[trigger] all[i]).len() by {
        if k < messages.len() {
            assert(messages[k].role == "tool"@);
        }
        let i = choose|i: int| 0 <= i < k && k <= i + calls_of(#[trigger] messages[i]).len();
        assert(all[i] == messages[i]);
    }
}

/// A message that calls no tool and is no result leaves all answered.
pub proof fn lemma_push_plain(messages: Seq<MessageView>, m: MessageView)
    requires
        all_answered(messages),
        calls_of(m).len() == 0,
        m.role != "tool"@,
    ensures
        all_answered(messages.push(m)),
{
    let all = messages.push(m);
    assert forall|i: int| 0 <= i < all.len() implies #[trigger] is_answered(all, i) by {
        if i < messages.len() {
            assert(is_answered(messages, i));
            lemma_push_keeps_answers(messages, m, i);
        }
    }
    lemma_push_no_stray(messages, m);
}

/// A message with calls begins a turn.
proof fn lemma_push_calls(messages: Seq<MessageView>, m: MessageView, turn: TurnView)
    requires
        all_answered(messages),
        turn.next == 0,
        calls_of(m) == agent::message_calls(turn.calls),
        m.role != "tool"@,
    ensures
        ends_with_turn(messages.push(m), turn),
{
    let all = messages.push(m);
    assert forall|i: int| 0 <= i < all.len() && i != messages.len() implies #[trigger] is_answered(
        all,
        i,
    ) by {
        assert(is_answered(messages, i));
        lemma_push_keeps_answers(messages, m, i);
    }
    lemma_push_no_stray(messages, m);
}

/// The result of the next call takes a turn one call further.
proof fn lemma_push_result(messages: Seq<MessageView>, turn: TurnView, output: Seq<char>)
    requires
        ends_with_turn(messages, turn),
        turn.next < turn.calls.len(),
    ensures
        ends_with_turn(messages.push(turn.result_message(output)), turn.after_call()),
{
    let m = turn.result_message(output);
    let all = messages.push(m);
    let at = messages.len() - 1 - turn.next;
    assert(all[at] == messages[at]);
    assert forall|j: int| 0 <= j < turn.next + 1 implies #[trigger] has_result(all, at, j) by {
        if j < turn.next {
            assert(has_result(messages, at, j));
            lemma_push_keeps_result(messages, m, at, j);
        } else {
            assert(calls_of(all[at])[j].id == turn.calls[j].id);
        }
    }
    assert forall|i: int| 0 <= i < all.len() && i != at implies #[trigger] is_answered(all, i) by {
        if i < messages.len() {
            assert(is_answered(messages, i));
            lemma_push_keeps_answers(messages, m, i);
        }
    }
    assert(messages.len() <= at + calls_of(messages[at]).len());
    lemma_push_no_stray(messages, m);
}

/// At the end of a turn all is answered.
proof fn lemma_turn_is_answered(messages: Seq<MessageView>, turn: TurnView)
    requires
        ends_with_turn(messages, turn),
        turn.next == turn.calls.len(),
    ensures
        all_answered(messages),
{
    let at = messages.len() - 1 - turn.next;
    assert forall|i: int| 0 <= i < messages.len() implies #[trigger] is_answered(messages, i) by {
        if i == at {
            assert forall|j: int| 0 <= j < calls_of(messages[i]).len() implies #[trigger] has_result(
                messages,
                i,
                j,
            ) by {}
        }
    }
}

proof fn lemma_proceeding_is_paired(
    state: AgentView,
    turn: TurnView,
    skills: Seq<SkillView>,
    lines: Seq<LineView>,
)
    requires
        ends_with_turn(state.messages, turn),
    ensures
        proceeding(state, turn, skills, lines).state.is_paired(),
        !(proceeding(state, turn, skills, lines).action is Chat),
    decreases turn.calls.len() - turn.next,
{
    if turn.next >= turn.calls.len() {
        reveal_strlit("tool");
        reveal_strlit("user");
        assert("user"@[0] != "tool"@[0]);
        lemma_turn_is_answered(state.messages, turn);
        lemma_push_plain(state.messages, agent::reminder());
    } else {
        let call = turn.calls[turn.next as int];
        let (step, todo) = agent::begun(call, turn.in_plan, state.todo, skills);
        let shown = lines + call_lines(call, step);
        if !(step is Tool) {
            let output = match step {
                CallStepView::Blocked(output) => output,
                CallStepView::Done(output) => output,
                CallStepView::Tool(_) => arbitrary(),
            };
            lemma_push_result(state.messages, turn, output);
            let grown = AgentView {
                todo,
                messages: state.messages.push(turn.result_message(output)),
                ..state
            };
            lemma_proceeding_is_paired(grown, turn.after_call(), skills, shown);
        }
    }
}

/// Clearing old results leaves all answered.
pub proof fn law_clearing_keeps_answers(messages: Seq<MessageView>, keep: nat)
    requires
        all_answered(messages),
    ensures
        all_answered(context::microcompacted(messages, keep)),
{
    let after = context::microcompacted(messages, keep);
    assert forall|i: int| 0 <= i < messages.len() implies calls_of(#[trigger] after[i]).len()
        == calls_of(messages[i]).len() && forall|j: int|
        0 <= j < calls_of(messages[i]).len() ==> (#[trigger] calls_of(after[i])[j]).id == calls_of(
            messages[i],
        )[j].id by {}
    assert forall|i: int| 0 <= i < after.len() implies #[trigger] is_answered(after, i) by {
        assert(is_answered(messages, i));
        assert forall|j: int| 0 <= j < calls_of(after[i]).len() implies #[trigger] has_result(
            after,
            i,
            j,
        ) by {
            assert(has_result(messages, i, j));
            assert(calls_of(after[i])[j].id == calls_of(messages[i])[j].id);
        }
    }
    assert forall|k: int| 0 <= k < after.len() && (#[trigger] after[k]).role == "tool"@ implies exists|
        i: int,
    | 0 <= i < k && k <= i + calls_of(#[trigger] after[i]).len() by {
        assert(messages[k].role == "tool"@);
        let i = choose|i: int| 0 <= i < k && k <= i + calls_of(#[trigger] messages[i]).len();
        assert(calls_of(after[i]).len() == calls_of(messages[i]).len());
    }
}

/// A conversation that begins with a summary has no call without a result and no result without
/// a call.
pub proof fn law_fresh_conversation_is_answered(path: Seq<char>, summary: Seq<char>)
    ensures
        all_answered(context::fresh(path, summary)),
{
    reveal_strlit("tool");
    reveal_strlit("user");
    reveal_strlit("assistant");
    assert("user"@[0] != "tool"@[0]);
    assert("assistant"@.len() != "tool"@.len());
    let fresh = context::fresh(path, summary);
    let empty = Seq::<MessageView>::empty();
    lemma_push_plain(empty, fresh[0]);
    lemma_push_plain(empty.push(fresh[0]), fresh[1]);
    assert(fresh =~= empty.push(fresh[0]).push(fresh[1]));
}

/// Every call of the model gets its result, whatever happens: behind a message with calls stand
/// at once the results of the calls, one each, in their order and under their ids. Only while a
/// tool is at work are results still to come, those of its call and of the calls behind it. What
/// is sent to the model is always complete.
pub proof fn law_every_call_gets_its_result(
    state: AgentView,
    event: HappeningView,
    setting: SettingView,
    skills: Seq<SkillView>,
)
    requires
        state.accepts(event),
        state.is_paired(),
    ensures
        ({
            let p = state.next(event, setting, skills);
            &&& p.state.is_paired()
            &&& p.action matches ActionView::Chat(messages) ==> all_answered(messages)
        }),
{
    reveal_strlit("tool");
    reveal_strlit("assistant");
    reveal_strlit("system");
    assert("assistant"@.len() != "tool"@.len());
    assert("system"@.len() != "tool"@.len());
    let p = state.next(event, setting, skills);
    match event {
        HappeningView::Begin { .. } => {
            law_clearing_keeps_answers(
                state.messages,
                context::kept(context::is_near(state.messages, setting.context_tokens)),
            );
        },
        HappeningView::Compacted { path, summary } => {
            law_fresh_conversation_is_answered(path, summary);
        },
        HappeningView::Replied(reply) => {
            let m = agent::reply_message(reply.result());
            match reply.result().tool_calls {
                Some(calls) => {
                    let turn = TurnView {
                        calls,
                        next: 0,
                        in_plan: state.stage->Waiting_in_plan,
                        used_todo: false,
                    };
                    lemma_push_calls(state.messages, m, turn);
                    lemma_proceeding_is_paired(
                        AgentView { messages: state.messages.push(m), ..state },
                        turn,
                        skills,
                        reply_lines(reply, setting.max_tokens),
                    );
                },
                None => {
                    lemma_push_plain(state.messages, m);
                },
            }
        },
        HappeningView::CallDone { output } => {
            let turn = state.stage->Calling_turn;
            let name = turn.calls[turn.next as int].name;
            lemma_push_result(state.messages, turn, output);
            lemma_proceeding_is_paired(
                AgentView { messages: state.messages.push(turn.result_message(output)), ..state },
                turn.after_call(),
                skills,
                seq![LineView::Plain(agent::previewed(name, output))],
            );
        },
    }
    if p.action is Chat {
        let prompt = agent::prompt(
            setting.workdir,
            setting.os,
            setting.windows,
            skills,
            p.state.stage->Waiting_in_plan,
        );
        lemma_prompt_keeps_answers(MessageView::plain("system"@, prompt), p.state.messages);
    }
}

/// A message in front that calls no tool and is no result leaves all answered.
proof fn lemma_prompt_keeps_answers(first: MessageView, messages: Seq<MessageView>)
    requires
        all_answered(messages),
        calls_of(first).len() == 0,
        first.role != "tool"@,
    ensures
        all_answered(seq![first] + messages),
{
    let all = seq![first] + messages;
    assert forall|i: int| 0 <= i < all.len() implies #[trigger] is_answered(all, i) by {
        if i > 0 {
            assert(is_answered(messages, i - 1));
            assert forall|j: int| 0 <= j < calls_of(all[i]).len() implies #[trigger] has_result(
                all,
                i,
                j,
            ) by {
                assert(has_result(messages, i - 1, j));
                assert(all[i + 1 + j] == messages[i - 1 + 1 + j]);
            }
        }
    }
    assert forall|k: int| 0 <= k < all.len() && (#[trigger] all[k]).role == "tool"@ implies exists|i:
        int| 0 <= i < k && k <= i + calls_of(#[trigger] all[i]).len() by {
        assert(messages[k - 1].role == "tool"@);
        let i = choose|i: int|
            0 <= i < k - 1 && k - 1 <= i + calls_of(#[trigger] messages[i]).len();
        assert(all[i + 1] == messages[i]);
    }
}

/// The agent after some events, one after the other.
pub open spec fn after_events(
    state: AgentView,
    events: Seq<HappeningView>,
    setting: SettingView,
    skills: Seq<SkillView>,
) -> AgentView
    decreases events.len(),
{
    if events.len() == 0 {
        state
    } else {
        after_events(state, events.drop_last(), setting, skills).next(
            events.last(),
            setting,
            skills,
        ).state
    }
}

/// Whether some events can happen to the agent, one after the other.
pub open spec fn accepts_all(
    state: AgentView,
    events: Seq<HappeningView>,
    setting: SettingView,
    skills: Seq<SkillView>,
) -> bool
    decreases events.len(),
{
    events.len() == 0 || {
        &&& accepts_all(state, events.drop_last(), setting, skills)
        &&& after_events(state, events.drop_last(), setting, skills).accepts(events.last())
    }
}

/// Through a whole run on a conversation in which all is answered every call gets its result.
/// Where the agent waits for no tool, all is answered again, and the conversation can be handed
/// to another run.
pub proof fn law_run_answers_every_call(
    state: AgentView,
    events: Seq<HappeningView>,
    setting: SettingView,
    skills: Seq<SkillView>,
)
    requires
        state.stage is Start,
        all_answered(state.messages),
        accepts_all(state, events, setting, skills),
    ensures
        ({
            let now = after_events(state, events, setting, skills);
            &&& now.is_paired()
            &&& !(now.stage is Calling) ==> all_answered(now.messages)
        }),
    decreases events.len(),
{
    if events.len() > 0 {
        law_run_answers_every_call(state, events.drop_last(), setting, skills);
        law_every_call_gets_its_result(
            after_events(state, events.drop_last(), setting, skills),
            events.last(),
            setting,
            skills,
        );
    }
}

/// Whether an agent has no user and is not in plan mode.
pub open spec fn is_unattended(state: AgentView) -> bool {
    !state.interactive && match state.stage {
        StageView::Compacting { in_plan } => !in_plan,
        StageView::Waiting { in_plan } => !in_plan,
        StageView::Calling { turn } => !turn.in_plan,
        _ => true,
    }
}

proof fn lemma_proceeding_keeps_user(
    state: AgentView,
    turn: TurnView,
    skills: Seq<SkillView>,
    lines: Seq<LineView>,
)
    ensures
        proceeding(state, turn, skills, lines).state.interactive == state.interactive,
    decreases turn.calls.len() - turn.next,
{
    if turn.next < turn.calls.len() {
        let call = turn.calls[turn.next as int];
        let (step, todo) = agent::begun(call, turn.in_plan, state.todo, skills);
        let shown = lines + call_lines(call, step);
        if !(step is Tool) {
            let output = match step {
                CallStepView::Blocked(output) => output,
                CallStepView::Done(output) => output,
                CallStepView::Tool(_) => arbitrary(),
            };
            let grown = AgentView {
                todo,
                messages: state.messages.push(turn.result_message(output)),
                ..state
            };
            lemma_proceeding_keeps_user(grown, turn.after_call(), skills, shown);
        }
    }
}

/// An agent without a user is never in plan mode, whatever its rounds are asked to begin with: it
/// stays without one, its rounds go by plan mode being off, and its prompts say nothing of it.
pub proof fn law_unattended_agent_is_never_in_plan_mode(
    state: AgentView,
    event: HappeningView,
    setting: SettingView,
    skills: Seq<SkillView>,
)
    requires
        state.accepts(event),
        is_unattended(state),
    ensures
        ({
            let p = state.next(event, setting, skills);
            &&& is_unattended(p.state)
            &&& p.action is Chat ==> p.action == ActionView::Chat(
                request_messages(setting, skills, false, p.state.messages),
            )
        }),
{
    law_round_keeps_its_mode(state, event, setting, skills, false);
    match event {
        HappeningView::Replied(reply) => {
            let turn = TurnView {
                calls: reply.result().tool_calls->Some_0,
                next: 0,
                in_plan: false,
                used_todo: false,
            };
            let grown = AgentView {
                messages: state.messages.push(agent::reply_message(reply.result())),
                ..state
            };
            let lines = reply_lines(reply, setting.max_tokens);
            lemma_proceeding_keeps_user(grown, turn, skills, lines);
            law_results_follow_calls(grown, turn, skills, lines);
        },
        HappeningView::CallDone { output } => {
            let turn = state.stage->Calling_turn;
            let name = turn.calls[turn.next as int].name;
            let grown = AgentView {
                messages: state.messages.push(turn.result_message(output)),
                ..state
            };
            let lines = seq![LineView::Plain(agent::previewed(name, output))];
            lemma_proceeding_keeps_user(grown, turn.after_call(), skills, lines);
            law_results_follow_calls(grown, turn.after_call(), skills, lines);
        },
        _ => {},
    }
}

/// While the calls of a turn are carried out, what stands in the conversation stays there.
proof fn lemma_turn_only_adds(
    state: AgentView,
    turn: TurnView,
    skills: Seq<SkillView>,
    lines: Seq<LineView>,
    i: int,
)
    requires
        turn.next <= turn.calls.len(),
        0 <= i < state.messages.len(),
    ensures
        i < proceeding(state, turn, skills, lines).state.messages.len(),
        proceeding(state, turn, skills, lines).state.messages[i] == state.messages[i],
{
    law_results_follow_calls(state, turn, skills, lines);
    let m = proceeding(state, turn, skills, lines).state.messages;
    assert(m.take(state.messages.len() as int)[i] == m[i]);
}

/// What a tool put out is given to the model as a whole: behind the conversation so far stands a
/// result with just that output, whatever its length, under the id of the call.
pub proof fn law_model_gets_the_whole_output(
    state: AgentView,
    output: Seq<char>,
    setting: SettingView,
    skills: Seq<SkillView>,
)
    requires
        state.accepts(HappeningView::CallDone { output }),
    ensures
        ({
            let p = state.next(HappeningView::CallDone { output }, setting, skills);
            let turn = state.stage->Calling_turn;
            let at = state.messages.len() as int;
            &&& at < p.state.messages.len()
            &&& p.state.messages.take(at) == state.messages
            &&& p.state.messages[at].role == "tool"@
            &&& p.state.messages[at].content == Some(output)
            &&& p.state.messages[at].tool_call_id == Some(turn.calls[turn.next as int].id)
        }),
{
    let turn = state.stage->Calling_turn;
    let name = turn.calls[turn.next as int].name;
    let grown = AgentView { messages: state.messages.push(turn.result_message(output)), ..state };
    let lines = seq![LineView::Plain(agent::previewed(name, output))];
    let at = state.messages.len() as int;
    lemma_turn_only_adds(grown, turn.after_call(), skills, lines, at);
    law_results_follow_calls(grown, turn.after_call(), skills, lines);
    let p = state.next(HappeningView::CallDone { output }, setting, skills);
    assert(p.state.messages.take(at) =~= p.state.messages.take(at + 1).take(at));
    assert(grown.messages.take(at) =~= state.messages);
}

/// A call that is answered at once gives the model the answer as a whole: what is said of a tool
/// that plan mode refuses, what the todo list says, or the skill.
pub proof fn law_model_gets_the_whole_answer(
    state: AgentView,
    turn: TurnView,
    skills: Seq<SkillView>,
    lines: Seq<LineView>,
)
    requires
        turn.next < turn.calls.len(),
    ensures
        ({
            let call = turn.calls[turn.next as int];
            let step = agent::begun(call, turn.in_plan, state.todo, skills).0;
            let p = proceeding(state, turn, skills, lines);
            let at = state.messages.len() as int;
            &&& !(step is Tool) ==> {
                &&& at < p.state.messages.len()
                &&& p.state.messages[at].role == "tool"@
                &&& p.state.messages[at].tool_call_id == Some(call.id)
            }
            &&& step is Blocked ==> p.state.messages[at].content == Some(step->Blocked_0)
            &&& step is Done ==> p.state.messages[at].content == Some(step->Done_0)
        }),
{
    let call = turn.calls[turn.next as int];
    let (step, todo) = agent::begun(call, turn.in_plan, state.todo, skills);
    let shown = lines + call_lines(call, step);
    if !(step is Tool) {
        let output = match step {
            CallStepView::Blocked(output) => output,
            CallStepView::Done(output) => output,
            CallStepView::Tool(_) => arbitrary(),
        };
        let grown = AgentView {
            todo,
            messages: state.messages.push(turn.result_message(output)),
            ..state
        };
        lemma_turn_only_adds(
            grown,
            turn.after_call(),
            skills,
            shown,
            state.messages.len() as int,
        );
    }
}

/// A reply is kept as a whole behind the conversation so far: its text, empty only where it has
/// none, and all its calls with their ids, names and arguments.
pub proof fn law_conversation_keeps_the_reply(
    state: AgentView,
    reply: StreamView,
    setting: SettingView,
    skills: Seq<SkillView>,
)
    requires
        state.accepts(HappeningView::Replied(reply)),
    ensures
        ({
            let p = state.next(HappeningView::Replied(reply), setting, skills);
            let at = state.messages.len() as int;
            let m = p.state.messages[at];
            &&& at < p.state.messages.len()
            &&& p.state.messages.take(at) == state.messages
            &&& m.role == "assistant"@
            &&& m.content == Some(reply.content)
            &&& m.tool_calls is Some <==> reply.slots.len() > 0
            &&& reply.slots.len() > 0 ==> {
                let calls = reply.result().tool_calls->Some_0;
                &&& m.tool_calls->Some_0.len() == reply.slots.len()
                &&& forall|i: int|
                    0 <= i < reply.slots.len() ==> {
                        &&& (#[trigger] m.tool_calls->Some_0[i]).id == calls[i].id
                        &&& m.tool_calls->Some_0[i].name == reply.slots[i].name
                        &&& m.tool_calls->Some_0[i].arguments == json::json_text(
                            calls[i].arguments,
                        )
                    }
            }
        }),
{
    let m = agent::reply_message(reply.result());
    agent::law_replies_are_kept_whole(reply.result());
    let at = state.messages.len() as int;
    let grown = AgentView { messages: state.messages.push(m), ..state };
    let p = state.next(HappeningView::Replied(reply), setting, skills);
    assert(m.content->Some_0 =~= reply.content);
    assert(grown.messages.take(at) =~= state.messages);
    if reply.slots.len() > 0 {
        let turn = TurnView {
            calls: reply.result().tool_calls->Some_0,
            next: 0,
            in_plan: state.stage->Waiting_in_plan,
            used_todo: false,
        };
        let lines = reply_lines(reply, setting.max_tokens);
        lemma_turn_only_adds(grown, turn, skills, lines, at);
        law_results_follow_calls(grown, turn, skills, lines);
        assert(p.state.messages.take(at) =~= p.state.messages.take(at + 1).take(at));
        tool_call_stream::law_every_call_has_an_id(reply.slots);
    }
}

/// A request is the system prompt of the round, and then the conversation as it stands.
pub proof fn law_requests_hold_the_conversation(
    state: AgentView,
    event: HappeningView,
    setting: SettingView,
    skills: Seq<SkillView>,
)
    requires
        state.accepts(event),
        state.next(event, setting, skills).action is Chat,
    ensures
        ({
            let p = state.next(event, setting, skills);
            let sent = p.action->Chat_0;
            &&& p.state.stage is Waiting
            &&& sent.len() == p.state.messages.len() + 1
            &&& sent.skip(1) == p.state.messages
            &&& sent[0].role == "system"@
            &&& sent[0].content == Some(
                agent::prompt(
                    setting.workdir,
                    setting.os,
                    setting.windows,
                    skills,
                    p.state.stage->Waiting_in_plan,
                ),
            )
        }),
{
    let p = state.next(event, setting, skills);
    law_agent_turns_send_nothing(state, event, setting, skills);
    assert(p.action->Chat_0.skip(1) =~= p.state.messages);
}

/// The model is not asked anything while the calls of its reply are carried out: only the beginning
/// of a round and a new beginning of the conversation lead to a request.
pub proof fn law_agent_turns_send_nothing(
    state: AgentView,
    event: HappeningView,
    setting: SettingView,
    skills: Seq<SkillView>,
)
    requires
        state.accepts(event),
        state.next(event, setting, skills).action is Chat,
    ensures
        event is Begin || event is Compacted,
{
    match event {
        HappeningView::Replied(reply) => {
            let turn = TurnView {
                calls: reply.result().tool_calls->Some_0,
                next: 0,
                in_plan: state.stage->Waiting_in_plan,
                used_todo: false,
            };
            let grown = AgentView {
                messages: state.messages.push(agent::reply_message(reply.result())),
                ..state
            };
            law_results_follow_calls(grown, turn, skills, reply_lines(reply, setting.max_tokens));
        },
        HappeningView::CallDone { output } => {
            let turn = state.stage->Calling_turn;
            let name = turn.calls[turn.next as int].name;
            law_results_follow_calls(
                AgentView { messages: state.messages.push(turn.result_message(output)), ..state },
                turn.after_call(),
                skills,
                seq![LineView::Plain(agent::previewed(name, output))],
            );
        },
        _ => {},
    }
}

/// A round begins with the clearing of old results, further near the threshold, and then either
/// sends the conversation or, exactly where it is above six tenths of the context, has it
/// summarized. The todo list and the count of rounds stay as they are.
pub proof fn law_rounds_begin_with_clearing(
    state: AgentView,
    in_plan: bool,
    seconds: nat,
    setting: SettingView,
    skills: Seq<SkillView>,
)
    requires
        state.stage is Start,
    ensures
        ({
            let p = state.next(HappeningView::Begin { in_plan, seconds }, setting, skills);
            let near = context::tokens(state.messages) > setting.context_tokens * 6 / 10 * 8 / 10;
            &&& near ==> p.state.messages == context::microcompacted(state.messages, 1)
            &&& !near ==> p.state.messages == context::microcompacted(state.messages, 3)
            &&& p.action is Chat || p.action is Compact
            &&& p.action is Compact <==> context::tokens(p.state.messages) > setting.context_tokens
                * 6 / 10
            &&& p.state.todo == state.todo
            &&& p.state.rounds == state.rounds
            &&& p.state.interactive == state.interactive
        }),
{
}

/// What is saved before a conversation is begun anew are all its messages, and what is summarized
/// is its JSON text, or as much at the front as fits into eighty thousand bytes. The file is named
/// after the time.
pub proof fn law_compaction_saves_the_conversation(
    state: AgentView,
    in_plan: bool,
    seconds: nat,
    setting: SettingView,
    skills: Seq<SkillView>,
)
    requires
        state.next(HappeningView::Begin { in_plan, seconds }, setting, skills).action is Compact,
    ensures
        ({
            let p = state.next(HappeningView::Begin { in_plan, seconds }, setting, skills);
            let c = p.action->Compact_0;
            let whole = llm_client::conversation_json(p.state.messages);
            &&& text::lines(c.transcript) == llm_client::message_jsons(p.state.messages)
            &&& text::byte_len(whole) <= 80_000 ==> c.conversation == whole
            &&& text::byte_len(whole) > 80_000 ==> exists|k: int|
                {
                    &&& 0 <= k < whole.len()
                    &&& text::byte_len(#[trigger] whole.take(k)) <= 80_000
                    &&& text::byte_len(whole.take(k + 1)) > 80_000
                    &&& c.conversation == whole.take(k)
                }
            &&& c.file_name == "transcript_"@ + text::decimal(seconds) + ".jsonl"@
            &&& c.notice == "\x1b[90m[context compressed → "@ + c.file_name + "]\x1b[0m"@
        }),
{
    let p = state.next(HappeningView::Begin { in_plan, seconds }, setting, skills);
    let whole = llm_client::conversation_json(p.state.messages);
    context::law_transcript_has_a_line_per_message(p.state.messages);
    text::law_clipped_is_front(whole, 80_000);
    if text::byte_len(whole) > 80_000 {
        let k = text::clipped(whole, 80_000).len() as int;
        if k == whole.len() {
            assert(whole.take(k) =~= whole);
        }
        assert(text::byte_len(whole.take(k)) <= 80_000);
        assert(text::byte_len(whole.take(k + 1)) > 80_000);
    }
}

/// A new beginning puts the summary in the place of the whole conversation, and sends it.
pub proof fn law_summary_takes_the_place_of_the_conversation(
    state: AgentView,
    path: Seq<char>,
    summary: Seq<char>,
    setting: SettingView,
    skills: Seq<SkillView>,
)
    requires
        state.accepts(HappeningView::Compacted { path, summary }),
    ensures
        ({
            let p = state.next(HappeningView::Compacted { path, summary }, setting, skills);
            let m = p.state.messages;
            &&& p.action is Chat
            &&& m.len() == 2
            &&& m[0].role == "user"@
            &&& m[0].content == Some(
                "[Context compressed. Transcript saved to "@ + path + "]\n\n"@ + summary,
            )
            &&& m[1].role == "assistant"@
            &&& m[1].content == Some("Understood. Continuing with the summarized context."@)
            &&& p.state.todo == state.todo
            &&& p.state.rounds == state.rounds
        }),
{
}

/// Whether one of the calls from a place on writes the todo list.
pub open spec fn writes_todo(calls: Seq<llm_client::ParsedCallView>, from: int, to: int) -> bool {
    exists|i: int| from <= i < to && (#[trigger] calls[i]).name == "todo_write"@
}

/// The todo list is changed by no call but `todo_write`. A turn counts as a round without it
/// exactly where none of its calls was one, and every round that ends has its reminder where one
/// is due.
pub proof fn law_turn_minds_the_todo_list(
    state: AgentView,
    turn: TurnView,
    skills: Seq<SkillView>,
    lines: Seq<LineView>,
)
    requires
        turn.next <= turn.calls.len(),
    ensures
        ({
            let p = proceeding(state, turn, skills, lines);
            let used = turn.used_todo || writes_todo(
                turn.calls,
                turn.next as int,
                turn.calls.len() as int,
            );
            let reminded = p.state.rounds >= 3 && exists|i: int|
                0 <= i < p.state.todo.len() && (#[trigger] p.state.todo[i]).status != "completed"@;
            &&& !writes_todo(turn.calls, turn.next as int, turn.calls.len() as int) ==> p.state.todo
                == state.todo
            &&& p.action is Round && used ==> p.state.rounds == 0
            &&& p.action is Round && !used ==> p.state.rounds == state.rounds + 1
            &&& !(p.action is Round) ==> p.state.rounds == state.rounds
            &&& p.action is Round && !reminded ==> p.state.messages.len() == state.messages.len()
                + turn.calls.len() - turn.next
            &&& p.action is Round && reminded ==> p.state.messages.len() == state.messages.len()
                + turn.calls.len() - turn.next + 1 && p.state.messages.last().role == "user"@
                && p.state.messages.last().content == Some(
                "<reminder>You have open todo items. Please update them with todo_write.</reminder>"@,
            )
        }),
    decreases turn.calls.len() - turn.next,
{
    if turn.next < turn.calls.len() {
        let call = turn.calls[turn.next as int];
        let (step, todo) = agent::begun(call, turn.in_plan, state.todo, skills);
        let shown = lines + call_lines(call, step);
        if !(step is Tool) {
            let output = match step {
                CallStepView::Blocked(output) => output,
                CallStepView::Done(output) => output,
                CallStepView::Tool(_) => arbitrary(),
            };
            let grown = AgentView {
                todo,
                messages: state.messages.push(turn.result_message(output)),
                ..state
            };
            let later = turn.after_call();
            law_turn_minds_the_todo_list(grown, later, skills, shown);
            let n = turn.calls.len() as int;
            if writes_todo(turn.calls, turn.next as int, n) {
                let i = choose|i: int|
                    turn.next <= i < n && (#[trigger] turn.calls[i]).name == "todo_write"@;
                if i > turn.next {
                    assert(later.calls[i].name == "todo_write"@);
                    assert(writes_todo(later.calls, later.next as int, n));
                }
            } else {
                if writes_todo(later.calls, later.next as int, n) {
                    let i = choose|i: int|
                        later.next <= i < n && (#[trigger] later.calls[i]).name == "todo_write"@;
                    assert(turn.calls[i].name == "todo_write"@);
                }
                assert(turn.calls[turn.next as int].name != "todo_write"@);
            }
        } else {
            assert(todo == state.todo);
        }
    }
}

/// A call of the todo list leaves the list as the tool writes it, where no other call of the turn
/// is one.
pub proof fn law_todo_list_is_written(
    state: AgentView,
    turn: TurnView,
    skills: Seq<SkillView>,
    lines: Seq<LineView>,
)
    requires
        turn.next < turn.calls.len(),
        turn.calls[turn.next as int].name == "todo_write"@,
        !writes_todo(turn.calls, turn.next as int + 1, turn.calls.len() as int),
    ensures
        proceeding(state, turn, skills, lines).state.todo == todo_manager::written(
            state.todo,
            turn.calls[turn.next as int].arguments,
        ).1,
{
    let call = turn.calls[turn.next as int];
    agent::law_calls_go_where_their_names_say(call, turn.in_plan, state.todo, skills);
    lemma_todo_write_is_never_refused();
    let (step, todo) = agent::begun(call, turn.in_plan, state.todo, skills);
    let output = step->Done_0;
    let grown = AgentView {
        todo,
        messages: state.messages.push(turn.result_message(output)),
        ..state
    };
    law_turn_minds_the_todo_list(
        grown,
        turn.after_call(),
        skills,
        lines + call_lines(call, step),
    );
}

proof fn lemma_todo_write_is_never_refused()
    ensures
        "todo_write"@ != "bash"@,
        "todo_write"@ != "write_file"@,
        "todo_write"@ != "edit_file"@,
{
    reveal_strlit("todo_write");
    reveal_strlit("bash");
    reveal_strlit("write_file");
    reveal_strlit("edit_file");
    assert("todo_write"@.len() == 10);
    assert("bash"@.len() == 4);
    assert("edit_file"@.len() == 9);
    assert("todo_write"@[0] != "write_file"@[0]);
}

/// The user is shown of every call its announcement; then of one that plan mode refuses that it is
/// refused; and of its output, once there is one, the preview.
pub proof fn law_calls_are_shown(call: llm_client::ParsedCallView, step: CallStepView)
    ensures
        ({
            let shown = call_lines(call, step);
            let first = LineView::Plain(agent::announced(call.name, call.arguments));
            &&& step is Tool ==> shown == seq![first]
            &&& step is Done ==> shown == seq![
                first,
                LineView::Plain(agent::previewed(call.name, step->Done_0)),
            ]
            &&& step is Blocked ==> shown == seq![
                first,
                LineView::Plain("\x1b[31m[blocked: plan mode]\x1b[0m"@),
                LineView::Plain(agent::previewed(call.name, step->Blocked_0)),
            ]
        }),
{
    let shown = call_lines(call, step);
    let first = LineView::Plain(agent::announced(call.name, call.arguments));
    match step {
        CallStepView::Tool(_) => {
            assert(shown =~= seq![first]);
        },
        CallStepView::Done(output) => {
            assert(shown =~= seq![first, LineView::Plain(agent::previewed(call.name, output))]);
        },
        CallStepView::Blocked(output) => {
            assert(shown =~= seq![
                first,
                LineView::Plain("\x1b[31m[blocked: plan mode]\x1b[0m"@),
                LineView::Plain(agent::previewed(call.name, output)),
            ]);
        },
    }
}

/// What is shown stays shown, and the calls that are carried out add their lines behind it: the
/// next call first.
pub proof fn law_turn_shows_its_calls(
    state: AgentView,
    turn: TurnView,
    skills: Seq<SkillView>,
    lines: Seq<LineView>,
)
    ensures
        ({
            let p = proceeding(state, turn, skills, lines);
            &&& lines.len() <= p.lines.len()
            &&& p.lines.take(lines.len() as int) == lines
            &&& turn.next >= turn.calls.len() ==> p.lines == lines
            &&& turn.next < turn.calls.len() ==> {
                let call = turn.calls[turn.next as int];
                let step = agent::begun(call, turn.in_plan, state.todo, skills).0;
                let next = lines + call_lines(call, step);
                next.len() <= p.lines.len() && p.lines.take(next.len() as int) == next
            }
        }),
    decreases turn.calls.len() - turn.next,
{
    let p = proceeding(state, turn, skills, lines);
    if turn.next >= turn.calls.len() {
        assert(p.lines.take(lines.len() as int) =~= lines);
    } else {
        let call = turn.calls[turn.next as int];
        let (step, todo) = agent::begun(call, turn.in_plan, state.todo, skills);
        let shown = lines + call_lines(call, step);
        if step is Tool {
            assert(p.lines.take(shown.len() as int) =~= shown);
        } else {
            let output = match step {
                CallStepView::Blocked(output) => output,
                CallStepView::Done(output) => output,
                CallStepView::Tool(_) => arbitrary(),
            };
            let grown = AgentView {
                todo,
                messages: state.messages.push(turn.result_message(output)),
                ..state
            };
            law_turn_shows_its_calls(grown, turn.after_call(), skills, shown);
        }
        assert(p.lines.take(lines.len() as int) =~= p.lines.take(shown.len() as int).take(
            lines.len() as int,
        ));
        assert(shown.take(lines.len() as int) =~= lines);
    }
}

/// Behind a reply the user is shown a line end where text was shown, then every warning about its
/// calls, and last why it ended early where it did.
pub proof fn law_reply_is_followed_by_its_warnings(reply: StreamView, max_tokens: nat)
    ensures
        ({
            let shown = reply_lines(reply, max_tokens);
            let notes = tool_call_stream::warnings(reply.slots);
            let notice = agent::finish_notice(reply.finish_reason, max_tokens);
            let first: int = if reply.printed_anything {
                1
            } else {
                0
            };
            &&& shown.len() == first + notes.len() + if notice is Some {
                1int
            } else {
                0
            }
            &&& reply.printed_anything ==> shown[0] == LineView::Plain(Seq::empty())
            &&& forall|i: int|
                0 <= i < notes.len() ==> shown[first + i] == LineView::Warning(#[trigger] notes[i])
            &&& notice is Some ==> shown.last() == LineView::Warning(notice->Some_0)
        }),
{
}

/// What the agent waits for in a turn is the tool that the next call names, on the arguments of
/// that call.
pub proof fn law_agent_carries_out_the_call(
    state: AgentView,
    turn: TurnView,
    skills: Seq<SkillView>,
    lines: Seq<LineView>,
)
    ensures
        ({
            let p = proceeding(state, turn, skills, lines);
            p.action is Tool ==> {
                let now = p.state.stage->Calling_turn;
                let call = now.calls[now.next as int];
                &&& p.state.stage is Calling
                &&& p.action->Tool_0 == tools::started(call.name, call.arguments)
            }
        }),
    decreases turn.calls.len() - turn.next,
{
    if turn.next < turn.calls.len() {
        let call = turn.calls[turn.next as int];
        let (step, todo) = agent::begun(call, turn.in_plan, state.todo, skills);
        let shown = lines + call_lines(call, step);
        agent::law_calls_go_where_their_names_say(call, turn.in_plan, state.todo, skills);
        if !(step is Tool) {
            let output = match step {
                CallStepView::Blocked(output) => output,
                CallStepView::Done(output) => output,
                CallStepView::Tool(_) => arbitrary(),
            };
            let grown = AgentView {
                todo,
                messages: state.messages.push(turn.result_message(output)),
                ..state
            };
            law_agent_carries_out_the_call(grown, turn.after_call(), skills, shown);
        }
    }
}

/// After every step the agent accepts an answer to what it needs and nothing else: a request wants
/// the reply, a tool its output, a compaction the summary, another round its beginning. At the end
/// it accepts nothing. Only the count of rounds may stop it, at the largest number it can hold.
pub proof fn law_agent_waits_for_what_it_needs(
    state: AgentView,
    event: HappeningView,
    setting: SettingView,
    skills: Seq<SkillView>,
    next: HappeningView,
)
    requires
        state.accepts(event),
    ensures
        ({
            let p = state.next(event, setting, skills);
            let can_count = p.state.rounds < u32::MAX;
            match p.action {
                ActionView::Chat(_) => p.state.accepts(next) <==> next is Replied && can_count,
                ActionView::Tool(_) => p.state.accepts(next) <==> next is CallDone && can_count,
                ActionView::Compact(_) => p.state.accepts(next) <==> next is Compacted,
                ActionView::Round => p.state.accepts(next) <==> next is Begin,
                ActionView::Finish => !p.state.accepts(next),
            }
        }),
{
    match event {
        HappeningView::Replied(reply) => {
            if reply.slots.len() > 0 {
                let turn = TurnView {
                    calls: reply.result().tool_calls->Some_0,
                    next: 0,
                    in_plan: state.stage->Waiting_in_plan,
                    used_todo: false,
                };
                let grown = AgentView {
                    messages: state.messages.push(agent::reply_message(reply.result())),
                    ..state
                };
                law_results_follow_calls(
                    grown,
                    turn,
                    skills,
                    reply_lines(reply, setting.max_tokens),
                );
            }
        },
        HappeningView::CallDone { output } => {
            let turn = state.stage->Calling_turn;
            let name = turn.calls[turn.next as int].name;
            law_results_follow_calls(
                AgentView { messages: state.messages.push(turn.result_message(output)), ..state },
                turn.after_call(),
                skills,
                seq![LineView::Plain(agent::previewed(name, output))],
            );
        },
        _ => {},
    }
}

/// The output of a tool is shown, in its preview, before anything of the next call.
pub proof fn law_outputs_are_shown(
    state: AgentView,
    output: Seq<char>,
    setting: SettingView,
    skills: Seq<SkillView>,
)
    requires
        state.accepts(HappeningView::CallDone { output }),
    ensures
        ({
            let p = state.next(HappeningView::CallDone { output }, setting, skills);
            let turn = state.stage->Calling_turn;
            &&& p.lines.len() > 0
            &&& p.lines[0] == LineView::Plain(
                agent::previewed(turn.calls[turn.next as int].name, output),
            )
        }),
{
    let turn = state.stage->Calling_turn;
    let name = turn.calls[turn.next as int].name;
    let grown = AgentView { messages: state.messages.push(turn.result_message(output)), ..state };
    let lines = seq![LineView::Plain(agent::previewed(name, output))];
    law_turn_shows_its_calls(grown, turn.after_call(), skills, lines);
    let p = state.next(HappeningView::CallDone { output }, setting, skills);
    assert(p.lines.take(1)[0] == p.lines[0]);
}

/// The calls that an event lets the agent carry out: those of a reply, or those behind the one
/// whose output has come.
pub open spec fn calls_after(state: AgentView, event: HappeningView) -> Seq<
    llm_client::ParsedCallView,
> {
    match event {
        HappeningView::Replied(reply) => match reply.result().tool_calls {
            Some(calls) => calls,
            None => Seq::empty(),
        },
        HappeningView::CallDone { .. } => state.stage->Calling_turn.calls.skip(
            state.stage->Calling_turn.next as int + 1,
        ),
        _ => Seq::empty(),
    }
}

/// Whatever happens, only a call of `todo_write` changes the todo list, and whether there is a user
/// never changes.
pub proof fn law_only_todo_write_changes_the_list(
    state: AgentView,
    event: HappeningView,
    setting: SettingView,
    skills: Seq<SkillView>,
)
    requires
        state.accepts(event),
    ensures
        ({
            let p = state.next(event, setting, skills);
            let calls = calls_after(state, event);
            &&& (forall|i: int| 0 <= i < calls.len() ==> (#[trigger] calls[i]).name
                != "todo_write"@) ==> p.state.todo == state.todo
            &&& !(p.action is Round) ==> p.state.rounds == state.rounds
            &&& p.state.interactive == state.interactive
        }),
{
    let calls = calls_after(state, event);
    let none = forall|i: int| 0 <= i < calls.len() ==> (#[trigger] calls[i]).name != "todo_write"@;
    match event {
        HappeningView::Replied(reply) => {
            if reply.slots.len() > 0 {
                let turn = TurnView {
                    calls,
                    next: 0,
                    in_plan: state.stage->Waiting_in_plan,
                    used_todo: false,
                };
                let grown = AgentView {
                    messages: state.messages.push(agent::reply_message(reply.result())),
                    ..state
                };
                let lines = reply_lines(reply, setting.max_tokens);
                law_turn_minds_the_todo_list(grown, turn, skills, lines);
                lemma_proceeding_keeps_user(grown, turn, skills, lines);
            }
        },
        HappeningView::CallDone { output } => {
            let turn = state.stage->Calling_turn;
            let name = turn.calls[turn.next as int].name;
            let grown = AgentView {
                messages: state.messages.push(turn.result_message(output)),
                ..state
            };
            let later = turn.after_call();
            let lines = seq![LineView::Plain(agent::previewed(name, output))];
            law_turn_minds_the_todo_list(grown, later, skills, lines);
            lemma_proceeding_keeps_user(grown, later, skills, lines);
            if none && writes_todo(later.calls, later.next as int, later.calls.len() as int) {
                let i = choose|i: int|
                    later.next <= i < later.calls.len() && (#[trigger] later.calls[i]).name
                        == "todo_write"@;
                assert(calls[i - later.next] == later.calls[i]);
            }
        },
        _ => {},
    }
}

/// The answers to the first call of a reply that is answered at once, and to the next call behind
/// an output, stand in the conversation as a whole, behind the reply and behind that output.
pub proof fn law_next_answer_is_kept(
    state: AgentView,
    event: HappeningView,
    setting: SettingView,
    skills: Seq<SkillView>,
)
    requires
        state.accepts(event),
        calls_after(state, event).len() > 0,
    ensures
        ({
            let p = state.next(event, setting, skills);
            let call = calls_after(state, event)[0];
            let in_plan = match event {
                HappeningView::Replied(_) => state.stage->Waiting_in_plan,
                _ => state.stage->Calling_turn.in_plan,
            };
            let step = agent::begun(call, in_plan, state.todo, skills).0;
            let at = state.messages.len() + 1;
            &&& step is Tool ==> p.action == ActionView::Tool(step->Tool_0)
            &&& step is Done ==> at < p.state.messages.len() && p.state.messages[at as int].content
                == Some(step->Done_0)
            &&& step is Blocked ==> at < p.state.messages.len()
                && p.state.messages[at as int].content == Some(step->Blocked_0)
        }),
{
    match event {
        HappeningView::Replied(reply) => {
            let turn = TurnView {
                calls: reply.result().tool_calls->Some_0,
                next: 0,
                in_plan: state.stage->Waiting_in_plan,
                used_todo: false,
            };
            let grown = AgentView {
                messages: state.messages.push(agent::reply_message(reply.result())),
                ..state
            };
            law_model_gets_the_whole_answer(
                grown,
                turn,
                skills,
                reply_lines(reply, setting.max_tokens),
            );
        },
        HappeningView::CallDone { output } => {
            let turn = state.stage->Calling_turn;
            let name = turn.calls[turn.next as int].name;
            let grown = AgentView {
                messages: state.messages.push(turn.result_message(output)),
                ..state
            };
            law_model_gets_the_whole_answer(
                grown,
                turn.after_call(),
                skills,
                seq![LineView::Plain(agent::previewed(name, output))],
            );
        },
        _ => {},
    }
}

/// What is shown behind a reply comes first, then its calls; a conversation that is summarized is
/// told of, and nothing else is shown at the beginning of a round.
pub proof fn law_lines_of_an_event(
    state: AgentView,
    event: HappeningView,
    setting: SettingView,
    skills: Seq<SkillView>,
)
    requires
        state.accepts(event),
    ensures
        ({
            let p = state.next(event, setting, skills);
            match event {
                HappeningView::Replied(reply) => {
                    let first = reply_lines(reply, setting.max_tokens);
                    first.len() <= p.lines.len() && p.lines.take(first.len() as int) == first
                },
                HappeningView::Begin { .. } => {
                    &&& p.action is Chat ==> p.lines.len() == 0
                    &&& p.action is Compact ==> p.lines == seq![
                        LineView::Warning("\x1b[90m[auto-compact triggered]\x1b[0m"@),
                    ]
                },
                HappeningView::Compacted { .. } => p.lines.len() == 0,
                HappeningView::CallDone { .. } => true,
            }
        }),
{
    if let HappeningView::Replied(reply) = event {
        let first = reply_lines(reply, setting.max_tokens);
        if reply.slots.len() > 0 {
            let turn = TurnView {
                calls: reply.result().tool_calls->Some_0,
                next: 0,
                in_plan: state.stage->Waiting_in_plan,
                used_todo: false,
            };
            let grown = AgentView {
                messages: state.messages.push(agent::reply_message(reply.result())),
                ..state
            };
            law_turn_shows_its_calls(grown, turn, skills, first);
        } else {
            assert(first.take(first.len() as int) =~= first);
        }
    }
}

} // verus!
