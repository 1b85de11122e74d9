//! The tools that work on the machine: shell commands, files, listings and searches.
//!
//! A tool is a task that asks for one thing after the other: a path to be resolved, a file to be
//! read or written, a program to be run. The answers decide how it goes on, until its output is
//! there.
use vstd::prelude::*;
use vstd::string::*;

use crate::json;
use crate::json::{Json, JsonView};
use crate::listing;
use crate::listing::{DirEntry, EntryInfo, Walk, WalkView};
use crate::paths;
use crate::paths::{safe_path, FactsView, PathFacts};
use crate::schema;
use crate::text;
use crate::text::same_text;

verus! {

// ---------------------------------------------------------------------------
// Outputs
// ---------------------------------------------------------------------------

/// The number of bytes that a limited output may take.
pub const OUTPUT_LIMIT: usize = 50000;

/// The output of a tool before it is cut to its limit.
#[derive(Debug)]
pub struct ToolOutput {
    /// The text that is cut where it is limited and too long.
    pub text: String,
    pub limited: bool,
    /// What is said where the text was cut.
    pub note: String,
    /// What is said in any case, behind the text.
    pub suffix: String,
}

/// What a [`ToolOutput`] stands for.
pub struct OutputView {
    pub text: Seq<char>,
    pub limited: bool,
    pub note: Seq<char>,
    pub suffix: Seq<char>,
}

impl View for ToolOutput {
    type V = OutputView;

    open spec fn view(&self) -> OutputView {
        OutputView {
            text: self.text@,
            limited: self.limited,
            note: self.note@,
            suffix: self.suffix@,
        }
    }
}

impl OutputView {
    /// An output of any length.
    pub open spec fn plain(text: Seq<char>) -> OutputView {
        OutputView { text, limited: false, note: Seq::empty(), suffix: Seq::empty() }
    }

    /// An output that is cut where it is too long.
    pub open spec fn capped(text: Seq<char>) -> OutputView {
        OutputView { text, limited: true, note: Seq::empty(), suffix: Seq::empty() }
    }

    /// Whether the output can be cut: no character lies across the limit.
    pub open spec fn can_finish(self) -> bool {
        self.limited ==> text::cuts_cleanly(self.text, OUTPUT_LIMIT as int)
    }

    /// The output, cut to its limit.
    pub open spec fn finished(self) -> Seq<char> {
        (if self.limited && text::byte_len(self.text) > OUTPUT_LIMIT {
            text::clipped(self.text, OUTPUT_LIMIT as int) + self.note
        } else {
            self.text
        }) + self.suffix
    }
}

impl ToolOutput {
    fn plain(text: String) -> (r: ToolOutput)
        ensures
            r@ == OutputView::plain(text@),
    {
        ToolOutput { text, limited: false, note: String::new(), suffix: String::new() }
    }

    fn capped(text: String) -> (r: ToolOutput)
        ensures
            r@ == OutputView::capped(text@),
    {
        ToolOutput { text, limited: true, note: String::new(), suffix: String::new() }
    }

    /// Whether the output can be cut: no character lies across the limit.
    pub fn can_finish(&self) -> (r: bool)
        ensures
            r == self@.can_finish(),
    {
        !self.limited || text::can_cut(self.text.as_str(), OUTPUT_LIMIT)
    }

    /// Cuts the output to its limit.
    pub fn finish(self) -> (r: String)
        requires
            self@.can_finish(),
        ensures
            r@ == self@.finished(),
    {
        let mut out = if self.limited && text::text_len(self.text.as_str()) > OUTPUT_LIMIT {
            let mut s = text::clip(self.text.as_str(), OUTPUT_LIMIT).to_owned();
            s.append(self.note.as_str());
            s
        } else {
            self.text
        };
        out.append(self.suffix.as_str());
        out
    }
}

/// What an error is reported as.
pub open spec fn error_text(e: Seq<char>) -> Seq<char> {
    "Error: "@ + e
}

fn error_of(e: &str) -> (r: String)
    ensures
        r@ == error_text(e@),
{
    let mut s = "Error: ".to_owned();
    s.append(e);
    s
}

/// A text, or another one where it is empty.
pub open spec fn or_placeholder(s: Seq<char>, placeholder: Seq<char>) -> Seq<char> {
    if s.len() == 0 {
        placeholder
    } else {
        s
    }
}

fn unless_empty(s: String, placeholder: &str) -> (r: String)
    ensures
        r@ == or_placeholder(s@, placeholder@),
{
    if s.as_str().is_empty() {
        placeholder.to_owned()
    } else {
        s
    }
}

// ---------------------------------------------------------------------------
// Requests and answers
// ---------------------------------------------------------------------------

/// A program to run in the workspace.
#[derive(Debug)]
pub struct ProcessSpec {
    pub program: String,
    pub args: Vec<String>,
}

/// What a [`ProcessSpec`] stands for.
pub struct ProcessView {
    pub program: Seq<char>,
    pub args: Seq<Seq<char>>,
}

impl View for ProcessSpec {
    type V = ProcessView;

    open spec fn view(&self) -> ProcessView {
        ProcessView { program: self.program@, args: text::strings(self.args@) }
    }
}

/// What a tool asks for.
#[derive(Debug)]
pub enum ToolRequest {
    /// Find out about a path, which later requests speak of.
    Resolve { path: String },
    /// Run a program.
    Run(ProcessSpec),
    /// Read the file at the path.
    ReadText,
    /// Make the directory that holds the path.
    CreateParent,
    /// Write the file at the path.
    WriteText { content: String },
    /// Tell whether the path leads to a directory.
    CheckDirectory,
    /// List a directory: number zero is the one at the path, others bear the number that their
    /// entry was given.
    ListDirectory { id: u64 },
}

/// What a [`ToolRequest`] stands for.
pub enum AskView {
    Resolve(Seq<char>),
    Run(ProcessView),
    ReadText,
    CreateParent,
    WriteText(Seq<char>),
    CheckDirectory,
    ListDirectory(u64),
}

impl View for ToolRequest {
    type V = AskView;

    open spec fn view(&self) -> AskView {
        match *self {
            ToolRequest::Resolve { path } => AskView::Resolve(path@),
            ToolRequest::Run(p) => AskView::Run(p@),
            ToolRequest::ReadText => AskView::ReadText,
            ToolRequest::CreateParent => AskView::CreateParent,
            ToolRequest::WriteText { content } => AskView::WriteText(content@),
            ToolRequest::CheckDirectory => AskView::CheckDirectory,
            ToolRequest::ListDirectory { id } => AskView::ListDirectory(id),
        }
    }
}

/// An answer to a request.
#[derive(Debug)]
pub enum ToolEvent {
    /// What was found out about a path, and the path as text.
    Resolved { facts: PathFacts, shown: String },
    /// What a program put out, or why it did not run.
    Ran(Result<String, String>),
    /// What a file holds, or why it could not be read.
    Text(Result<String, String>),
    /// Whether something was done, or why it was not.
    Done(Result<(), String>),
    /// Whether the path leads to a directory.
    Directory(bool),
    /// The entries of a directory; none where it could not be listed.
    Listing(Option<Vec<DirEntry>>),
}

/// What a [`ToolEvent`] stands for.
pub enum EventView {
    Resolved(FactsView, Seq<char>),
    Ran(Result<Seq<char>, Seq<char>>),
    Text(Result<Seq<char>, Seq<char>>),
    Done(Result<(), Seq<char>>),
    Directory(bool),
    Listing(Option<Seq<EntryInfo>>),
}

/// What a text or an error stands for.
pub open spec fn outcome_view(r: Result<String, String>) -> Result<Seq<char>, Seq<char>> {
    match r {
        Ok(s) => Ok(s@),
        Err(e) => Err(e@),
    }
}

impl View for ToolEvent {
    type V = EventView;

    open spec fn view(&self) -> EventView {
        match *self {
            ToolEvent::Resolved { facts, shown } => EventView::Resolved(facts@, shown@),
            ToolEvent::Ran(r) => EventView::Ran(outcome_view(r)),
            ToolEvent::Text(r) => EventView::Text(outcome_view(r)),
            ToolEvent::Done(Ok(())) => EventView::Done(Ok(())),
            ToolEvent::Done(Err(e)) => EventView::Done(Err(e@)),
            ToolEvent::Directory(b) => EventView::Directory(b),
            ToolEvent::Listing(l) => EventView::Listing(listing::listing_view(l)),
        }
    }
}

/// A tool that waits for an answer.
#[derive(Debug)]
pub enum ToolTask {
    Bash,
    ReadPath { path: String, offset: usize, limit: usize },
    ReadFile { offset: usize, limit: usize },
    WritePath { path: String, content: String },
    WriteParent { path: String, content: String },
    WriteFile { path: String, bytes: usize },
    EditPath { path: String, old_text: String, new_text: String },
    EditRead { path: String, old_text: String, new_text: String },
    EditWrite { path: String, count: u128 },
    ListPath { path: String, max_depth: usize },
    ListKind { path: String, max_depth: usize },
    ListWalk { walk: Walk },
    GrepPath { pattern: String, path: String, glob: String },
    GrepRg { pattern: String, glob: String, target: String },
    GrepPlain,
}

/// What a [`ToolTask`] stands for.
pub enum TaskView {
    Bash,
    ReadPath { path: Seq<char>, offset: nat, limit: nat },
    ReadFile { offset: nat, limit: nat },
    WritePath { path: Seq<char>, content: Seq<char> },
    WriteParent { path: Seq<char>, content: Seq<char> },
    WriteFile { path: Seq<char>, bytes: nat },
    EditPath { path: Seq<char>, old_text: Seq<char>, new_text: Seq<char> },
    EditRead { path: Seq<char>, old_text: Seq<char>, new_text: Seq<char> },
    EditWrite { path: Seq<char>, count: nat },
    ListPath { path: Seq<char>, max_depth: nat },
    ListKind { path: Seq<char>, max_depth: nat },
    ListWalk { walk: WalkView },
    GrepPath { pattern: Seq<char>, path: Seq<char>, glob: Seq<char> },
    GrepRg { pattern: Seq<char>, glob: Seq<char>, target: Seq<char> },
    GrepPlain,
}

impl View for ToolTask {
    type V = TaskView;

    open spec fn view(&self) -> TaskView {
        match *self {
            ToolTask::Bash => TaskView::Bash,
            ToolTask::ReadPath { path, offset, limit } => TaskView::ReadPath {
                path: path@,
                offset: offset as nat,
                limit: limit as nat,
            },
            ToolTask::ReadFile { offset, limit } => TaskView::ReadFile {
                offset: offset as nat,
                limit: limit as nat,
            },
            ToolTask::WritePath { path, content } => TaskView::WritePath {
                path: path@,
                content: content@,
            },
            ToolTask::WriteParent { path, content } => TaskView::WriteParent {
                path: path@,
                content: content@,
            },
            ToolTask::WriteFile { path, bytes } => TaskView::WriteFile {
                path: path@,
                bytes: bytes as nat,
            },
            ToolTask::EditPath { path, old_text, new_text } => TaskView::EditPath {
                path: path@,
                old_text: old_text@,
                new_text: new_text@,
            },
            ToolTask::EditRead { path, old_text, new_text } => TaskView::EditRead {
                path: path@,
                old_text: old_text@,
                new_text: new_text@,
            },
            ToolTask::EditWrite { path, count } => TaskView::EditWrite {
                path: path@,
                count: count as nat,
            },
            ToolTask::ListPath { path, max_depth } => TaskView::ListPath {
                path: path@,
                max_depth: max_depth as nat,
            },
            ToolTask::ListKind { path, max_depth } => TaskView::ListKind {
                path: path@,
                max_depth: max_depth as nat,
            },
            ToolTask::ListWalk { walk } => TaskView::ListWalk { walk: walk@ },
            ToolTask::GrepPath { pattern, path, glob } => TaskView::GrepPath {
                pattern: pattern@,
                path: path@,
                glob: glob@,
            },
            ToolTask::GrepRg { pattern, glob, target } => TaskView::GrepRg {
                pattern: pattern@,
                glob: glob@,
                target: target@,
            },
            ToolTask::GrepPlain => TaskView::GrepPlain,
        }
    }
}

/// How a tool goes on: it is done, or it asks for something.
#[derive(Debug)]
pub enum ToolStep {
    Done(ToolOutput),
    Ask { request: ToolRequest, task: ToolTask },
}

/// What a [`ToolStep`] stands for.
pub enum StepView {
    Done(OutputView),
    Ask(AskView, TaskView),
}

impl View for ToolStep {
    type V = StepView;

    open spec fn view(&self) -> StepView {
        match *self {
            ToolStep::Done(o) => StepView::Done(o@),
            ToolStep::Ask { request, task } => StepView::Ask(request@, task@),
        }
    }
}

/// A tool that is done with a text of any length.
pub open spec fn done(s: Seq<char>) -> StepView {
    StepView::Done(OutputView::plain(s))
}

/// A tool that is done with an error.
pub open spec fn failed(e: Seq<char>) -> StepView {
    done(error_text(e))
}

fn done_with(s: String) -> (r: ToolStep)
    ensures
        r@ == done(s@),
{
    ToolStep::Done(ToolOutput::plain(s))
}

fn failed_with(e: &str) -> (r: ToolStep)
    ensures
        r@ == failed(e@),
{
    done_with(error_of(e))
}

// ---------------------------------------------------------------------------
// Shell commands
// ---------------------------------------------------------------------------

/// The texts that a command must not hold.
pub open spec fn dangerous_texts() -> Seq<Seq<char>> {
    seq![
        "rm -rf /"@,
        "rm -rf ~"@,
        "sudo rm"@,
        "shutdown"@,
        "reboot"@,
        "> /dev/"@,
        "mkfs"@,
    ]
}

/// Whether a command is refused.
pub open spec fn is_dangerous(command: Seq<char>) -> bool {
    exists|i: int|
        0 <= i < dangerous_texts().len() && text::contains(command, #[trigger] dangerous_texts()[i])
}

/// How the `bash` tool begins: a dangerous command is refused, any other is run by the shell.
pub open spec fn bash_step(command: Seq<char>) -> StepView {
    if is_dangerous(command) {
        done("Error: Dangerous command blocked"@)
    } else {
        StepView::Ask(
            AskView::Run(ProcessView { program: "sh"@, args: seq!["-c"@, command] }),
            TaskView::Bash,
        )
    }
}

fn dangerous(command: &str) -> (r: bool)
    ensures
        r == is_dangerous(command@),
{
    let texts = [
        "rm -rf /",
        "rm -rf ~",
        "sudo rm",
        "shutdown",
        "reboot",
        "> /dev/",
        "mkfs",
    ];
    let ghost all = dangerous_texts();
    let mut i: usize = 0;
    while i < texts.len()
        invariant
            i <= texts@.len(),
            texts@.len() == all.len(),
            all == dangerous_texts(),
            forall|k: int| 0 <= k < texts@.len() ==> (#[trigger] texts@[k])@ == all[k],
            forall|k: int| 0 <= k < i ==> !text::contains(command@, #[trigger] all[k]),
        decreases texts@.len() - i,
    {
        if text::text_contains(command, texts[i]) {
            assert(text::contains(command@, all[i as int]));
            return true;
        }
        i += 1;
    }
    false
}

/// What a program put out, on both of its channels, without white space around it.
pub open spec fn program_output(stdout: Seq<u8>, stderr: Seq<u8>) -> Seq<char> {
    text::trimmed(text::lossy(stdout) + text::lossy(stderr))
}

/// Puts together what a program put out on both of its channels, and takes away the white space
/// around it.
pub fn merged_output(stdout: &str, stderr: &str) -> (r: String)
    ensures
        r@ == text::trimmed(stdout@ + stderr@),
{
    let mut out = stdout.to_owned();
    out.append(stderr);
    text::trim(out.as_str()).to_owned()
}

/// Decodes what a program put out, on both of its channels, and takes away the white space
/// around it.
pub fn command_output(stdout: &[u8], stderr: &[u8]) -> (r: String)
    ensures
        r@ == program_output(stdout@, stderr@),
{
    let out = text::from_utf8_lossy(stdout);
    let err = text::from_utf8_lossy(stderr);
    merged_output(out.as_str(), err.as_str())
}

/// Begins the `bash` tool.
pub fn run_bash(command: &str) -> (r: ToolStep)
    ensures
        r@ == bash_step(command@),
{
    if dangerous(command) {
        return done_with("Error: Dangerous command blocked".to_owned());
    }
    let mut args: Vec<String> = Vec::new();
    args.push("-c".to_owned());
    args.push(command.to_owned());
    assert(text::strings(args@) =~= seq!["-c"@, command@]);
    ToolStep::Ask {
        request: ToolRequest::Run(ProcessSpec { program: "sh".to_owned(), args }),
        task: ToolTask::Bash,
    }
}

// ---------------------------------------------------------------------------
// Reading
// ---------------------------------------------------------------------------

/// The lines that are read: from line `offset` on, counted from one, and `limit` of them. Zero
/// stands for the first line, and for no limit.
pub open spec fn selected(lines: Seq<Seq<char>>, offset: nat, limit: nat) -> Seq<Seq<char>> {
    let start = if offset > 0 {
        offset - 1
    } else {
        0
    };
    let rest = if start < lines.len() {
        lines.skip(start)
    } else {
        Seq::empty()
    };
    if 0 < limit < rest.len() {
        rest.take(limit as int)
    } else {
        rest
    }
}

/// Lines with their numbers in front.
pub open spec fn numbered(lines: Seq<Seq<char>>, offset: nat) -> Seq<Seq<char>> {
    Seq::new(
        lines.len(),
        |i: int|
            text::right_aligned(
                text::decimal(
                    (i + if offset > 0 {
                        offset as int
                    } else {
                        1
                    }) as nat,
                ),
                4,
            ) + "  "@ + lines[i],
    )
}

/// What the `read_file` tool gives of a file.
pub open spec fn read_output(content: Seq<char>, offset: nat, limit: nat) -> OutputView {
    let all = text::lines(content);
    let some = selected(all, offset, limit);
    OutputView {
        text: text::joined(numbered(some, offset), "\n"@),
        limited: true,
        note: "\n... (truncated)"@,
        suffix: if all.len() > some.len() {
            "\n["@ + text::decimal(all.len()) + " lines total]"@
        } else {
            Seq::empty()
        },
    }
}

/// Shows lines of a file with their numbers.
pub fn read_lines(content: &str, offset: usize, limit: usize) -> (r: ToolOutput)
    ensures
        r@ == read_output(content@, offset as nat, limit as nat),
{
    let lines = text::split_lines(content);
    let ghost all = text::texts(lines@);
    let ghost some = selected(all, offset as nat, limit as nat);
    let total = lines.len();
    let start: usize = if offset > 0 {
        offset - 1
    } else {
        0
    };
    let first: usize = if offset > 0 {
        offset
    } else {
        1
    };
    let count: usize = if start >= total {
        0
    } else if limit > 0 && limit < total - start {
        limit
    } else {
        total - start
    };
    assert(some.len() == count);
    let mut out: Vec<String> = Vec::new();
    let mut i: usize = 0;
    while i < count
        invariant
            i <= count,
            count > 0 ==> start + count <= total,
            count == some.len(),
            total == lines@.len(),
            first == start + 1,
            first == if offset > 0 {
                offset as int
            } else {
                1
            },
            all == text::texts(lines@),
            some == selected(all, offset as nat, limit as nat),
            out@.len() == i,
            forall|k: int|
                0 <= k < i ==> (#[trigger] out@[k])@ == numbered(some, offset as nat)[k],
        decreases count - i,
    {
        let number = text::decimal_text((i + first) as u128);
        let mut line = text::align_right(number.as_str(), 4);
        line.append("  ");
        line.append(lines[start + i]);
        assert(some[i as int] == lines@[start + i]@);
        out.push(line);
        i += 1;
    }
    assert(text::strings(out@) =~= numbered(some, offset as nat));
    let text = text::join(out.as_slice(), "\n");
    let suffix = if total > count {
        let mut s = "\n[".to_owned();
        s.append(text::decimal_text(total as u128).as_str());
        s.append(" lines total]");
        s
    } else {
        String::new()
    };
    ToolOutput { text, limited: true, note: "\n... (truncated)".to_owned(), suffix }
}

/// Begins the `read_file` tool.
pub fn run_read_file(path: &str, offset: usize, limit: usize) -> (r: ToolStep)
    ensures
        r@ == StepView::Ask(
            AskView::Resolve(path@),
            (TaskView::ReadPath { path: path@, offset: offset as nat, limit: limit as nat }),
        ),
{
    ToolStep::Ask {
        request: ToolRequest::Resolve { path: path.to_owned() },
        task: ToolTask::ReadPath { path: path.to_owned(), offset, limit },
    }
}

// ---------------------------------------------------------------------------
// Writing and editing
// ---------------------------------------------------------------------------

/// Begins the `write_file` tool.
pub fn run_write_file(path: &str, content: &str) -> (r: ToolStep)
    ensures
        r@ == StepView::Ask(
            AskView::Resolve(path@),
            (TaskView::WritePath { path: path@, content: content@ }),
        ),
{
    ToolStep::Ask {
        request: ToolRequest::Resolve { path: path.to_owned() },
        task: ToolTask::WritePath { path: path.to_owned(), content: content.to_owned() },
    }
}

/// What is said of a file that was written.
pub open spec fn wrote(path: Seq<char>, bytes: nat) -> Seq<char> {
    "Wrote "@ + text::decimal(bytes) + " bytes to "@ + path
}

/// A text with the first occurrence of another replaced. Nothing comes out where there is none.
pub open spec fn replaced_first(s: Seq<char>, old_text: Seq<char>, new_text: Seq<char>) -> Option<
    Seq<char>,
> {
    match text::find_from(s, old_text, 0) {
        Some(k) => Some(s.take(k) + new_text + s.skip(k + old_text.len())),
        None => None,
    }
}

/// What is said of a file that was edited.
pub open spec fn edited(path: Seq<char>, count: nat) -> Seq<char> {
    if count > 1 {
        "Edited "@ + path + " (1 of "@ + text::decimal(count) + " occurrences replaced)"@
    } else {
        "Edited "@ + path
    }
}

/// Replaces the first occurrence of a text.
pub fn replace_first(s: &str, old_text: &str, new_text: &str) -> (r: Option<String>)
    ensures
        match r {
            Some(t) => replaced_first(s@, old_text@, new_text@) == Some(t@),
            None => replaced_first(s@, old_text@, new_text@) is None,
        },
{
    let chars = text::chars_of(s);
    let part = text::chars_of(old_text);
    proof {
        text::lemma_find_from(s@, old_text@, 0);
    }
    match text::find_text(&chars, &part, 0) {
        Some(k) => {
            let n = s.unicode_len();
            let end = k + part.len();
            let mut out = s.substring_char(0, k).to_owned();
            out.append(new_text);
            out.append(s.substring_char(end, n));
            assert(s@.subrange(0, k as int) =~= s@.take(k as int));
            assert(s@.subrange(end as int, n as int) =~= s@.skip(end as int));
            Some(out)
        },
        None => None,
    }
}

/// Counts how often a text stands in another, from the front and without overlaps.
pub fn count_occurrences(s: &str, part: &str) -> (n: u128)
    ensures
        n == text::occurrences(s@, part@, 0),
{
    let chars = text::chars_of(s);
    let p = text::chars_of(part);
    if p.len() == 0 {
        return chars.len() as u128 + 1;
    }
    let total = chars.len();
    let mut n: u128 = 0;
    let mut at: usize = 0;
    loop
        invariant
            chars@ == s@,
            p@ == part@,
            p@.len() > 0,
            total == s@.len(),
            at <= s@.len(),
            n <= at,
            n + text::occurrences(s@, part@, at as int) == text::occurrences(s@, part@, 0),
        decreases s@.len() - at,
    {
        proof {
            text::lemma_find_from(s@, part@, at as int);
        }
        match text::find_text(&chars, &p, at) {
            Some(k) => {
                n += 1;
                at = k + p.len();
            },
            None => {
                return n;
            },
        }
    }
}

/// Begins the `edit_file` tool.
pub fn run_edit_file(path: &str, old_text: &str, new_text: &str) -> (r: ToolStep)
    ensures
        r@ == StepView::Ask(
            AskView::Resolve(path@),
            (TaskView::EditPath { path: path@, old_text: old_text@, new_text: new_text@ }),
        ),
{
    ToolStep::Ask {
        request: ToolRequest::Resolve { path: path.to_owned() },
        task: ToolTask::EditPath {
            path: path.to_owned(),
            old_text: old_text.to_owned(),
            new_text: new_text.to_owned(),
        },
    }
}

// ---------------------------------------------------------------------------
// Listing and searching
// ---------------------------------------------------------------------------

/// Begins the `list_directory` tool.
pub fn run_list_directory(path: &str, max_depth: usize) -> (r: ToolStep)
    ensures
        r@ == StepView::Ask(
            AskView::Resolve(path@),
            (TaskView::ListPath { path: path@, max_depth: max_depth as nat }),
        ),
{
    ToolStep::Ask {
        request: ToolRequest::Resolve { path: path.to_owned() },
        task: ToolTask::ListPath { path: path.to_owned(), max_depth },
    }
}

/// How a listing goes on: it asks for the next directory, or is done with its lines.
pub open spec fn walk_step(walk: WalkView) -> StepView {
    match walk.pending {
        Some(id) => StepView::Ask(AskView::ListDirectory(id), TaskView::ListWalk { walk }),
        None => StepView::Done(
            OutputView::capped(
                or_placeholder(text::joined(walk.lines, "\n"@), "(empty directory)"@),
            ),
        ),
    }
}

fn go_on(walk: Walk) -> (r: ToolStep)
    ensures
        r@ == walk_step(walk@),
{
    match walk.pending() {
        Some(id) => ToolStep::Ask {
            request: ToolRequest::ListDirectory { id },
            task: ToolTask::ListWalk { walk },
        },
        None => ToolStep::Done(ToolOutput::capped(unless_empty(walk.text(), "(empty directory)"))),
    }
}

/// Begins the `grep_search` tool.
pub fn run_grep_search(pattern: &str, path: &str, glob: &str) -> (r: ToolStep)
    ensures
        r@ == StepView::Ask(
            AskView::Resolve(path@),
            (TaskView::GrepPath { pattern: pattern@, path: path@, glob: glob@ }),
        ),
{
    ToolStep::Ask {
        request: ToolRequest::Resolve { path: path.to_owned() },
        task: ToolTask::GrepPath {
            pattern: pattern.to_owned(),
            path: path.to_owned(),
            glob: glob.to_owned(),
        },
    }
}

/// The arguments of a search: fixed ones, the filter where there is one, the pattern and the
/// place.
pub open spec fn search_args(
    fixed: Seq<Seq<char>>,
    option: Seq<char>,
    glob: Seq<char>,
    pattern: Seq<char>,
    target: Seq<char>,
) -> Seq<Seq<char>> {
    (if glob.len() == 0 {
        fixed
    } else {
        fixed.push(option).push(glob)
    }).push(pattern).push(target)
}

/// A search with ripgrep.
pub open spec fn rg_process(pattern: Seq<char>, glob: Seq<char>, target: Seq<char>) -> ProcessView {
    ProcessView {
        program: "rg"@,
        args: search_args(
            seq!["--no-heading"@, "--line-number"@, "--color=never"@, "-m"@, "50"@],
            "-g"@,
            glob,
            pattern,
            target,
        ),
    }
}

/// A search with grep.
pub open spec fn grep_process(
    pattern: Seq<char>,
    glob: Seq<char>,
    target: Seq<char>,
) -> ProcessView {
    ProcessView {
        program: "grep"@,
        args: search_args(seq!["-rn"@, "--color=never"@], "--include"@, glob, pattern, target),
    }
}

fn add_search(args: &mut Vec<String>, option: &str, glob: &str, pattern: &str, target: &str)
    ensures
        text::strings(final(args)@) == search_args(
            text::strings(old(args)@),
            option@,
            glob@,
            pattern@,
            target@,
        ),
{
    let ghost fixed = text::strings(args@);
    if !glob.is_empty() {
        args.push(option.to_owned());
        args.push(glob.to_owned());
    }
    args.push(pattern.to_owned());
    args.push(target.to_owned());
    assert(text::strings(args@) =~= search_args(fixed, option@, glob@, pattern@, target@));
}

fn rg(pattern: &str, glob: &str, target: &str) -> (r: ProcessSpec)
    ensures
        r@ == rg_process(pattern@, glob@, target@),
{
    let mut args: Vec<String> = Vec::new();
    args.push("--no-heading".to_owned());
    args.push("--line-number".to_owned());
    args.push("--color=never".to_owned());
    args.push("-m".to_owned());
    args.push("50".to_owned());
    assert(text::strings(args@)
        =~= seq!["--no-heading"@, "--line-number"@, "--color=never"@, "-m"@, "50"@]);
    add_search(&mut args, "-g", glob, pattern, target);
    ProcessSpec { program: "rg".to_owned(), args }
}

fn grep(pattern: &str, glob: &str, target: &str) -> (r: ProcessSpec)
    ensures
        r@ == grep_process(pattern@, glob@, target@),
{
    let mut args: Vec<String> = Vec::new();
    args.push("-rn".to_owned());
    args.push("--color=never".to_owned());
    assert(text::strings(args@) =~= seq!["-rn"@, "--color=never"@]);
    add_search(&mut args, "--include", glob, pattern, target);
    ProcessSpec { program: "grep".to_owned(), args }
}

/// What a search with grep gives: the first fifty lines.
pub open spec fn grep_output(out: Seq<char>) -> Seq<char> {
    let lines = text::lines(out);
    if lines.len() == 0 {
        "(no matches)"@
    } else {
        text::joined(
            if lines.len() > 50 {
                lines.take(50)
            } else {
                lines
            },
            "\n"@,
        )
    }
}

fn first_lines(out: &str) -> (r: String)
    ensures
        r@ == grep_output(out@),
{
    let lines = text::split_lines(out);
    let ghost all = text::texts(lines@);
    if lines.len() == 0 {
        return "(no matches)".to_owned();
    }
    let mut some: Vec<String> = Vec::new();
    let mut i: usize = 0;
    while i < lines.len() && i < 50
        invariant
            i <= lines@.len(),
            i <= 50,
            all == text::texts(lines@),
            some@.len() == i,
            forall|k: int| 0 <= k < i ==> (#[trigger] some@[k])@ == all[k],
        decreases lines@.len() - i,
    {
        some.push(lines[i].to_owned());
        i += 1;
    }
    assert(text::strings(some@) =~= if all.len() > 50 {
        all.take(50)
    } else {
        all
    });
    text::join(some.as_slice(), "\n")
}

// ---------------------------------------------------------------------------
// Going on
// ---------------------------------------------------------------------------

impl TaskView {
    /// Whether an event answers what the task asked for.
    pub open spec fn fits(self, event: EventView) -> bool {
        match self {
            TaskView::Bash | TaskView::GrepRg { .. } | TaskView::GrepPlain => event is Ran,
            TaskView::ReadPath { .. } | TaskView::WritePath { .. } | TaskView::EditPath { .. }
            | TaskView::ListPath { .. } | TaskView::GrepPath { .. } => event is Resolved,
            TaskView::ReadFile { .. } | TaskView::EditRead { .. } => event is Text,
            TaskView::WriteParent { .. } | TaskView::WriteFile { .. } | TaskView::EditWrite {
                ..
            } => event is Done,
            TaskView::ListKind { .. } => event is Directory,
            TaskView::ListWalk { .. } => event is Listing,
        }
    }

    /// How the task goes on once its path is known to lie in the workspace. `shown` is the path
    /// as text.
    pub open spec fn entered(self, shown: Seq<char>) -> StepView {
        match self {
            TaskView::ReadPath { path, offset, limit } => StepView::Ask(
                AskView::ReadText,
                TaskView::ReadFile { offset, limit },
            ),
            TaskView::WritePath { path, content } => StepView::Ask(
                AskView::CreateParent,
                TaskView::WriteParent { path, content },
            ),
            TaskView::EditPath { path, old_text, new_text } => StepView::Ask(
                AskView::ReadText,
                TaskView::EditRead { path, old_text, new_text },
            ),
            TaskView::ListPath { path, max_depth } => StepView::Ask(
                AskView::CheckDirectory,
                TaskView::ListKind { path, max_depth },
            ),
            TaskView::GrepPath { pattern, path, glob } => StepView::Ask(
                AskView::Run(rg_process(pattern, glob, shown)),
                TaskView::GrepRg { pattern, glob, target: shown },
            ),
            _ => arbitrary(),
        }
    }

    /// The path that the task was given.
    pub open spec fn given_path(self) -> Seq<char> {
        match self {
            TaskView::ReadPath { path, .. } => path,
            TaskView::WritePath { path, .. } => path,
            TaskView::EditPath { path, .. } => path,
            TaskView::ListPath { path, .. } => path,
            TaskView::GrepPath { path, .. } => path,
            _ => arbitrary(),
        }
    }

    /// How the task goes on with what a program put out.
    pub open spec fn ran(self, r: Result<Seq<char>, Seq<char>>) -> StepView {
        match self {
            TaskView::Bash => match r {
                Ok(out) => StepView::Done(OutputView::capped(or_placeholder(out, "(no output)"@))),
                Err(e) => failed(e),
            },
            TaskView::GrepRg { pattern, glob, target } => match r {
                Ok(out) => StepView::Done(OutputView::capped(or_placeholder(out, "(no matches)"@))),
                Err(_) => StepView::Ask(
                    AskView::Run(grep_process(pattern, glob, target)),
                    TaskView::GrepPlain,
                ),
            },
            TaskView::GrepPlain => match r {
                Ok(out) => done(grep_output(out)),
                Err(e) => failed(e),
            },
            _ => arbitrary(),
        }
    }

    /// How the task goes on with the text of a file.
    pub open spec fn read(self, r: Result<Seq<char>, Seq<char>>) -> StepView {
        match r {
            Err(e) => failed(e),
            Ok(content) => match self {
                TaskView::ReadFile { offset, limit } => StepView::Done(
                    read_output(content, offset, limit),
                ),
                TaskView::EditRead { path, old_text, new_text } => match replaced_first(
                    content,
                    old_text,
                    new_text,
                ) {
                    Some(text) => StepView::Ask(
                        AskView::WriteText(text),
                        TaskView::EditWrite {
                            path,
                            count: text::occurrences(content, old_text, 0),
                        },
                    ),
                    None => done("Error: Text not found in "@ + path),
                },
                _ => arbitrary(),
            },
        }
    }

    /// How the task goes on after something was done, or was not.
    pub open spec fn acted(self, r: Result<(), Seq<char>>) -> StepView {
        match r {
            Err(e) => failed(e),
            Ok(()) => match self {
                TaskView::WriteParent { path, content } => StepView::Ask(
                    AskView::WriteText(content),
                    TaskView::WriteFile { path, bytes: text::byte_len(content) },
                ),
                TaskView::WriteFile { path, bytes } => done(wrote(path, bytes)),
                TaskView::EditWrite { path, count } => done(edited(path, count)),
                _ => arbitrary(),
            },
        }
    }

    /// How the task goes on after an event.
    pub open spec fn next(self, event: EventView) -> StepView {
        match event {
            EventView::Resolved(facts, shown) => if facts.is_safe() {
                self.entered(shown)
            } else {
                failed(paths::escape_message(self.given_path()))
            },
            EventView::Ran(r) => self.ran(r),
            EventView::Text(r) => self.read(r),
            EventView::Done(r) => self.acted(r),
            EventView::Directory(is_dir) => match self {
                TaskView::ListKind { path, max_depth } => if is_dir {
                    walk_step(WalkView::at(0, max_depth))
                } else {
                    done("Error: "@ + path + " is not a directory"@)
                },
                _ => arbitrary(),
            },
            EventView::Listing(entries) => match self {
                TaskView::ListWalk { walk } => walk_step(walk.fed(entries)),
                _ => arbitrary(),
            },
        }
    }
}

impl ToolTask {
    /// Whether an event answers what the task asked for.
    pub fn fits(&self, event: &ToolEvent) -> (r: bool)
        ensures
            r == self@.fits(event@),
    {
        match event {
            ToolEvent::Ran(_) => match self {
                ToolTask::Bash | ToolTask::GrepRg { .. } | ToolTask::GrepPlain => true,
                _ => false,
            },
            ToolEvent::Resolved { .. } => match self {
                ToolTask::ReadPath { .. } | ToolTask::WritePath { .. } | ToolTask::EditPath {
                    ..
                } | ToolTask::ListPath { .. } | ToolTask::GrepPath { .. } => true,
                _ => false,
            },
            ToolEvent::Text(_) => match self {
                ToolTask::ReadFile { .. } | ToolTask::EditRead { .. } => true,
                _ => false,
            },
            ToolEvent::Done(_) => match self {
                ToolTask::WriteParent { .. } | ToolTask::WriteFile { .. } | ToolTask::EditWrite {
                    ..
                } => true,
                _ => false,
            },
            ToolEvent::Directory(_) => match self {
                ToolTask::ListKind { .. } => true,
                _ => false,
            },
            ToolEvent::Listing(_) => match self {
                ToolTask::ListWalk { .. } => true,
                _ => false,
            },
        }
    }

    fn path(&self) -> (r: &str)
        requires
            self@ is ReadPath || self@ is WritePath || self@ is EditPath || self@ is ListPath
                || self@ is GrepPath,
        ensures
            r@ == self@.given_path(),
    {
        match self {
            ToolTask::ReadPath { path, .. } => path.as_str(),
            ToolTask::WritePath { path, .. } => path.as_str(),
            ToolTask::EditPath { path, .. } => path.as_str(),
            ToolTask::ListPath { path, .. } => path.as_str(),
            ToolTask::GrepPath { path, .. } => path.as_str(),
            _ => "",
        }
    }

    fn enter(self, shown: String) -> (r: ToolStep)
        requires
            self@ is ReadPath || self@ is WritePath || self@ is EditPath || self@ is ListPath
                || self@ is GrepPath,
        ensures
            r@ == self@.entered(shown@),
    {
        match self {
            ToolTask::ReadPath { path: _, offset, limit } => ToolStep::Ask {
                request: ToolRequest::ReadText,
                task: ToolTask::ReadFile { offset, limit },
            },
            ToolTask::WritePath { path, content } => ToolStep::Ask {
                request: ToolRequest::CreateParent,
                task: ToolTask::WriteParent { path, content },
            },
            ToolTask::EditPath { path, old_text, new_text } => ToolStep::Ask {
                request: ToolRequest::ReadText,
                task: ToolTask::EditRead { path, old_text, new_text },
            },
            ToolTask::ListPath { path, max_depth } => ToolStep::Ask {
                request: ToolRequest::CheckDirectory,
                task: ToolTask::ListKind { path, max_depth },
            },
            ToolTask::GrepPath { pattern, path: _, glob } => ToolStep::Ask {
                request: ToolRequest::Run(rg(pattern.as_str(), glob.as_str(), shown.as_str())),
                task: ToolTask::GrepRg { pattern, glob, target: shown },
            },
            _ => done_with(String::new()),
        }
    }

    fn take_output(self, r: Result<String, String>) -> (s: ToolStep)
        requires
            self@ is Bash || self@ is GrepRg || self@ is GrepPlain,
        ensures
            s@ == self@.ran(outcome_view(r)),
    {
        match self {
            ToolTask::Bash => match r {
                Ok(out) => ToolStep::Done(ToolOutput::capped(unless_empty(out, "(no output)"))),
                Err(e) => failed_with(e.as_str()),
            },
            ToolTask::GrepRg { pattern, glob, target } => match r {
                Ok(out) => ToolStep::Done(ToolOutput::capped(unless_empty(out, "(no matches)"))),
                Err(_) => ToolStep::Ask {
                    request: ToolRequest::Run(
                        grep(pattern.as_str(), glob.as_str(), target.as_str()),
                    ),
                    task: ToolTask::GrepPlain,
                },
            },
            _ => match r {
                Ok(out) => done_with(first_lines(out.as_str())),
                Err(e) => failed_with(e.as_str()),
            },
        }
    }

    fn take_text(self, r: Result<String, String>) -> (s: ToolStep)
        requires
            self@ is ReadFile || self@ is EditRead,
        ensures
            s@ == self@.read(outcome_view(r)),
    {
        let content = match r {
            Ok(content) => content,
            Err(e) => {
                return failed_with(e.as_str());
            },
        };
        match self {
            ToolTask::ReadFile { offset, limit } => ToolStep::Done(
                read_lines(content.as_str(), offset, limit),
            ),
            ToolTask::EditRead { path, old_text, new_text } => match replace_first(
                content.as_str(),
                old_text.as_str(),
                new_text.as_str(),
            ) {
                Some(text) => {
                    let count = count_occurrences(content.as_str(), old_text.as_str());
                    ToolStep::Ask {
                        request: ToolRequest::WriteText { content: text },
                        task: ToolTask::EditWrite { path, count },
                    }
                },
                None => {
                    let mut s = "Error: Text not found in ".to_owned();
                    s.append(path.as_str());
                    done_with(s)
                },
            },
            _ => done_with(String::new()),
        }
    }

    fn take_done(self, r: Result<(), String>) -> (s: ToolStep)
        requires
            self@ is WriteParent || self@ is WriteFile || self@ is EditWrite,
        ensures
            s@ == self@.acted(
                match r {
                    Ok(()) => Ok(()),
                    Err(e) => Err(e@),
                },
            ),
    {
        if let Err(e) = r {
            return failed_with(e.as_str());
        }
        match self {
            ToolTask::WriteParent { path, content } => {
                let bytes = text::text_len(content.as_str());
                ToolStep::Ask {
                    request: ToolRequest::WriteText { content },
                    task: ToolTask::WriteFile { path, bytes },
                }
            },
            ToolTask::WriteFile { path, bytes } => {
                let mut s = "Wrote ".to_owned();
                s.append(text::decimal_text(bytes as u128).as_str());
                s.append(" bytes to ");
                s.append(path.as_str());
                done_with(s)
            },
            ToolTask::EditWrite { path, count } => {
                let mut s = "Edited ".to_owned();
                s.append(path.as_str());
                if count > 1 {
                    s.append(" (1 of ");
                    s.append(text::decimal_text(count).as_str());
                    s.append(" occurrences replaced)");
                }
                done_with(s)
            },
            _ => done_with(String::new()),
        }
    }

    /// Goes on after the answer to what the task asked for.
    pub fn advance(self, event: ToolEvent) -> (r: ToolStep)
        requires
            self@.fits(event@),
        ensures
            r@ == self@.next(event@),
    {
        match event {
            ToolEvent::Resolved { facts, shown } => match safe_path(&facts, self.path()) {
                Ok(()) => self.enter(shown),
                Err(e) => failed_with(e.as_str()),
            },
            ToolEvent::Ran(r) => self.take_output(r),
            ToolEvent::Text(r) => self.take_text(r),
            ToolEvent::Done(r) => self.take_done(r),
            ToolEvent::Directory(is_dir) => match self {
                ToolTask::ListKind { path, max_depth } => {
                    if is_dir {
                        go_on(Walk::new(0, max_depth))
                    } else {
                        let mut s = "Error: ".to_owned();
                        s.append(path.as_str());
                        s.append(" is not a directory");
                        done_with(s)
                    }
                },
                _ => done_with(String::new()),
            },
            ToolEvent::Listing(entries) => match self {
                ToolTask::ListWalk { walk } => go_on(walk.feed(entries)),
                _ => done_with(String::new()),
            },
        }
    }
}

// ---------------------------------------------------------------------------
// Dispatch
// ---------------------------------------------------------------------------

/// How a tool begins, by its name and its arguments. Arguments that are missing or of another
/// kind have defaults.
pub open spec fn started(name: Seq<char>, args: JsonView) -> StepView {
    if name == "bash"@ {
        bash_step(args.text_or("command"@, ""@))
    } else if name == "read_file"@ {
        let path = args.text_or("path"@, ""@);
        StepView::Ask(
            AskView::Resolve(path),
            TaskView::ReadPath {
                path,
                offset: (args.integer_or("offset"@, 0) as usize) as nat,
                limit: (args.integer_or("limit"@, 0) as usize) as nat,
            },
        )
    } else if name == "write_file"@ {
        let path = args.text_or("path"@, ""@);
        StepView::Ask(
            AskView::Resolve(path),
            TaskView::WritePath { path, content: args.text_or("content"@, ""@) },
        )
    } else if name == "edit_file"@ {
        let path = args.text_or("path"@, ""@);
        StepView::Ask(
            AskView::Resolve(path),
            TaskView::EditPath {
                path,
                old_text: args.text_or("old_text"@, ""@),
                new_text: args.text_or("new_text"@, ""@),
            },
        )
    } else if name == "list_directory"@ {
        let path = args.text_or("path"@, "."@);
        StepView::Ask(
            AskView::Resolve(path),
            TaskView::ListPath {
                path,
                max_depth: (args.integer_or("max_depth"@, 2) as usize) as nat,
            },
        )
    } else if name == "grep_search"@ {
        let path = args.text_or("path"@, "."@);
        StepView::Ask(
            AskView::Resolve(path),
            TaskView::GrepPath {
                pattern: args.text_or("pattern"@, ""@),
                path,
                glob: args.text_or("include"@, ""@),
            },
        )
    } else {
        done("Error: Unknown tool '"@ + name + "'"@)
    }
}

/// Begins a tool.
pub fn dispatch_tool(name: &str, args: &Json) -> (r: ToolStep)
    ensures
        r@ == started(name@, args@),
{
    if same_text(name, "bash") {
        run_bash(args.text_or("command", ""))
    } else if same_text(name, "read_file") {
        let offset = args.integer_or("offset", 0) as usize;
        let limit = args.integer_or("limit", 0) as usize;
        run_read_file(args.text_or("path", ""), offset, limit)
    } else if same_text(name, "write_file") {
        run_write_file(args.text_or("path", ""), args.text_or("content", ""))
    } else if same_text(name, "edit_file") {
        run_edit_file(
            args.text_or("path", ""),
            args.text_or("old_text", ""),
            args.text_or("new_text", ""),
        )
    } else if same_text(name, "list_directory") {
        run_list_directory(
            args.text_or("path", "."),
            args.integer_or("max_depth", 2) as usize,
        )
    } else if same_text(name, "grep_search") {
        run_grep_search(
            args.text_or("pattern", ""),
            args.text_or("path", "."),
            args.text_or("include", ""),
        )
    } else {
        let mut s = "Error: Unknown tool '".to_owned();
        s.append(name);
        s.append("'");
        done_with(s)
    }
}

// ---------------------------------------------------------------------------
// Definitions
// ---------------------------------------------------------------------------

/// The definition of the `bash` tool.
pub open spec fn bash_tool() -> JsonView {
    schema::function_tool(
        "bash"@,
        "Run a shell command and return stdout+stderr."@,
        schema::structure(
            seq![
                ("command"@, schema::property("string"@, "The shell command to execute."@)),
            ],
            Some(seq!["command"@]),
        ),
    )
}

/// The definition of the `read_file` tool.
pub open spec fn read_file_tool() -> JsonView {
    schema::function_tool(
        "read_file"@,
        "Read file contents with line numbers. Use offset/limit for large files."@,
        schema::structure(
            seq![
                ("limit"@, schema::property("integer"@, "Max lines to read (optional)."@)),
                ("offset"@, schema::property("integer"@, "1-indexed start line (optional)."@)),
                ("path"@, schema::property("string"@, "File path (relative to workspace root)."@)),
            ],
            Some(seq!["path"@]),
        ),
    )
}

/// The definition of the `write_file` tool.
pub open spec fn write_file_tool() -> JsonView {
    schema::function_tool(
        "write_file"@,
        "Create or overwrite a file with the given content."@,
        schema::structure(
            seq![
                ("content"@, schema::property("string"@, "Full file content to write."@)),
                ("path"@, schema::property("string"@, "File path (relative to workspace root)."@)),
            ],
            Some(seq!["path"@, "content"@]),
        ),
    )
}

/// The definition of the `edit_file` tool.
pub open spec fn edit_file_tool() -> JsonView {
    schema::function_tool(
        "edit_file"@,
        "Replace the first occurrence of old_text with new_text in a file."@,
        schema::structure(
            seq![
                ("new_text"@, schema::property("string"@, "Replacement text."@)),
                ("old_text"@, schema::property("string"@, "Exact text to find (must match)."@)),
                ("path"@, schema::property("string"@, "File path."@)),
            ],
            Some(seq!["path"@, "old_text"@, "new_text"@]),
        ),
    )
}

/// The definition of the `list_directory` tool.
pub open spec fn list_directory_tool() -> JsonView {
    schema::function_tool(
        "list_directory"@,
        "List files and directories in a tree structure."@,
        schema::structure(
            seq![
                ("max_depth"@, schema::property("integer"@, "Max depth to traverse (default: 2)."@)),
                ("path"@, schema::property("string"@, "Directory path (default: workspace root)."@)),
            ],
            None,
        ),
    )
}

/// The definition of the `grep_search` tool.
pub open spec fn grep_search_tool() -> JsonView {
    schema::function_tool(
        "grep_search"@,
        "Search for a regex pattern in files using ripgrep. Returns matching lines with file paths and line numbers."@,
        schema::structure(
            seq![
                ("include"@, schema::property("string"@, "Glob filter, e.g. '*.py' (optional)."@)),
                ("path"@, schema::property("string"@, "Directory or file to search in (default: workspace root)."@)),
                ("pattern"@, schema::property("string"@, "Regex pattern to search for."@)),
            ],
            Some(seq!["pattern"@]),
        ),
    )
}

fn bash_definition() -> (r: Json)
    ensures
        r@ == bash_tool(),
        json::proper(r@),
{
    let required = ["command"];
    assert(text::texts(required@) =~= seq!["command"@]);
    let properties = schema::object_of_one(
        "command",
        schema::property_schema("string", "The shell command to execute."),
    );
    schema::tool_schema(
        "bash",
        "Run a shell command and return stdout+stderr.",
        schema::structure_schema(properties, Some(required.as_slice())),
    )
}

fn read_file_definition() -> (r: Json)
    ensures
        r@ == read_file_tool(),
        json::proper(r@),
{
    let required = ["path"];
    assert(text::texts(required@) =~= seq!["path"@]);
    proof {
        reveal_strlit("limit");
        reveal_strlit("offset");
        reveal_strlit("path");
    }
    let properties = schema::object_of_three(
        "limit",
        schema::property_schema("integer", "Max lines to read (optional)."),
        "offset",
        schema::property_schema("integer", "1-indexed start line (optional)."),
        "path",
        schema::property_schema("string", "File path (relative to workspace root)."),
    );
    schema::tool_schema(
        "read_file",
        "Read file contents with line numbers. Use offset/limit for large files.",
        schema::structure_schema(properties, Some(required.as_slice())),
    )
}

fn write_file_definition() -> (r: Json)
    ensures
        r@ == write_file_tool(),
        json::proper(r@),
{
    let required = ["path", "content"];
    assert(text::texts(required@) =~= seq!["path"@, "content"@]);
    proof {
        reveal_strlit("content");
        reveal_strlit("path");
    }
    let properties = schema::object_of_two(
        "content",
        schema::property_schema("string", "Full file content to write."),
        "path",
        schema::property_schema("string", "File path (relative to workspace root)."),
    );
    schema::tool_schema(
        "write_file",
        "Create or overwrite a file with the given content.",
        schema::structure_schema(properties, Some(required.as_slice())),
    )
}

fn edit_file_definition() -> (r: Json)
    ensures
        r@ == edit_file_tool(),
        json::proper(r@),
{
    let required = ["path", "old_text", "new_text"];
    assert(text::texts(required@) =~= seq!["path"@, "old_text"@, "new_text"@]);
    proof {
        reveal_strlit("new_text");
        reveal_strlit("old_text");
        reveal_strlit("path");
    }
    let properties = schema::object_of_three(
        "new_text",
        schema::property_schema("string", "Replacement text."),
        "old_text",
        schema::property_schema("string", "Exact text to find (must match)."),
        "path",
        schema::property_schema("string", "File path."),
    );
    schema::tool_schema(
        "edit_file",
        "Replace the first occurrence of old_text with new_text in a file.",
        schema::structure_schema(properties, Some(required.as_slice())),
    )
}

fn list_directory_definition() -> (r: Json)
    ensures
        r@ == list_directory_tool(),
        json::proper(r@),
{
    proof {
        reveal_strlit("max_depth");
        reveal_strlit("path");
    }
    let properties = schema::object_of_two(
        "max_depth",
        schema::property_schema("integer", "Max depth to traverse (default: 2)."),
        "path",
        schema::property_schema("string", "Directory path (default: workspace root)."),
    );
    schema::tool_schema(
        "list_directory",
        "List files and directories in a tree structure.",
        schema::structure_schema(properties, None),
    )
}

fn grep_search_definition() -> (r: Json)
    ensures
        r@ == grep_search_tool(),
        json::proper(r@),
{
    let required = ["pattern"];
    assert(text::texts(required@) =~= seq!["pattern"@]);
    proof {
        reveal_strlit("include");
        reveal_strlit("path");
        reveal_strlit("pattern");
        reveal_with_fuel(json::key_less, 4);
    }
    let properties = schema::object_of_three(
        "include",
        schema::property_schema("string", "Glob filter, e.g. '*.py' (optional)."),
        "path",
        schema::property_schema("string", "Directory or file to search in (default: workspace root)."),
        "pattern",
        schema::property_schema("string", "Regex pattern to search for."),
    );
    schema::tool_schema(
        "grep_search",
        "Search for a regex pattern in files using ripgrep. Returns matching lines with file paths and line numbers.",
        schema::structure_schema(properties, Some(required.as_slice())),
    )
}

/// The definitions of all tools of this module.
pub open spec fn tool_list() -> Seq<JsonView> {
    seq![
        bash_tool(),
        read_file_tool(),
        write_file_tool(),
        edit_file_tool(),
        list_directory_tool(),
        grep_search_tool(),
    ]
}

/// Gives the definitions of all tools of this module.
pub fn tool_definitions() -> (r: Vec<Json>)
    ensures
        r@.len() == tool_list().len(),
        forall|i: int|
            0 <= i < r@.len() ==> (#[trigger] r@[i])@ == tool_list()[i] && json::proper(r@[i]@),
{
    let mut out: Vec<Json> = Vec::new();
    out.push(bash_definition());
    out.push(read_file_definition());
    out.push(write_file_definition());
    out.push(edit_file_definition());
    out.push(list_directory_definition());
    out.push(grep_search_definition());
    out
}

// ---------------------------------------------------------------------------
// Laws
// ---------------------------------------------------------------------------

/// A command with a dangerous text in it is never run: the tool is done at once.
pub proof fn law_dangerous_commands_do_not_run(command: Seq<char>, part: int)
    requires
        0 <= part < dangerous_texts().len(),
        text::contains(command, dangerous_texts()[part]),
    ensures
        bash_step(command) == done("Error: Dangerous command blocked"@),
{
}

/// Whether a task waits for its path to be resolved.
pub open spec fn awaits_path(task: TaskView) -> bool {
    task is ReadPath || task is WritePath || task is EditPath || task is ListPath
        || task is GrepPath
}

/// Every tool but the shell begins by asking for its path to be resolved, or is done at once:
/// it touches nothing before that.
pub proof fn law_tools_begin_with_path(name: Seq<char>, args: JsonView)
    requires
        name != "bash"@,
    ensures
        match started(name, args) {
            StepView::Done(_) => true,
            StepView::Ask(request, task) => request == AskView::Resolve(task.given_path())
                && awaits_path(task),
        },
{
}

/// A path outside the workspace ends the tool with an error: nothing is read, written, listed or
/// searched there.
pub proof fn law_paths_outside_are_not_touched(task: TaskView, facts: FactsView, shown: Seq<char>)
    requires
        awaits_path(task),
        !facts.is_safe(),
    ensures
        task.next(EventView::Resolved(facts, shown)) == failed(
            paths::escape_message(task.given_path()),
        ),
{
}

/// Nothing but a path within the workspace lets a tool ask for more: from then on the task has no
/// path to resolve any longer.
pub proof fn law_paths_are_resolved_once(task: TaskView, event: EventView)
    requires
        task.fits(event),
        task.next(event) is Ask,
    ensures
        !(task.next(event)->Ask_0 is Resolve),
        !awaits_path(task.next(event)->Ask_1),
        awaits_path(task) ==> event->Resolved_0.is_safe(),
{
}

/// A listing of a file system that stays as it is shows the tree, down to the depth that was
/// asked for.
pub proof fn law_listing_shows_the_tree(fs: listing::FileSystem, max_depth: nat)
    ensures
        walk_step(listing::walked(fs, WalkView::at(0, max_depth))) == StepView::Done(
            OutputView::capped(
                or_placeholder(
                    text::joined(listing::tree(fs, 0, 0, max_depth), "\n"@),
                    "(empty directory)"@,
                ),
            ),
        ),
{
    listing::law_walk_lists_the_tree(fs, 0, max_depth);
}

/// The `write_file` tool makes the directory, then writes the content as it was given, and
/// reports its size in bytes.
pub proof fn law_content_is_written_as_given(
    path: Seq<char>,
    content: Seq<char>,
    facts: FactsView,
    shown: Seq<char>,
)
    requires
        facts.is_safe(),
    ensures
        ({
            let start = TaskView::WritePath { path, content };
            let first = start.next(EventView::Resolved(facts, shown));
            let second = first->Ask_1.next(EventView::Done(Ok(())));
            let third = second->Ask_1.next(EventView::Done(Ok(())));
            &&& first is Ask && first->Ask_0 == AskView::CreateParent
            &&& second is Ask && second->Ask_0 == AskView::WriteText(content)
            &&& third == done(wrote(path, text::byte_len(content)))
        }),
{
}

/// An error ends a tool with a report of it, except for a failure to run ripgrep: then the
/// search is tried with grep.
pub proof fn law_errors_end_the_tool(task: TaskView, event: EventView, e: Seq<char>)
    requires
        task.fits(event),
        event == EventView::Ran(Err(e)) || event == EventView::Text(Err(e)) || event
            == EventView::Done(Err(e)),
    ensures
        match task {
            TaskView::GrepRg { pattern, glob, target } => task.next(event) == StepView::Ask(
                AskView::Run(grep_process(pattern, glob, target)),
                TaskView::GrepPlain,
            ),
            _ => task.next(event) == failed(e),
        },
{
}

/// An edit changes nothing but the first occurrence of the text: what stands before and after it
/// stays, and the text does not occur earlier.
pub proof fn law_edit_replaces_first_occurrence(
    content: Seq<char>,
    old_text: Seq<char>,
    new_text: Seq<char>,
)
    requires
        replaced_first(content, old_text, new_text) is Some,
    ensures
        exists|k: int|
            {
                &&& #[trigger] text::occurs_at(content, old_text, k)
                &&& forall|j: int|
                    0 <= j < k ==> !(#[trigger] text::occurs_at(content, old_text, j))
                &&& replaced_first(content, old_text, new_text) == Some(
                    content.take(k) + new_text + content.skip(k + old_text.len()),
                )
            },
{
    text::lemma_find_from(content, old_text, 0);
    let k = text::find_from(content, old_text, 0)->Some_0;
    assert(text::occurs_at(content, old_text, k));
}

/// An edit is made exactly where the text occurs; otherwise the tool is done without a request
/// to write.
pub proof fn law_edit_iff_text_occurs(
    path: Seq<char>,
    content: Seq<char>,
    old_text: Seq<char>,
    new_text: Seq<char>,
)
    ensures
        ({
            let task = TaskView::EditRead { path, old_text, new_text };
            let step = task.next(EventView::Text(Ok(content)));
            &&& step is Ask <==> text::contains(content, old_text)
            &&& step is Ask ==> step->Ask_0 is WriteText
            &&& !(step is Ask) ==> step == done("Error: Text not found in "@ + path)
        }),
{
    text::lemma_contains_find(content, old_text);
}

/// A limited output without a note and a suffix takes up no more than the limit.
pub proof fn law_capped_output_fits(text: Seq<char>)
    ensures
        text::byte_len(OutputView::capped(text).finished()) <= OUTPUT_LIMIT,
        text::byte_len(text) <= OUTPUT_LIMIT ==> OutputView::capped(text).finished() == text,
{
    let out = OutputView::capped(text);
    text::law_clipped_is_front(text, OUTPUT_LIMIT as nat);
    assert(out.finished() =~= if text::byte_len(text) > OUTPUT_LIMIT {
        text::clipped(text, OUTPUT_LIMIT as int)
    } else {
        text
    });
}

/// A file that is read without an offset and a limit is shown as a whole, and nothing is said of
/// lines that are left out.
pub proof fn law_whole_file_is_read(content: Seq<char>)
    ensures
        selected(text::lines(content), 0, 0) == text::lines(content),
        read_output(content, 0, 0).suffix == Seq::<char>::empty(),
{
    assert(text::lines(content).skip(0) =~= text::lines(content));
}

/// Every line that is read stands behind its own number, counted from one in the whole file.
pub proof fn law_lines_keep_their_numbers(content: Seq<char>, offset: nat, limit: nat, i: int)
    requires
        0 <= i < selected(text::lines(content), offset, limit).len(),
    ensures
        ({
            let all = text::lines(content);
            let number = i + if offset > 0 {
                offset as int
            } else {
                1
            };
            &&& 1 <= number <= all.len()
            &&& numbered(selected(all, offset, limit), offset)[i] == text::right_aligned(
                text::decimal(number as nat),
                4,
            ) + "  "@ + all[number - 1]
        }),
{
}

/// Whether there is a tool with a name.
pub open spec fn is_tool(name: Seq<char>) -> bool {
    name == "bash"@ || name == "read_file"@ || name == "write_file"@ || name == "edit_file"@ || name
        == "list_directory"@ || name == "grep_search"@
}

/// Every tool that is offered is there, under the name that its definition says.
pub proof fn law_offered_tools_are_there(i: int)
    requires
        0 <= i < tool_list().len(),
    ensures
        schema::tool_name(tool_list()[i]) is Some,
        is_tool(schema::tool_name(tool_list()[i])->Some_0),
{
    assert forall|n: Seq<char>, d: Seq<char>, p: JsonView|
        schema::tool_name(#[trigger] schema::function_tool(n, d, p)) == Some(n) by {
        schema::lemma_tool_name(n, d, p);
    }
}

/// A call of any other tool is answered with an error.
pub proof fn law_unknown_tools_are_reported(name: Seq<char>, args: JsonView)
    requires
        !is_tool(name),
    ensures
        started(name, args) == done("Error: Unknown tool '"@ + name + "'"@),
{
}

/// The steps of a tool that is begun with some arguments and gets some answers, one after the
/// other.
pub open spec fn run_through(name: Seq<char>, args: JsonView, events: Seq<EventView>) -> StepView
    decreases events.len(),
{
    if events.len() == 0 {
        started(name, args)
    } else {
        run_through(name, args, events.drop_last())->Ask_1.next(events.last())
    }
}

proof fn lemma_run_through(name: Seq<char>, args: JsonView, events: Seq<EventView>, e: EventView)
    ensures
        run_through(name, args, events.push(e)) == run_through(name, args, events)->Ask_1.next(e),
{
    assert(events.push(e).drop_last() =~= events);
}

/// What a tool with a limited output ends with: a text that fits is kept whole, and of a longer
/// one as many characters at the front as fit.
pub proof fn law_limited_output_is_front(out: OutputView)
    ensures
        !out.limited ==> out.finished() == out.text + out.suffix,
        text::byte_len(out.text) <= 50000 ==> out.finished() == out.text + out.suffix,
        out.limited && text::byte_len(out.text) > 50000 ==> exists|k: int|
            {
                &&& 0 <= k < out.text.len()
                &&& text::byte_len(#[trigger] out.text.take(k)) <= 50000
                &&& text::byte_len(out.text.take(k + 1)) > 50000
                &&& out.finished() == out.text.take(k) + out.note + out.suffix
            },
{
    if out.limited && text::byte_len(out.text) > 50000 {
        text::law_clipped_is_front(out.text, 50000);
        let k = text::clipped(out.text, 50000).len() as int;
        if k == out.text.len() {
            assert(out.text.take(k) =~= out.text);
        }
        assert(text::byte_len(out.text.take(k)) <= 50000);
        assert(text::byte_len(out.text.take(k + 1)) > 50000);
    }
}

/// The `bash` tool refuses a command exactly where one of the dangerous texts stands in it. Any
/// other command is handed to the shell as it was given.
pub proof fn law_shell_gets_the_command(args: JsonView, command: Seq<char>)
    requires
        command == args.text_or("command"@, ""@),
    ensures
        ({
            let dangerous = text::contains(command, "rm -rf /"@) || text::contains(
                command,
                "rm -rf ~"@,
            ) || text::contains(command, "sudo rm"@) || text::contains(command, "shutdown"@)
                || text::contains(command, "reboot"@) || text::contains(command, "> /dev/"@)
                || text::contains(command, "mkfs"@);
            let first = started("bash"@, args);
            &&& dangerous ==> first is Done && first->Done_0.finished()
                == "Error: Dangerous command blocked"@
            &&& !dangerous ==> {
                &&& first is Ask
                &&& first->Ask_0 is Run
                &&& first->Ask_0->Run_0.program == "sh"@
                &&& first->Ask_0->Run_0.args == seq!["-c"@, command]
            }
        }),
{
    let all = dangerous_texts();
    assert(all[0] == "rm -rf /"@ && all[1] == "rm -rf ~"@ && all[2] == "sudo rm"@ && all[3]
        == "shutdown"@ && all[4] == "reboot"@ && all[5] == "> /dev/"@ && all[6] == "mkfs"@);
    if started("bash"@, args) is Done {
        assert(started("bash"@, args)->Done_0.finished() =~= "Error: Dangerous command blocked"@);
    }
}

/// What a command put out is the output of the `bash` tool as it stands, up to the limit. Only
/// where it put out nothing a placeholder stands there. A failure to run it is reported.
pub proof fn law_shell_output_is_given(args: JsonView, out: Seq<char>, e: Seq<char>)
    requires
        started("bash"@, args) is Ask,
    ensures
        ({
            let task = started("bash"@, args)->Ask_1;
            let step = task.next(EventView::Ran(Ok(out)));
            let failure = task.next(EventView::Ran(Err(e)));
            &&& task.fits(EventView::Ran(Ok(out)))
            &&& step is Done
            &&& out.len() > 0 ==> step->Done_0.text == out && step->Done_0.limited
                && step->Done_0.note.len() == 0 && step->Done_0.suffix.len() == 0
            &&& 0 < out.len() && text::byte_len(out) <= 50000 ==> step->Done_0.finished() == out
            &&& out.len() == 0 ==> step->Done_0.text == "(no output)"@
            &&& failure is Done
            &&& failure->Done_0.finished() == "Error: "@ + e
        }),
{
    let task = started("bash"@, args)->Ask_1;
    let step = task.next(EventView::Ran(Ok(out)));
    let failure = task.next(EventView::Ran(Err(e)));
    assert(out.len() > 0 && text::byte_len(out) <= 50000 ==> step->Done_0.finished() =~= out);
    assert(failure->Done_0.finished() =~= "Error: "@ + e);
}

/// What a program put out is both of its channels, one behind the other, but for white space at
/// the two ends.
pub proof fn law_both_channels_are_kept(stdout: Seq<u8>, stderr: Seq<u8>)
    ensures
        exists|front: Seq<char>, back: Seq<char>|
            {
                &&& text::lossy(stdout) + text::lossy(stderr) == #[trigger] (front + program_output(
                    stdout,
                    stderr,
                ) + back)
                &&& text::is_blank(front)
                &&& text::is_blank(back)
            },
        program_output(stdout, stderr).len() > 0 ==> !text::is_white_space(
            program_output(stdout, stderr)[0],
        ) && !text::is_white_space(program_output(stdout, stderr).last()),
{
    text::law_trimmed_loses_only_white_space(text::lossy(stdout) + text::lossy(stderr));
}

/// The `read_file` tool shows the lines of the file from the one that `offset` names, counted
/// from one, each behind its own number in the file: as many as `limit` says, or as there are.
/// Without an offset it begins at the first line, without a limit it goes to the last. Where
/// lines are left out it says how many there are.
pub proof fn law_read_file_shows_the_asked_lines(
    args: JsonView,
    facts: FactsView,
    shown: Seq<char>,
    content: Seq<char>,
    rows: Seq<Seq<char>>,
)
    requires
        facts.is_safe(),
        args.integer_or("offset"@, 0) <= usize::MAX,
        args.integer_or("limit"@, 0) <= usize::MAX,
        ({
            let offset = args.integer_or("offset"@, 0) as int;
            let limit = args.integer_or("limit"@, 0) as int;
            let start = if offset == 0 {
                1
            } else {
                offset
            };
            let left = text::lines(content).len() - start + 1;
            &&& rows.len() == if left <= 0 {
                0
            } else if limit == 0 || limit > left {
                left
            } else {
                limit
            }
            &&& forall|i: int|
                0 <= i < rows.len() ==> #[trigger] rows[i] == text::right_aligned(
                    text::decimal((start + i) as nat),
                    4,
                ) + "  "@ + text::lines(content)[start + i - 1]
        }),
    ensures
        ({
            let answers = seq![EventView::Resolved(facts, shown), EventView::Text(Ok(content))];
            let first = run_through("read_file"@, args, seq![]);
            let second = run_through("read_file"@, args, answers.take(1));
            let third = run_through("read_file"@, args, answers);
            let total = text::lines(content).len();
            &&& first is Ask && first->Ask_0 == AskView::Resolve(args.text_or("path"@, ""@))
            &&& second is Ask && second->Ask_0 is ReadText
            &&& third is Done
            &&& third->Done_0.limited
            &&& third->Done_0.text == text::joined(rows, "\n"@)
            &&& third->Done_0.note == "\n... (truncated)"@
            &&& rows.len() < total ==> third->Done_0.suffix == "\n["@ + text::decimal(total)
                + " lines total]"@
            &&& rows.len() == total ==> third->Done_0.suffix.len() == 0
        }),
{
    let none = Seq::<EventView>::empty();
    let resolved = EventView::Resolved(facts, shown);
    let read = EventView::Text(Ok(content));
    let answers = seq![resolved, read];
    lemma_run_through("read_file"@, args, none, resolved);
    lemma_run_through("read_file"@, args, none.push(resolved), read);
    assert(answers =~= none.push(resolved).push(read));
    assert(answers.take(1) =~= none.push(resolved));
    lemma_tool_names_differ();
    let offset = args.integer_or("offset"@, 0);
    let limit = args.integer_or("limit"@, 0);
    assert((offset as usize) as nat == offset && (limit as usize) as nat == limit);
    let some = selected(text::lines(content), offset as nat, limit as nat);
    assert(numbered(some, offset as nat) =~= rows);
}

/// The names of the tools are all different.
proof fn lemma_tool_names_differ()
    ensures
        "read_file"@ != "bash"@,
        "write_file"@ != "bash"@,
        "edit_file"@ != "bash"@,
        "list_directory"@ != "bash"@,
        "grep_search"@ != "bash"@,
        "write_file"@ != "read_file"@,
        "edit_file"@ != "read_file"@,
        "list_directory"@ != "read_file"@,
        "grep_search"@ != "read_file"@,
        "edit_file"@ != "write_file"@,
        "list_directory"@ != "write_file"@,
        "grep_search"@ != "write_file"@,
        "list_directory"@ != "edit_file"@,
        "grep_search"@ != "edit_file"@,
        "grep_search"@ != "list_directory"@,
{
    reveal_strlit("bash");
    reveal_strlit("read_file");
    reveal_strlit("write_file");
    reveal_strlit("edit_file");
    reveal_strlit("list_directory");
    reveal_strlit("grep_search");
    assert("read_file"@[0] != "edit_file"@[0]);
    assert("bash"@.len() == 4);
    assert("read_file"@.len() == 9);
    assert("write_file"@.len() == 10);
    assert("edit_file"@.len() == 9);
    assert("list_directory"@.len() == 14);
    assert("grep_search"@.len() == 11);
}

/// The `write_file` tool makes the directory, writes the content as it was given, and says how
/// many bytes that are and where it wrote them.
pub proof fn law_write_file_writes_the_content(args: JsonView, facts: FactsView, shown: Seq<char>)
    requires
        facts.is_safe(),
    ensures
        ({
            let path = args.text_or("path"@, ""@);
            let content = args.text_or("content"@, ""@);
            let done = EventView::Done(Ok(()));
            let answers = seq![EventView::Resolved(facts, shown), done, done];
            let first = run_through("write_file"@, args, seq![]);
            let second = run_through("write_file"@, args, answers.take(1));
            let third = run_through("write_file"@, args, answers.take(2));
            let fourth = run_through("write_file"@, args, answers);
            &&& first is Ask && first->Ask_0 == AskView::Resolve(path)
            &&& second is Ask && second->Ask_0 is CreateParent
            &&& third is Ask && third->Ask_0 == AskView::WriteText(content)
            &&& fourth is Done
            &&& fourth->Done_0.finished() == "Wrote "@ + text::decimal(text::byte_len(content))
                + " bytes to "@ + path
        }),
{
    let none = Seq::<EventView>::empty();
    let path = args.text_or("path"@, ""@);
    let content = args.text_or("content"@, ""@);
    let resolved = EventView::Resolved(facts, shown);
    let done = EventView::Done(Ok(()));
    let answers = seq![resolved, done, done];
    lemma_run_through("write_file"@, args, none, resolved);
    lemma_run_through("write_file"@, args, none.push(resolved), done);
    lemma_run_through("write_file"@, args, none.push(resolved).push(done), done);
    assert(answers =~= none.push(resolved).push(done).push(done));
    assert(answers.take(1) =~= none.push(resolved));
    assert(answers.take(2) =~= none.push(resolved).push(done));
    lemma_tool_names_differ();
    let fourth = run_through("write_file"@, args, answers);
    assert(fourth->Done_0.finished() =~= "Wrote "@ + text::decimal(text::byte_len(content))
        + " bytes to "@ + path);
}

/// The `edit_file` tool reads the file and writes it with the new text, as it was given, in the
/// place of the first occurrence of the old text; all before and behind that stays. It says where
/// it did so, and how many occurrences there were where there were several.
pub proof fn law_edit_file_writes_the_replacement(
    args: JsonView,
    facts: FactsView,
    shown: Seq<char>,
    front: Seq<char>,
    back: Seq<char>,
)
    requires
        facts.is_safe(),
        ({
            let old_text = args.text_or("old_text"@, ""@);
            let content = front + old_text + back;
            forall|j: int| 0 <= j < front.len() ==> !#[trigger] text::occurs_at(content, old_text, j)
        }),
    ensures
        ({
            let path = args.text_or("path"@, ""@);
            let old_text = args.text_or("old_text"@, ""@);
            let new_text = args.text_or("new_text"@, ""@);
            let content = front + old_text + back;
            let count = text::occurrences(content, old_text, 0);
            let answers = seq![
                EventView::Resolved(facts, shown),
                EventView::Text(Ok(content)),
                EventView::Done(Ok(())),
            ];
            let first = run_through("edit_file"@, args, seq![]);
            let second = run_through("edit_file"@, args, answers.take(1));
            let third = run_through("edit_file"@, args, answers.take(2));
            let fourth = run_through("edit_file"@, args, answers);
            &&& first is Ask && first->Ask_0 == AskView::Resolve(path)
            &&& second is Ask && second->Ask_0 is ReadText
            &&& third is Ask && third->Ask_0 == AskView::WriteText(front + new_text + back)
            &&& fourth is Done
            &&& count <= 1 ==> fourth->Done_0.finished() == "Edited "@ + path
            &&& count > 1 ==> fourth->Done_0.finished() == "Edited "@ + path + " (1 of "@
                + text::decimal(count) + " occurrences replaced)"@
        }),
{
    let none = Seq::<EventView>::empty();
    let path = args.text_or("path"@, ""@);
    let old_text = args.text_or("old_text"@, ""@);
    let new_text = args.text_or("new_text"@, ""@);
    let content = front + old_text + back;
    let resolved = EventView::Resolved(facts, shown);
    let read = EventView::Text(Ok(content));
    let done = EventView::Done(Ok(()));
    let answers = seq![resolved, read, done];
    lemma_run_through("edit_file"@, args, none, resolved);
    lemma_run_through("edit_file"@, args, none.push(resolved), read);
    lemma_run_through("edit_file"@, args, none.push(resolved).push(read), done);
    assert(answers =~= none.push(resolved).push(read).push(done));
    assert(answers.take(1) =~= none.push(resolved));
    assert(answers.take(2) =~= none.push(resolved).push(read));
    lemma_tool_names_differ();
    text::law_occurrence_splits(content, old_text, front, back);
    text::lemma_find_from(content, old_text, 0);
    let k = front.len() as int;
    assert(text::find_from(content, old_text, 0) == Some(k));
    assert(content.take(k) =~= front);
    assert(content.skip(k + old_text.len()) =~= back);
    let fourth = run_through("edit_file"@, args, answers);
    let count = text::occurrences(content, old_text, 0);
    assert(fourth->Done_0.finished() =~= if count > 1 {
        "Edited "@ + path + " (1 of "@ + text::decimal(count) + " occurrences replaced)"@
    } else {
        "Edited "@ + path
    });
}

/// The `edit_file` tool writes nothing where the old text does not occur, and says so.
pub proof fn law_edit_file_needs_the_text(
    args: JsonView,
    facts: FactsView,
    shown: Seq<char>,
    content: Seq<char>,
)
    requires
        facts.is_safe(),
        !text::contains(content, args.text_or("old_text"@, ""@)),
    ensures
        ({
            let answers = seq![EventView::Resolved(facts, shown), EventView::Text(Ok(content))];
            let last = run_through("edit_file"@, args, answers);
            last is Done && last->Done_0.finished() == "Error: Text not found in "@ + args.text_or(
                "path"@,
                ""@,
            )
        }),
{
    let none = Seq::<EventView>::empty();
    let resolved = EventView::Resolved(facts, shown);
    let read = EventView::Text(Ok(content));
    let answers = seq![resolved, read];
    lemma_run_through("edit_file"@, args, none, resolved);
    lemma_run_through("edit_file"@, args, none.push(resolved), read);
    assert(answers =~= none.push(resolved).push(read));
    lemma_tool_names_differ();
    text::lemma_contains_find(content, args.text_or("old_text"@, ""@));
    let last = run_through("edit_file"@, args, answers);
    assert(last->Done_0.finished() =~= "Error: Text not found in "@ + args.text_or("path"@, ""@));
}

/// The `list_directory` tool lists the directory that was named, the workspace where none was,
/// down to the depth that was asked for, two where none was. What is no directory is reported.
pub proof fn law_list_directory_goes_to_the_asked_depth(
    args: JsonView,
    facts: FactsView,
    shown: Seq<char>,
    fs: listing::FileSystem,
)
    requires
        facts.is_safe(),
        args.integer_or("max_depth"@, 2) <= usize::MAX,
    ensures
        ({
            let path = args.text_or("path"@, "."@);
            let depth = args.integer_or("max_depth"@, 2) as nat;
            let answers = seq![EventView::Resolved(facts, shown), EventView::Directory(true)];
            let first = run_through("list_directory"@, args, seq![]);
            let second = run_through("list_directory"@, args, answers.take(1));
            let third = run_through("list_directory"@, args, answers);
            let refused = second->Ask_1.next(EventView::Directory(false));
            let rows = listing::tree(fs, 0, 0, depth);
            &&& first is Ask && first->Ask_0 == AskView::Resolve(path)
            &&& second is Ask && second->Ask_0 is CheckDirectory
            &&& third is Ask && third->Ask_0 == AskView::ListDirectory(0)
            &&& third->Ask_1 is ListWalk
            &&& listing::walked(fs, third->Ask_1->ListWalk_walk).pending is None
            &&& listing::walked(fs, third->Ask_1->ListWalk_walk).lines == rows
            &&& refused is Done
            &&& refused->Done_0.finished() == "Error: "@ + path + " is not a directory"@
        }),
{
    let none = Seq::<EventView>::empty();
    let path = args.text_or("path"@, "."@);
    let depth = args.integer_or("max_depth"@, 2);
    let resolved = EventView::Resolved(facts, shown);
    let is_dir = EventView::Directory(true);
    let answers = seq![resolved, is_dir];
    lemma_run_through("list_directory"@, args, none, resolved);
    lemma_run_through("list_directory"@, args, none.push(resolved), is_dir);
    assert(answers =~= none.push(resolved).push(is_dir));
    assert(answers.take(1) =~= none.push(resolved));
    lemma_tool_names_differ();
    assert((depth as usize) as nat == depth);
    listing::law_walk_lists_the_tree(fs, 0, depth as nat);
    let second = run_through("list_directory"@, args, answers.take(1));
    let refused = second->Ask_1.next(EventView::Directory(false));
    assert(refused->Done_0.finished() =~= "Error: "@ + path + " is not a directory"@);
}

/// A listing goes on with the directory that it asked for until there is none left to ask for.
/// Its output are its lines, and a placeholder where there are none.
pub proof fn law_listing_ends_with_its_lines(walk: WalkView, entries: Option<Seq<EntryInfo>>)
    ensures
        ({
            let step = (TaskView::ListWalk { walk }).next(EventView::Listing(entries));
            let after = walk.fed(entries);
            let all = text::joined(after.lines, "\n"@);
            &&& after.pending is Some ==> step is Ask && step->Ask_0 == AskView::ListDirectory(
                after.pending->Some_0,
            ) && step->Ask_1 is ListWalk && step->Ask_1->ListWalk_walk == after
            &&& after.pending is None ==> step is Done && step->Done_0.limited
                && step->Done_0.note.len() == 0 && step->Done_0.suffix.len() == 0
            &&& after.pending is None && all.len() > 0 ==> step->Done_0.text == all
            &&& after.pending is None && all.len() == 0 ==> step->Done_0.text
                == "(empty directory)"@
        }),
{
}

/// The `grep_search` tool runs ripgrep on the pattern, as it was given, in the place that was
/// named, the workspace where none was, with a filter only where one was given. What ripgrep put
/// out is the output as it stands, up to the limit; only where it put out nothing there are no
/// matches.
pub proof fn law_search_gives_what_ripgrep_finds(
    args: JsonView,
    facts: FactsView,
    shown: Seq<char>,
    out: Seq<char>,
)
    requires
        facts.is_safe(),
    ensures
        ({
            let pattern = args.text_or("pattern"@, ""@);
            let filter = args.text_or("include"@, ""@);
            let answers = seq![EventView::Resolved(facts, shown), EventView::Ran(Ok(out))];
            let first = run_through("grep_search"@, args, seq![]);
            let second = run_through("grep_search"@, args, answers.take(1));
            let third = run_through("grep_search"@, args, answers);
            &&& first is Ask && first->Ask_0 == AskView::Resolve(args.text_or("path"@, "."@))
            &&& second is Ask && second->Ask_0 is Run
            &&& second->Ask_0->Run_0.program == "rg"@
            &&& second->Ask_0->Run_0.args == seq![
                "--no-heading"@,
                "--line-number"@,
                "--color=never"@,
                "-m"@,
                "50"@,
            ] + (if filter.len() == 0 {
                seq![]
            } else {
                seq!["-g"@, filter]
            }) + seq![pattern, shown]
            &&& third is Done
            &&& third->Done_0.limited && third->Done_0.note.len() == 0
                && third->Done_0.suffix.len() == 0
            &&& out.len() > 0 ==> third->Done_0.text == out
            &&& out.len() == 0 ==> third->Done_0.text == "(no matches)"@
            &&& 0 < out.len() && text::byte_len(out) <= 50000 ==> third->Done_0.finished() == out
        }),
{
    let none = Seq::<EventView>::empty();
    let pattern = args.text_or("pattern"@, ""@);
    let filter = args.text_or("include"@, ""@);
    let resolved = EventView::Resolved(facts, shown);
    let ran = EventView::Ran(Ok(out));
    let answers = seq![resolved, ran];
    lemma_run_through("grep_search"@, args, none, resolved);
    lemma_run_through("grep_search"@, args, none.push(resolved), ran);
    assert(answers =~= none.push(resolved).push(ran));
    assert(answers.take(1) =~= none.push(resolved));
    lemma_tool_names_differ();
    let second = run_through("grep_search"@, args, answers.take(1));
    assert(second->Ask_0->Run_0.args =~= seq![
        "--no-heading"@,
        "--line-number"@,
        "--color=never"@,
        "-m"@,
        "50"@,
    ] + (if filter.len() == 0 {
        seq![]
    } else {
        seq!["-g"@, filter]
    }) + seq![pattern, shown]);
    let third = run_through("grep_search"@, args, answers);
    assert(out.len() > 0 && text::byte_len(out) <= 50000 ==> third->Done_0.finished() =~= out);
}

/// Where ripgrep cannot be run, grep searches for the same pattern in the same place, with the
/// same filter. The output are the first fifty lines that it put out; only where it put out
/// nothing there are no matches.
pub proof fn law_search_falls_back_to_grep(
    args: JsonView,
    facts: FactsView,
    shown: Seq<char>,
    out: Seq<char>,
    e: Seq<char>,
    failure: Seq<char>,
)
    requires
        facts.is_safe(),
    ensures
        ({
            let pattern = args.text_or("pattern"@, ""@);
            let filter = args.text_or("include"@, ""@);
            let answers = seq![EventView::Resolved(facts, shown), EventView::Ran(Err(e))];
            let third = run_through("grep_search"@, args, answers);
            let fourth = third->Ask_1.next(EventView::Ran(Ok(out)));
            let failed = third->Ask_1.next(EventView::Ran(Err(failure)));
            let rows = text::lines(out);
            &&& third is Ask && third->Ask_0 is Run
            &&& third->Ask_0->Run_0.program == "grep"@
            &&& third->Ask_0->Run_0.args == seq!["-rn"@, "--color=never"@] + (if filter.len() == 0 {
                seq![]
            } else {
                seq!["--include"@, filter]
            }) + seq![pattern, shown]
            &&& fourth is Done
            &&& rows.len() == 0 ==> fourth->Done_0.finished() == "(no matches)"@
            &&& 0 < rows.len() <= 50 ==> fourth->Done_0.finished() == text::joined(rows, "\n"@)
            &&& rows.len() > 50 ==> fourth->Done_0.finished() == text::joined(
                rows.take(50),
                "\n"@,
            )
            &&& failed is Done
            &&& failed->Done_0.finished() == "Error: "@ + failure
        }),
{
    let none = Seq::<EventView>::empty();
    let pattern = args.text_or("pattern"@, ""@);
    let filter = args.text_or("include"@, ""@);
    let resolved = EventView::Resolved(facts, shown);
    let ran = EventView::Ran(Err(e));
    let answers = seq![resolved, ran];
    lemma_run_through("grep_search"@, args, none, resolved);
    lemma_run_through("grep_search"@, args, none.push(resolved), ran);
    assert(answers =~= none.push(resolved).push(ran));
    lemma_tool_names_differ();
    let third = run_through("grep_search"@, args, answers);
    assert(third->Ask_0->Run_0.args =~= seq!["-rn"@, "--color=never"@] + (if filter.len() == 0 {
        seq![]
    } else {
        seq!["--include"@, filter]
    }) + seq![pattern, shown]);
    let fourth = third->Ask_1.next(EventView::Ran(Ok(out)));
    let failed = third->Ask_1.next(EventView::Ran(Err(failure)));
    assert(fourth->Done_0.finished() =~= fourth->Done_0.text);
    assert(failed->Done_0.finished() =~= "Error: "@ + failure);
}

/// A path outside the workspace is reported as it was given, and a file that cannot be read or
/// written with the reason.
pub proof fn law_tools_report_what_went_wrong(
    task: TaskView,
    facts: FactsView,
    shown: Seq<char>,
    e: Seq<char>,
)
    ensures
        awaits_path(task) && !facts.is_safe() ==> ({
            let step = task.next(EventView::Resolved(facts, shown));
            step is Done && step->Done_0.finished() == "Error: Path escapes workspace: "@
                + task.given_path()
        }),
        task.fits(EventView::Text(Err(e))) ==> ({
            let step = task.next(EventView::Text(Err(e)));
            step is Done && step->Done_0.finished() == "Error: "@ + e
        }),
        task.fits(EventView::Done(Err(e))) ==> ({
            let step = task.next(EventView::Done(Err(e)));
            step is Done && step->Done_0.finished() == "Error: "@ + e
        }),
{
    if awaits_path(task) && !facts.is_safe() {
        reveal_strlit("Error: ");
        reveal_strlit("Path escapes workspace: ");
        reveal_strlit("Error: Path escapes workspace: ");
        let step = task.next(EventView::Resolved(facts, shown));
        assert("Error: "@ + "Path escapes workspace: "@ =~= "Error: Path escapes workspace: "@);
        assert(step->Done_0.finished() =~= "Error: "@ + "Path escapes workspace: "@
            + task.given_path());
    }
    if task.fits(EventView::Text(Err(e))) {
        let step = task.next(EventView::Text(Err(e)));
        assert(step->Done_0.finished() =~= "Error: "@ + e);
    }
    if task.fits(EventView::Done(Err(e))) {
        let step = task.next(EventView::Done(Err(e)));
        assert(step->Done_0.finished() =~= "Error: "@ + e);
    }
}

/// The tools that are offered are these, in this order.
pub proof fn law_these_tools_are_offered()
    ensures
        tool_list().len() == 6,
        schema::tool_name(tool_list()[0]) == Some("bash"@),
        schema::tool_name(tool_list()[1]) == Some("read_file"@),
        schema::tool_name(tool_list()[2]) == Some("write_file"@),
        schema::tool_name(tool_list()[3]) == Some("edit_file"@),
        schema::tool_name(tool_list()[4]) == Some("list_directory"@),
        schema::tool_name(tool_list()[5]) == Some("grep_search"@),
{
    assert forall|n: Seq<char>, d: Seq<char>, p: JsonView|
        schema::tool_name(#[trigger] schema::function_tool(n, d, p)) == Some(n) by {
        schema::lemma_tool_name(n, d, p);
    }
}

/// The properties that a definition offers as arguments.
pub open spec fn offered(definition: JsonView) -> Option<JsonView> {
    match definition.field("function"@) {
        Some(f) => match f.field("parameters"@) {
            Some(p) => p.field("properties"@),
            None => None,
        },
        None => None,
    }
}

/// Whether two argument lists agree on all that a definition offers.
pub open spec fn agree_on_offered(definition: JsonView, one: JsonView, other: JsonView) -> bool {
    forall|key: Seq<char>|
        offered(definition) is Some && offered(definition)->Some_0.field(key) is Some
            ==> #[trigger] one.field(key) == other.field(key)
}

proof fn lemma_offered(
    name: Seq<char>,
    description: Seq<char>,
    properties: Seq<(Seq<char>, JsonView)>,
    required: Option<Seq<Seq<char>>>,
)
    ensures
        offered(
            schema::function_tool(name, description, schema::structure(properties, required)),
        ) == Some(JsonView::Object(properties)),
{
    reveal_strlit("description");
    reveal_strlit("name");
    reveal_strlit("parameters");
    reveal_with_fuel(json::lookup, 4);
    assert("description"@.len() != "name"@.len());
    assert("description"@.len() != "parameters"@.len());
    assert("name"@.len() != "parameters"@.len());
}

/// A tool reads no argument but those that its definition offers: arguments that agree on them
/// begin it in the same way.
pub proof fn law_tools_read_what_they_offer(i: int, one: JsonView, other: JsonView)
    requires
        0 <= i < tool_list().len(),
        agree_on_offered(tool_list()[i], one, other),
    ensures
        started(schema::tool_name(tool_list()[i])->Some_0, one) == started(
            schema::tool_name(tool_list()[i])->Some_0,
            other,
        ),
{
    law_these_tools_are_offered();
    lemma_tool_names_differ();
    let list = tool_list();
    assert forall|n: Seq<char>, d: Seq<char>, p: Seq<(Seq<char>, JsonView)>, r: Option<
        Seq<Seq<char>>,
    >|
        offered(#[trigger] schema::function_tool(n, d, schema::structure(p, r))) == Some(
            JsonView::Object(p),
        ) by {
        lemma_offered(n, d, p, r);
    }
    let properties = offered(list[i])->Some_0->Object_0;
    assert(offered(list[i]) == Some(JsonView::Object(properties)));
    assert forall|k: int| 0 <= k < properties.len() implies one.field(#[trigger] properties[k].0)
        == other.field(properties[k].0) by {
        lemma_key_is_there(properties, k);
    }
    assert(one.field(properties[0].0) == other.field(properties[0].0));
    if i == 1 || i == 3 || i == 5 {
        assert(one.field(properties[1].0) == other.field(properties[1].0));
        assert(one.field(properties[2].0) == other.field(properties[2].0));
    } else if i == 2 || i == 4 {
        assert(one.field(properties[1].0) == other.field(properties[1].0));
    }
}

/// Where an entry has a key, there is a value under the key.
proof fn lemma_key_is_there(entries: Seq<(Seq<char>, JsonView)>, k: int)
    requires
        0 <= k < entries.len(),
    ensures
        JsonView::Object(entries).field(entries[k].0) is Some,
    decreases entries.len(),
{
    if k > 0 && entries[0].0 != entries[k].0 {
        lemma_key_is_there(entries.drop_first(), k - 1);
    }
}

/// An output can be cut unless it is limited, longer than the limit, and a character lies across
/// the limit.
pub proof fn law_when_an_output_can_be_cut(out: OutputView)
    ensures
        out.can_finish() <==> !out.limited || text::byte_len(out.text) <= 50000 || exists|k: int|
            0 <= k <= out.text.len() && text::byte_len(#[trigger] out.text.take(k)) == 50000,
{
    text::law_clean_cut(out.text, 50000);
}

/// Whether an event is an answer to a request.
pub open spec fn is_answer_to(request: AskView, event: EventView) -> bool {
    match request {
        AskView::Resolve(_) => event is Resolved,
        AskView::Run(_) => event is Ran,
        AskView::ReadText => event is Text,
        AskView::CreateParent | AskView::WriteText(_) => event is Done,
        AskView::CheckDirectory => event is Directory,
        AskView::ListDirectory(_) => event is Listing,
    }
}

/// A tool waits for an answer to what it has asked for, whatever the answer says, and for nothing
/// else: at its beginning and after every answer.
pub proof fn law_tools_wait_for_their_answers(
    name: Seq<char>,
    args: JsonView,
    task: TaskView,
    event: EventView,
    next: EventView,
)
    ensures
        started(name, args) is Ask ==> (started(name, args)->Ask_1.fits(next) <==> is_answer_to(
            started(name, args)->Ask_0,
            next,
        )),
        task.fits(event) && task.next(event) is Ask ==> (task.next(event)->Ask_1.fits(next)
            <==> is_answer_to(task.next(event)->Ask_0, next)),
{
}

/// The parameters of a tool, as they stand in its definition.
pub open spec fn parameters_of(definition: JsonView) -> JsonView {
    definition.field("function"@)->Some_0.field("parameters"@)->Some_0
}

/// The arguments that a tool must be given are those without which it has nothing to work on. All
/// others may be left out.
pub proof fn law_required_arguments()
    ensures
        parameters_of(tool_list()[0]).field("required"@) == Some(
            schema::text_list(seq!["command"@]),
        ),
        parameters_of(tool_list()[1]).field("required"@) == Some(schema::text_list(seq!["path"@])),
        parameters_of(tool_list()[2]).field("required"@) == Some(
            schema::text_list(seq!["path"@, "content"@]),
        ),
        parameters_of(tool_list()[3]).field("required"@) == Some(
            schema::text_list(seq!["path"@, "old_text"@, "new_text"@]),
        ),
        parameters_of(tool_list()[4]).field("required"@) is None,
        parameters_of(tool_list()[5]).field("required"@) == Some(
            schema::text_list(seq!["pattern"@]),
        ),
{
    assert forall|n: Seq<char>, d: Seq<char>, p: JsonView|
        #[trigger] schema::function_tool(n, d, p).field("function"@) is Some && parameters_of(
            schema::function_tool(n, d, p),
        ) == p by {
        schema::law_tool_has_its_parts(n, d, p);
    }
    assert forall|p: Seq<(Seq<char>, JsonView)>, r: Option<Seq<Seq<char>>>|
        (#[trigger] schema::structure(p, r)).field("required"@) == match r {
            Some(names) => Some(schema::text_list(names)),
            None => None,
        } by {
        schema::law_structure_has_its_parts(p, r);
    }
    let list = tool_list();
    assert(parameters_of(list[0]).field("required"@) == Some(schema::text_list(seq!["command"@])));
    assert(parameters_of(list[1]).field("required"@) == Some(schema::text_list(seq!["path"@])));
    assert(parameters_of(list[4]).field("required"@) is None);
}

} // verus!
