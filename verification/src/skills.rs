//! Local skills: instruction texts that the model loads by name when it needs them.
//!
//! A skill is a directory with a `SKILL.md` in it, which may begin with a front matter that
//! gives its name and its description. Only these two stand in the system prompt; the text
//! itself is handed out by the `load_skill` tool.
use vstd::prelude::*;
use vstd::string::*;

use crate::json;
use crate::json::{Json, JsonView};
use crate::paths;
use crate::paths::PathComponent;
use crate::schema;
use crate::text;
use crate::text::{same_text, Trim};

verus! {

// ---------------------------------------------------------------------------
// Front matter
// ---------------------------------------------------------------------------

/// The place where the line that begins at a place ends.
pub open spec fn line_end(s: Seq<char>, pos: int) -> int {
    pos + text::before(s.skip(pos), '\n')
}

/// Whether a line closes a front matter.
pub open spec fn closes(line: Seq<char>) -> bool {
    text::trim_back(line, Trim::Space) == "---"@
}

/// The place of the first line from a place on that closes a front matter.
pub open spec fn closing_line(s: Seq<char>, pos: int) -> Option<int>
    decreases s.len() - pos,
{
    if pos < 0 || pos >= s.len() {
        None
    } else if closes(s.subrange(pos, line_end(s, pos))) {
        Some(pos)
    } else if line_end(s, pos) >= s.len() {
        None
    } else {
        closing_line(s, line_end(s, pos) + 1)
    }
}

/// A text without the byte order marks that it may begin with.
pub open spec fn without_marks(s: Seq<char>) -> Seq<char> {
    text::trim_front(s, Trim::Only('\u{feff}'))
}

/// What follows the first line of a text.
pub open spec fn after_first_line(s: Seq<char>) -> Seq<char> {
    s.skip(text::before(s, '\n') as int + 1)
}

/// What follows the line that begins at a place.
pub open spec fn after_line(s: Seq<char>, pos: int) -> Seq<char> {
    if line_end(s, pos) < s.len() {
        s.skip(line_end(s, pos) + 1)
    } else {
        Seq::empty()
    }
}

/// The front matter and the body of a text; nothing where it has no front matter. A front matter
/// opens with a first line that begins with three dashes and closes with a line of three dashes.
pub open spec fn front_matter(s: Seq<char>) -> Option<(Seq<char>, Seq<char>)> {
    let t = without_marks(s);
    if !text::starts_with(t, "---"@) || text::before(t, '\n') == t.len() {
        None
    } else {
        let rest = after_first_line(t);
        match closing_line(rest, 0) {
            Some(pos) => Some((rest.take(pos), after_line(rest, pos))),
            None => None,
        }
    }
}

/// The bytes up to the end of a line, in terms of those up to its beginning.
proof fn lemma_line_bytes(s: Seq<char>, pos: int, end: int)
    requires
        0 <= pos <= end < s.len(),
        s[end] == '\n',
    ensures
        text::byte_len(s.take(end + 1)) == text::byte_len(s.take(pos)) + text::byte_len(
            s.subrange(pos, end),
        ) + 1,
        text::byte_len(s.take(end + 1)) <= text::byte_len(s),
{
    let a = s.take(pos);
    let b = s.subrange(pos, end);
    let nl = seq!['\n'];
    assert(s.take(end + 1) =~= a + b + nl);
    text::lemma_encode_concat(a, b);
    text::lemma_encode_concat(a + b, nl);
    reveal_with_fuel(vstd::utf8::encode_utf8, 2);
    assert(nl.drop_first() =~= Seq::empty());
    assert(s =~= s.take(end + 1) + s.skip(end + 1));
    text::lemma_encode_concat(s.take(end + 1), s.skip(end + 1));
}

/// Splits a text into its front matter and its body. Where it has no front matter the whole text
/// is the body.
pub fn split_frontmatter(input: &str) -> (r: (Option<&str>, &str))
    ensures
        match front_matter(input@) {
            Some((front, body)) => r.0 is Some && r.0->Some_0@ == front && r.1@ == body,
            None => r.0 is None && r.1@ == input@,
        },
{
    let t = text::trim_start(input, Trim::Only('\u{feff}'));
    if !text::text_starts_with(t, "---") {
        return (None, input);
    }
    let rest = match text::split_once(t, '\n') {
        Some((_, rest)) => rest,
        None => {
            return (None, input);
        },
    };
    let total = text::text_len(rest);
    let mut left = rest;
    let mut bytes: usize = 0;
    let ghost mut pos: int = 0;
    assert(rest@.skip(0) =~= rest@);
    assert(rest@.take(0) =~= Seq::<char>::empty());
    loop
        invariant
            total == text::byte_len(rest@),
            0 <= pos <= rest@.len(),
            left@ == rest@.skip(pos),
            bytes == text::byte_len(rest@.take(pos)),
            closing_line(rest@, 0) == closing_line(rest@, pos),
            text::starts_with(without_marks(input@), "---"@),
            text::before(without_marks(input@), '\n') != without_marks(input@).len(),
            rest@ == after_first_line(without_marks(input@)),
        decreases rest@.len() - pos,
    {
        if left.is_empty() {
            return (None, input);
        }
        let ghost end = line_end(rest@, pos);
        proof {
            text::lemma_before_is(left@, '\n');
        }
        match text::split_once(left, '\n') {
            Some((line, tail)) => {
                assert(line@ =~= rest@.subrange(pos, end));
                assert(tail@ =~= rest@.skip(end + 1));
                if same_text(text::trim_end(line, Trim::Space), "---") {
                    let (front, _) = text::split_text(rest, bytes, Ghost(pos));
                    return (Some(front), tail);
                }
                proof {
                    lemma_line_bytes(rest@, pos, end);
                }
                bytes = bytes + text::text_len(line) + 1;
                left = tail;
                proof {
                    pos = end + 1;
                }
            },
            None => {
                assert(left@ =~= rest@.subrange(pos, end));
                if same_text(text::trim_end(left, Trim::Space), "---") {
                    let (front, _) = text::split_text(rest, bytes, Ghost(pos));
                    assert(rest@.take(rest@.len() as int) =~= rest@);
                    let (_, nothing) = text::split_text(rest, total, Ghost(rest@.len() as int));
                    assert(nothing@ =~= Seq::<char>::empty());
                    return (Some(front), nothing);
                }
                return (None, input);
            },
        }
    }
}

/// A value without the quotes around it.
pub open spec fn unquoted(v: Seq<char>) -> Seq<char> {
    text::trim_back(
        text::trim_front(
            text::trim_back(text::trim_front(v, Trim::Only('"')), Trim::Only('"')),
            Trim::Only('\''),
        ),
        Trim::Only('\''),
    )
}

/// The key and the value that a line gives, the key as it is written. Empty lines, comments and
/// lines without a colon give none.
pub open spec fn entry_of(raw: Seq<char>) -> Option<(Seq<char>, Seq<char>)> {
    let line = text::trimmed(raw);
    let colon = text::before(line, ':');
    if line.len() == 0 || line[0] == '#' || colon == line.len() {
        None
    } else {
        Some(
            (
                text::trimmed(line.take(colon as int)),
                unquoted(text::trimmed(line.skip(colon as int + 1))),
            ),
        )
    }
}

/// The keys, as they are written, and the values that some lines give, in their order.
pub open spec fn written_entries(lines: Seq<Seq<char>>) -> Seq<(Seq<char>, Seq<char>)>
    decreases lines.len(),
{
    if lines.len() == 0 {
        Seq::empty()
    } else {
        let front = written_entries(lines.drop_last());
        match entry_of(lines.last()) {
            Some(e) => front.push(e),
            None => front,
        }
    }
}

/// The keys, in lower case, and the values that some lines give, in their order.
pub open spec fn entries_in(lines: Seq<Seq<char>>) -> Seq<(Seq<char>, Seq<char>)> {
    let all = written_entries(lines);
    Seq::new(all.len(), |i: int| (text::lowercased(all[i].0), all[i].1))
}

/// The keys and values that some lines give where every key is ASCII text.
pub open spec fn ascii_entries(lines: Seq<Seq<char>>) -> Seq<(Seq<char>, Seq<char>)> {
    let all = written_entries(lines);
    Seq::new(all.len(), |i: int| (text::ascii_lowered(all[i].0), all[i].1))
}

/// Whether every key that some lines give is ASCII text.
pub open spec fn has_ascii_keys(lines: Seq<Seq<char>>) -> bool {
    forall|i: int|
        0 <= i < written_entries(lines).len() ==> text::is_ascii(
            (#[trigger] written_entries(lines)[i]).0,
        )
}

/// What some keys and values stand for.
pub open spec fn pair_views(v: Seq<(String, String)>) -> Seq<(Seq<char>, Seq<char>)> {
    Seq::new(v.len(), |i: int| (v[i].0@, v[i].1@))
}

fn read_entry(raw: &str) -> (r: Option<(String, String)>)
    ensures
        match r {
            Some(e) => {
                &&& entry_of(raw@) is Some
                &&& e.0@ == text::lowercased(entry_of(raw@)->Some_0.0)
                &&& text::is_ascii(entry_of(raw@)->Some_0.0) ==> e.0@ == text::ascii_lowered(
                    entry_of(raw@)->Some_0.0,
                )
                &&& e.1@ == entry_of(raw@)->Some_0.1
            },
            None => entry_of(raw@) is None,
        },
{
    let line = text::trim(raw);
    if line.is_empty() {
        return None;
    }
    if line.get_char(0) == '#' {
        return None;
    }
    match text::split_once(line, ':') {
        Some((k, rest)) => {
            let v = text::trim(rest);
            let v = text::trim_start(v, Trim::Only('"'));
            let v = text::trim_end(v, Trim::Only('"'));
            let v = text::trim_start(v, Trim::Only('\''));
            let v = text::trim_end(v, Trim::Only('\''));
            Some((text::to_lowercase(text::trim(k)), v.to_owned()))
        },
        None => None,
    }
}

/// Reads the keys and values of a front matter. Keys come out in lower case, values without the
/// quotes around them.
pub fn parse_frontmatter(text: &str) -> (r: Vec<(String, String)>)
    ensures
        pair_views(r@) == entries_in(text::lines(text@)),
        forall|i: int|
            0 <= i < r@.len() ==> {
                let key = written_entries(text::lines(text@))[i].0;
                text::is_ascii(key) ==> (#[trigger] r@[i]).0@ == text::ascii_lowered(key)
            },
{
    let lines = text::split_lines(text);
    let ghost all = text::texts(lines@);
    let mut out: Vec<(String, String)> = Vec::new();
    let mut i: usize = 0;
    assert(all.take(0) =~= Seq::empty());
    while i < lines.len()
        invariant
            i <= lines@.len(),
            all == text::texts(lines@),
            out@.len() == written_entries(all.take(i as int)).len(),
            forall|k: int|
                0 <= k < out@.len() ==> {
                    let e = written_entries(all.take(i as int))[k];
                    &&& (#[trigger] out@[k]).0@ == text::lowercased(e.0)
                    &&& text::is_ascii(e.0) ==> out@[k].0@ == text::ascii_lowered(e.0)
                    &&& out@[k].1@ == e.1
                },
        decreases lines.len() - i,
    {
        assert(all.take(i + 1).drop_last() =~= all.take(i as int));
        assert(all.take(i + 1).last() == lines@[i as int]@);
        if let Some(e) = read_entry(lines[i]) {
            out.push(e);
        }
        i += 1;
    }
    assert(all.take(all.len() as int) =~= all);
    assert(pair_views(out@) =~= entries_in(all));
    out
}

/// A line without the white space around it and the number signs in front.
pub open spec fn heading(line: Seq<char>) -> Seq<char> {
    text::trimmed(text::trim_front(text::trimmed(line), Trim::Only('#')))
}

/// The first of some lines with anything in it, without number signs in front.
pub open spec fn first_heading(lines: Seq<Seq<char>>) -> Option<Seq<char>>
    decreases lines.len(),
{
    if lines.len() == 0 {
        None
    } else if heading(lines[0]).len() > 0 {
        Some(heading(lines[0]))
    } else {
        first_heading(lines.drop_first())
    }
}

/// Finds the first line of a text with anything in it, without number signs in front.
pub fn first_meaningful_line(body: &str) -> (r: Option<String>)
    ensures
        match r {
            Some(s) => first_heading(text::lines(body@)) == Some(s@),
            None => first_heading(text::lines(body@)) is None,
        },
{
    let lines = text::split_lines(body);
    let ghost all = text::texts(lines@);
    let mut i: usize = 0;
    assert(all.skip(0) =~= all);
    while i < lines.len()
        invariant
            i <= lines@.len(),
            all == text::texts(lines@),
            all == text::lines(body@),
            first_heading(all) == first_heading(all.skip(i as int)),
        decreases lines.len() - i,
    {
        let line = text::trim(lines[i]);
        let stripped = text::trim(text::trim_start(line, Trim::Only('#')));
        assert(all.skip(i as int)[0] == lines@[i as int]@);
        assert(all.skip(i as int).drop_first() =~= all.skip(i + 1));
        if !stripped.is_empty() {
            return Some(stripped.to_owned());
        }
        i += 1;
    }
    None
}

// ---------------------------------------------------------------------------
// Skills
// ---------------------------------------------------------------------------

/// A skill.
#[derive(Debug)]
pub struct Skill {
    pub name: String,
    pub description: String,
    pub body: String,
}

/// What a [`Skill`] stands for.
pub struct SkillView {
    pub name: Seq<char>,
    pub description: Seq<char>,
    pub body: Seq<char>,
}

impl View for Skill {
    type V = SkillView;

    open spec fn view(&self) -> SkillView {
        SkillView { name: self.name@, description: self.description@, body: self.body@ }
    }
}

/// What some skills stand for.
pub open spec fn skill_views(skills: Seq<Skill>) -> Seq<SkillView> {
    Seq::new(skills.len(), |i: int| skills[i]@)
}

impl Clone for Skill {
    fn clone(&self) -> (r: Self)
        ensures
            r == *self,
    {
        Skill {
            name: self.name.clone(),
            description: self.description.clone(),
            body: self.body.clone(),
        }
    }
}

/// The last value under a key; the empty text where there is none.
pub open spec fn value_of(entries: Seq<(Seq<char>, Seq<char>)>, key: Seq<char>) -> Seq<char>
    decreases entries.len(),
{
    if entries.len() == 0 {
        Seq::empty()
    } else if entries.last().0 == key {
        entries.last().1
    } else {
        value_of(entries.drop_last(), key)
    }
}

/// The skill with some front matter entries and a body, in a directory with a name. The name of
/// the directory stands for a name that is not given, the first meaningful line of the body for
/// a description that is not given.
pub open spec fn described(
    entries: Seq<(Seq<char>, Seq<char>)>,
    body: Seq<char>,
    dir_name: Seq<char>,
) -> SkillView {
    let name = value_of(entries, "name"@);
    let description = value_of(entries, "description"@);
    SkillView {
        name: if name.len() == 0 {
            dir_name
        } else {
            name
        },
        description: if description.len() == 0 {
            match first_heading(text::lines(body)) {
                Some(s) => s,
                None => "(no description)"@,
            }
        } else {
            description
        },
        body,
    }
}

/// The skill that a file holds.
pub open spec fn skill_in(raw: Seq<char>, dir_name: Seq<char>) -> SkillView {
    match front_matter(raw) {
        Some((front, body)) => described(entries_in(text::lines(front)), body, dir_name),
        None => described(Seq::empty(), raw, dir_name),
    }
}

/// Makes a skill from the entries of its front matter and its body.
pub fn describe_skill(entries: &[(String, String)], body: &str, dir_name: &str) -> (r: Skill)
    ensures
        r@ == described(pair_views(entries@), body@, dir_name@),
{
    let ghost all = pair_views(entries@);
    let mut name = String::new();
    let mut description = String::new();
    let mut i: usize = 0;
    assert(all.take(0) =~= Seq::empty());
    proof {
        reveal_strlit("name");
        reveal_strlit("description");
        assert("name"@.len() != "description"@.len());
    }
    while i < entries.len()
        invariant
            i <= entries@.len(),
            all == pair_views(entries@),
            "name"@ != "description"@,
            name@ == value_of(all.take(i as int), "name"@),
            description@ == value_of(all.take(i as int), "description"@),
        decreases entries.len() - i,
    {
        assert(all.take(i + 1).drop_last() =~= all.take(i as int));
        assert(all.take(i + 1).last() == (entries@[i as int].0@, entries@[i as int].1@));
        if same_text(entries[i].0.as_str(), "name") {
            name = entries[i].1.clone();
        } else if same_text(entries[i].0.as_str(), "description") {
            description = entries[i].1.clone();
        }
        i += 1;
    }
    assert(all.take(all.len() as int) =~= all);
    if name.as_str().is_empty() {
        name = dir_name.to_owned();
    }
    if description.as_str().is_empty() {
        description = match first_meaningful_line(body) {
            Some(s) => s,
            None => "(no description)".to_owned(),
        };
    }
    Skill { name, description, body: body.to_owned() }
}

/// Makes a skill from what came of reading its file. An error is handed on.
pub fn load_skill_file(raw: Result<String, String>, dir_name: &str) -> (r: Result<Skill, String>)
    ensures
        match raw {
            Ok(s) => r is Ok && r->Ok_0@ == skill_in(s@, dir_name@),
            Err(e) => r is Err && r->Err_0@ == e@,
        },
        raw matches Ok(s) ==> front_matter(s@) matches Some((front, body)) ==> has_ascii_keys(
            text::lines(front),
        ) ==> r->Ok_0@ == described(ascii_entries(text::lines(front)), body, dir_name@),
{
    let raw = match raw {
        Ok(s) => s,
        Err(e) => {
            return Err(e);
        },
    };
    let (front, body) = split_frontmatter(raw.as_str());
    let entries = match front {
        Some(front) => parse_frontmatter(front),
        None => Vec::new(),
    };
    assert(front is None ==> pair_views(entries@) =~= Seq::empty());
    assert(front is Some && has_ascii_keys(text::lines(front->Some_0@)) ==> pair_views(entries@)
        =~= ascii_entries(text::lines(front->Some_0@)));
    Ok(describe_skill(entries.as_slice(), body, dir_name))
}

// ---------------------------------------------------------------------------
// Discovery
// ---------------------------------------------------------------------------

/// A place where skills may lie.
#[derive(Clone, Copy, Debug, PartialEq, Eq, Structural)]
pub enum SkillPlace {
    /// The directory `skills` beside the program.
    BesideProgram,
    /// The directory `skills` in the working directory.
    InWorkdir,
}

/// The places where skills are looked for, in their order: beside the program first, and in the
/// working directory unless that is the same place. A directory that is not known is left out.
pub open spec fn places(
    program_dir: Option<Seq<paths::ComponentView>>,
    workdir: Option<Seq<paths::ComponentView>>,
) -> Seq<SkillPlace> {
    match (program_dir, workdir) {
        (Some(a), Some(b)) => if a == b {
            seq![SkillPlace::BesideProgram]
        } else {
            seq![SkillPlace::BesideProgram, SkillPlace::InWorkdir]
        },
        (Some(_), None) => seq![SkillPlace::BesideProgram],
        (None, Some(_)) => seq![SkillPlace::InWorkdir],
        (None, None) => Seq::empty(),
    }
}

/// What an optional path stands for.
pub open spec fn optional_path(p: Option<Vec<PathComponent>>) -> Option<
    Seq<paths::ComponentView>,
> {
    match p {
        Some(p) => Some(paths::path_view(p@)),
        None => None,
    }
}

/// Lists the places where skills are looked for, given the directory of the program and the
/// working directory.
pub fn candidate_dirs(
    program_dir: &Option<Vec<PathComponent>>,
    workdir: &Option<Vec<PathComponent>>,
) -> (r: Vec<SkillPlace>)
    ensures
        r@ == places(optional_path(*program_dir), optional_path(*workdir)),
{
    let mut out: Vec<SkillPlace> = Vec::new();
    if let Some(_) = program_dir {
        out.push(SkillPlace::BesideProgram);
    }
    if let Some(cwd) = workdir {
        let known = match program_dir {
            Some(dir) => paths::same_path(dir.as_slice(), cwd.as_slice()),
            None => false,
        };
        if !known {
            out.push(SkillPlace::InWorkdir);
        }
    }
    assert(out@ =~= places(optional_path(*program_dir), optional_path(*workdir)));
    out
}

/// A file that may hold a skill, with what came of reading it.
#[derive(Debug)]
pub struct SkillFile {
    pub name: String,
    pub path: String,
    pub text: Result<String, String>,
}

/// An entry of a directory with skills. The name is missing where it is not valid Unicode. The
/// files are those in it whose names [`is_skill_file_name`] accepts.
#[derive(Debug)]
pub struct SkillEntry {
    pub is_dir: bool,
    pub name: Option<String>,
    pub files: Vec<SkillFile>,
}

/// A directory in which skills are looked for, with what came of listing it.
#[derive(Debug)]
pub struct SkillDir {
    pub path: String,
    pub is_dir: bool,
    pub entries: Result<Vec<SkillEntry>, String>,
}

/// What a [`SkillFile`] stands for.
pub struct FileView {
    pub name: Seq<char>,
    pub path: Seq<char>,
    pub text: Result<Seq<char>, Seq<char>>,
}

/// What a [`SkillEntry`] stands for.
pub struct EntryView {
    pub is_dir: bool,
    pub name: Option<Seq<char>>,
    pub files: Seq<FileView>,
}

/// What a [`SkillDir`] stands for.
pub struct DirView {
    pub path: Seq<char>,
    pub is_dir: bool,
    pub entries: Result<Seq<EntryView>, Seq<char>>,
}

impl View for SkillFile {
    type V = FileView;

    open spec fn view(&self) -> FileView {
        FileView {
            name: self.name@,
            path: self.path@,
            text: match self.text {
                Ok(s) => Ok(s@),
                Err(e) => Err(e@),
            },
        }
    }
}

impl View for SkillEntry {
    type V = EntryView;

    open spec fn view(&self) -> EntryView {
        EntryView {
            is_dir: self.is_dir,
            name: match self.name {
                Some(s) => Some(s@),
                None => None,
            },
            files: Seq::new(self.files@.len(), |i: int| self.files@[i]@),
        }
    }
}

impl View for SkillDir {
    type V = DirView;

    open spec fn view(&self) -> DirView {
        DirView {
            path: self.path@,
            is_dir: self.is_dir,
            entries: match self.entries {
                Ok(v) => Ok(entry_views(v@)),
                Err(e) => Err(e@),
            },
        }
    }
}

/// What some entries stand for.
pub open spec fn entry_views(v: Seq<SkillEntry>) -> Seq<EntryView> {
    Seq::new(v.len(), |i: int| v[i]@)
}

/// What some directories stand for.
pub open spec fn dir_views(v: Seq<SkillDir>) -> Seq<DirView> {
    Seq::new(v.len(), |i: int| v[i]@)
}

/// Whether a file may hold a skill, by its name: it is SKILL.md, whatever the case of the letters
/// before the dot.
pub open spec fn is_skill_name(name: Seq<char>) -> bool {
    name.len() == 8 && text::ascii_lowered(name.take(5)) == "skill"@
        && name.skip(5) == ".md"@
}

/// Tells whether a file may hold a skill, by its name.
pub fn is_skill_file_name(name: &str) -> (r: bool)
    ensures
        r == is_skill_name(name@),
{
    proof {
        reveal_strlit("skill");
        reveal_strlit(".md");
    }
    let c = text::chars_of(name);
    if c.len() != 8 {
        return false;
    }
    let ghost stem = text::ascii_lowered(name@.take(5));
    let ghost tail = name@.skip(5);
    let same_stem = (c[0] == 's' || c[0] == 'S') && (c[1] == 'k' || c[1] == 'K') && (c[2] == 'i'
        || c[2] == 'I') && (c[3] == 'l' || c[3] == 'L') && (c[4] == 'l' || c[4] == 'L');
    let same_tail = c[5] == '.' && c[6] == 'm' && c[7] == 'd';
    proof {
        if same_stem {
            assert(stem =~= "skill"@);
        } else {
            assert(stem[0] != 's' || stem[1] != 'k' || stem[2] != 'i' || stem[3] != 'l' || stem[4]
                != 'l');
        }
        if same_tail {
            assert(tail =~= ".md"@);
        } else {
            assert(tail[0] != '.' || tail[1] != 'm' || tail[2] != 'd');
        }
    }
    same_stem && same_tail
}

/// The spellings that are preferred for the file of a skill, the most preferred one first.
pub open spec fn file_names() -> Seq<Seq<char>> {
    seq!["SKILL.md"@, "skill.md"@, "Skill.md"@]
}

/// Gives the spellings that are preferred for the file of a skill, the most preferred one first.
pub fn skill_file_names() -> (r: Vec<&'static str>)
    ensures
        text::texts(r@) == file_names(),
{
    let mut out: Vec<&'static str> = Vec::new();
    out.push("SKILL.md");
    out.push("skill.md");
    out.push("Skill.md");
    assert(text::texts(out@) =~= file_names());
    out
}

/// The first file with a name.
pub open spec fn file_named(files: Seq<FileView>, name: Seq<char>) -> Option<FileView>
    decreases files.len(),
{
    if files.len() == 0 {
        None
    } else if files[0].name == name {
        Some(files[0])
    } else {
        file_named(files.drop_first(), name)
    }
}

/// The first file with one of some names; earlier names count first.
pub open spec fn file_with(files: Seq<FileView>, names: Seq<Seq<char>>) -> Option<FileView>
    decreases names.len(),
{
    if names.len() == 0 {
        None
    } else if file_named(files, names[0]) is Some {
        file_named(files, names[0])
    } else {
        file_with(files, names.drop_first())
    }
}

/// The first file that may hold a skill, in whatever spelling.
pub open spec fn any_spelling(files: Seq<FileView>) -> Option<FileView>
    decreases files.len(),
{
    if files.len() == 0 {
        None
    } else if is_skill_name(files[0].name) {
        Some(files[0])
    } else {
        any_spelling(files.drop_first())
    }
}

/// The file that holds a skill: one in a preferred spelling where there is one, otherwise the
/// first one in any spelling.
pub open spec fn skill_file(files: Seq<FileView>) -> Option<FileView> {
    if file_with(files, file_names()) is Some {
        file_with(files, file_names())
    } else {
        any_spelling(files)
    }
}

fn find_named<'a>(files: &'a Vec<SkillFile>, name: &str, Ghost(views): Ghost<Seq<FileView>>) -> (r:
    Option<&'a SkillFile>)
    requires
        views == Seq::new(files@.len(), |i: int| files@[i]@),
    ensures
        match r {
            Some(f) => file_named(views, name@) == Some(f@),
            None => file_named(views, name@) is None,
        },
{
    let mut i: usize = 0;
    assert(views.skip(0) =~= views);
    while i < files.len()
        invariant
            i <= files@.len(),
            views == Seq::new(files@.len(), |i: int| files@[i]@),
            file_named(views, name@) == file_named(views.skip(i as int), name@),
        decreases files.len() - i,
    {
        assert(views.skip(i as int)[0] == files@[i as int]@);
        assert(views.skip(i as int).drop_first() =~= views.skip(i + 1));
        if same_text(files[i].name.as_str(), name) {
            return Some(&files[i]);
        }
        i += 1;
    }
    None
}

/// Finds the file that holds the skill of an entry.
pub fn find_skill_md<'a>(entry: &'a SkillEntry) -> (r: Option<&'a SkillFile>)
    ensures
        match r {
            Some(f) => skill_file(entry@.files) == Some(f@),
            None => skill_file(entry@.files) is None,
        },
{
    let names = skill_file_names();
    let ghost all = text::texts(names@);
    let mut i: usize = 0;
    assert(all.skip(0) =~= all);
    while i < names.len()
        invariant
            i <= names@.len(),
            all == text::texts(names@),
            all == file_names(),
            file_with(entry@.files, all) == file_with(entry@.files, all.skip(i as int)),
        decreases names.len() - i,
    {
        assert(all.skip(i as int)[0] == names@[i as int]@);
        assert(all.skip(i as int).drop_first() =~= all.skip(i + 1));
        let found = find_named(&entry.files, names[i], Ghost(entry@.files));
        if found.is_some() {
            return found;
        }
        i += 1;
    }
    let ghost views = entry@.files;
    let mut k: usize = 0;
    assert(views.skip(0) =~= views);
    while k < entry.files.len()
        invariant
            k <= entry.files@.len(),
            views == entry@.files,
            file_with(views, file_names()) is None,
            any_spelling(views) == any_spelling(views.skip(k as int)),
        decreases entry.files.len() - k,
    {
        assert(views.skip(k as int)[0] == entry.files@[k as int]@);
        assert(views.skip(k as int).drop_first() =~= views.skip(k + 1));
        if is_skill_file_name(entry.files[k].name.as_str()) {
            return Some(&entry.files[k]);
        }
        k += 1;
    }
    None
}

/// What came of looking for skills.
pub struct ScanView {
    pub skills: Seq<SkillView>,
    pub notices: Seq<Seq<char>>,
}

/// Whether some skill has a name.
pub open spec fn has_name(skills: Seq<SkillView>, name: Seq<char>) -> bool {
    exists|i: int| 0 <= i < skills.len() && (#[trigger] skills[i]).name == name
}

/// What is said of a skill with a name that is taken.
pub open spec fn duplicate_notice(name: Seq<char>, path: Seq<char>) -> Seq<char> {
    "[skills] duplicate skill name '"@ + name + "' at "@ + path + " (keeping earlier)"@
}

/// What is said of a file that cannot be read.
pub open spec fn load_notice(path: Seq<char>, error: Seq<char>) -> Seq<char> {
    "[skills] failed to load "@ + path + ": "@ + error
}

/// What is said of a directory that cannot be listed.
pub open spec fn read_notice(path: Seq<char>, error: Seq<char>) -> Seq<char> {
    "[skills] failed to read "@ + path + ": "@ + error
}

impl ScanView {
    /// A search that has found nothing.
    pub open spec fn blank() -> ScanView {
        ScanView { skills: Seq::empty(), notices: Seq::empty() }
    }

    /// The search after an entry. What is no directory, has no name or holds no skill file is
    /// passed over; of two skills with one name the earlier is kept.
    pub open spec fn with_entry(self, entry: EntryView) -> ScanView {
        let file = skill_file(entry.files);
        if !entry.is_dir || entry.name is None || file is None {
            self
        } else {
            match file->Some_0.text {
                Err(e) => ScanView {
                    notices: self.notices.push(load_notice(file->Some_0.path, e)),
                    ..self
                },
                Ok(raw) => {
                    let skill = skill_in(raw, entry.name->Some_0);
                    if has_name(self.skills, skill.name) {
                        ScanView {
                            notices: self.notices.push(
                                duplicate_notice(skill.name, file->Some_0.path),
                            ),
                            ..self
                        }
                    } else {
                        ScanView { skills: self.skills.push(skill), ..self }
                    }
                },
            }
        }
    }

    /// The search after some entries.
    pub open spec fn with_entries(self, entries: Seq<EntryView>) -> ScanView
        decreases entries.len(),
    {
        if entries.len() == 0 {
            self
        } else {
            self.with_entries(entries.drop_last()).with_entry(entries.last())
        }
    }

    /// The search after a directory. What is no directory is passed over.
    pub open spec fn with_dir(self, dir: DirView) -> ScanView {
        if !dir.is_dir {
            self
        } else {
            match dir.entries {
                Ok(entries) => self.with_entries(entries),
                Err(e) => ScanView { notices: self.notices.push(read_notice(dir.path, e)), ..self },
            }
        }
    }

    /// The search after some directories.
    pub open spec fn with_dirs(self, dirs: Seq<DirView>) -> ScanView
        decreases dirs.len(),
    {
        if dirs.len() == 0 {
            self
        } else {
            self.with_dirs(dirs.drop_last()).with_dir(dirs.last())
        }
    }
}

/// What came of a search, as a view.
pub open spec fn scan_view(skills: Seq<Skill>, notices: Seq<String>) -> ScanView {
    ScanView { skills: skill_views(skills), notices: text::strings(notices) }
}

fn name_is_taken(skills: &Vec<Skill>, name: &str) -> (r: bool)
    ensures
        r == has_name(skill_views(skills@), name@),
{
    let ghost views = skill_views(skills@);
    let mut i: usize = 0;
    while i < skills.len()
        invariant
            i <= skills@.len(),
            views == skill_views(skills@),
            forall|k: int| 0 <= k < i ==> (#[trigger] views[k]).name != name@,
        decreases skills.len() - i,
    {
        if same_text(skills[i].name.as_str(), name) {
            assert(views[i as int].name == name@);
            return true;
        }
        i += 1;
    }
    false
}

/// Adds the skill of an entry, or a notice about it.
fn scan_entry(entry: SkillEntry, skills: &mut Vec<Skill>, notices: &mut Vec<String>)
    ensures
        scan_view(final(skills)@, final(notices)@) == scan_view(
            old(skills)@,
            old(notices)@,
        ).with_entry(entry@),
{
    if !entry.is_dir {
        return ;
    }
    let dir_name = match &entry.name {
        Some(n) => n,
        None => {
            return ;
        },
    };
    let file = match find_skill_md(&entry) {
        Some(f) => f,
        None => {
            return ;
        },
    };
    let text = match &file.text {
        Ok(s) => Ok(s.clone()),
        Err(e) => Err(e.clone()),
    };
    let ghost said = notices@;
    let ghost had = skills@;
    match load_skill_file(text, dir_name.as_str()) {
        Ok(skill) => {
            if name_is_taken(skills, skill.name.as_str()) {
                let mut s = "[skills] duplicate skill name '".to_owned();
                s.append(skill.name.as_str());
                s.append("' at ");
                s.append(file.path.as_str());
                s.append(" (keeping earlier)");
                notices.push(s);
                assert(text::strings(notices@) =~= text::strings(said).push(s@));
            } else {
                skills.push(skill);
                assert(skill_views(skills@) =~= skill_views(had).push(skill@));
            }
        },
        Err(e) => {
            let mut s = "[skills] failed to load ".to_owned();
            s.append(file.path.as_str());
            s.append(": ");
            s.append(e.as_str());
            notices.push(s);
            assert(text::strings(notices@) =~= text::strings(said).push(s@));
        },
    }
}

/// Adds the skills of a directory, and notices about what went wrong.
pub fn scan_dir(dir: SkillDir, skills: &mut Vec<Skill>, notices: &mut Vec<String>)
    ensures
        scan_view(final(skills)@, final(notices)@) == scan_view(
            old(skills)@,
            old(notices)@,
        ).with_dir(dir@),
{
    if !dir.is_dir {
        return ;
    }
    let ghost start = scan_view(skills@, notices@);
    match dir.entries {
        Err(e) => {
            let ghost said = notices@;
            let mut s = "[skills] failed to read ".to_owned();
            s.append(dir.path.as_str());
            s.append(": ");
            s.append(e.as_str());
            notices.push(s);
            assert(text::strings(notices@) =~= text::strings(said).push(s@));
        },
        Ok(entries) => {
            let ghost all = entry_views(entries@);
            assert(all.take(0) =~= Seq::empty());
            for entry in it: entries
                invariant
                    it.seq() == entries@,
                    all == entry_views(entries@),
                    scan_view(skills@, notices@) == start.with_entries(all.take(it.index())),
            {
                let ghost i = it.index();
                assert(all.take(i + 1).drop_last() =~= all.take(i));
                assert(all.take(i + 1).last() == entry@);
                scan_entry(entry, skills, notices);
            }
            assert(all.take(all.len() as int) =~= all);
        },
    }
}

// ---------------------------------------------------------------------------
// The registry
// ---------------------------------------------------------------------------

/// The skills that were found.
#[derive(Debug)]
pub struct SkillRegistry {
    skills: Vec<Skill>,
}

impl View for SkillRegistry {
    type V = Seq<SkillView>;

    closed spec fn view(&self) -> Seq<SkillView> {
        skill_views(self.skills@)
    }
}

/// Whether no two skills have the same name.
pub open spec fn distinct_names(skills: Seq<SkillView>) -> bool {
    forall|i: int, j: int|
        0 <= i < j < skills.len() ==> (#[trigger] skills[i]).name != (#[trigger] skills[j]).name
}

/// The first skill with a name.
pub open spec fn skill_named(skills: Seq<SkillView>, name: Seq<char>) -> Option<SkillView>
    decreases skills.len(),
{
    if skills.len() == 0 {
        None
    } else if skills[0].name == name {
        Some(skills[0])
    } else {
        skill_named(skills.drop_first(), name)
    }
}

/// The names of some skills.
pub open spec fn names_of(skills: Seq<SkillView>) -> Seq<Seq<char>> {
    Seq::new(skills.len(), |i: int| skills[i].name)
}

/// The lines of the system prompt that name some skills.
pub open spec fn skill_lines(skills: Seq<SkillView>) -> Seq<char>
    decreases skills.len(),
{
    if skills.len() == 0 {
        Seq::empty()
    } else {
        let s = skills.last();
        skill_lines(skills.drop_last()) + ("- **"@ + s.name + "**: "@ + s.description + "\n"@)
    }
}

/// The part of the system prompt that names the skills; there is none where there are no skills.
pub open spec fn prompt_section(skills: Seq<SkillView>) -> Option<Seq<char>> {
    if skills.len() == 0 {
        None
    } else {
        Some(
            "\n\n## Available skills\n"@
                + "You have access to the following skills. Each skill is a saved instruction set you can load on demand by calling the `load_skill` tool with its name. After loading, follow the returned instructions for the rest of the task.\n\n"@
                + skill_lines(skills),
        )
    }
}

/// The definition of the `load_skill` tool for some names.
pub open spec fn skill_tool(names: Seq<Seq<char>>) -> JsonView {
    schema::function_tool(
        "load_skill"@,
        "Load the full instruction body of a skill by name. Call this when a user request matches one of the skills listed in the system prompt under 'Available skills'. After loading, follow the returned instructions."@,
        schema::structure(
            seq![
                (
                    "name"@,
                    schema::choice("Skill name as listed under Available skills."@, names),
                ),
            ],
            Some(seq!["name"@]),
        ),
    )
}

impl SkillRegistry {
    #[verifier::type_invariant]
    spec fn holds(self) -> bool {
        distinct_names(skill_views(self.skills@))
    }

    /// Collects the skills of some directories. Beside the registry come the notices about what
    /// went wrong.
    pub fn load(dirs: Vec<SkillDir>) -> (r: (SkillRegistry, Vec<String>))
        ensures
            (ScanView { skills: r.0@, notices: text::strings(r.1@) })
                == ScanView::blank().with_dirs(dir_views(dirs@)),
    {
        let mut seen: Vec<Skill> = Vec::new();
        let mut notices: Vec<String> = Vec::new();
        let ghost all = dir_views(dirs@);
        assert(all.take(0) =~= Seq::empty());
        assert(scan_view(seen@, notices@).skills =~= Seq::empty());
        assert(scan_view(seen@, notices@).notices =~= Seq::empty());
        for dir in it: dirs
            invariant
                it.seq() == dirs@,
                all == dir_views(dirs@),
                scan_view(seen@, notices@) == ScanView::blank().with_dirs(all.take(it.index())),
        {
            let ghost i = it.index();
            assert(all.take(i + 1).drop_last() =~= all.take(i));
            assert(all.take(i + 1).last() == dir@);
            scan_dir(dir, &mut seen, &mut notices);
        }
        assert(all.take(all.len() as int) =~= all);
        proof {
            law_names_are_distinct(all);
        }
        (SkillRegistry { skills: seen }, notices)
    }

    /// The skills, in the order in which they were found. No two of them have the same name.
    pub fn list(&self) -> (r: &[Skill])
        ensures
            skill_views(r@) == self@,
            distinct_names(self@),
    {
        proof {
            use_type_invariant(self);
        }
        self.skills.as_slice()
    }

    /// The skill with a name.
    pub fn get(&self, name: &str) -> (r: Option<&Skill>)
        ensures
            match r {
                Some(s) => skill_named(self@, name@) == Some(s@),
                None => skill_named(self@, name@) is None,
            },
    {
        let ghost all = self@;
        let mut i: usize = 0;
        assert(all.skip(0) =~= all);
        while i < self.skills.len()
            invariant
                i <= self.skills@.len(),
                all == skill_views(self.skills@),
                all == self@,
                skill_named(all, name@) == skill_named(all.skip(i as int), name@),
            decreases self.skills.len() - i,
        {
            assert(all.skip(i as int)[0] == self.skills@[i as int]@);
            assert(all.skip(i as int).drop_first() =~= all.skip(i + 1));
            if same_text(self.skills[i].name.as_str(), name) {
                return Some(&self.skills[i]);
            }
            i += 1;
        }
        None
    }

    /// Whether there are no skills.
    pub fn is_empty(&self) -> (r: bool)
        ensures
            r == (self@.len() == 0),
    {
        self.skills.len() == 0
    }

    fn names(&self) -> (r: Vec<&str>)
        ensures
            text::texts(r@) == names_of(self@),
    {
        let mut out: Vec<&str> = Vec::new();
        let mut i: usize = 0;
        while i < self.skills.len()
            invariant
                i <= self.skills@.len(),
                out@.len() == i,
                forall|k: int| 0 <= k < i ==> (#[trigger] out@[k])@ == self@[k].name,
            decreases self.skills.len() - i,
        {
            out.push(self.skills[i].name.as_str());
            i += 1;
        }
        assert(text::texts(out@) =~= names_of(self@));
        out
    }

    /// The definition of the `load_skill` tool; there is none where there are no skills.
    pub fn tool_definition(&self) -> (r: Option<Json>)
        ensures
            match r {
                Some(j) => self@.len() > 0 && j@ == skill_tool(names_of(self@)) && json::proper(j@),
                None => self@.len() == 0,
            },
    {
        if self.skills.len() == 0 {
            return None;
        }
        let names = self.names();
        let required = ["name"];
        assert(text::texts(required@) =~= seq!["name"@]);
        let properties = schema::object_of_one(
            "name",
            schema::choice_schema(
                "Skill name as listed under Available skills.",
                names.as_slice(),
            ),
        );
        Some(
            schema::tool_schema(
                "load_skill",
                "Load the full instruction body of a skill by name. Call this when a user request matches one of the skills listed in the system prompt under 'Available skills'. After loading, follow the returned instructions.",
                schema::structure_schema(properties, Some(required.as_slice())),
            ),
        )
    }

    /// The part of the system prompt that names the skills; there is none where there are no
    /// skills.
    pub fn system_prompt_section(&self) -> (r: Option<String>)
        ensures
            match r {
                Some(s) => prompt_section(self@) == Some(s@),
                None => prompt_section(self@) is None,
            },
    {
        if self.skills.len() == 0 {
            return None;
        }
        let ghost all = self@;
        let mut lines = String::new();
        let mut i: usize = 0;
        assert(all.take(0) =~= Seq::empty());
        while i < self.skills.len()
            invariant
                i <= self.skills@.len(),
                all == skill_views(self.skills@),
                lines@ == skill_lines(all.take(i as int)),
            decreases self.skills.len() - i,
        {
            let s = &self.skills[i];
            let mut line = "- **".to_owned();
            line.append(s.name.as_str());
            line.append("**: ");
            line.append(s.description.as_str());
            line.append("\n");
            lines.append(line.as_str());
            assert(all.take(i + 1).drop_last() =~= all.take(i as int));
            i += 1;
        }
        assert(all.take(all.len() as int) =~= all);
        let mut out = "\n\n## Available skills\n".to_owned();
        out.append(
            "You have access to the following skills. Each skill is a saved instruction set you can load on demand by calling the `load_skill` tool with its name. After loading, follow the returned instructions for the rest of the task.\n\n",
        );
        out.append(lines.as_str());
        Some(out)
    }
}

/// What the `load_skill` tool answers.
pub open spec fn skill_answer(skills: Seq<SkillView>, args: JsonView) -> Seq<char> {
    let name = text::trimmed(args.text_or("name"@, ""@));
    if name.len() == 0 {
        "Error: load_skill requires a 'name' argument."@
    } else {
        match skill_named(skills, name) {
            Some(s) => "# Skill: "@ + s.name + "\n\n"@ + s.body,
            None => "Error: skill '"@ + name + "' not found. Available skills: "@ + text::joined(
                names_of(skills),
                ", "@,
            ),
        }
    }
}

/// Carries out the `load_skill` tool.
pub fn handle_load_skill(registry: &SkillRegistry, args: &Json) -> (r: String)
    ensures
        r@ == skill_answer(registry@, args@),
{
    let name = text::trim(args.text_or("name", ""));
    if name.is_empty() {
        return "Error: load_skill requires a 'name' argument.".to_owned();
    }
    match registry.get(name) {
        Some(s) => {
            let mut out = "# Skill: ".to_owned();
            out.append(s.name.as_str());
            out.append("\n\n");
            out.append(s.body.as_str());
            out
        },
        None => {
            let names = registry.names();
            let mut available: Vec<String> = Vec::new();
            let mut i: usize = 0;
            while i < names.len()
                invariant
                    i <= names@.len(),
                    available@.len() == i,
                    forall|k: int| 0 <= k < i ==> (#[trigger] available@[k])@ == names@[k]@,
                decreases names.len() - i,
            {
                available.push(names[i].to_owned());
                i += 1;
            }
            assert(text::strings(available@) =~= names_of(registry@)) by {
                assert(text::strings(available@) =~= text::texts(names@));
            }
            let mut out = "Error: skill '".to_owned();
            out.append(name);
            out.append("' not found. Available skills: ");
            out.append(text::join(available.as_slice(), ", ").as_str());
            out
        },
    }
}

// ---------------------------------------------------------------------------
// Laws
// ---------------------------------------------------------------------------

/// Whether an opening line, a front matter, a closing line and a body make up a text. The opening
/// line is one line that begins with three dashes, the front matter consists of whole lines none
/// of which closes it, and the closing line is one line that does. Only the last line of a text
/// may lack its line end.
pub open spec fn makes_up(
    s: Seq<char>,
    open: Seq<char>,
    front: Seq<char>,
    close: Seq<char>,
    body: Seq<char>,
) -> bool {
    &&& s == open + front + close + body
    &&& text::starts_with(open, "---"@)
    &&& text::before(open, '\n') + 1 == open.len()
    &&& front.len() == 0 || front.last() == '\n'
    &&& forall|i: int| 0 <= i < text::lines(front).len() ==> !closes(#[trigger] text::lines(front)[i])
    &&& closes(close)
    &&& forall|i: int| 0 <= i < close.len() - 1 ==> #[trigger] close[i] != '\n'
    &&& close.last() == '\n' || body.len() == 0
}

/// Splitting a text takes nothing away but the opening and the closing line: put together again,
/// the opening line, the front matter, the closing line and the body are the text without its
/// byte order marks. The opening line is one line that begins with three dashes, the closing line
/// is three dashes but for white space behind them, and no line of the front matter is that.
pub proof fn law_front_matter_reassembles(s: Seq<char>)
    requires
        front_matter(s) is Some,
    ensures
        exists|open: Seq<char>, close: Seq<char>| #[trigger]
            makes_up(
                without_marks(s),
                open,
                front_matter(s)->Some_0.0,
                close,
                front_matter(s)->Some_0.1,
            ),
{
    let t = without_marks(s);
    let rest = after_first_line(t);
    let (front, body) = front_matter(s)->Some_0;
    let pos = closing_line(rest, 0)->Some_0;
    reveal_strlit("---");
    text::lemma_before_is(t, '\n');
    lemma_closing_line(rest, 0);
    let n = text::before(t, '\n') as int;
    let open = t.take(n + 1);
    assert forall|i: int| 0 <= i < n implies #[trigger] open[i] != '\n' by {
        assert(open[i] == t[i]);
    }
    text::lemma_before(open, '\n', n);
    assert(rest.subrange(0, pos) =~= front);
    let end = line_end(rest, pos);
    text::lemma_before_is(rest.skip(pos), '\n');
    let line = rest.subrange(pos, end);
    if end < rest.len() {
        let close = rest.subrange(pos, end + 1);
        assert(rest.skip(pos)[end - pos] == '\n');
        assert(close.drop_last() =~= line);
        assert(text::is_white_space('\n'));
        assert(closes(close));
        assert(open + front + close + body =~= t);
        lemma_open_begins(t, n);
        assert forall|i: int| 0 <= i < close.len() - 1 implies #[trigger] close[i] != '\n' by {
            assert(close[i] == rest.skip(pos)[i]);
        }
        assert(makes_up(t, open, front, close, body));
    } else {
        assert(open + front + line + body =~= t);
        lemma_open_begins(t, n);
        assert forall|i: int| 0 <= i < line.len() - 1 implies #[trigger] line[i] != '\n' by {
            assert(line[i] == rest.skip(pos)[i]);
        }
        assert(makes_up(t, open, front, line, body));
    }
}

/// The first line of a text that begins with three dashes begins with them.
proof fn lemma_open_begins(t: Seq<char>, n: int)
    requires
        text::starts_with(t, "---"@),
        0 <= n < t.len(),
        t[n] == '\n',
        forall|i: int| 0 <= i < n ==> #[trigger] t[i] != '\n',
    ensures
        text::starts_with(t.take(n + 1), "---"@),
{
    reveal_strlit("---");
    let d = "---"@;
    assert(d.len() == 3 && d[0] == '-' && d[1] == '-' && d[2] == '-');
    assert(t.take(3)[0] == t[0] && t.take(3)[1] == t[1] && t.take(3)[2] == t[2]);
    assert(n >= 3);
    assert(t.take(n + 1).take(3) =~= t.take(3));
}

/// The closing line that is found lies within the text and closes the front matter; what stands
/// before it are whole lines that do not.
proof fn lemma_closing_line(s: Seq<char>, pos: int)
    requires
        0 <= pos,
        closing_line(s, pos) is Some,
    ensures
        ({
            let p = closing_line(s, pos)->Some_0;
            let front = s.subrange(pos, p);
            &&& pos <= p < s.len()
            &&& closes(s.subrange(p, line_end(s, p)))
            &&& front.len() == 0 || front.last() == '\n'
            &&& forall|i: int|
                0 <= i < text::lines(front).len() ==> !closes(#[trigger] text::lines(front)[i])
        }),
    decreases s.len() - pos,
{
    if !closes(s.subrange(pos, line_end(s, pos))) {
        let end = line_end(s, pos);
        let line = s.subrange(pos, end);
        lemma_closing_line(s, end + 1);
        let p = closing_line(s, pos)->Some_0;
        let front = s.subrange(pos, p);
        let rest = s.subrange(end + 1, p);
        text::lemma_before_is(s.skip(pos), '\n');
        assert(s.skip(pos)[end - pos] == '\n');
        assert forall|i: int| 0 <= i < end - pos implies #[trigger] front[i] != '\n' by {
            assert(front[i] == s.skip(pos)[i]);
        }
        text::lemma_before(front, '\n', end - pos);
        assert(front.take(end - pos) =~= line);
        assert(front.skip(end - pos + 1) =~= rest);
        assert(rest.len() > 0 ==> front.last() == rest.last());
        assert(rest.len() == 0 ==> front.last() == '\n');
        assert(text::is_white_space('\r'));
        assert(!closes(text::chomped(line)));
        assert forall|i: int| 0 <= i < text::lines(front).len() implies !closes(
            #[trigger] text::lines(front)[i],
        ) by {
            if i > 0 {
                assert(text::lines(front)[i] == text::lines(rest)[i - 1]);
            }
        }
    }
}

/// A text without a front matter is a body as a whole, and its skill is named after the
/// directory.
pub proof fn law_plain_text_is_body(raw: Seq<char>, dir_name: Seq<char>)
    requires
        front_matter(raw) is None,
    ensures
        skill_in(raw, dir_name).body == raw,
        skill_in(raw, dir_name).name == dir_name,
{
}

/// A name that the front matter does not give is that of the directory; a description that it
/// does not give is the first meaningful line of the body. What it gives stands.
pub proof fn law_missing_entries_have_defaults(
    entries: Seq<(Seq<char>, Seq<char>)>,
    body: Seq<char>,
    dir_name: Seq<char>,
    line: Seq<char>,
)
    requires
        first_heading(text::lines(body)) == Some(line),
    ensures
        value_of(entries, "name"@).len() == 0 ==> described(entries, body, dir_name).name
            == dir_name,
        value_of(entries, "name"@).len() > 0 ==> described(entries, body, dir_name).name
            == value_of(entries, "name"@),
        value_of(entries, "description"@).len() == 0 ==> described(
            entries,
            body,
            dir_name,
        ).description == line,
        value_of(entries, "description"@).len() > 0 ==> described(
            entries,
            body,
            dir_name,
        ).description == value_of(entries, "description"@),
{
}

proof fn lemma_entries_keep_names(scan: ScanView, entries: Seq<EntryView>)
    requires
        distinct_names(scan.skills),
    ensures
        distinct_names(scan.with_entries(entries).skills),
        scan.skills.len() <= scan.with_entries(entries).skills.len(),
        scan.with_entries(entries).skills.take(scan.skills.len() as int) == scan.skills,
    decreases entries.len(),
{
    if entries.len() > 0 {
        lemma_entries_keep_names(scan, entries.drop_last());
        let before = scan.with_entries(entries.drop_last());
        let after = before.with_entry(entries.last());
        assert(after.skills.take(before.skills.len() as int) =~= before.skills);
        assert(after.skills.take(scan.skills.len() as int) =~= before.skills.take(
            scan.skills.len() as int,
        ));
    } else {
        assert(scan.skills.take(scan.skills.len() as int) =~= scan.skills);
    }
}

/// No two skills of a registry have the same name.
pub proof fn law_names_are_distinct(dirs: Seq<DirView>)
    ensures
        distinct_names(ScanView::blank().with_dirs(dirs).skills),
    decreases dirs.len(),
{
    if dirs.len() > 0 {
        law_names_are_distinct(dirs.drop_last());
        let before = ScanView::blank().with_dirs(dirs.drop_last());
        if dirs.last().is_dir && dirs.last().entries is Ok {
            lemma_entries_keep_names(before, dirs.last().entries->Ok_0);
        }
    }
}

/// Skills that were found stay as they are whatever is found later: earlier directories count
/// before later ones.
pub proof fn law_earlier_skills_are_kept(dirs: Seq<DirView>, more: DirView)
    ensures
        ({
            let before = ScanView::blank().with_dirs(dirs).skills;
            let after = ScanView::blank().with_dirs(dirs.push(more)).skills;
            before.len() <= after.len() && after.take(before.len() as int) == before
        }),
{
    law_names_are_distinct(dirs);
    let before = ScanView::blank().with_dirs(dirs);
    assert(dirs.push(more).drop_last() =~= dirs);
    assert(before.skills.take(before.skills.len() as int) =~= before.skills);
    if more.is_dir && more.entries is Ok {
        lemma_entries_keep_names(before, more.entries->Ok_0);
    }
}

/// Among distinct names, the skill with the name of one of them is that one.
proof fn lemma_named(skills: Seq<SkillView>, i: int)
    requires
        distinct_names(skills),
        0 <= i < skills.len(),
    ensures
        skill_named(skills, skills[i].name) == Some(skills[i]),
    decreases skills.len(),
{
    if i > 0 {
        assert(skills[0].name != skills[i].name);
        let rest = skills.drop_first();
        assert(rest[i - 1] == skills[i]);
        lemma_named(rest, i - 1);
    }
}

/// The `load_skill` tool hands out the text of every skill that is listed, under the name that
/// is listed. Left out are names with white space around them, which the tool trims away.
pub proof fn law_listed_skills_can_be_loaded(dirs: Seq<DirView>, i: int, args: JsonView)
    requires
        0 <= i < ScanView::blank().with_dirs(dirs).skills.len(),
        ({
            let name = ScanView::blank().with_dirs(dirs).skills[i].name;
            name.len() > 0 && text::trimmed(name) == name && args.text_or("name"@, ""@) == name
        }),
    ensures
        ({
            let skills = ScanView::blank().with_dirs(dirs).skills;
            skill_answer(skills, args) == "# Skill: "@ + skills[i].name + "\n\n"@ + skills[i].body
        }),
{
    law_names_are_distinct(dirs);
    lemma_named(ScanView::blank().with_dirs(dirs).skills, i);
}

/// The system prompt shows nothing of a skill but its name and its description.
pub proof fn law_prompt_shows_names_and_descriptions_only(
    one: Seq<SkillView>,
    other: Seq<SkillView>,
)
    requires
        one.len() == other.len(),
        forall|i: int|
            0 <= i < one.len() ==> (#[trigger] one[i]).name == other[i].name && one[i].description
                == other[i].description,
    ensures
        prompt_section(one) == prompt_section(other),
{
    lemma_same_lines(one, other);
}

proof fn lemma_same_lines(one: Seq<SkillView>, other: Seq<SkillView>)
    requires
        one.len() == other.len(),
        forall|i: int|
            0 <= i < one.len() ==> (#[trigger] one[i]).name == other[i].name && one[i].description
                == other[i].description,
    ensures
        skill_lines(one) == skill_lines(other),
    decreases one.len(),
{
    if one.len() > 0 {
        let a = one.drop_last();
        let b = other.drop_last();
        assert forall|i: int| 0 <= i < a.len() implies (#[trigger] a[i]).name == b[i].name
            && a[i].description == b[i].description by {
            assert(a[i] == one[i]);
        }
        lemma_same_lines(a, b);
        assert(one[one.len() - 1].name == other[one.len() - 1].name);
    }
}

/// A skill is found exactly where some file bears the name SKILL.md, whatever the case of the
/// letters before the dot, and the file that is found bears it.
pub proof fn law_skill_file_ignores_case(files: Seq<FileView>)
    ensures
        skill_file(files) is Some <==> exists|i: int|
            0 <= i < files.len() && is_skill_name((#[trigger] files[i]).name),
        skill_file(files) is Some ==> is_skill_name(skill_file(files)->Some_0.name),
{
    lemma_any_spelling(files);
    reveal_strlit("SKILL.md");
    reveal_strlit("skill.md");
    reveal_strlit("Skill.md");
    reveal_strlit("skill");
    reveal_strlit(".md");
    let names = file_names();
    assert forall|k: int| 0 <= k < names.len() implies is_skill_name(#[trigger] names[k]) by {
        assert(text::ascii_lowered(names[k].take(5)) =~= "skill"@);
        assert(names[k].skip(5) =~= ".md"@);
    }
    lemma_file_with(files, names);
}

proof fn lemma_any_spelling(files: Seq<FileView>)
    ensures
        any_spelling(files) is Some <==> exists|i: int|
            0 <= i < files.len() && is_skill_name((#[trigger] files[i]).name),
        any_spelling(files) is Some ==> is_skill_name(any_spelling(files)->Some_0.name),
    decreases files.len(),
{
    if files.len() > 0 && !is_skill_name(files[0].name) {
        let rest = files.drop_first();
        lemma_any_spelling(rest);
        if any_spelling(rest) is Some {
            let i = choose|i: int| 0 <= i < rest.len() && is_skill_name((#[trigger] rest[i]).name);
            assert(files[i + 1] == rest[i]);
        }
        if exists|i: int| 0 <= i < files.len() && is_skill_name((#[trigger] files[i]).name) {
            let i = choose|i: int|
                0 <= i < files.len() && is_skill_name((#[trigger] files[i]).name);
            assert(rest[i - 1] == files[i]);
        }
    }
}

proof fn lemma_file_named(files: Seq<FileView>, name: Seq<char>)
    ensures
        file_named(files, name) is Some ==> file_named(files, name)->Some_0.name == name && (
        exists|i: int| 0 <= i < files.len() && (#[trigger] files[i]).name == name),
    decreases files.len(),
{
    if files.len() > 0 && files[0].name != name {
        let rest = files.drop_first();
        lemma_file_named(rest, name);
        if file_named(rest, name) is Some {
            let i = choose|i: int| 0 <= i < rest.len() && (#[trigger] rest[i]).name == name;
            assert(files[i + 1] == rest[i]);
        }
    }
}

proof fn lemma_file_with(files: Seq<FileView>, names: Seq<Seq<char>>)
    requires
        forall|k: int| 0 <= k < names.len() ==> is_skill_name(#[trigger] names[k]),
    ensures
        file_with(files, names) is Some ==> is_skill_name(file_with(files, names)->Some_0.name)
            && exists|i: int| 0 <= i < files.len() && is_skill_name((#[trigger] files[i]).name),
    decreases names.len(),
{
    if names.len() > 0 {
        lemma_file_named(files, names[0]);
        assert(is_skill_name(names[0]));
        let rest = names.drop_first();
        assert forall|k: int| 0 <= k < rest.len() implies is_skill_name(#[trigger] rest[k]) by {
            assert(rest[k] == names[k + 1]);
        }
        lemma_file_with(files, rest);
    }
}

/// A line of a front matter gives the key before its first colon and the value behind it, both
/// without the white space around them. A line that begins with a number sign, or has no colon,
/// gives nothing.
pub proof fn law_lines_give_keys_and_values(
    front: Seq<char>,
    key: Seq<char>,
    value: Seq<char>,
    back: Seq<char>,
)
    requires
        text::is_blank(front),
        text::is_blank(back),
        key.len() > 0,
        !text::is_white_space(key[0]),
        key[0] != '#',
        forall|i: int| 0 <= i < key.len() ==> #[trigger] key[i] != ':',
        value.len() > 0 ==> !text::is_white_space(value.last()),
    ensures
        ({
            let e = entry_of(front + (key + seq![':'] + value) + back);
            &&& e is Some
            &&& e->Some_0.0 == text::trimmed(key)
            &&& e->Some_0.1 == unquoted(text::trimmed(value))
        }),
{
    let line = key + seq![':'] + value;
    assert(!text::is_white_space(':'));
    assert(line[0] == key[0]);
    assert(line.last() == if value.len() > 0 {
        value.last()
    } else {
        ':'
    });
    text::law_trim_ignores_white_space_around(front, line, back);
    let n = key.len() as int;
    assert forall|i: int| 0 <= i < n implies #[trigger] line[i] != ':' by {
        assert(line[i] == key[i]);
    }
    text::lemma_before(line, ':', n);
    assert(line.take(n) =~= key);
    assert(line.skip(n + 1) =~= value);
}

/// Comments, empty lines and lines without a colon give no entry.
pub proof fn law_other_lines_give_nothing(front: Seq<char>, line: Seq<char>, back: Seq<char>)
    requires
        text::is_blank(front),
        text::is_blank(back),
        line.len() > 0 ==> !text::is_white_space(line[0]) && !text::is_white_space(line.last()),
        line.len() == 0 || line[0] == '#' || (forall|i: int|
            0 <= i < line.len() ==> #[trigger] line[i] != ':'),
    ensures
        entry_of(front + line + back) is None,
{
    text::law_trim_ignores_white_space_around(front, line, back);
    if line.len() > 0 && line[0] != '#' {
        text::lemma_before(line, ':', line.len() as int);
    }
}

/// Whether a text is made of one character only.
pub open spec fn is_all(s: Seq<char>, c: char) -> bool {
    forall|i: int| 0 <= i < s.len() ==> #[trigger] s[i] == c
}

/// Quotes around a value go, all double ones first and then all single ones; a value without
/// quotes at its ends stays as it is.
pub proof fn law_quotes_around_values_go(
    d1: Seq<char>,
    q1: Seq<char>,
    value: Seq<char>,
    q2: Seq<char>,
    d2: Seq<char>,
)
    requires
        is_all(d1, '"'),
        is_all(d2, '"'),
        is_all(q1, '\''),
        is_all(q2, '\''),
        value.len() > 0,
        value[0] != '"' && value[0] != '\'',
        value.last() != '"' && value.last() != '\'',
    ensures
        unquoted(d1 + (q1 + value + q2) + d2) == value,
        unquoted(d1).len() == 0,
        unquoted(q1).len() == 0,
{
    let inner = q1 + value + q2;
    assert(inner[0] == if q1.len() > 0 {
        q1[0]
    } else {
        value[0]
    });
    assert(inner.last() == if q2.len() > 0 {
        q2[q2.len() - 1]
    } else {
        value.last()
    });
    lemma_strip(d1, inner, d2, '"');
    lemma_strip(q1, value, q2, '\'');
    text::law_trim_front_keeps_rest(d1, Trim::Only('"'));
    text::law_trim_front_keeps_rest(q1, Trim::Only('"'));
    text::law_trim_back_keeps_rest(q1, Trim::Only('"'));
    let t = text::trim_front(d1, Trim::Only('"'));
    assert(t.len() > 0 ==> t[0] == d1[d1.len() - t.len()]);
    assert(unquoted(d1) =~= Seq::empty());
    if q1.len() > 0 {
        assert(q1[0] != '"' && q1[q1.len() - 1] != '"');
        assert(text::trim_front(q1, Trim::Only('"')) == q1);
        assert(text::trim_back(q1, Trim::Only('"')) == q1);
    } else {
        assert(q1 =~= Seq::empty());
    }
    text::law_trim_front_keeps_rest(q1, Trim::Only('\''));
    let t = text::trim_front(q1, Trim::Only('\''));
    assert(t.len() > 0 ==> t[0] == q1[q1.len() - t.len()]);
    assert(unquoted(q1) =~= Seq::empty());
}

/// Trims of one character on both sides leave what stands between.
proof fn lemma_strip(front: Seq<char>, s: Seq<char>, back: Seq<char>, c: char)
    requires
        is_all(front, c),
        is_all(back, c),
        s.len() > 0,
        s[0] != c,
        s.last() != c,
    ensures
        text::trim_back(text::trim_front(front + s + back, Trim::Only(c)), Trim::Only(c)) == s,
{
    let t = Trim::Only(c);
    let all = front + s + back;
    assert forall|i: int| 0 <= i < front.len() implies t.takes(#[trigger] all[i]) by {
        assert(all[i] == front[i]);
    }
    assert(all[front.len() as int] == s[0]);
    text::lemma_trim_front(all, t, front.len() as int);
    let rest = all.skip(front.len() as int);
    assert(rest =~= s + back);
    assert forall|i: int| s.len() <= i < rest.len() implies t.takes(#[trigger] rest[i]) by {
        assert(rest[i] == back[i - s.len()]);
    }
    assert(rest[s.len() - 1] == s.last());
    text::lemma_trim_back(rest, t, s.len() as int);
    assert(rest.take(s.len() as int) =~= s);
}

/// A line closes a front matter exactly where it is three dashes with nothing but white space
/// behind them.
pub proof fn law_closing_line_is_three_dashes(line: Seq<char>)
    ensures
        closes(line) <==> line.len() >= 3 && line[0] == '-' && line[1] == '-' && line[2] == '-'
            && text::is_blank(line.skip(3)),
{
    reveal_strlit("---");
    let d = seq!['-', '-', '-'];
    assert("---"@ =~= d);
    assert(!text::is_white_space('-'));
    let back = line.skip(3);
    if closes(line) {
        text::law_trim_back_keeps_rest(line, Trim::Space);
        assert(line.take(3) == d);
        assert(line.take(3)[0] == line[0] && line.take(3)[1] == line[1] && line.take(3)[2]
            == line[2]);
        assert forall|i: int| 0 <= i < back.len() implies text::is_white_space(
            #[trigger] back[i],
        ) by {
            assert(Trim::Space.takes(line[3 + i]));
        }
    }
    if line.len() >= 3 && line[0] == '-' && line[1] == '-' && line[2] == '-' && text::is_blank(
        back,
    ) {
        assert forall|i: int| 3 <= i < line.len() implies Trim::Space.takes(#[trigger] line[i]) by {
            assert(text::is_white_space(back[i - 3]));
        }
        text::lemma_trim_back(line, Trim::Space, 3);
        assert(line.take(3) =~= d);
    }
}

/// The entries of some lines are those of each line that gives one, in their order.
pub proof fn law_entries_of_lines(a: Seq<Seq<char>>, b: Seq<Seq<char>>, line: Seq<char>)
    ensures
        written_entries(Seq::<Seq<char>>::empty()).len() == 0,
        entry_of(line) is None ==> written_entries(seq![line]).len() == 0,
        entry_of(line) is Some ==> written_entries(seq![line]) == seq![entry_of(line)->Some_0],
        written_entries(a + b) == written_entries(a) + written_entries(b),
    decreases b.len(),
{
    reveal_with_fuel(written_entries, 2);
    assert(seq![line].drop_last() =~= Seq::empty());
    if entry_of(line) is Some {
        assert(written_entries(seq![line]) =~= seq![entry_of(line)->Some_0]);
    }
    if b.len() == 0 {
        assert(a + b =~= a);
        assert(written_entries(a) + written_entries(b) =~= written_entries(a));
    } else {
        law_entries_of_lines(a, b.drop_last(), line);
        assert((a + b).drop_last() =~= a + b.drop_last());
        assert(written_entries(a + b) =~= written_entries(a) + written_entries(b));
    }
}

/// The keys count in lower case, and the values as they are: there is one entry for each that is
/// written.
pub proof fn law_keys_count_in_lower_case(rows: Seq<Seq<char>>, i: int)
    requires
        0 <= i < written_entries(rows).len(),
    ensures
        entries_in(rows).len() == written_entries(rows).len(),
        entries_in(rows)[i].0 == text::lowercased(written_entries(rows)[i].0),
        entries_in(rows)[i].1 == written_entries(rows)[i].1,
        ascii_entries(rows).len() == written_entries(rows).len(),
        ascii_entries(rows)[i].0 == text::ascii_lowered(written_entries(rows)[i].0),
        ascii_entries(rows)[i].1 == written_entries(rows)[i].1,
{
}

/// The last entry with a key counts; without one the value is empty.
pub proof fn law_last_entry_counts(entries: Seq<(Seq<char>, Seq<char>)>, key: Seq<char>, k: int)
    ensures
        0 <= k < entries.len() && entries[k].0 == key && (forall|i: int|
            k < i < entries.len() ==> (#[trigger] entries[i]).0 != key) ==> value_of(entries, key)
            == entries[k].1,
        (forall|i: int| 0 <= i < entries.len() ==> (#[trigger] entries[i]).0 != key) ==> value_of(
            entries,
            key,
        ).len() == 0,
    decreases entries.len(),
{
    if entries.len() > 0 {
        let front = entries.drop_last();
        law_last_entry_counts(front, key, k);
        assert forall|i: int| 0 <= i < front.len() implies #[trigger] front[i] == entries[i] by {}
        assert(entries.last() == entries[entries.len() - 1]);
    }
}

/// A skill is described by the entries of its front matter, and its body is all behind that.
/// Where the front matter gives no name the directory does. Where it gives no description, the
/// first line of the body does that is more than white space and number signs; where there is
/// none, it is said so.
pub proof fn law_skill_is_what_its_file_says(
    raw: Seq<char>,
    dir_name: Seq<char>,
    front: Seq<char>,
    body: Seq<char>,
)
    requires
        front_matter(raw) == Some((front, body)) || (front_matter(raw) is None && body == raw
            && front.len() == 0),
    ensures
        ({
            let s = skill_in(raw, dir_name);
            let entries = entries_in(text::lines(front));
            let name = value_of(entries, "name"@);
            let description = value_of(entries, "description"@);
            let line = first_heading(text::lines(body));
            &&& s.body == body
            &&& name.len() > 0 ==> s.name == name
            &&& name.len() == 0 ==> s.name == dir_name
            &&& description.len() > 0 ==> s.description == description
            &&& description.len() == 0 && line is Some ==> s.description == line->Some_0
            &&& description.len() == 0 && line is None ==> s.description == "(no description)"@
        }),
{
    if front_matter(raw) is None {
        assert(text::lines(front) =~= Seq::empty());
        assert(entries_in(text::lines(front)) =~= Seq::empty());
    }
}

/// The line that describes a body is the first with anything in it but white space and number
/// signs at its front, without those. Lines before it have nothing else in them.
pub proof fn law_first_meaningful_line(rows: Seq<Seq<char>>, k: int)
    requires
        0 <= k <= rows.len(),
        forall|i: int| 0 <= i < k ==> heading(#[trigger] rows[i]).len() == 0,
    ensures
        k < rows.len() && heading(rows[k]).len() > 0 ==> first_heading(rows) == Some(
            heading(rows[k]),
        ),
        k == rows.len() ==> first_heading(rows) is None,
    decreases k,
{
    if k > 0 {
        let rest = rows.drop_first();
        assert(heading(rows[0]).len() == 0);
        assert forall|i: int| 0 <= i < k - 1 implies heading(#[trigger] rest[i]).len() == 0 by {
            assert(rest[i] == rows[i + 1]);
        }
        law_first_meaningful_line(rest, k - 1);
    }
}

/// White space around a line and number signs in front of it are not part of its heading.
pub proof fn law_heading_is_the_text_of_a_line(
    blank: Seq<char>,
    signs: Seq<char>,
    gap: Seq<char>,
    line: Seq<char>,
    back: Seq<char>,
)
    requires
        text::is_blank(blank),
        text::is_blank(gap),
        text::is_blank(back),
        forall|i: int| 0 <= i < signs.len() ==> #[trigger] signs[i] == '#',
        signs.len() == 0 ==> gap.len() == 0,
        line.len() > 0,
        !text::is_white_space(line[0]) && !text::is_white_space(line.last()),
        line[0] != '#',
    ensures
        heading(blank + (signs + gap + line) + back) == line,
{
    let inner = signs + gap + line;
    assert(!text::is_white_space('#'));
    assert(inner.last() == line.last());
    assert(inner[0] == if signs.len() > 0 {
        '#'
    } else {
        line[0]
    });
    text::law_trim_ignores_white_space_around(blank, inner, back);
    let n = signs.len() as int;
    assert forall|i: int| 0 <= i < n implies Trim::Only('#').takes(#[trigger] inner[i]) by {
        assert(inner[i] == signs[i]);
    }
    if gap.len() > 0 {
        assert(text::is_white_space(gap[0]));
        assert(inner[n] == gap[0]);
    } else {
        assert(inner[n] == line[0]);
    }
    text::lemma_trim_front(inner, Trim::Only('#'), n);
    let none = Seq::<char>::empty();
    assert(inner.skip(n) =~= gap + line + none);
    text::law_trim_ignores_white_space_around(gap, line, none);
}

/// The first closing line of a text is found, in whatever text.
proof fn lemma_finds_closing_line(s: Seq<char>, pos: int, front: Seq<char>, close: Seq<char>)
    requires
        0 <= pos,
        pos + front.len() < s.len(),
        front == s.subrange(pos, pos + front.len()),
        front.len() == 0 || front.last() == '\n',
        forall|i: int| 0 <= i < text::lines(front).len() ==> !closes(#[trigger] text::lines(front)[i]),
        close == s.subrange(pos + front.len(), line_end(s, pos + front.len())),
        closes(close),
    ensures
        closing_line(s, pos) == Some(pos + front.len()),
    decreases front.len(),
{
    if front.len() > 0 {
        text::lemma_before_is(front, '\n');
        let n = text::before(front, '\n') as int;
        if n == front.len() {
            assert(front[front.len() - 1] == '\n');
        }
        let rest = s.skip(pos);
        assert forall|i: int| 0 <= i < n implies #[trigger] rest[i] != '\n' by {
            assert(rest[i] == front[i]);
        }
        assert(rest[n] == front[n]);
        text::lemma_before(rest, '\n', n);
        assert(line_end(s, pos) == pos + n);
        let line = s.subrange(pos, pos + n);
        assert(front.take(n) =~= line);
        let all = text::lines(front);
        assert(all[0] == text::chomped(line));
        assert(!closes(all[0]));
        assert(text::is_white_space('\r'));
        assert(!closes(line)) by {
            if line.len() > 0 && line.last() == '\r' {
                assert(text::trim_back(line, Trim::Space) == text::trim_back(
                    line.drop_last(),
                    Trim::Space,
                ));
            }
        }
        let left = front.skip(n + 1);
        assert(all =~= seq![text::chomped(line)] + text::lines(left));
        assert forall|i: int| 0 <= i < text::lines(left).len() implies !closes(
            #[trigger] text::lines(left)[i],
        ) by {
            assert(all[i + 1] == text::lines(left)[i]);
        }
        assert(left =~= s.subrange(pos + n + 1, pos + n + 1 + left.len()));
        assert(left.len() > 0 ==> left.last() == front.last());
        lemma_finds_closing_line(s, pos + n + 1, left, close);
    } else {
        assert(s.subrange(pos, line_end(s, pos)) == close);
    }
}

/// A text that is made up of an opening line, a front matter, a closing line and a body is split
/// into just that front matter and that body.
pub proof fn law_front_matter_is_found(
    s: Seq<char>,
    open: Seq<char>,
    front: Seq<char>,
    close: Seq<char>,
    body: Seq<char>,
)
    requires
        makes_up(without_marks(s), open, front, close, body),
    ensures
        front_matter(s) == Some((front, body)),
{
    let t = without_marks(s);
    let n = open.len() - 1;
    reveal_strlit("---");
    text::lemma_before_is(open, '\n');
    assert forall|i: int| 0 <= i < n implies #[trigger] t[i] != '\n' by {
        assert(t[i] == open[i]);
    }
    assert(t[n] == open[n]);
    text::lemma_before(t, '\n', n);
    assert(t.take(3) =~= open.take(3));
    let rest = after_first_line(t);
    assert(rest =~= front + close + body);
    let pos = front.len() as int;
    assert(close.len() > 0) by {
        if close.len() == 0 {
            assert(text::trim_back(close, Trim::Space).len() == 0);
            assert("---"@.len() == 3);
        }
    }
    let tail = rest.skip(pos);
    assert(tail =~= close + body);
    let m = if close.last() == '\n' {
        close.len() - 1
    } else {
        close.len() as int
    };
    assert forall|i: int| 0 <= i < m implies #[trigger] tail[i] != '\n' by {
        assert(tail[i] == close[i]);
        if i < close.len() - 1 {
            assert(close[i] != '\n');
        }
    }
    if m < tail.len() {
        assert(tail[m] == close[m]);
    }
    text::lemma_before(tail, '\n', m);
    let line = rest.subrange(pos, line_end(rest, pos));
    assert(line =~= close.take(m));
    assert(text::is_white_space('\n'));
    assert(closes(line)) by {
        if m < close.len() {
            assert(close.drop_last() =~= line);
        } else {
            assert(line =~= close);
        }
    }
    assert(rest.subrange(0, front.len() as int) =~= front);
    lemma_finds_closing_line(rest, 0, front, line);
    assert(rest.take(pos) =~= front);
    assert(after_line(rest, pos) =~= body);
}

/// A text has no front matter where it does not begin with three dashes, apart from byte order
/// marks, or has no line after the first.
pub proof fn law_no_front_matter_without_dashes(s: Seq<char>)
    ensures
        !text::starts_with(without_marks(s), "---"@) ==> front_matter(s) is None,
        (forall|i: int| 0 <= i < s.len() ==> #[trigger] s[i] != '\n') ==> front_matter(s) is None,
        s.len() > 0 && s[0] != '\u{feff}' ==> without_marks(s) == s,
        without_marks(seq!['\u{feff}'] + s) == without_marks(s),
{
    let t = without_marks(s);
    let marked = seq!['\u{feff}'] + s;
    assert(marked.drop_first() =~= s);
    text::law_trim_front_keeps_rest(s, Trim::Only('\u{feff}'));
    if forall|i: int| 0 <= i < s.len() ==> #[trigger] s[i] != '\n' {
        assert forall|i: int| 0 <= i < t.len() implies #[trigger] t[i] != '\n' by {
            assert(t[i] == s[s.len() - t.len() + i]);
        }
        text::lemma_before(t, '\n', t.len() as int);
    }
}

/// An entry adds its skill at the end where it is a directory with a name and a skill file that
/// can be read, and no skill has that name yet. A file that cannot be read and a name that is
/// taken are told of; nothing else is, and nothing else changes.
pub proof fn law_entry_adds_its_skill(scan: ScanView, entry: EntryView, file: FileView)
    requires
        entry.is_dir,
        entry.name is Some,
        skill_file(entry.files) == Some(file),
    ensures
        ({
            let after = scan.with_entry(entry);
            &&& file.text is Err ==> after.skills == scan.skills && after.notices
                == scan.notices.push(
                "[skills] failed to load "@ + file.path + ": "@ + file.text->Err_0,
            )
            &&& file.text is Ok ==> {
                let skill = skill_in(file.text->Ok_0, entry.name->Some_0);
                let taken = exists|i: int|
                    0 <= i < scan.skills.len() && (#[trigger] scan.skills[i]).name == skill.name;
                &&& !taken ==> after.skills == scan.skills.push(skill) && after.notices
                    == scan.notices
                &&& taken ==> after.skills == scan.skills && after.notices == scan.notices.push(
                    "[skills] duplicate skill name '"@ + skill.name + "' at "@ + file.path
                        + " (keeping earlier)"@,
                )
            }
        }),
{
}

/// What is no directory, has no name or holds no skill file adds nothing and is not told of.
pub proof fn law_other_entries_add_nothing(scan: ScanView, entry: EntryView)
    requires
        !entry.is_dir || entry.name is None || skill_file(entry.files) is None,
    ensures
        scan.with_entry(entry) == scan,
{
}

/// Entries and directories are looked through one after the other, in their order. A directory
/// that cannot be listed is told of; what is no directory is passed over.
pub proof fn law_all_is_looked_through(
    scan: ScanView,
    entries: Seq<EntryView>,
    entry: EntryView,
    dirs: Seq<DirView>,
    dir: DirView,
)
    ensures
        scan.with_entries(Seq::empty()) == scan,
        scan.with_entries(entries.push(entry)) == scan.with_entries(entries).with_entry(entry),
        scan.with_dirs(Seq::empty()) == scan,
        scan.with_dirs(dirs.push(dir)) == scan.with_dirs(dirs).with_dir(dir),
        !dir.is_dir ==> scan.with_dir(dir) == scan,
        dir.is_dir && dir.entries is Ok ==> scan.with_dir(dir) == scan.with_entries(
            dir.entries->Ok_0,
        ),
        dir.is_dir && dir.entries is Err ==> scan.with_dir(dir).skills == scan.skills
            && scan.with_dir(dir).notices == scan.notices.push(
            "[skills] failed to read "@ + dir.path + ": "@ + dir.entries->Err_0,
        ),
{
    assert(entries.push(entry).drop_last() =~= entries);
    assert(dirs.push(dir).drop_last() =~= dirs);
}

/// The file in the first of the preferred spellings that there is holds the skill.
pub proof fn law_preferred_spelling_counts(files: Seq<FileView>)
    ensures
        ({
            let there = |name: Seq<char>| exists|i: int|
                0 <= i < files.len() && (#[trigger] files[i]).name == name;
            let f = skill_file(files);
            &&& there("SKILL.md"@) ==> f is Some && f->Some_0.name == "SKILL.md"@
            &&& !there("SKILL.md"@) && there("skill.md"@) ==> f is Some && f->Some_0.name
                == "skill.md"@
            &&& !there("SKILL.md"@) && !there("skill.md"@) && there("Skill.md"@) ==> f is Some
                && f->Some_0.name == "Skill.md"@
            &&& f is Some ==> exists|i: int| 0 <= i < files.len() && #[trigger] files[i] == f->Some_0
        }),
{
    lemma_named_file(files, "SKILL.md"@);
    lemma_named_file(files, "skill.md"@);
    lemma_named_file(files, "Skill.md"@);
    lemma_spelled_file(files);
    let names = file_names();
    assert(names[0] == "SKILL.md"@ && names[1] == "skill.md"@ && names[2] == "Skill.md"@);
    reveal_with_fuel(file_with, 4);
    let rest = names.drop_first();
    assert(rest[0] == names[1]);
    assert(rest.drop_first()[0] == names[2]);
}

proof fn lemma_named_file(files: Seq<FileView>, name: Seq<char>)
    ensures
        file_named(files, name) is Some <==> exists|i: int|
            0 <= i < files.len() && (#[trigger] files[i]).name == name,
        file_named(files, name) is Some ==> file_named(files, name)->Some_0.name == name && (
        exists|i: int| 0 <= i < files.len() && #[trigger] files[i] == file_named(files, name)->Some_0),
    decreases files.len(),
{
    if files.len() > 0 && files[0].name != name {
        let rest = files.drop_first();
        lemma_named_file(rest, name);
        if file_named(rest, name) is Some {
            let i = choose|i: int|
                0 <= i < rest.len() && #[trigger] rest[i] == file_named(rest, name)->Some_0;
            assert(files[i + 1] == rest[i]);
        }
        if exists|i: int| 0 <= i < files.len() && (#[trigger] files[i]).name == name {
            let i = choose|i: int| 0 <= i < files.len() && (#[trigger] files[i]).name == name;
            assert(rest[i - 1] == files[i]);
        }
    }
}

proof fn lemma_spelled_file(files: Seq<FileView>)
    ensures
        any_spelling(files) is Some ==> exists|i: int|
            0 <= i < files.len() && #[trigger] files[i] == any_spelling(files)->Some_0,
    decreases files.len(),
{
    if files.len() > 0 && !is_skill_name(files[0].name) {
        let rest = files.drop_first();
        lemma_spelled_file(rest);
        if any_spelling(rest) is Some {
            let i = choose|i: int|
                0 <= i < rest.len() && #[trigger] rest[i] == any_spelling(rest)->Some_0;
            assert(files[i + 1] == rest[i]);
        }
    }
}

/// A file may hold a skill exactly where its name is `SKILL.md` once the case of its first five
/// letters is set aside.
pub proof fn law_skill_names_are_spelled(name: Seq<char>)
    ensures
        is_skill_name(name) <==> {
            &&& name.len() == 8
            &&& name[0] == 's' || name[0] == 'S'
            &&& name[1] == 'k' || name[1] == 'K'
            &&& name[2] == 'i' || name[2] == 'I'
            &&& name[3] == 'l' || name[3] == 'L'
            &&& name[4] == 'l' || name[4] == 'L'
            &&& name[5] == '.' && name[6] == 'm' && name[7] == 'd'
        },
{
    reveal_strlit("skill");
    reveal_strlit(".md");
    if name.len() == 8 {
        let stem = text::ascii_lowered(name.take(5));
        let tail = name.skip(5);
        assert(tail[0] == name[5] && tail[1] == name[6] && tail[2] == name[7]);
        assert(stem[0] == text::ascii_lower(name[0]));
        assert(stem[1] == text::ascii_lower(name[1]));
        assert(stem[2] == text::ascii_lower(name[2]));
        assert(stem[3] == text::ascii_lower(name[3]));
        assert(stem[4] == text::ascii_lower(name[4]));
        if is_skill_name(name) {
            assert(stem == "skill"@ && tail == ".md"@);
        } else if stem[0] == 's' && stem[1] == 'k' && stem[2] == 'i' && stem[3] == 'l' && stem[4]
            == 'l' {
            assert(stem =~= "skill"@);
            if tail[0] == '.' && tail[1] == 'm' && tail[2] == 'd' {
                assert(tail =~= ".md"@);
            }
        }
    }
}

/// Skills are looked for beside the program first and then in the working directory, each where it
/// is known, and once where the two are the same.
pub proof fn law_places_of_skills(
    program_dir: Option<Seq<paths::ComponentView>>,
    workdir: Option<Seq<paths::ComponentView>>,
)
    ensures
        ({
            let p = places(program_dir, workdir);
            &&& p.contains(SkillPlace::BesideProgram) <==> program_dir is Some
            &&& p.contains(SkillPlace::InWorkdir) <==> workdir is Some && workdir != program_dir
            &&& p.len() <= 2
            &&& p.len() == 2 ==> p[0] == SkillPlace::BesideProgram && p[1] == SkillPlace::InWorkdir
        }),
{
    let p = places(program_dir, workdir);
    assert(p.len() > 0 ==> p[0] == p.first());
    if program_dir is Some {
        assert(p[0] == SkillPlace::BesideProgram);
        if workdir is Some && workdir != program_dir {
            assert(p[1] == SkillPlace::InWorkdir);
        }
    } else if workdir is Some {
        assert(p[0] == SkillPlace::InWorkdir);
    }
}

/// The system prompt has a line for every skill, with its name and its description, in the order of
/// the skills.
pub proof fn law_prompt_has_a_line_for_every_skill(skills: Seq<SkillView>, more: SkillView)
    ensures
        skill_lines(Seq::<SkillView>::empty()).len() == 0,
        skill_lines(skills.push(more)) == skill_lines(skills) + ("- **"@ + more.name + "**: "@
            + more.description + "\n"@),
        prompt_section(skills) is Some <==> skills.len() > 0,
        prompt_section(skills.push(more)) is Some,
        ({
            let p = prompt_section(skills.push(more))->Some_0;
            let lines = skill_lines(skills.push(more));
            lines.len() <= p.len() && p.skip(p.len() - lines.len()) == lines
        }),
{
    assert(skills.push(more).drop_last() =~= skills);
    let p = prompt_section(skills.push(more))->Some_0;
    let lines = skill_lines(skills.push(more));
    assert(p.skip(p.len() - lines.len()) =~= lines);
}

/// The `load_skill` tool gives the whole body of the skill with the name that was asked for, white
/// space around it apart. A name that no skill has is answered with the names that there are, and
/// no name at all with an error.
pub proof fn law_load_skill_gives_the_body(skills: Seq<SkillView>, args: JsonView, i: int)
    ensures
        ({
            let name = text::trimmed(args.text_or("name"@, ""@));
            let answer = skill_answer(skills, args);
            &&& name.len() == 0 ==> answer == "Error: load_skill requires a 'name' argument."@
            &&& name.len() > 0 && 0 <= i < skills.len() && skills[i].name == name && (forall|j: int|
                0 <= j < i ==> (#[trigger] skills[j]).name != name) ==> answer == "# Skill: "@ + name
                + "\n\n"@ + skills[i].body
            &&& name.len() > 0 && (forall|j: int|
                0 <= j < skills.len() ==> (#[trigger] skills[j]).name != name) ==> answer
                == "Error: skill '"@ + name + "' not found. Available skills: "@ + text::joined(
                Seq::new(skills.len(), |k: int| skills[k].name),
                ", "@,
            )
        }),
{
    let name = text::trimmed(args.text_or("name"@, ""@));
    if 0 <= i < skills.len() && skills[i].name == name && (forall|j: int|
        0 <= j < i ==> (#[trigger] skills[j]).name != name) {
        lemma_first_named(skills, name, i);
    }
    if forall|j: int| 0 <= j < skills.len() ==> (#[trigger] skills[j]).name != name {
        lemma_first_named(skills, name, skills.len() as int);
        assert(names_of(skills) =~= Seq::new(skills.len(), |k: int| skills[k].name));
    }
}

proof fn lemma_first_named(skills: Seq<SkillView>, name: Seq<char>, k: int)
    requires
        0 <= k <= skills.len(),
        forall|j: int| 0 <= j < k ==> (#[trigger] skills[j]).name != name,
        k < skills.len() ==> skills[k].name == name,
    ensures
        k < skills.len() ==> skill_named(skills, name) == Some(skills[k]),
        k == skills.len() ==> skill_named(skills, name) is None,
    decreases k,
{
    if k > 0 {
        let rest = skills.drop_first();
        assert(skills[0].name != name);
        assert forall|j: int| 0 <= j < k - 1 implies (#[trigger] rest[j]).name != name by {
            assert(rest[j] == skills[j + 1]);
        }
        lemma_first_named(rest, name, k - 1);
    }
}

/// The `load_skill` tool takes one argument, the name, which it must be given, and offers the names
/// of all skills for it.
pub proof fn law_skill_tool_offers_all_names(skills: Seq<SkillView>, i: int)
    requires
        0 <= i < skills.len(),
    ensures
        ({
            let tool = skill_tool(names_of(skills));
            let parameters = tool.field("function"@)->Some_0.field("parameters"@)->Some_0;
            let offered = parameters.field("properties"@)->Some_0.field("name"@);
            let values = offered->Some_0.field("enum"@)->Some_0;
            &&& schema::tool_name(tool) == Some("load_skill"@)
            &&& parameters.field("required"@) == Some(schema::text_list(seq!["name"@]))
            &&& offered is Some
            &&& values is Array
            &&& values->Array_0.len() == skills.len()
            &&& values->Array_0[i] == JsonView::Text(skills[i].name)
        }),
{
    let values = names_of(skills);
    let description = "Skill name as listed under Available skills."@;
    let properties = seq![("name"@, schema::choice(description, values))];
    let parameters = schema::structure(properties, Some(seq!["name"@]));
    let about =
        "Load the full instruction body of a skill by name. Call this when a user request matches one of the skills listed in the system prompt under 'Available skills'. After loading, follow the returned instructions."@;
    schema::lemma_tool_name("load_skill"@, about, parameters);
    schema::law_tool_has_its_parts("load_skill"@, about, parameters);
    schema::law_structure_has_its_parts(properties, Some(seq!["name"@]));
    schema::law_parameters_have_their_parts("string"@, description, values, JsonView::Null);
    schema::law_text_list_holds_all(values, i);
    assert(JsonView::Object(properties).field("name"@) == Some(schema::choice(description, values)));
}

} // verus!
