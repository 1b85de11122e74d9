use local_agent::json::Json;
use local_agent::paths::PathComponent;
use local_agent::skills::{
    candidate_dirs, describe_skill, find_skill_md, first_meaningful_line, handle_load_skill,
    is_skill_file_name, load_skill_file, parse_frontmatter, skill_file_names, split_frontmatter, Skill, SkillDir,
    SkillEntry, SkillFile, SkillPlace, SkillRegistry,
};

fn file(name: &str, text: &str) -> SkillFile {
    SkillFile {
        name: name.to_string(),
        path: format!("/skills/x/{}", name),
        text: Ok(text.to_string()),
    }
}

fn entry(name: &str, text: &str) -> SkillEntry {
    SkillEntry {
        is_dir: true,
        name: Some(name.to_string()),
        files: vec![file("SKILL.md", text)],
    }
}

fn dir(entries: Vec<SkillEntry>) -> SkillDir {
    SkillDir { path: "/skills".to_string(), is_dir: true, entries: Ok(entries) }
}

fn args(name: &str) -> Json {
    Json::Object(vec![("name".to_string(), Json::Text(name.to_string()))])
}

#[test]
fn splits_frontmatter() {
    let input = "---\nname: foo\ndescription: bar\n---\nbody here\n";
    let (front, body) = split_frontmatter(input);
    assert_eq!(front, Some("name: foo\ndescription: bar\n"));
    assert_eq!(body, "body here\n");
}

#[test]
fn no_frontmatter() {
    let input = "no front\nbody\n";
    let (front, body) = split_frontmatter(input);
    assert!(front.is_none());
    assert_eq!(body, input);
}

#[test]
fn parses_kv_with_quotes() {
    let kv = parse_frontmatter("name: \"hello\"\ndescription: 'world'\n");
    assert_eq!(kv[0], ("name".into(), "hello".into()));
    assert_eq!(kv[1], ("description".into(), "world".into()));
}

#[test]
fn front_matter_edge_cases() {
    // A byte order mark, white space behind the closing dashes, no line end at the very end.
    assert_eq!(split_frontmatter("\u{feff}---\na: b\n---  \t"), (Some("a: b\n"), ""));
    // Nothing between the two lines.
    assert_eq!(split_frontmatter("---\n---\nbody"), (Some(""), "body"));
    // The opening line may go on.
    assert_eq!(split_frontmatter("--- yaml\nx\n---\n"), (Some("x\n"), ""));
    // Never opened, never closed, never ended.
    let cases = ["", "---", "---\nname: x\n", "--\nx\n---\n", "---\n ---\n"];
    for input in cases {
        assert_eq!(split_frontmatter(input), (None, input));
    }
    // Multi-byte text around the cut.
    assert_eq!(
        split_frontmatter("---\ndescription: 説明\n---\n## 手順\n"),
        (Some("description: 説明\n"), "## 手順\n")
    );
}

#[test]
fn front_matter_and_body_make_up_the_text() {
    let input = "---\nname: foo\n---\nbody\n";
    let (front, body) = split_frontmatter(input);
    assert_eq!(format!("---\n{}---\n{}", front.unwrap(), body), input);
}

#[test]
fn keys_come_in_lower_case_and_comments_are_skipped() {
    let kv = parse_frontmatter("# comment\n\n  NAME : x:y \nno colon\nEmpty:\n");
    assert_eq!(
        kv,
        vec![("name".to_string(), "x:y".to_string()), ("empty".to_string(), String::new())]
    );
    // Quotes are taken away after the white space, double ones first.
    let kv = parse_frontmatter("a: \" b \"\nc: '\"d\"'\n");
    assert_eq!(kv[0].1, " b ");
    assert_eq!(kv[1].1, "\"d\"");
}

#[test]
fn unicode_white_space_is_trimmed() {
    let kv = parse_frontmatter("\u{3000}name\u{2003}:\u{a0}x\u{85}\n");
    assert_eq!(kv, vec![("name".to_string(), "x".to_string())]);
}

#[test]
fn first_meaningful_line_skips_blank_lines_and_number_signs() {
    assert_eq!(first_meaningful_line("\n  \n##\n# Title \nmore"), Some("Title".to_string()));
    assert_eq!(first_meaningful_line("plain\r\nsecond"), Some("plain".to_string()));
    assert_eq!(first_meaningful_line("###\n\n"), None);
    assert_eq!(first_meaningful_line(""), None);
}

#[test]
fn later_entries_win_and_defaults_stand_in() {
    let pairs = [
        ("name".to_string(), "one".to_string()),
        ("other".to_string(), "x".to_string()),
        ("name".to_string(), "two".to_string()),
    ];
    let s = describe_skill(&pairs, "# Heading\ntext", "dir");
    assert_eq!((s.name.as_str(), s.description.as_str()), ("two", "Heading"));
    let s = describe_skill(&[], "\n", "dir");
    assert_eq!((s.name.as_str(), s.description.as_str()), ("dir", "(no description)"));
    assert_eq!(s.body, "\n");
}

#[test]
fn a_skill_file_is_loaded_or_its_error_is_handed_on() {
    let s: Skill = load_skill_file(
        Ok("---\nName: git-commit\ndescription: \"make a commit\"\n---\nsteps\n".to_string()),
        "dir",
    )
    .unwrap();
    assert_eq!(s.name, "git-commit");
    assert_eq!(s.description, "make a commit");
    assert_eq!(s.body, "steps\n");
    let s = load_skill_file(Ok("just text".to_string()), "dir").unwrap();
    assert_eq!((s.name.as_str(), s.body.as_str()), ("dir", "just text"));
    assert_eq!(load_skill_file(Err("denied".to_string()), "dir").unwrap_err(), "denied");
}

#[test]
fn the_preferred_file_name_counts_first() {
    assert_eq!(skill_file_names(), vec!["SKILL.md", "skill.md", "Skill.md"]);
    let e = SkillEntry {
        is_dir: true,
        name: Some("x".to_string()),
        files: vec![file("Skill.md", "c"), file("skill.md", "b")],
    };
    assert_eq!(find_skill_md(&e).unwrap().name, "skill.md");
    let none = SkillEntry { is_dir: true, name: None, files: vec![file("README.md", "")] };
    assert!(find_skill_md(&none).is_none());
}

#[test]
fn the_case_of_the_stem_does_not_count() {
    let entry = |names: &[&str]| SkillEntry {
        is_dir: true,
        name: Some("x".to_string()),
        files: names.iter().map(|n| file(n, n)).collect(),
    };
    assert_eq!(find_skill_md(&entry(&["sKill.md"])).unwrap().name, "sKill.md");
    assert_eq!(find_skill_md(&entry(&["a.md", "SKILl.md", "sKILL.md"])).unwrap().name, "SKILl.md");
    // A preferred spelling counts before any other.
    assert_eq!(find_skill_md(&entry(&["sKill.md", "Skill.md"])).unwrap().name, "Skill.md");
    let (registry, notices) = SkillRegistry::load(vec![dir(vec![entry(&["sKill.md"])])]);
    assert_eq!(registry.get("x").unwrap().body, "sKill.md");
    assert!(notices.is_empty());
    for name in ["SKILL.md", "skill.md", "Skill.md", "sKiLl.md"] {
        assert!(is_skill_file_name(name));
    }
    for name in ["SKILL.MD", "skill.Md", "skills.md", "skil.md", "SKILL", "ſkill.md", "sKıll.md", ""] {
        assert!(!is_skill_file_name(name));
        assert!(find_skill_md(&entry(&[name])).is_none());
    }
}

#[test]
fn skills_lie_beside_the_program_and_in_the_working_directory() {
    let a = || Some(vec![PathComponent::RootDir, PathComponent::Normal(b"a".to_vec())]);
    let b = || Some(vec![PathComponent::RootDir, PathComponent::Normal(b"b".to_vec())]);
    assert_eq!(
        candidate_dirs(&a(), &b()),
        vec![SkillPlace::BesideProgram, SkillPlace::InWorkdir]
    );
    assert_eq!(candidate_dirs(&a(), &a()), vec![SkillPlace::BesideProgram]);
    assert_eq!(candidate_dirs(&None, &b()), vec![SkillPlace::InWorkdir]);
    assert_eq!(candidate_dirs(&a(), &None), vec![SkillPlace::BesideProgram]);
    assert!(candidate_dirs(&None, &None).is_empty());
}

#[test]
fn duplicates_keep_the_earlier_skill() {
    let first = dir(vec![entry("one", "---\nname: same\n---\nfirst"), entry("two", "two")]);
    let second = dir(vec![entry("three", "---\nname: same\n---\nsecond"), entry("four", "four")]);
    let (registry, notices) = SkillRegistry::load(vec![first, second]);
    let names: Vec<&str> = registry.list().iter().map(|s| s.name.as_str()).collect();
    assert_eq!(names, vec!["same", "two", "four"]);
    assert_eq!(registry.get("same").unwrap().body, "first");
    assert_eq!(
        notices,
        vec!["[skills] duplicate skill name 'same' at /skills/x/SKILL.md (keeping earlier)"]
    );
}

#[test]
fn what_cannot_be_read_is_reported() {
    let broken = SkillEntry {
        is_dir: true,
        name: Some("broken".to_string()),
        files: vec![SkillFile {
            name: "SKILL.md".to_string(),
            path: "/s/broken/SKILL.md".to_string(),
            text: Err("denied".to_string()),
        }],
    };
    let plain = SkillEntry { is_dir: false, name: Some("f".to_string()), files: vec![] };
    let unnamed = SkillEntry { is_dir: true, name: None, files: vec![file("SKILL.md", "x")] };
    let empty = SkillEntry { is_dir: true, name: Some("e".to_string()), files: vec![] };
    let closed = SkillDir {
        path: "/closed".to_string(),
        is_dir: true,
        entries: Err("no access".to_string()),
    };
    let missing = SkillDir { path: "/none".to_string(), is_dir: false, entries: Ok(vec![]) };
    let dirs = vec![missing, closed, dir(vec![broken, plain, unnamed, empty])];
    let (registry, notices) = SkillRegistry::load(dirs);
    assert!(registry.is_empty());
    assert_eq!(
        notices,
        vec![
            "[skills] failed to read /closed: no access",
            "[skills] failed to load /s/broken/SKILL.md: denied",
        ]
    );
}

#[test]
fn nothing_is_offered_without_skills() {
    let (registry, _) = SkillRegistry::load(vec![]);
    assert!(registry.tool_definition().is_none());
    assert!(registry.system_prompt_section().is_none());
}

#[test]
fn the_prompt_names_skills_without_their_bodies() {
    let (registry, _) = SkillRegistry::load(vec![dir(vec![
        entry("a", "---\ndescription: first\n---\nsecret"),
        entry("b", "# Second\n"),
    ])]);
    assert_eq!(
        registry.system_prompt_section().unwrap(),
        "\n\n## Available skills\nYou have access to the following skills. Each skill is a saved instruction set you can load on demand by calling the `load_skill` tool with its name. After loading, follow the returned instructions for the rest of the task.\n\n- **a**: first\n- **b**: Second\n"
    );
    let def = registry.tool_definition().unwrap();
    assert_eq!(
        def.to_text().unwrap(),
        "{\"function\":{\"description\":\"Load the full instruction body of a skill by name. Call this when a user request matches one of the skills listed in the system prompt under 'Available skills'. After loading, follow the returned instructions.\",\"name\":\"load_skill\",\"parameters\":{\"properties\":{\"name\":{\"description\":\"Skill name as listed under Available skills.\",\"enum\":[\"a\",\"b\"],\"type\":\"string\"}},\"required\":[\"name\"],\"type\":\"object\"}},\"type\":\"function\"}"
    );
}

#[test]
fn listed_skills_can_be_loaded() {
    let (registry, _) = SkillRegistry::load(vec![dir(vec![entry("a", "body a"), entry("b", "x")])]);
    assert_eq!(handle_load_skill(&registry, &args(" a ")), "# Skill: a\n\nbody a");
    assert_eq!(
        handle_load_skill(&registry, &args("c")),
        "Error: skill 'c' not found. Available skills: a, b"
    );
    assert_eq!(
        handle_load_skill(&registry, &args("  ")),
        "Error: load_skill requires a 'name' argument."
    );
    assert_eq!(
        handle_load_skill(&registry, &Json::Null),
        "Error: load_skill requires a 'name' argument."
    );
}

#[test]
fn a_name_with_white_space_around_it_is_not_found() {
    let text = "---\nname: \" a \"\n---\nx";
    let (registry, _) = SkillRegistry::load(vec![dir(vec![entry("d", text)])]);
    assert_eq!(registry.list()[0].name, " a ");
    assert_eq!(
        handle_load_skill(&registry, &args(" a ")),
        "Error: skill 'a' not found. Available skills:  a "
    );
}
