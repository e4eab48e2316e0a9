use nca::composer::AtToken;
use nca::palette::CommandSpec;
use nca::slash::{
    collect_skill_entries, comes_first, composer_chrome_height, dedup_entries,
    filter_slash_entries, load_slash_entries, slash_panel_height, Skill, SkillSource, SlashEntry,
};

fn command(name: &'static str) -> CommandSpec {
    CommandSpec { name, description: "", shortcut: "", category: 0 }
}

fn skill(command: &str, description: Option<&str>, source: SkillSource) -> Skill {
    Skill { command: command.to_string(), description: description.map(str::to_string), source }
}

fn discovered(skills: Vec<Skill>) -> Result<Vec<Skill>, String> {
    Ok(skills)
}

fn names(entries: &[SlashEntry]) -> Vec<String> {
    entries.iter().map(|e| e.command_str()).collect()
}

fn no_token(_: &str, _: usize) -> Option<AtToken> {
    None
}

fn some_token(_: &str, _: usize) -> Option<AtToken> {
    Some((0, "x".to_string()))
}

fn all_files(files: &[String], _: String) -> Vec<String> {
    files.to_vec()
}

#[test]
fn entries_show_their_source() {
    let plain = SlashEntry::Command("/help");
    assert_eq!(plain.command_str(), "/help");
    assert_eq!(plain.display_text(), "/help");
    let described = SlashEntry::Skill {
        command: "deploy".to_string(),
        description: Some("Ship it".to_string()),
        source: SkillSource::FileSystem,
    };
    assert_eq!(described.command_str(), "/deploy");
    assert_eq!(
        described.display_text(),
        "/deploy               \u{2014} Ship it (skill dir)"
    );
    let bare = SlashEntry::Skill {
        command: "deploy".to_string(),
        description: None,
        source: SkillSource::AgentsMd,
    };
    assert_eq!(bare.display_text(), "/deploy (AGENTS.md)");
    let long = SlashEntry::Skill {
        command: "a-command-of-more-than-twenty".to_string(),
        description: Some("d".to_string()),
        source: SkillSource::AgentsMd,
    };
    assert_eq!(
        long.display_text(),
        "/a-command-of-more-than-twenty \u{2014} d (AGENTS.md)"
    );
}

#[test]
fn padding_counts_characters() {
    let entry = SlashEntry::Skill {
        command: "\u{e9}t\u{e9}".to_string(),
        description: Some("d".to_string()),
        source: SkillSource::AgentsMd,
    };
    let expected = format!("/{:<20} \u{2014} d (AGENTS.md)", "\u{e9}t\u{e9}");
    assert_eq!(entry.display_text(), expected);
}

#[test]
fn failed_discovery_gives_no_skills() {
    assert!(collect_skill_entries(Err::<Vec<Skill>, &str>("no")).is_empty());
    let found = collect_skill_entries(discovered(vec![
        skill("b", None, SkillSource::AgentsMd),
        skill("a", Some("x"), SkillSource::FileSystem),
    ]));
    assert_eq!(names(&found), vec!["/b", "/a"]);
    let entries = load_slash_entries(&[command("/quit"), command("/help")], Err("no"));
    assert_eq!(names(&entries), vec!["/help", "/quit"]);
}

#[test]
fn entries_are_ordered_without_repetition() {
    let entries = load_slash_entries(
        &[command("/quit"), command("/help")],
        discovered(vec![
            skill("Help", Some("hidden"), SkillSource::FileSystem),
            skill("init", None, SkillSource::AgentsMd),
            skill("APPLY", None, SkillSource::AgentsMd),
        ]),
    );
    assert_eq!(names(&entries), vec!["/APPLY", "/help", "/init", "/quit"]);
    assert!(matches!(entries[1], SlashEntry::Command("/help")));
}

#[test]
fn the_order_is_that_of_unicode_lower_case() {
    let entries = load_slash_entries(
        &[],
        discovered(vec![
            skill("\u{c9}t\u{e9}", None, SkillSource::AgentsMd),
            skill("\u{e9}ta", None, SkillSource::AgentsMd),
            skill("z", None, SkillSource::AgentsMd),
        ]),
    );
    assert_eq!(names(&entries), vec!["/z", "/\u{e9}ta", "/\u{c9}t\u{e9}"]);
}

#[test]
fn repetition_outside_ascii_stays() {
    // The Kelvin sign is a `k` in lower case, but no letter of ASCII.
    let entries = load_slash_entries(
        &[],
        discovered(vec![
            skill("k", None, SkillSource::AgentsMd),
            skill("\u{212a}", None, SkillSource::AgentsMd),
            skill("K", None, SkillSource::AgentsMd),
        ]),
    );
    assert_eq!(names(&entries), vec!["/k", "/\u{212a}", "/K"]);
}

#[test]
fn texts_are_ordered_by_characters() {
    let order = |a: &str, b: &str| {
        let x: Vec<char> = a.chars().collect();
        let y: Vec<char> = b.chars().collect();
        comes_first(&x, &y)
    };
    assert!(order("", "a"));
    assert!(order("a", "a"));
    assert!(order("a", "ab"));
    assert!(!order("ab", "a"));
    assert!(!order("b", "ab"));
    assert!(order("z", "\u{e9}"));
}

#[test]
fn only_neighbours_repeat() {
    let entries = dedup_entries(vec![
        SlashEntry::Command("/a"),
        SlashEntry::Command("/A"),
        SlashEntry::Command("/b"),
        SlashEntry::Command("/a"),
    ]);
    assert_eq!(names(&entries), vec!["/a", "/b", "/a"]);
}

#[test]
fn the_panel_shows_what_begins_with_the_typed_command() {
    let entries = load_slash_entries(
        &[command("/help"), command("/history"), command("/quit")],
        discovered(vec![skill("\u{c9}t\u{e9}", None, SkillSource::AgentsMd)]),
    );
    let shown = |buffer: &str| -> Vec<String> {
        filter_slash_entries(&entries, buffer).iter().map(|e| e.command_str()).collect()
    };
    assert_eq!(shown(" /H"), vec!["/help", "/history"]);
    assert_eq!(shown("/hi"), vec!["/history"]);
    assert_eq!(shown("//q"), vec!["/quit"]);
    assert_eq!(shown("/\u{c9}"), vec!["/\u{c9}t\u{e9}"]);
    assert_eq!(shown("/").len(), 4);
    assert!(shown("/help me").is_empty());
    assert!(shown("help").is_empty());
}

#[test]
fn the_panel_height_has_a_footer_where_entries_are_hidden() {
    assert_eq!(slash_panel_height(0), 0);
    assert_eq!(slash_panel_height(1), 3);
    assert_eq!(slash_panel_height(8), 10);
    assert_eq!(slash_panel_height(9), 11);
    assert_eq!(slash_panel_height(usize::MAX), 11);
}

#[test]
fn the_chrome_is_as_high_as_the_panel_that_shows() {
    let entries = vec![SlashEntry::Command("/help"), SlashEntry::Command("/quit")];
    let files = vec!["a".to_string(), "b".to_string(), "c".to_string()];
    assert_eq!(composer_chrome_height(&entries, &files, "/", 1, some_token, all_files), 4);
    assert_eq!(composer_chrome_height(&entries, &files, "/he", 3, no_token, all_files), 3);
    assert_eq!(composer_chrome_height(&entries, &files, "@x", 2, some_token, all_files), 5);
    assert_eq!(composer_chrome_height(&entries, &files, "x", 1, no_token, all_files), 0);
    assert_eq!(composer_chrome_height(&entries, &[], "@x", 2, some_token, all_files), 0);
}
