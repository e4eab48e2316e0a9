use nca::palette::{
    filter_palette_rows, palette_catalog, palette_command_for_label, palette_selectable_indices,
    CommandCategory, CommandSpec, PaletteRow,
};

fn categories() -> Vec<CommandCategory> {
    vec![
        CommandCategory { id: 0, label: "Session" },
        CommandCategory { id: 1, label: "Provider" },
        CommandCategory { id: 2, label: "Nothing yet" },
    ]
}

fn visible_commands() -> Vec<CommandSpec> {
    vec![
        CommandSpec { name: "/help", description: "Show help", shortcut: "F1", category: 0 },
        CommandSpec {
            name: "/connect",
            description: "Connect provider",
            shortcut: "Ctrl+P",
            category: 1,
        },
        CommandSpec { name: "/quit", description: "Quit", shortcut: "Ctrl+X Q", category: 0 },
    ]
}

fn resolve_command(name: &str) -> Option<CommandSpec> {
    visible_commands().into_iter().find(|spec| spec.name == name)
}

fn catalog() -> Vec<PaletteRow> {
    palette_catalog(&categories(), &visible_commands())
}

fn shown(rows: &[&PaletteRow]) -> Vec<&'static str> {
    rows.iter()
        .map(|row| match row {
            PaletteRow::Section(label) => *label,
            PaletteRow::Entry { command, .. } => *command,
        })
        .collect()
}

#[test]
fn visible_palette_entries_map_to_registered_commands() {
    for row in catalog().iter() {
        if let PaletteRow::Entry { command, .. } = row {
            assert!(resolve_command(command).is_some(), "{command} is not registered");
        }
    }
}

#[test]
fn connect_provider_is_not_duplicated() {
    let count = catalog()
        .iter()
        .filter(|row| matches!(row, PaletteRow::Entry { command: "/connect", .. }))
        .count();
    assert_eq!(count, 1);
}

#[test]
fn the_catalog_lists_commands_by_category() {
    let rows = catalog();
    let all: Vec<&PaletteRow> = rows.iter().collect();
    assert_eq!(
        shown(&all),
        vec!["Session", "/help", "/quit", "Provider", "/connect", "Nothing yet"]
    );
}

#[test]
fn a_label_leads_to_its_command() {
    assert_eq!(palette_command_for_label(&visible_commands(), "Connect provider"), "/connect");
    assert_eq!(palette_command_for_label(&visible_commands(), "connect provider"), "/help");
    assert_eq!(palette_command_for_label(&[], "Quit"), "/help");
}

#[test]
fn a_blank_query_keeps_every_row() {
    let rows = catalog();
    assert_eq!(filter_palette_rows(&rows, " \t").len(), 6);
}

#[test]
fn a_query_keeps_matches_under_their_sections() {
    let rows = catalog();
    assert_eq!(shown(&filter_palette_rows(&rows, " QUIT ")), vec!["Session", "/quit"]);
    assert_eq!(
        shown(&filter_palette_rows(&rows, "ctrl")),
        vec!["Session", "/quit", "Provider", "/connect"]
    );
    assert_eq!(shown(&filter_palette_rows(&rows, "/con")), vec!["Provider", "/connect"]);
    assert!(filter_palette_rows(&rows, "session").is_empty());
    assert!(filter_palette_rows(&rows, "zzz").is_empty());
}

#[test]
fn filtering_twice_changes_nothing() {
    let rows = catalog();
    let once: Vec<PaletteRow> = filter_palette_rows(&rows, "ctrl").into_iter().cloned().collect();
    assert_eq!(
        shown(&filter_palette_rows(&once, "ctrl")),
        shown(&filter_palette_rows(&rows, "ctrl"))
    );
}

#[test]
fn only_entries_can_be_selected() {
    let rows = catalog();
    let all: Vec<&PaletteRow> = rows.iter().collect();
    assert_eq!(palette_selectable_indices(&all), vec![1, 2, 4]);
    assert!(palette_selectable_indices(&[]).is_empty());
}
