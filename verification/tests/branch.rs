use nca::branch::{
    branch_filter_text, branch_picker_enter_command, filtered_branch_indices, TuiCmd,
};

fn branches() -> Vec<String> {
    vec!["main".to_string(), "Feature/Login".to_string(), "feature/logout".to_string()]
}

fn enter(query: &str, selected: usize) -> Option<(bool, String)> {
    match branch_picker_enter_command(&branches(), query, selected) {
        Some(TuiCmd::CreateBranch(name)) => Some((true, name)),
        Some(TuiCmd::SwitchBranch(name)) => Some((false, name)),
        None => None,
    }
}

#[test]
fn the_filter_loses_blanks_and_one_slash() {
    assert_eq!(branch_filter_text("  main "), "main");
    assert_eq!(branch_filter_text(" /new"), "new");
    assert_eq!(branch_filter_text("//new"), "/new");
    assert_eq!(branch_filter_text("/ new"), " new");
    assert_eq!(branch_filter_text(""), "");
}

#[test]
fn an_empty_filter_lists_every_branch() {
    assert_eq!(filtered_branch_indices(&branches(), " / "), vec![0, 1, 2]);
    assert_eq!(filtered_branch_indices(&branches(), ""), vec![0, 1, 2]);
}

#[test]
fn branches_are_filtered_without_regard_to_case() {
    assert_eq!(filtered_branch_indices(&branches(), "LOG"), vec![1, 2]);
    assert_eq!(filtered_branch_indices(&branches(), "/login"), vec![1]);
    assert!(filtered_branch_indices(&branches(), "zzz").is_empty());
}

#[test]
fn a_slash_creates_a_branch() {
    assert_eq!(enter("/topic ", 0), Some((true, "topic".to_string())));
    assert_eq!(enter("/main", 0), Some((true, "main".to_string())));
    assert_eq!(enter(" / ", 0), None);
}

#[test]
fn a_name_switches_to_its_branch() {
    assert_eq!(enter("feature/LOGIN", 7), Some((false, "Feature/Login".to_string())));
    assert_eq!(enter(" MAIN ", 9), Some((false, "main".to_string())));
}

#[test]
fn the_selection_switches_where_no_name_does() {
    assert_eq!(enter("log", 1), Some((false, "feature/logout".to_string())));
    assert_eq!(enter("log", 2), None);
    assert_eq!(enter("", 0), Some((false, "main".to_string())));
    assert_eq!(enter("", 3), None);
}
