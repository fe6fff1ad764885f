use hstr::hstr::Shell;
use hstr::state::{Commands, SearchMode, State, View};
use hstr::ui::{case, deletion_prompt, search_mode, top_bar, usize_to_string, view, UserInterface};

fn small_history() -> Vec<String> {
    vec!["cat spam", "cat SPAM", "grep -r spam .", "ls"].into_iter().map(String::from).collect()
}

fn fresh_state(query: &str) -> State {
    State::new(Shell::Bash, small_history(), Vec::new(), query)
}

#[test]
fn new_state_builds_all_views() {
    let state = fresh_state("");
    // All views: each distinct command once, in first-occurrence order.
    assert_eq!(state.commands(View::All), &small_history());
    // Sorted: all frequencies are one, so recency wins and the order is
    // reversed.
    assert_eq!(
        state.commands(View::Sorted),
        &vec!["ls", "grep -r spam .", "cat SPAM", "cat spam"]
            .into_iter()
            .map(String::from)
            .collect::<Vec<String>>()
    );
    assert!(state.commands(View::Favorites).is_empty());
}

#[test]
fn search_filters_active_view_from_restore_point() {
    let mut state = fresh_state("spam");
    state.toggle_view();
    state.toggle_view();
    assert_eq!(state.view, View::All);
    state.search();
    assert_eq!(state.commands(View::All), &["cat spam", "cat SPAM", "grep -r spam ."]);
    // Searching again from the restore point yields the same list.
    state.search();
    assert_eq!(state.commands(View::All), &["cat spam", "cat SPAM", "grep -r spam ."]);
}

#[test]
fn search_with_invalid_regex_leaves_candidates() {
    let mut state = fresh_state("(");
    state.search_mode = SearchMode::Regex;
    state.toggle_view();
    state.toggle_view();
    state.search();
    assert_eq!(state.commands(View::All), &small_history());
}

#[test]
fn restore_brings_back_the_baseline() {
    let mut state = fresh_state("spam");
    state.toggle_view();
    state.toggle_view();
    state.search();
    assert_eq!(state.commands(View::All).len(), 3);
    state.restore();
    assert_eq!(state.commands(View::All), &small_history());
}

#[test]
fn add_or_rm_fav_is_involutive() {
    let mut state = fresh_state("");
    let cmd = String::from("cat spam");
    state.add_or_rm_fav(cmd.clone());
    assert!(state.cmd_in_fav("cat spam"));
    state.add_or_rm_fav(cmd);
    assert!(!state.cmd_in_fav("cat spam"));
}

#[test]
fn delete_from_history_removes_everywhere() {
    let mut state = fresh_state("");
    state.delete_from_history(String::from("cat spam"));
    assert!(!state.commands(View::All).contains(&String::from("cat spam")));
    assert!(!state.commands(View::Sorted).contains(&String::from("cat spam")));
    assert!(!state.raw_history.contains(&String::from("cat spam")));
    assert_eq!(state.raw_history.len(), 3);
}

#[test]
fn reload_history_rebuilds_from_raw_history() {
    let mut state = fresh_state("");
    state.delete_from_history(String::from("ls"));
    state.reload_history(vec![String::from("cat spam")]);
    assert_eq!(state.commands(View::All).len(), 3);
    assert_eq!(state.commands(View::Favorites), &[String::from("cat spam")]);
}

#[test]
fn commands_mut_borrows_the_working_list() {
    let mut state = fresh_state("");
    state.commands_mut(View::Favorites).push(String::from("ls"));
    assert_eq!(state.commands(View::Favorites), &[String::from("ls")]);
    assert_eq!(state.commands(View::All), &small_history());
}

#[test]
fn toggle_view_cycles() {
    let mut state = fresh_state("");
    assert_eq!(state.view, View::Sorted);
    state.toggle_view();
    assert_eq!(state.view, View::Favorites);
    state.toggle_view();
    assert_eq!(state.view, View::All);
    state.toggle_view();
    assert_eq!(state.view, View::Sorted);
}

#[test]
fn toggle_search_mode_cycles() {
    let mut state = fresh_state("");
    assert_eq!(state.search_mode, SearchMode::Exact);
    state.toggle_search_mode();
    assert_eq!(state.search_mode, SearchMode::Regex);
    state.toggle_search_mode();
    assert_eq!(state.search_mode, SearchMode::Fuzzy);
    state.toggle_search_mode();
    assert_eq!(state.search_mode, SearchMode::Exact);
}

#[test]
fn toggle_case_flips() {
    let mut state = fresh_state("");
    assert!(!state.case_sensitivity);
    state.toggle_case();
    assert!(state.case_sensitivity);
    state.toggle_case();
    assert!(!state.case_sensitivity);
}

#[test]
fn commands_from_history_builds_views() {
    let c = Commands::from_history(&small_history(), vec![String::from("ls")]);
    assert_eq!(c.all, small_history());
    assert_eq!(c.favorites, [String::from("ls")]);
    assert_eq!(c.sorted.len(), 4);
}

#[test]
fn status_bar_shows_mode_case_and_pages() {
    let state = fresh_state("");
    let ui = UserInterface::new();
    let bar = ui.status_bar(&state, state.commands(View::Sorted), 7);
    assert_eq!(bar, "- search:exact (C-e) - case:insensitive (C-t) - page 1/1 -");
}

#[test]
fn status_bar_shows_page_zero_when_empty() {
    let state = fresh_state("");
    let ui = UserInterface::new();
    let empty: Vec<String> = Vec::new();
    let bar = ui.status_bar(&state, &empty, 7);
    assert_eq!(bar, "- search:exact (C-e) - case:insensitive (C-t) - page 0/0 -");
}

#[test]
fn format_view() {
    assert_eq!(view(View::Sorted), "sorted");
    assert_eq!(view(View::Favorites), "favorites");
    assert_eq!(view(View::All), "all");
}

#[test]
fn format_search_mode() {
    assert_eq!(search_mode(SearchMode::Exact), "exact");
    assert_eq!(search_mode(SearchMode::Regex), "regex");
    assert_eq!(search_mode(SearchMode::Fuzzy), "fuzzy");
}

#[test]
fn format_case() {
    assert_eq!(case(true), "sensitive");
    assert_eq!(case(false), "insensitive");
}

#[test]
fn top_bar_joins_prompt_and_query() {
    assert_eq!(top_bar("user@host$", "ls -la"), "user@host$ ls -la");
}

#[test]
fn deletion_prompt_names_the_command() {
    assert_eq!(
        deletion_prompt("sudo reboot"),
        "Do you want to delete all occurences of sudo reboot? y/n"
    );
}

#[test]
fn numbers_format_in_decimal() {
    assert_eq!(usize_to_string(0), "0");
    assert_eq!(usize_to_string(7), "7");
    assert_eq!(usize_to_string(1330648651), "1330648651");
}
