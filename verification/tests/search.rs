use hstr::search::{filter_commands, substring_indices};
use hstr::state::SearchMode;

fn fake_history() -> Vec<String> {
    vec![
        "cat spam",
        "cat SPAM",
        "git add .",
        "git add . --dry-run",
        "git push origin master",
        "git rebase -i HEAD~2",
        "git checkout -b tests",
        "grep -r spam .",
        "ping -c 10 www.google.com",
        "ls -la",
        "lsusb",
        "lspci",
        "sudo reboot",
        "source .venv/bin/activate",
        "deactivate",
        "pytest",
        "cargo test",
        "xfce4-panel -r",
        "nano .gitignore",
        "sudo dkms add .",
        "cd ~/Downloads",
        "make -j4",
        "gpg --card-status",
        "echo šampion",
        "nano .github/workflows/build.yml",
        "cd /home/bwk/",
    ]
    .into_iter()
    .map(String::from)
    .collect()
}

#[test]
fn exact_is_case_insensitive_by_default() {
    let r = filter_commands(&fake_history(), &String::from("spam"), SearchMode::Exact, false);
    assert_eq!(r, ["cat spam", "cat SPAM", "grep -r spam ."]);
}

#[test]
fn exact_case_sensitive() {
    let r = filter_commands(&fake_history(), &String::from("SPAM"), SearchMode::Exact, true);
    assert_eq!(r, ["cat SPAM"]);
}

#[test]
fn exact_prefix_search() {
    let r = filter_commands(&fake_history(), &String::from("cat"), SearchMode::Exact, false);
    assert_eq!(r, ["cat spam", "cat SPAM"]);
}

#[test]
fn exact_escapes_metacharacters() {
    let cmds: Vec<String> =
        vec!["print(hello)", "echo hi"].into_iter().map(String::from).collect();
    let r = filter_commands(&cmds, &String::from("print("), SearchMode::Exact, false);
    assert_eq!(r, ["print(hello)"]);
}

#[test]
fn exact_empty_query_matches_everything() {
    let r = filter_commands(&fake_history(), &String::new(), SearchMode::Exact, false);
    assert_eq!(r, fake_history());
}

#[test]
fn regex_empty_query_matches_everything() {
    let r = filter_commands(&fake_history(), &String::new(), SearchMode::Regex, false);
    assert_eq!(r, fake_history());
}

#[test]
fn regex_matches_digit_runs_in_order() {
    let r = filter_commands(&fake_history(), &String::from("[0-9]+"), SearchMode::Regex, false);
    assert_eq!(
        r,
        ["git rebase -i HEAD~2", "ping -c 10 www.google.com", "xfce4-panel -r", "make -j4"]
    );
}

#[test]
fn invalid_regex_returns_input_unchanged() {
    let r = filter_commands(&fake_history(), &String::from("("), SearchMode::Regex, false);
    assert_eq!(r, fake_history());
}

#[test]
fn fuzzy_matches_subsequence() {
    let r = filter_commands(&fake_history(), &String::from("šp"), SearchMode::Fuzzy, false);
    assert_eq!(r, ["echo šampion"]);
}

#[test]
fn fuzzy_matches_across_words() {
    let r = filter_commands(&fake_history(), &String::from("hwk"), SearchMode::Fuzzy, false);
    assert_eq!(r, ["nano .github/workflows/build.yml", "cd /home/bwk/"]);
}

#[test]
fn filter_is_idempotent_on_concrete_input() {
    let once = filter_commands(&fake_history(), &String::from("spam"), SearchMode::Exact, false);
    let twice = filter_commands(&once, &String::from("spam"), SearchMode::Exact, false);
    assert_eq!(once, twice);
}

#[test]
fn matched_chars_indices() {
    assert_eq!(substring_indices("cat spam", "cat"), [0, 1, 2]);
    assert_eq!(substring_indices("make -j4", "[0-9]+"), [7]);
    assert_eq!(substring_indices("ping -c 10 www.google.com", "[0-9]+"), [8, 9]);
}

#[test]
fn matched_chars_indices_invalid_pattern() {
    let r = substring_indices("cat spam", "(");
    assert!(r.is_empty());
}
