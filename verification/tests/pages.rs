use hstr::ui::{Direction, UserInterface};

const CAPACITY: usize = 7;

fn fake_history() -> Vec<String> {
    vec![
        "cat spam",
        "cat SPAM",
        "git add .",
        "git add . --dry-run",
        "git push origin master",
        "git rebase -i HEAD~2",
        "git checkout -b tests",
        "grep -r spam .",
        "ping -c 10 www.google.com",
        "ls -la",
        "lsusb",
        "lspci",
        "sudo reboot",
        "source .venv/bin/activate",
        "deactivate",
        "pytest",
        "cargo test",
        "xfce4-panel -r",
        "nano .gitignore",
        "sudo dkms add .",
        "cd ~/Downloads",
        "make -j4",
        "gpg --card-status",
        "echo šampion",
        "nano .github/workflows/build.yml",
        "cd /home/bwk/",
    ]
    .into_iter()
    .map(String::from)
    .collect()
}

#[test]
fn total_pages_of_fake_history() {
    let ui = UserInterface::new();
    assert_eq!(ui.total_pages(&fake_history(), CAPACITY), 4);
}

#[test]
fn total_pages_of_empty_list() {
    let ui = UserInterface::new();
    let empty: Vec<String> = Vec::new();
    assert_eq!(ui.total_pages(&empty, CAPACITY), 0);
}

#[test]
fn page_contents_of_each_page() {
    let history = fake_history();
    let mut ui = UserInterface::new();
    assert_eq!(
        ui.page_contents(&history, CAPACITY),
        [
            "cat spam",
            "cat SPAM",
            "git add .",
            "git add . --dry-run",
            "git push origin master",
            "git rebase -i HEAD~2",
            "git checkout -b tests",
        ]
    );
    ui.set_page(4);
    assert_eq!(
        ui.page_contents(&history, CAPACITY),
        [
            "make -j4",
            "gpg --card-status",
            "echo šampion",
            "nano .github/workflows/build.yml",
            "cd /home/bwk/",
        ]
    );
    ui.set_page(5);
    assert!(ui.page_contents(&history, CAPACITY).is_empty());
}

#[test]
fn page_size_of_first_page() {
    let ui = UserInterface::new();
    assert_eq!(ui.page_size(&fake_history(), CAPACITY), 7);
}

#[test]
fn turn_page_wraps_both_ways() {
    let history = fake_history();
    let cases = [
        (1, 2, Direction::Forward),
        (2, 3, Direction::Forward),
        (3, 4, Direction::Forward),
        (4, 1, Direction::Forward),
        (4, 3, Direction::Backward),
        (3, 2, Direction::Backward),
        (2, 1, Direction::Backward),
        (1, 4, Direction::Backward),
    ];
    for (current, expected, direction) in cases {
        let mut ui = UserInterface::new();
        ui.set_page(current);
        ui.turn_page(&history, CAPACITY, direction);
        assert_eq!(ui.page, expected);
    }
}

#[test]
fn turn_page_with_no_pages_lands_on_one() {
    let empty: Vec<String> = Vec::new();
    let mut ui = UserInterface::new();
    ui.set_page(3);
    ui.turn_page(&empty, CAPACITY, Direction::Forward);
    assert_eq!(ui.page, 1);
    ui.set_page(3);
    ui.turn_page(&empty, CAPACITY, Direction::Backward);
    assert_eq!(ui.page, 1);
}

#[test]
fn move_highlighted_within_page() {
    let history = fake_history();
    let mut ui = UserInterface::new();
    ui.move_highlighted(&history, CAPACITY, Direction::Forward);
    assert_eq!((ui.page, ui.highlighted), (1, 1));
    ui.move_highlighted(&history, CAPACITY, Direction::Backward);
    assert_eq!((ui.page, ui.highlighted), (1, 0));
}

#[test]
fn move_forward_from_last_row_of_nonfinal_page() {
    let history = fake_history();
    let mut ui = UserInterface::new();
    ui.set_highlighted(CAPACITY - 1);
    ui.move_highlighted(&history, CAPACITY, Direction::Forward);
    assert_eq!((ui.page, ui.highlighted), (2, 0));
}

#[test]
fn move_forward_from_last_row_of_final_page_wraps_to_start() {
    let history = fake_history();
    let mut ui = UserInterface::new();
    ui.set_page(4);
    ui.set_highlighted(4);
    ui.move_highlighted(&history, CAPACITY, Direction::Forward);
    assert_eq!((ui.page, ui.highlighted), (1, 0));
}

#[test]
fn move_backward_from_first_row_wraps_to_last_page() {
    let history = fake_history();
    let mut ui = UserInterface::new();
    ui.move_highlighted(&history, CAPACITY, Direction::Backward);
    // The last page holds five entries, so its last row is index 4.
    assert_eq!((ui.page, ui.highlighted), (4, 4));
}

#[test]
fn move_highlighted_on_empty_list_is_a_noop() {
    let empty: Vec<String> = Vec::new();
    let mut ui = UserInterface::new();
    ui.move_highlighted(&empty, CAPACITY, Direction::Forward);
    assert_eq!((ui.page, ui.highlighted), (1, 0));
}

#[test]
fn selected_returns_highlighted_command() {
    let history = fake_history();
    let mut ui = UserInterface::new();
    ui.set_highlighted(2);
    assert_eq!(ui.selected(&history, CAPACITY), Some(String::from("git add .")));
    ui.set_page(5);
    assert_eq!(ui.selected(&history, CAPACITY), None);
}

#[test]
fn retain_selected_steps_back_on_last_row() {
    let history = fake_history();
    let mut ui = UserInterface::new();
    ui.set_highlighted(6);
    ui.retain_selected(&history, CAPACITY);
    assert_eq!(ui.highlighted, 5);
    ui.set_highlighted(3);
    ui.retain_selected(&history, CAPACITY);
    assert_eq!(ui.highlighted, 3);
}
