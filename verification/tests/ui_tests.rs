use hstr_rs::ui::total_page_count;
use hstr_rs::{Page, UserInterface};

const PAGE_SIZE: usize = 7;

fn fake_history() -> Vec<String> {
    vec![
        "cat spam",
        "cat SPAM",
        "git add .",
        "git add . --dry-run",
        "git push origin master",
        "git rebase -i HEAD~2",
        "git checkout -b tests",
        "grep -r spam .",
        "ping -c 10 www.google.com",
        "ls -la",
        "lsusb",
        "lspci",
        "sudo reboot",
        "source .venv/bin/activate",
        "deactivate",
        "pytest",
        "cargo test",
        "xfce4-panel -r",
        "nano .gitignore",
        "sudo dkms add .",
        "cd ~/Downloads",
        "make -j4",
        "gpg --card-status",
    ]
    .iter()
    .map(|&x| x.into())
    .collect()
}

#[test]
fn pagination_page_count() {
    // 23 entries at 7 a page make 4 pages
    let commands = fake_history();
    assert_eq!(total_page_count(&commands, PAGE_SIZE), 4);
    assert_eq!(total_page_count(&Vec::new(), PAGE_SIZE), 0);
}

#[test]
fn get_page() {
    let commands = fake_history();
    let expected: Vec<(i32, Vec<&str>)> = vec![
        (1, vec![
            "cat spam",
            "cat SPAM",
            "git add .",
            "git add . --dry-run",
            "git push origin master",
            "git rebase -i HEAD~2",
            "git checkout -b tests",
        ]),
        (2, vec![
            "grep -r spam .",
            "ping -c 10 www.google.com",
            "ls -la",
            "lsusb",
            "lspci",
            "sudo reboot",
            "source .venv/bin/activate",
        ]),
        (3, vec![
            "deactivate",
            "pytest",
            "cargo test",
            "xfce4-panel -r",
            "nano .gitignore",
            "sudo dkms add .",
            "cd ~/Downloads",
        ]),
        (4, vec!["make -j4", "gpg --card-status"]),
        (5, vec![]),
    ];
    for (value, want) in expected {
        let page = Page { value };
        let got = page.contents(&commands, PAGE_SIZE);
        let want: Vec<String> = want.iter().map(|&x| x.into()).collect();
        assert_eq!(got, want);
    }
}

#[test]
fn get_page_size() {
    let commands = fake_history();
    let page = Page { value: 1 };
    assert_eq!(page.size(&commands, PAGE_SIZE), 7);
    let last = Page { value: 4 };
    assert_eq!(last.size(&commands, PAGE_SIZE), 2);
}

#[test]
fn page_selected_entry() {
    let commands = fake_history();
    let page = Page { value: 2 };
    assert_eq!(page.selected(&commands, PAGE_SIZE, 0), "grep -r spam .");
    assert_eq!(page.selected(&commands, PAGE_SIZE, 6), "source .venv/bin/activate");
}

#[test]
fn turn_page() {
    // (current, direction, expected)
    let cases = [
        (1, 1, 2),
        (2, 1, 3),
        (3, 1, 4),
        (4, 1, 1),
        (4, -1, 3),
        (3, -1, 2),
        (2, -1, 1),
        (1, -1, 4),
    ];
    let commands = fake_history();
    for (current, direction, expected) in cases {
        let mut ui = UserInterface::new();
        ui.page.value = current;
        ui.turn_page(&commands, PAGE_SIZE, direction);
        assert_eq!(ui.page.value, expected);
    }
}

#[test]
fn turn_page_empty_history_resets_to_first() {
    let mut ui = UserInterface::new();
    ui.turn_page(&Vec::new(), PAGE_SIZE, 1);
    assert_eq!(ui.page.value, 1);
}

#[test]
fn move_selected_within_page() {
    let commands = fake_history();
    let mut ui = UserInterface::new();
    ui.move_selected(&commands, PAGE_SIZE, 1);
    assert_eq!((ui.page.value, ui.selected), (1, 1));
    ui.move_selected(&commands, PAGE_SIZE, -1);
    assert_eq!((ui.page.value, ui.selected), (1, 0));
}

#[test]
fn move_selected_wraps_to_next_page() {
    // selection wrap past the last row turns the page and selects row 0
    let commands = fake_history();
    let mut ui = UserInterface::new();
    ui.selected = 6;
    ui.move_selected(&commands, PAGE_SIZE, 1);
    assert_eq!((ui.page.value, ui.selected), (2, 0));
}

#[test]
fn move_selected_wraps_from_last_page_to_first() {
    let commands = fake_history();
    let mut ui = UserInterface::new();
    ui.page.value = 4;
    ui.selected = 1;
    // the last page holds 2 entries; moving past its end wraps to page 1
    ui.move_selected(&commands, PAGE_SIZE, 1);
    assert_eq!((ui.page.value, ui.selected), (1, 0));
}

#[test]
fn move_selected_wraps_backward() {
    let commands = fake_history();
    let mut ui = UserInterface::new();
    ui.move_selected(&commands, PAGE_SIZE, -1);
    // backward from row 0 of page 1 lands on the last row of the last page
    assert_eq!((ui.page.value, ui.selected), (4, 1));
}

#[test]
fn move_selected_empty_history_is_noop() {
    let mut ui = UserInterface::new();
    ui.move_selected(&Vec::new(), PAGE_SIZE, 1);
    assert_eq!((ui.page.value, ui.selected), (1, 0));
}

#[test]
fn retain_selected_steps_off_the_last_row() {
    let commands = fake_history();
    let mut ui = UserInterface::new();
    ui.page.value = 4;
    ui.selected = 1;
    ui.retain_selected(&commands, PAGE_SIZE);
    assert_eq!(ui.selected, 0);
    // not on the last row: unchanged
    let mut other = UserInterface::new();
    other.retain_selected(&commands, PAGE_SIZE);
    assert_eq!(other.selected, 0);
}

#[test]
fn selected_entry_on_page() {
    let commands = fake_history();
    let mut ui = UserInterface::new();
    ui.page.value = 4;
    ui.selected = 1;
    assert_eq!(ui.selected_entry(&commands, PAGE_SIZE), Some("gpg --card-status".to_string()));
    ui.selected = 2;
    assert_eq!(ui.selected_entry(&commands, PAGE_SIZE), None);
    let empty = UserInterface::new();
    assert_eq!(empty.selected_entry(&Vec::new(), PAGE_SIZE), None);
}

#[test]
fn clamp_cursor_pulls_into_range() {
    let commands = fake_history();
    // a page number past the last page is clamped to the last page, and a
    // selection past that page's rows onto its last row
    let mut ui = UserInterface::new();
    ui.page.value = 9;
    ui.selected = 5;
    ui.clamp_cursor(&commands, PAGE_SIZE);
    assert_eq!((ui.page.value, ui.selected), (4, 1));
    // a cursor already in range does not move
    let mut inside = UserInterface::new();
    inside.page.value = 2;
    inside.selected = 3;
    inside.clamp_cursor(&commands, PAGE_SIZE);
    assert_eq!((inside.page.value, inside.selected), (2, 3));
    // on an empty list only the lower bounds apply
    let mut empty = UserInterface::new();
    empty.page.value = 0;
    empty.selected = -2;
    empty.clamp_cursor(&Vec::new(), PAGE_SIZE);
    assert_eq!((empty.page.value, empty.selected), (1, 0));
}
