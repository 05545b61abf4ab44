use hstr_rs::app::{Application, HistoryView, InvalidPatternError};

fn fake_history() -> Vec<String> {
    vec![
        "cat spam",
        "cat SPAM",
        "git add .",
        "git add . --dry-run",
        "git push origin master",
        "git rebase -i HEAD~2",
        "git checkout -b tests",
        "grep -r spam .",
        "ping -c 10 www.google.com",
        "ls -la",
        "lsusb",
        "lspci",
        "sudo reboot",
        "source .venv/bin/activate",
        "deactivate",
        "pytest",
        "cargo test",
        "xfce4-panel -r",
        "nano .gitignore",
        "sudo dkms add .",
        "cd ~/Downloads",
        "make -j4",
        "gpg --card-status",
    ]
    .iter()
    .map(|&x| x.into())
    .collect()
}

fn app_with_fake_history() -> Application {
    let mut app = Application::new("bash");
    app.load_history(fake_history(), Vec::new());
    // the chronological view keeps the original order, which the search
    // expectations below rely on
    app.view = HistoryView::All;
    app
}

fn strings(items: &[&str]) -> Vec<String> {
    items.iter().map(|&x| x.into()).collect()
}

#[test]
fn new_application_defaults() {
    let app = Application::new("bash");
    assert!(!app.case_sensitivity);
    assert!(!app.regex_mode);
    assert!(app.commands.is_none());
    assert!(app.to_restore.is_none());
    assert_eq!(app.search_string, "");
    assert_eq!(app.shell, "bash");
    assert_eq!(app.view, HistoryView::Sorted);
}

#[test]
fn load_history_builds_views() {
    let mut app = Application::new("bash");
    app.load_history(strings(&["a", "b", "a"]), strings(&["b"]));
    let table = app.commands.as_ref().unwrap();
    assert_eq!(table.sorted, strings(&["a", "b"]));
    assert_eq!(table.all, strings(&["a", "b"]));
    assert_eq!(table.favorites, strings(&["b"]));
    assert_eq!(app.raw_history, strings(&["a", "b", "a"]));
}

#[test]
fn search_literal_case_insensitive() {
    let mut app = app_with_fake_history();
    app.search_string = "cat".to_string();
    assert_eq!(app.search(), Ok(()));
    assert_eq!(app.get_commands(), &strings(&["cat spam", "cat SPAM"]));
}

#[test]
fn search_literal_spam() {
    let mut app = app_with_fake_history();
    app.search_string = "spam".to_string();
    assert_eq!(app.search(), Ok(()));
    assert_eq!(app.get_commands(), &strings(&["cat spam", "cat SPAM", "grep -r spam ."]));
}

#[test]
fn search_literal_case_sensitive() {
    let mut app = app_with_fake_history();
    app.case_sensitivity = true;
    app.search_string = "SPAM".to_string();
    assert_eq!(app.search(), Ok(()));
    assert_eq!(app.get_commands(), &strings(&["cat SPAM"]));
}

#[test]
fn search_case_insensitive_finds_both_cases() {
    // case-insensitive literal search on mixed-case entries returns both
    let mut app = Application::new("bash");
    app.load_history(strings(&["cat spam", "cat SPAM"]), Vec::new());
    app.view = HistoryView::All;
    app.search_string = "spam".to_string();
    assert_eq!(app.search(), Ok(()));
    assert_eq!(app.get_commands(), &strings(&["cat spam", "cat SPAM"]));
}

#[test]
fn search_case_sensitive_finds_exact_case() {
    let mut app = Application::new("bash");
    app.load_history(strings(&["cat spam", "cat SPAM"]), Vec::new());
    app.view = HistoryView::All;
    app.case_sensitivity = true;
    app.search_string = "spam".to_string();
    assert_eq!(app.search(), Ok(()));
    assert_eq!(app.get_commands(), &strings(&["cat spam"]));
}

#[test]
fn search_regex_digits() {
    let mut app = app_with_fake_history();
    app.regex_mode = true;
    app.search_string = "[0-9]+".to_string();
    assert_eq!(app.search(), Ok(()));
    assert_eq!(
        app.get_commands(),
        &strings(&[
            "git rebase -i HEAD~2",
            "ping -c 10 www.google.com",
            "xfce4-panel -r",
            "make -j4",
        ])
    );
}

#[test]
fn search_invalid_regex_keeps_previous_filter() {
    // an unbalanced pattern in regex mode leaves the last filtered set as is
    let mut app = app_with_fake_history();
    app.search_string = "cat".to_string();
    assert_eq!(app.search(), Ok(()));
    let before = app.get_commands().clone();
    app.regex_mode = true;
    app.search_string = "print(".to_string();
    assert_eq!(app.search(), Err(InvalidPatternError));
    assert_eq!(app.get_commands(), &before);
}

#[test]
fn search_literal_accepts_metacharacters() {
    let mut app = Application::new("bash");
    app.load_history(strings(&["print(x)", "echo hi"]), Vec::new());
    app.view = HistoryView::All;
    app.search_string = "print(".to_string();
    assert_eq!(app.search(), Ok(()));
    assert_eq!(app.get_commands(), &strings(&["print(x)"]));
}

#[test]
fn create_search_regex_escapes_literal_queries() {
    let mut app = Application::new("bash");
    app.search_string = "print(".to_string();
    let matcher = app.create_search_regex().unwrap();
    assert_eq!(matcher.pattern(), "print\\(");
    app.regex_mode = true;
    assert!(app.create_search_regex().is_none());
}

#[test]
fn add_or_rm_fav_round_trip() {
    // toggling the same entry twice restores its Favorites membership
    let commands = ["cat spam", "grep -r spam .", "ping -c 10 www.google.com"];
    for command in commands {
        let mut app = app_with_fake_history();
        app.add_or_rm_fav(command.to_string());
        assert!(app.cmd_in_fav(command));
        app.add_or_rm_fav(command.to_string());
        assert!(!app.cmd_in_fav(command));
    }
}

#[test]
fn add_or_rm_fav_appends_then_removes() {
    let mut app = Application::new("bash");
    app.load_history(strings(&["a", "b"]), strings(&["x"]));
    app.add_or_rm_fav("a".to_string());
    assert_eq!(app.commands.as_ref().unwrap().favorites, strings(&["x", "a"]));
    app.add_or_rm_fav("x".to_string());
    assert_eq!(app.commands.as_ref().unwrap().favorites, strings(&["a"]));
}

#[test]
fn delete_from_history_removes_entry_everywhere() {
    // deleting "a" from ["a", "b", "a"] leaves raw history ["b"] and no
    // view containing "a"
    let mut app = Application::new("bash");
    app.load_history(strings(&["a", "b", "a"]), strings(&["a"]));
    app.delete_from_history("a".to_string());
    assert_eq!(app.raw_history, strings(&["b"]));
    let table = app.commands.as_ref().unwrap();
    assert!(!table.sorted.contains(&"a".to_string()));
    assert!(!table.favorites.contains(&"a".to_string()));
    assert!(!table.all.contains(&"a".to_string()));
    assert_eq!(table.all, strings(&["b"]));
}

#[test]
fn delete_from_fake_history() {
    let commands = ["cat spam", "grep -r spam .", "ping -c 10 www.google.com"];
    for command in commands {
        let mut app = app_with_fake_history();
        app.delete_from_history(command.to_string());
        assert!(!app.get_commands().contains(&command.to_string()));
    }
}

#[test]
fn reload_history_rederives_views() {
    let mut app = Application::new("bash");
    app.load_history(strings(&["a", "b", "a"]), Vec::new());
    app.delete_from_history("a".to_string());
    app.reload_history(Vec::new());
    let table = app.commands.as_ref().unwrap();
    assert_eq!(table.sorted, strings(&["b"]));
    assert_eq!(table.all, strings(&["b"]));
    assert_eq!(app.raw_history, strings(&["b"]));
}

#[test]
fn restore_brings_the_snapshot_back() {
    let mut app = app_with_fake_history();
    app.search_string = "cat".to_string();
    assert_eq!(app.search(), Ok(()));
    assert_eq!(app.get_commands().len(), 2);
    app.restore();
    assert_eq!(app.get_commands(), &fake_history());
}

#[test]
fn get_commands_follows_the_active_view() {
    let mut app = app_with_fake_history();
    app.view = HistoryView::Sorted;
    assert_eq!(app.get_commands().len(), 23);
    app.view = HistoryView::Favorites;
    assert_eq!(app.get_commands(), &Vec::<String>::new());
    app.view = HistoryView::All;
    assert_eq!(app.get_commands(), &fake_history());
}

#[test]
fn toggle_view_cycles() {
    let cases = [
        (HistoryView::Sorted, HistoryView::Favorites),
        (HistoryView::Favorites, HistoryView::All),
        (HistoryView::All, HistoryView::Sorted),
    ];
    for (before, after) in cases {
        let mut app = Application::new("bash");
        app.view = before;
        app.toggle_view();
        assert_eq!(app.view, after);
    }
}

#[test]
fn toggle_regex_mode_flips() {
    for mode in [true, false] {
        let mut app = Application::new("bash");
        app.regex_mode = mode;
        app.toggle_regex_mode();
        assert_eq!(app.regex_mode, !mode);
    }
}

#[test]
fn toggle_case_flips() {
    for mode in [true, false] {
        let mut app = Application::new("bash");
        app.case_sensitivity = mode;
        app.toggle_case();
        assert_eq!(app.case_sensitivity, !mode);
    }
}

#[test]
fn format_view() {
    assert_eq!(hstr_rs::format::view(HistoryView::Sorted), "sorted");
    assert_eq!(hstr_rs::format::view(HistoryView::Favorites), "favorites");
    assert_eq!(hstr_rs::format::view(HistoryView::All), "all");
}

#[test]
fn format_case() {
    assert_eq!(hstr_rs::format::case(true), "sensitive");
    assert_eq!(hstr_rs::format::case(false), "insensitive");
}

#[test]
fn format_regex_mode() {
    assert_eq!(hstr_rs::format::regex_mode(true), "on");
    assert_eq!(hstr_rs::format::regex_mode(false), "off");
}

#[test]
fn format_top_bar() {
    assert_eq!(hstr_rs::format::top_bar("user@host$", "cat"), "user@host$ cat");
}

#[test]
fn format_deletion_prompt() {
    assert_eq!(
        hstr_rs::format::deletion_prompt("sudo reboot"),
        "Do you want to delete all occurences of sudo reboot? y/n"
    );
}
