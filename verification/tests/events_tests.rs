use hstr_rs::app::{Application, HistoryView};
use hstr_rs::events::{handle_event, Action, Event};
use hstr_rs::UserInterface;

const PAGE_SIZE: usize = 7;

fn strings(items: &[&str]) -> Vec<String> {
    items.iter().map(|&x| x.into()).collect()
}

fn loaded_app(history: &[&str]) -> (Application, UserInterface) {
    let mut app = Application::new("bash");
    app.load_history(strings(history), Vec::new());
    app.view = HistoryView::All;
    (app, UserInterface::new())
}

#[test]
fn event_quit() {
    let (mut app, mut ui) = loaded_app(&["ls"]);
    let action = handle_event(&mut app, &mut ui, PAGE_SIZE, Event::Quit);
    assert!(matches!(action, Action::Quit));
}

#[test]
fn event_toggle_view_resets_pagination() {
    let (mut app, mut ui) = loaded_app(&["a", "b", "c"]);
    ui.selected = 2;
    let action = handle_event(&mut app, &mut ui, PAGE_SIZE, Event::ToggleView);
    assert!(matches!(action, Action::Render));
    assert_eq!(app.view, HistoryView::Sorted);
    assert_eq!((ui.page.value, ui.selected), (1, 0));
}

#[test]
fn event_toggle_search_mode_resets_pagination() {
    let (mut app, mut ui) = loaded_app(&["a", "b", "c"]);
    ui.selected = 1;
    let action = handle_event(&mut app, &mut ui, PAGE_SIZE, Event::ToggleRegexMode);
    assert!(matches!(action, Action::Render));
    assert!(app.regex_mode);
    assert_eq!((ui.page.value, ui.selected), (1, 0));
}

#[test]
fn event_toggle_case_leaves_cursor() {
    let (mut app, mut ui) = loaded_app(&["a", "b", "c"]);
    ui.selected = 1;
    let action = handle_event(&mut app, &mut ui, PAGE_SIZE, Event::ToggleCase);
    assert!(matches!(action, Action::Render));
    assert!(app.case_sensitivity);
    assert_eq!(ui.selected, 1);
}

#[test]
fn event_insert_narrows_the_view() {
    let (mut app, mut ui) = loaded_app(&["cat spam", "cargo test", "ls"]);
    for c in ['c', 'a', 't'] {
        let action = handle_event(&mut app, &mut ui, PAGE_SIZE, Event::Insert(c));
        assert!(matches!(action, Action::Render));
    }
    assert_eq!(app.search_string, "cat");
    assert_eq!(app.get_commands(), &strings(&["cat spam"]));
    assert_eq!((ui.page.value, ui.selected), (1, 0));
}

#[test]
fn event_backspace_widens_the_view_again() {
    // narrowing to "cat" then erasing one character refilters from the
    // snapshot with "ca", so entries hidden by the longer query come back
    let (mut app, mut ui) = loaded_app(&["cat spam", "cargo test", "ls"]);
    for c in ['c', 'a', 't'] {
        handle_event(&mut app, &mut ui, PAGE_SIZE, Event::Insert(c));
    }
    assert_eq!(app.get_commands().len(), 1);
    let action = handle_event(&mut app, &mut ui, PAGE_SIZE, Event::Backspace);
    assert!(matches!(action, Action::Render));
    assert_eq!(app.search_string, "ca");
    assert_eq!(app.get_commands(), &strings(&["cat spam", "cargo test"]));
    // a query change resets the cursor, shrinking included
    assert_eq!((ui.page.value, ui.selected), (1, 0));
}

#[test]
fn event_filtering_grows_monotonically_narrower() {
    // every further query character keeps a subset of the current entries
    let (mut app, mut ui) = loaded_app(&["cat spam", "cat SPAM", "cargo test", "make"]);
    let mut previous = app.get_commands().clone();
    for c in ['c', 'a', 't'] {
        handle_event(&mut app, &mut ui, PAGE_SIZE, Event::Insert(c));
        let current = app.get_commands().clone();
        assert!(current.iter().all(|e| previous.contains(e)));
        previous = current;
    }
}

#[test]
fn event_select_echoes_the_selected_entry() {
    let (mut app, mut ui) = loaded_app(&["cat spam", "ls"]);
    let action = handle_event(&mut app, &mut ui, PAGE_SIZE, Event::Select);
    match action {
        Action::Echo(text) => assert_eq!(text, "cat spam"),
        other => panic!("expected an echo, got {:?}", other),
    }
}

#[test]
fn event_select_and_run_appends_newline() {
    let (mut app, mut ui) = loaded_app(&["cat spam", "ls"]);
    ui.selected = 1;
    let action = handle_event(&mut app, &mut ui, PAGE_SIZE, Event::SelectAndRun);
    match action {
        Action::Echo(text) => assert_eq!(text, "ls\n"),
        other => panic!("expected an echo, got {:?}", other),
    }
}

#[test]
fn event_select_on_empty_view_is_ignored() {
    let (mut app, mut ui) = loaded_app(&[]);
    let action = handle_event(&mut app, &mut ui, PAGE_SIZE, Event::Select);
    assert!(matches!(action, Action::Ignore));
}

#[test]
fn event_toggle_favorite_adds_the_selected_entry() {
    let (mut app, mut ui) = loaded_app(&["cat spam", "ls"]);
    let action = handle_event(&mut app, &mut ui, PAGE_SIZE, Event::ToggleFavorite);
    assert!(matches!(action, Action::PersistFavorites));
    assert!(app.cmd_in_fav("cat spam"));
}

#[test]
fn event_delete_confirmed_removes_the_entry() {
    let (mut app, mut ui) = loaded_app(&["a", "b", "a"]);
    let action = handle_event(&mut app, &mut ui, PAGE_SIZE, Event::Delete(true));
    assert!(matches!(action, Action::PersistHistory));
    assert_eq!(app.raw_history, strings(&["b"]));
    assert!(!app.get_commands().contains(&"a".to_string()));
}

#[test]
fn event_delete_declined_changes_nothing() {
    let (mut app, mut ui) = loaded_app(&["a", "b"]);
    let action = handle_event(&mut app, &mut ui, PAGE_SIZE, Event::Delete(false));
    assert!(matches!(action, Action::Reload));
    assert_eq!(app.raw_history, strings(&["a", "b"]));
}

#[test]
fn event_page_turn_wraps() {
    let history: Vec<String> = (0..23).map(|i| format!("cmd{}", i)).collect();
    let mut app = Application::new("bash");
    app.load_history(history, Vec::new());
    app.view = HistoryView::All;
    let mut ui = UserInterface::new();
    handle_event(&mut app, &mut ui, PAGE_SIZE, Event::PageForward);
    assert_eq!(ui.page.value, 2);
    handle_event(&mut app, &mut ui, PAGE_SIZE, Event::PageBackward);
    assert_eq!(ui.page.value, 1);
    handle_event(&mut app, &mut ui, PAGE_SIZE, Event::PageBackward);
    assert_eq!(ui.page.value, 4);
}

#[test]
fn event_move_down_wraps_page() {
    let history: Vec<String> = (0..23).map(|i| format!("cmd{}", i)).collect();
    let mut app = Application::new("bash");
    app.load_history(history, Vec::new());
    app.view = HistoryView::All;
    let mut ui = UserInterface::new();
    ui.selected = 6;
    handle_event(&mut app, &mut ui, PAGE_SIZE, Event::MoveDown);
    assert_eq!((ui.page.value, ui.selected), (2, 0));
}

#[test]
fn event_invalid_regex_query_is_kept_but_view_stays() {
    // the query grows, the compiled filter fails, the view is untouched
    let (mut app, mut ui) = loaded_app(&["print(x)", "echo"]);
    app.regex_mode = true;
    for c in ['p', 'r', 'i', 'n', 't', '('] {
        handle_event(&mut app, &mut ui, PAGE_SIZE, Event::Insert(c));
    }
    assert_eq!(app.search_string, "print(");
    // "print" matched only the first entry; the trailing "(" compiles no
    // longer and leaves that result standing
    assert_eq!(app.get_commands(), &strings(&["print(x)"]));
}
