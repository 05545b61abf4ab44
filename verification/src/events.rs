//! The interaction loop's transition table: one decoded key event goes in,
//! the model and cursor are updated, and an action comes back telling the
//! caller what outside work (drawing, persisting, injecting) is due.

use vstd::prelude::*;
use vstd::string::StringExecFns;
use crate::app::{
    accepts_of, pattern_of, spec_next_view, toggle_fav_spec, Application, HistoryView,
};
use crate::entries::{differs_from, views_of};
use crate::search::pattern_compiles;
use crate::ui::{moved_selection, retained_selection, spec_page_count, spec_page_len, spec_page_start, ui_wf, UserInterface};

verus! {

/// A decoded key event, as the terminal front end hands it in.
#[derive(Clone, Copy, Debug, PartialEq, Eq, Structural)]
pub enum Event {
    /// Flip literal/regex interpretation of the query.
    ToggleRegexMode,
    /// Toggle the selected entry's Favorites membership.
    ToggleFavorite,
    /// Take the selected entry into the shell's input buffer.
    Select,
    /// Take the selected entry and run it.
    SelectAndRun,
    /// Flip case sensitivity.
    ToggleCase,
    /// Leave the browser.
    Quit,
    /// Cycle to the next view.
    ToggleView,
    /// A query character was typed.
    Insert(char),
    /// Move the selection up one row.
    MoveUp,
    /// Move the selection down one row.
    MoveDown,
    /// Remove the last query character.
    Backspace,
    /// Delete the selected entry from the history; the flag says whether
    /// the user confirmed the prompt.
    Delete(bool),
    /// Show the next page.
    PageForward,
    /// Show the previous page.
    PageBackward,
    /// The terminal was resized.
    Resize,
}

/// What the caller performs after a transition.
#[derive(Debug)]
pub enum Action {
    /// Nothing: the event had no entry to act on.
    Ignore,
    /// Redraw the screen from the current state.
    Render,
    /// Persist the favorites list, then redraw.
    PersistFavorites,
    /// Persist the raw history, then reload (re-reading the favorites
    /// store) and redraw.
    PersistHistory,
    /// Reload (re-reading the favorites store) and redraw.
    Reload,
    /// Push this text into the shell's input buffer and leave.
    Echo(String),
    /// Leave the browser.
    Quit,
}

/// Relies on `String::push`: appends one character.
#[verifier::external_body]
fn string_push(s: &mut String, c: char)
    ensures
        final(s)@ == old(s)@.push(c),
{
    s.push(c);
}

/// Relies on `String::pop`: removes and returns the last character, if any.
#[verifier::external_body]
fn string_pop(s: &mut String) -> (r: Option<char>)
    ensures
        old(s)@.len() == 0 ==> r is None && final(s)@ == old(s)@,
        old(s)@.len() > 0 ==> r == Some(old(s)@.last()) && final(s)@ == old(s)@.drop_last(),
{
    s.pop()
}

/// Apply one key event to the model and cursor and say what outside work is
/// due. The contract is the transition table: what each event changes, what
/// it resets, and which action it requests.
pub fn handle_event(
    app: &mut Application,
    ui: &mut UserInterface,
    page_size: usize,
    event: Event,
) -> (r: Action)
    requires
        old(app).loaded(),
        1 <= page_size <= 0x7fff_ffff,
        old(app).active_entries().len() <= 0x7fff_ffff,
        ui_wf(*old(ui), old(app).active_entries().len() as int, page_size as int),
    ensures
        final(app).loaded(),
        ({
            let n = old(app).active_entries().len() as int;
            let ps = page_size as int;
            let sel = spec_page_start(old(ui).page.value as int, ps) + old(ui).selected;
            let has_sel = spec_page_len(n, ps, old(ui).page.value as int) > 0;
            &&& (event == Event::Quit ==> r is Quit && *final(app) == *old(app) && *final(ui)
                == *old(ui))
            &&& (event == Event::Resize ==> r is Render && *final(app) == *old(app) && *final(ui) == *old(ui))
            &&& (event == Event::ToggleCase ==> r is Render && final(app).case_sensitivity
                == !old(app).case_sensitivity && final(app).regex_mode == old(app).regex_mode
                && final(app).search_string@ == old(app).search_string@ && final(app).view == old(app).view && final(app).commands == old(app).commands && final(app).to_restore == old(app).to_restore && *final(ui) == *old(ui))
            &&& (event == Event::ToggleRegexMode ==> r is Render && final(app).regex_mode
                == !old(app).regex_mode && final(app).case_sensitivity == old(app).case_sensitivity && final(app).search_string@ == old(app).search_string@ && final(app).view == old(app).view && final(app).commands == old(app).commands && final(app).to_restore == old(app).to_restore && final(ui).page.value == 1 && final(ui).selected
                == 0)
            &&& (event == Event::ToggleView ==> r is Render && final(app).view == spec_next_view(
                old(app).view,
            ) && final(app).case_sensitivity == old(app).case_sensitivity && final(app).regex_mode
                == old(app).regex_mode && final(app).search_string@ == old(app).search_string@
                && final(app).commands == old(app).commands && final(app).to_restore == old(app).to_restore && final(ui).page.value == 1 && final(ui).selected == 0)
            &&& (event matches Event::Insert(c) ==> ({
                let q2 = old(app).search_string@.push(c);
                let compiles = pattern_compiles(
                    pattern_of(q2, old(app).regex_mode),
                    !old(app).case_sensitivity,
                );
                &&& r is Render
                &&& final(app).search_string@ == q2
                &&& final(app).view == old(app).view
                &&& final(app).regex_mode == old(app).regex_mode
                &&& final(app).case_sensitivity == old(app).case_sensitivity
                &&& final(ui).page.value == 1
                &&& final(ui).selected == 0
                &&& (forall|v: HistoryView| final(app).restore_in(v) == old(app).restore_in(v))
                &&& (compiles ==> final(app).commands_in(old(app).view) == old(app).active_entries().filter(
                    accepts_of(q2, old(app).regex_mode, old(app).case_sensitivity),
                ) && (forall|v: HistoryView|
                    v != old(app).view ==> final(app).commands_in(v) == old(app).commands_in(v)))
                &&& (!compiles ==> (forall|v: HistoryView|
                    final(app).commands_in(v) == old(app).commands_in(v)))
            }))
            &&& (event == Event::Backspace ==> ({
                let q2 = if old(app).search_string@.len() > 0 {
                    old(app).search_string@.drop_last()
                } else {
                    old(app).search_string@
                };
                let compiles = pattern_compiles(
                    pattern_of(q2, old(app).regex_mode),
                    !old(app).case_sensitivity,
                );
                &&& r is Render
                &&& final(app).search_string@ == q2
                &&& final(app).view == old(app).view
                &&& final(app).regex_mode == old(app).regex_mode
                &&& final(app).case_sensitivity == old(app).case_sensitivity
                &&& final(ui).page.value == 1
                &&& final(ui).selected == 0
                &&& (forall|v: HistoryView| final(app).restore_in(v) == old(app).restore_in(v))
                &&& (compiles ==> final(app).commands_in(old(app).view) == old(app).restore_in(
                    old(app).view,
                ).filter(accepts_of(q2, old(app).regex_mode, old(app).case_sensitivity)) && (
                forall|v: HistoryView|
                    v != old(app).view ==> final(app).commands_in(v) == old(app).restore_in(v)))
                &&& (!compiles ==> (forall|v: HistoryView|
                    final(app).commands_in(v) == old(app).restore_in(v)))
            }))
            &&& ((event == Event::MoveUp || event == Event::MoveDown || event
                == Event::PageForward || event == Event::PageBackward) ==> r is Render && *final(app) == *old(app) && ui_wf(*final(ui), n, ps))
            &&& (event == Event::MoveUp ==> moved_selection(*old(ui), *final(ui), n, ps, -1))
            &&& (event == Event::MoveDown ==> moved_selection(*old(ui), *final(ui), n, ps, 1))
            &&& ((event == Event::PageForward || event == Event::PageBackward) && n > 0 ==> ({
                let direction: int = if event == Event::PageForward { 1 } else { -1 };
                let s2 = spec_page_len(n, ps, final(ui).page.value as int);
                &&& final(ui).page.value - 1 == (old(ui).page.value - 1 + direction)
                    % spec_page_count(n, ps)
                &&& final(ui).selected as int == if s2 > 0 && old(ui).selected >= s2 {
                    s2 - 1
                } else {
                    old(ui).selected as int
                }
            }))
            &&& (event == Event::Select ==> ({
                &&& (!has_sel ==> r is Ignore && *final(app) == *old(app) && *final(ui) == *old(ui))
                &&& (has_sel ==> (r matches Action::Echo(cmd) && cmd@ == old(app).active_entries()[sel]) && *final(app) == *old(app) && *final(ui) == *old(ui))
            }))
            &&& (event == Event::SelectAndRun ==> ({
                &&& (!has_sel ==> r is Ignore && *final(app) == *old(app) && *final(ui) == *old(ui))
                &&& (has_sel ==> (r matches Action::Echo(cmd) && cmd@ == old(app).active_entries()[sel].push('\n')) && *final(app) == *old(app) && *final(ui)
                    == *old(ui))
            }))
            &&& (event == Event::ToggleFavorite ==> ({
                &&& (!has_sel ==> r is Ignore && *final(app) == *old(app) && *final(ui) == *old(ui))
                &&& (has_sel ==> ({
                    let cmd = old(app).active_entries()[sel];
                    &&& r is PersistFavorites
                    &&& (old(app).view != HistoryView::Favorites ==> *final(ui) == *old(ui))
                    &&& (old(app).view == HistoryView::Favorites ==> final(ui).page == old(
                        ui,
                    ).page && final(ui).selected as int == retained_selection(
                        old(ui).selected as int,
                        spec_page_len(n, ps, old(ui).page.value as int),
                    ))
                    &&& final(app).commands_in(HistoryView::Favorites) == toggle_fav_spec(
                        old(app).commands_in(HistoryView::Favorites),
                        cmd,
                    )
                    &&& (forall|v: HistoryView|
                        v != HistoryView::Favorites ==> final(app).commands_in(v) == old(app).commands_in(v))
                    &&& (forall|v: HistoryView|
                        final(app).restore_in(v) == old(app).restore_in(v))
                    &&& final(app).same_settings(*old(app))
                }))
            }))
            &&& (event matches Event::Delete(confirmed) ==> ({
                &&& (!has_sel ==> r is Ignore && *final(app) == *old(app) && *final(ui) == *old(ui))
                &&& (has_sel && !confirmed ==> r is Reload && *final(app) == *old(app) && *final(ui) == *old(ui))
                &&& (has_sel && confirmed ==> ({
                    let cmd = old(app).active_entries()[sel];
                    &&& r is PersistHistory
                    &&& final(ui).page == old(ui).page
                    &&& final(ui).selected as int == retained_selection(
                        old(ui).selected as int,
                        spec_page_len(n, ps, old(ui).page.value as int),
                    )
                    &&& (forall|v: HistoryView|
                        final(app).commands_in(v) == old(app).commands_in(v).filter(
                            differs_from(cmd),
                        ))
                    &&& views_of(final(app).raw_history@) == views_of(
                        old(app).raw_history@,
                    ).filter(differs_from(cmd))
                    &&& (forall|v: HistoryView|
                        final(app).restore_in(v) == old(app).restore_in(v))
                    &&& final(app).same_settings(*old(app))
                }))
            }))
        }),
{
    match event {
        Event::Quit => Action::Quit,
        Event::Resize => Action::Render,
        Event::ToggleCase => {
            app.toggle_case();
            Action::Render
        },
        Event::ToggleRegexMode => {
            app.toggle_regex_mode();
            ui.selected = 0;
            ui.page.value = 1;
            Action::Render
        },
        Event::ToggleView => {
            app.toggle_view();
            ui.selected = 0;
            ui.page.value = 1;
            Action::Render
        },
        Event::Insert(c) => {
            string_push(&mut app.search_string, c);
            ui.selected = 0;
            ui.page.value = 1;
            let _ = app.search();
            Action::Render
        },
        Event::Backspace => {
            let _ = string_pop(&mut app.search_string);
            ui.selected = 0;
            ui.page.value = 1;
            app.restore();
            let _ = app.search();
            Action::Render
        },
        Event::MoveUp => {
            move_cursor(app, ui, page_size, -1);
            Action::Render
        },
        Event::MoveDown => {
            move_cursor(app, ui, page_size, 1);
            Action::Render
        },
        Event::PageForward => {
            turn_cursor_page(app, ui, page_size, 1);
            Action::Render
        },
        Event::PageBackward => {
            turn_cursor_page(app, ui, page_size, -1);
            Action::Render
        },
        Event::Select => {
            match ui.selected_entry(app.get_commands(), page_size) {
                None => Action::Ignore,
                Some(cmd) => {
                    Action::Echo(cmd)
                },
            }
        },
        Event::SelectAndRun => {
            match ui.selected_entry(app.get_commands(), page_size) {
                None => Action::Ignore,
                Some(cmd) => {
                    let ghost cmd_chars = cmd@;
                    let mut line = cmd;
                    line.append("\n");
                    proof {
                        reveal_strlit("\n");
                        assert(line@ =~= cmd_chars.push('\n'));
                    }
                    Action::Echo(line)
                },
            }
        },
        Event::ToggleFavorite => {
            match ui.selected_entry(app.get_commands(), page_size) {
                None => Action::Ignore,
                Some(cmd) => {
                    if app.view == HistoryView::Favorites {
                        ui.retain_selected(app.get_commands(), page_size);
                    }
                    app.add_or_rm_fav(cmd);
                    Action::PersistFavorites
                },
            }
        },
        Event::Delete(confirmed) => {
            match ui.selected_entry(app.get_commands(), page_size) {
                None => Action::Ignore,
                Some(cmd) => {
                    if confirmed {
                        ui.retain_selected(app.get_commands(), page_size);
                        app.delete_from_history(cmd);
                        Action::PersistHistory
                    } else {
                        Action::Reload
                    }
                },
            }
        },
    }
}

/// Move the selection one row in `direction` over the active view.
fn move_cursor(app: &Application, ui: &mut UserInterface, page_size: usize, direction: i32)
    requires
        app.loaded(),
        1 <= page_size <= 0x7fff_ffff,
        app.active_entries().len() <= 0x7fff_ffff,
        ui_wf(*old(ui), app.active_entries().len() as int, page_size as int),
        direction == 1 || direction == -1,
    ensures
        ui_wf(*final(ui), app.active_entries().len() as int, page_size as int),
        moved_selection(*old(ui), *final(ui), app.active_entries().len() as int,
            page_size as int, direction as int),
{
    let commands = app.get_commands();
    ui.move_selected(commands, page_size, direction);
    proof {
        let n = app.active_entries().len() as int;
        let ps = page_size as int;
        if n > 0 {
            crate::ui::lemma_page_len_positive(n, ps, ui.page.value as int);
        }
    }
}

/// Turn one page in `direction` over the active view, then pull the
/// selection up onto the new page if it would fall past its last row.
fn turn_cursor_page(app: &Application, ui: &mut UserInterface, page_size: usize, direction: i32)
    requires
        app.loaded(),
        1 <= page_size <= 0x7fff_ffff,
        app.active_entries().len() <= 0x7fff_ffff,
        ui_wf(*old(ui), app.active_entries().len() as int, page_size as int),
        direction == 1 || direction == -1,
    ensures
        ui_wf(*final(ui), app.active_entries().len() as int, page_size as int),
        app.active_entries().len() > 0 ==> ({
            let n = app.active_entries().len() as int;
            let ps = page_size as int;
            let s2 = spec_page_len(n, ps, final(ui).page.value as int);
            &&& final(ui).page.value - 1 == (old(ui).page.value - 1 + direction)
                % spec_page_count(n, ps)
            &&& final(ui).selected as int == if s2 > 0 && old(ui).selected >= s2 {
                s2 - 1
            } else {
                old(ui).selected as int
            }
        }),
{
    let commands = app.get_commands();
    ui.turn_page(commands, page_size, direction);
    proof {
        let n = app.active_entries().len() as int;
        let ps = page_size as int;
        if n > 0 {
            crate::ui::lemma_page_len_positive(n, ps, ui.page.value as int);
        }
    }
    let s2 = ui.page.size(commands, page_size);
    if s2 > 0 && ui.selected >= s2 {
        ui.selected = s2 - 1;
    }
}

} // verus!
