//! The history model: the raw history list, its three derived views
//! (ranked, favorites, chronological), the search state that filters the
//! active view, and the mutations the interaction loop performs on them.

use vstd::prelude::*;
use vstd::pervasive::unreached;
use crate::entries::{
    contains_entry, dedup_first, dedup_keep_first, differs_from, lemma_filter_all,
    lemma_filter_congruent, lemma_views_of_push, remove_entry, views_of,
};
use crate::rank::{is_ranking, rank};
use crate::search::{contains_query, escaped, literal_accepts, pattern_compiles, pattern_match, Matcher};

verus! {

/// Which derived view of the history is active.
#[derive(Clone, Copy, Debug, PartialEq, Eq, Hash, Structural)]
pub enum HistoryView {
    Sorted,
    Favorites,
    All,
}

/// The view after `v` in the cycle Sorted, Favorites, All, Sorted, ...
pub open spec fn spec_next_view(v: HistoryView) -> HistoryView {
    match v {
        HistoryView::Sorted => HistoryView::Favorites,
        HistoryView::Favorites => HistoryView::All,
        HistoryView::All => HistoryView::Sorted,
    }
}

/// One ordered entry list per view.
pub struct ViewTable {
    pub sorted: Vec<String>,
    pub favorites: Vec<String>,
    pub all: Vec<String>,
}

impl ViewTable {
    /// The contents of one view's list.
    pub open spec fn entries(self, v: HistoryView) -> Seq<Seq<char>> {
        match v {
            HistoryView::Sorted => views_of(self.sorted@),
            HistoryView::Favorites => views_of(self.favorites@),
            HistoryView::All => views_of(self.all@),
        }
    }

    /// The list backing view `v`.
    pub fn get(&self, v: HistoryView) -> (r: &Vec<String>)
        ensures
            views_of(r@) == self.entries(v),
    {
        match v {
            HistoryView::Sorted => &self.sorted,
            HistoryView::Favorites => &self.favorites,
            HistoryView::All => &self.all,
        }
    }

    /// Replace the list backing view `v`, leaving the other views alone.
    pub fn set(&mut self, v: HistoryView, entries: Vec<String>)
        ensures
            final(self).entries(v) == views_of(entries@),
            forall|w: HistoryView| w != v ==> final(self).entries(w) == old(self).entries(w),
    {
        match v {
            HistoryView::Sorted => self.sorted = entries,
            HistoryView::Favorites => self.favorites = entries,
            HistoryView::All => self.all = entries,
        }
    }

    /// A copy of the table with the same contents in every view.
    pub fn duplicate(&self) -> (r: ViewTable)
        ensures
            forall|v: HistoryView| r.entries(v) == self.entries(v),
    {
        let sorted = self.sorted.clone();
        let favorites = self.favorites.clone();
        let all = self.all.clone();
        proof {
            assert(sorted@ =~= self.sorted@);
            assert(favorites@ =~= self.favorites@);
            assert(all@ =~= self.all@);
        }
        ViewTable { sorted, favorites, all }
    }
}

/// The error a malformed regex query raises: the view keeps its previous
/// contents and the caller may show a non-fatal cue.
#[derive(Clone, Copy, Debug, PartialEq, Eq, Structural)]
pub struct InvalidPatternError;

/// What toggling `e` in the favorites list leaves behind: appended when it
/// was absent, removed everywhere when it was present.
pub open spec fn toggle_fav_spec(favs: Seq<Seq<char>>, e: Seq<char>) -> Seq<Seq<char>> {
    if favs.contains(e) {
        favs.filter(differs_from(e))
    } else {
        favs.push(e)
    }
}

/// The pattern a query compiles to: the query itself in regex mode, the
/// escaped query in literal mode.
pub open spec fn pattern_of(q: Seq<char>, regex_mode: bool) -> Seq<char> {
    if regex_mode {
        q
    } else {
        escaped(q)
    }
}

/// The predicate a search state filters entries by.
pub open spec fn accepts_of(q: Seq<char>, regex_mode: bool, case_sensitivity: bool) -> spec_fn(
    Seq<char>,
) -> bool {
    |t: Seq<char>| pattern_match(pattern_of(q, regex_mode), !case_sensitivity, t)
}

/// The in-memory state of the history browser: raw history, derived views,
/// the snapshot the views are restored from when the query shrinks, and the
/// search state.
pub struct Application {
    pub case_sensitivity: bool,
    pub commands: Option<ViewTable>,
    pub raw_history: Vec<String>,
    pub regex_mode: bool,
    pub search_string: String,
    pub shell: String,
    pub to_restore: Option<ViewTable>,
    pub view: HistoryView,
}

impl Application {
    /// Both tables are present once a history was loaded.
    pub open spec fn loaded(self) -> bool {
        self.commands is Some && self.to_restore is Some
    }

    /// The (possibly filtered) contents of view `v`.
    pub open spec fn commands_in(self, v: HistoryView) -> Seq<Seq<char>> {
        self.commands->Some_0.entries(v)
    }

    /// The unfiltered snapshot of view `v`.
    pub open spec fn restore_in(self, v: HistoryView) -> Seq<Seq<char>> {
        self.to_restore->Some_0.entries(v)
    }

    /// The contents of the active view.
    pub open spec fn active_entries(self) -> Seq<Seq<char>> {
        self.commands_in(self.view)
    }

    /// The pattern the current search state compiles: the query itself in
    /// regex mode, the escaped query in literal mode.
    pub open spec fn search_pattern(self) -> Seq<char> {
        pattern_of(self.search_string@, self.regex_mode)
    }

    /// The predicate the current search state filters entries by.
    pub open spec fn search_accepts(self) -> spec_fn(Seq<char>) -> bool {
        accepts_of(self.search_string@, self.regex_mode, self.case_sensitivity)
    }

    /// The search state and view tag, which searching leaves untouched.
    pub open spec fn same_settings(self, other: Application) -> bool {
        &&& self.case_sensitivity == other.case_sensitivity
        &&& self.regex_mode == other.regex_mode
        &&& self.search_string@ == other.search_string@
        &&& self.shell@ == other.shell@
        &&& self.view == other.view
    }

    /// A fresh, unloaded application for the given shell: case-insensitive
    /// literal search with an empty query, ranked view active.
    pub fn new(shell: &str) -> (r: Application)
        ensures
            r.case_sensitivity == false,
            r.commands is None,
            r.raw_history@.len() == 0,
            r.regex_mode == false,
            r.search_string@.len() == 0,
            r.shell@ == shell@,
            r.to_restore is None,
            r.view == HistoryView::Sorted,
    {
        Application {
            case_sensitivity: false,
            commands: None,
            raw_history: Vec::new(),
            regex_mode: false,
            search_string: String::new(),
            shell: shell.to_owned(),
            to_restore: None,
            view: HistoryView::Sorted,
        }
    }

    /// Install a freshly read history and favorites list: the ranked view is
    /// the ranking of the history, the chronological view the history with
    /// duplicates dropped, the favorites view the persisted list; the
    /// snapshot table holds the same contents.
    pub fn load_history(&mut self, history: Vec<String>, favorites: Vec<String>)
        ensures
            final(self).loaded(),
            final(self).raw_history@ == history@,
            is_ranking(views_of(history@), final(self).commands_in(HistoryView::Sorted)),
            final(self).commands_in(HistoryView::All) == dedup_first(views_of(history@)),
            final(self).commands_in(HistoryView::Favorites) == views_of(favorites@),
            forall|v: HistoryView| final(self).restore_in(v) == final(self).commands_in(v),
            final(self).same_settings(*old(self)),
    {
        let sorted = rank(&history);
        let all = dedup_keep_first(&history);
        let table = ViewTable { sorted, favorites, all };
        let snapshot = table.duplicate();
        self.raw_history = history;
        self.commands = Some(table);
        self.to_restore = Some(snapshot);
    }

    /// Re-derive every view from the raw history already in memory, taking
    /// the favorites list from the persisted store's contents handed in;
    /// both tables are rebuilt, so any filtering is undone.
    pub fn reload_history(&mut self, favorites: Vec<String>)
        ensures
            final(self).loaded(),
            final(self).raw_history@ == old(self).raw_history@,
            is_ranking(views_of(old(self).raw_history@), final(self).commands_in(
                HistoryView::Sorted,
            )),
            final(self).commands_in(HistoryView::All) == dedup_first(views_of(
                old(self).raw_history@,
            )),
            final(self).commands_in(HistoryView::Favorites) == views_of(favorites@),
            forall|v: HistoryView| final(self).restore_in(v) == final(self).commands_in(v),
            final(self).same_settings(*old(self)),
    {
        let sorted = rank(&self.raw_history);
        let all = dedup_keep_first(&self.raw_history);
        let table = ViewTable { sorted, favorites, all };
        self.to_restore = Some(table);
        self.restore();
    }

    /// Throw the filtered contents away and show the snapshot again.
    pub fn restore(&mut self)
        ensures
            old(self).to_restore is Some ==> final(self).commands is Some && forall|
                v: HistoryView,
            | final(self).commands_in(v) == old(self).restore_in(v),
            old(self).to_restore is None ==> final(self).commands is None,
            forall|v: HistoryView|
                old(self).to_restore is Some ==> final(self).restore_in(v) == old(self).restore_in(v),
            final(self).to_restore is Some == old(self).to_restore is Some,
            final(self).raw_history@ == old(self).raw_history@,
            final(self).same_settings(*old(self)),
    {
        match &self.to_restore {
            Some(table) => {
                let copy = table.duplicate();
                self.commands = Some(copy);
            },
            None => {
                self.commands = None;
            },
        }
    }

    /// The entries of the active view, as the renderer and the pagination
    /// consume them.
    pub fn get_commands(&self) -> (r: &Vec<String>)
        requires
            self.loaded(),
        ensures
            views_of(r@) == self.active_entries(),
    {
        match &self.commands {
            Some(table) => table.get(self.view),
            None => unreached(),
        }
    }

    /// Compile the current query: escaped in literal mode, as written in
    /// regex mode, honouring case sensitivity. The result is present
    /// exactly when the pattern compiles.
    pub fn create_search_regex(&self) -> (r: Option<Matcher>)
        ensures
            r is Some <==> pattern_compiles(self.search_pattern(), !self.case_sensitivity),
            r is Some ==> r->Some_0.spec_pattern() == self.search_pattern(),
            r is Some ==> r->Some_0.spec_case_insensitive() == !self.case_sensitivity,
            !self.regex_mode && r is Some ==> forall|t: Seq<char>|
                #[trigger] pattern_match(r->Some_0.spec_pattern(), false, t) <==> contains_query(
                    t,
                    self.search_string@,
                ),
    {
        Matcher::compile(&self.search_string, self.regex_mode, self.case_sensitivity)
    }

    /// Filter the active view in place with the current query: the view
    /// keeps, in order, exactly the entries the compiled query matches. A
    /// query whose pattern does not compile changes nothing and reports
    /// [`InvalidPatternError`]. A case-sensitive literal query keeps
    /// exactly the entries that contain the query verbatim.
    pub fn search(&mut self) -> (res: Result<(), InvalidPatternError>)
        requires
            old(self).loaded(),
        ensures
            final(self).loaded(),
            res is Ok <==> pattern_compiles(old(self).search_pattern(), !old(self).case_sensitivity),
            res is Err ==> *final(self) == *old(self),
            res is Ok ==> final(self).commands_in(old(self).view) == old(self).active_entries().filter(old(self).search_accepts()),
            res is Ok ==> forall|v: HistoryView|
                v != old(self).view ==> final(self).commands_in(v) == old(self).commands_in(v),
            forall|v: HistoryView| final(self).restore_in(v) == old(self).restore_in(v),
            final(self).raw_history@ == old(self).raw_history@,
            final(self).same_settings(*old(self)),
            res is Ok && !old(self).regex_mode && old(self).case_sensitivity ==> final(self).commands_in(old(self).view) == old(self).active_entries().filter(
                literal_accepts(old(self).search_string@),
            ),
    {
        let matcher = match self.create_search_regex() {
            Some(m) => m,
            None => {
                return Err(InvalidPatternError);
            },
        };
        let view = self.view;
        let filtered = matcher.filter_entries(self.get_commands());
        proof {
            if !self.regex_mode && self.case_sensitivity {
                lemma_filter_congruent(
                    self.active_entries(),
                    matcher.accepts(),
                    literal_accepts(self.search_string@),
                );
            }
        }
        match &mut self.commands {
            Some(table) => table.set(view, filtered),
            None => unreached(),
        }
        Ok(())
    }

    /// Toggle an entry's membership in the favorites view: append it when it
    /// is absent, drop every occurrence when it is present.
    pub fn add_or_rm_fav(&mut self, command: String)
        requires
            old(self).loaded(),
        ensures
            final(self).loaded(),
            final(self).commands_in(HistoryView::Favorites) == toggle_fav_spec(
                old(self).commands_in(HistoryView::Favorites),
                command@,
            ),
            forall|v: HistoryView|
                v != HistoryView::Favorites ==> final(self).commands_in(v) == old(self).commands_in(v),
            forall|v: HistoryView| final(self).restore_in(v) == old(self).restore_in(v),
            final(self).raw_history@ == old(self).raw_history@,
            final(self).same_settings(*old(self)),
    {
        match &mut self.commands {
            Some(table) => {
                let present = contains_entry(&table.favorites, &command);
                if !present {
                    let ghost old_favs = table.favorites@;
                    table.favorites.push(command);
                    proof {
                        lemma_views_of_push(old_favs, command);
                    }
                } else {
                    let without = remove_entry(&table.favorites, &command);
                    table.favorites = without;
                }
            },
            None => unreached(),
        }
    }

    /// Whether the command is currently in the favorites view.
    pub fn cmd_in_fav(&self, cmd: &str) -> (r: bool)
        requires
            self.loaded(),
        ensures
            r == self.commands_in(HistoryView::Favorites).contains(cmd@),
    {
        let owned = cmd.to_owned();
        match &self.commands {
            Some(table) => contains_entry(&table.favorites, &owned),
            None => unreached(),
        }
    }

    /// Remove every occurrence of the command from the raw history and from
    /// each view's current list. The snapshot table is rebuilt by the
    /// reload that follows a deletion.
    pub fn delete_from_history(&mut self, command: String)
        requires
            old(self).loaded(),
        ensures
            final(self).loaded(),
            forall|v: HistoryView| final(self).commands_in(v) == old(self).commands_in(v).filter(
                differs_from(command@),
            ),
            views_of(final(self).raw_history@) == views_of(old(self).raw_history@).filter(
                differs_from(command@),
            ),
            forall|v: HistoryView| final(self).restore_in(v) == old(self).restore_in(v),
            final(self).same_settings(*old(self)),
    {
        match &mut self.commands {
            Some(table) => {
                let sorted = remove_entry(&table.sorted, &command);
                table.sorted = sorted;
                let favorites = remove_entry(&table.favorites, &command);
                table.favorites = favorites;
                let all = remove_entry(&table.all, &command);
                table.all = all;
            },
            None => unreached(),
        }
        let raw = remove_entry(&self.raw_history, &command);
        self.raw_history = raw;
    }

    /// Flip case sensitivity; the caller re-runs the search.
    pub fn toggle_case(&mut self)
        ensures
            final(self).case_sensitivity == !old(self).case_sensitivity,
            final(self).regex_mode == old(self).regex_mode,
            final(self).search_string@ == old(self).search_string@,
            final(self).shell@ == old(self).shell@,
            final(self).view == old(self).view,
            final(self).commands == old(self).commands,
            final(self).to_restore == old(self).to_restore,
            final(self).raw_history@ == old(self).raw_history@,
    {
        self.case_sensitivity = !self.case_sensitivity;
    }

    /// Flip between literal and regex interpretation of the query; the
    /// caller re-runs the search.
    pub fn toggle_regex_mode(&mut self)
        ensures
            final(self).regex_mode == !old(self).regex_mode,
            final(self).case_sensitivity == old(self).case_sensitivity,
            final(self).search_string@ == old(self).search_string@,
            final(self).shell@ == old(self).shell@,
            final(self).view == old(self).view,
            final(self).commands == old(self).commands,
            final(self).to_restore == old(self).to_restore,
            final(self).raw_history@ == old(self).raw_history@,
    {
        self.regex_mode = !self.regex_mode;
    }

    /// Advance the active view one step along the cycle.
    pub fn toggle_view(&mut self)
        ensures
            final(self).view == spec_next_view(old(self).view),
            final(self).case_sensitivity == old(self).case_sensitivity,
            final(self).regex_mode == old(self).regex_mode,
            final(self).search_string@ == old(self).search_string@,
            final(self).shell@ == old(self).shell@,
            final(self).commands == old(self).commands,
            final(self).to_restore == old(self).to_restore,
            final(self).raw_history@ == old(self).raw_history@,
    {
        self.view = match self.view {
            HistoryView::Sorted => HistoryView::Favorites,
            HistoryView::Favorites => HistoryView::All,
            HistoryView::All => HistoryView::Sorted,
        };
    }
}

/// Toggling the same entry twice restores its Favorites membership, whatever
/// the list held before; when the entry was absent, the whole list comes
/// back unchanged.
/// Deletion is complete: a list filtered down to the entries that differ
/// from `e` no longer contains `e`. With [`Application::delete_from_history`]'s
/// contract, no view and not the raw history holds a deleted entry.
pub proof fn lemma_delete_removes_entry(s: Seq<Seq<char>>, e: Seq<char>)
    ensures
        !s.filter(differs_from(e)).contains(e),
{
    broadcast use vstd::seq_lib::group_filter_ensures;

    let pred = differs_from(e);
    if s.filter(pred).contains(e) {
        let i = choose|i: int| 0 <= i < s.filter(pred).len() && s.filter(pred)[i] == e;
        assert(pred(s.filter(pred)[i]));
    }
}

pub proof fn lemma_favorite_toggle_round_trip(favs: Seq<Seq<char>>, e: Seq<char>)
    ensures
        toggle_fav_spec(toggle_fav_spec(favs, e), e).contains(e) <==> favs.contains(e),
        !favs.contains(e) ==> toggle_fav_spec(toggle_fav_spec(favs, e), e) == favs,
{
    broadcast use vstd::seq_lib::group_filter_ensures;

    let pred = differs_from(e);
    let once = toggle_fav_spec(favs, e);
    let twice = toggle_fav_spec(once, e);
    if favs.contains(e) {
        assert(once == favs.filter(pred));
        assert(!once.contains(e)) by {
            if once.contains(e) {
                let i = choose|i: int| 0 <= i < once.len() && once[i] == e;
                assert(pred(favs.filter(pred)[i]));
            }
        }
        assert(twice == once.push(e));
        assert(twice[once.len() as int] == e);
        assert(twice.contains(e));
    } else {
        assert(once == favs.push(e));
        assert(once[favs.len() as int] == e);
        assert(once.contains(e));
        assert(twice == once.filter(pred));
        assert(!twice.contains(e)) by {
            if twice.contains(e) {
                let i = choose|i: int| 0 <= i < twice.len() && twice[i] == e;
                assert(pred(once.filter(pred)[i]));
            }
        }
        assert forall|k: int| 0 <= k < favs.len() implies pred(#[trigger] favs[k]) by {
            if favs[k] == e {
                assert(favs.contains(e));
            }
        }
        lemma_filter_all(favs, pred);
        assert(once.drop_last() =~= favs);
        assert(once.last() == e);
        assert(!pred(once.last()));
        reveal(Seq::filter);
        assert(once.filter(pred) == once.drop_last().filter(pred));
        assert(twice == favs);
    }
}

} // verus!
