//! The text fragments the renderer composes into the status and prompt
//! bars. The renderer pads and paints them; the words themselves are fixed
//! here.

use vstd::prelude::*;
use vstd::string::StringExecFns;
use crate::app::HistoryView;

verus! {

/// The label of a view as the status bar shows it.
pub fn view(value: HistoryView) -> (r: String)
    ensures
        r@ == match value {
            HistoryView::Sorted => "sorted"@,
            HistoryView::Favorites => "favorites"@,
            HistoryView::All => "all"@,
        },
{
    match value {
        HistoryView::Sorted => "sorted".to_owned(),
        HistoryView::Favorites => "favorites".to_owned(),
        HistoryView::All => "all".to_owned(),
    }
}

/// The label of the regex-mode flag.
pub fn regex_mode(value: bool) -> (r: String)
    ensures
        r@ == if value {
            "on"@
        } else {
            "off"@
        },
{
    if value {
        "on".to_owned()
    } else {
        "off".to_owned()
    }
}

/// The label of the case-sensitivity flag.
pub fn case(value: bool) -> (r: String)
    ensures
        r@ == if value {
            "sensitive"@
        } else {
            "insensitive"@
        },
{
    if value {
        "sensitive".to_owned()
    } else {
        "insensitive".to_owned()
    }
}

/// The top bar: the shell prompt, a space, and the search string as typed.
pub fn top_bar(prompt: &str, search_string: &str) -> (r: String)
    ensures
        r@ == prompt@ + " "@ + search_string@,
{
    let mut r = prompt.to_owned();
    r.append(" ");
    r.append(search_string);
    r
}

/// The question shown before a deletion.
pub fn deletion_prompt(command: &str) -> (r: String)
    ensures
        r@ == "Do you want to delete all occurences of "@ + command@ + "? y/n"@,
{
    let mut r = "Do you want to delete all occurences of ".to_owned();
    r.append(command);
    r.append("? y/n");
    r
}

} // verus!
