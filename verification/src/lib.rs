//! Interactive shell-history browser core: ranking, views, search and
//! pagination over a command-history list.
//!
//! The crate keeps an in-memory model of the history across three views
//! (ranked, favorites, chronological), filters the active view with a
//! literal or regex query, and drives a page/selection cursor that a
//! terminal front end renders.

pub mod app;
pub mod entries;
pub mod events;
pub mod format;
pub mod rank;
pub mod search;
pub mod ui;
pub mod zsh;

pub use app::{Application, HistoryView, InvalidPatternError, ViewTable};
pub use ui::{Page, UserInterface};
