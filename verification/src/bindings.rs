//! The key bindings that the interface lists, by what the state allows.

use vstd::prelude::*;
use vstd::string::*;

use crate::state::{State, StateView};
use crate::tui::WindowTab;

verus! {

/// What a key can be bound to.
#[derive(Debug, Clone, Copy, PartialEq, Eq, Structural)]
pub enum Binding {
    Quit,
    ToggleInstalled,
    ToggleAvailable,
    Next,
    Previous,
    Install,
    Update,
    Delete,
    Search,
    ExitSearch,
    FindSearch,
    ClearSearch,
}

impl Binding {
    /// The key of the binding, as the interface writes it.
    pub open spec fn key_text(self) -> Seq<char> {
        match self {
            Binding::Quit => "q"@,
            Binding::ToggleInstalled => "C-o"@,
            Binding::ToggleAvailable => "C-o"@,
            Binding::Next => "j"@,
            Binding::Previous => "k"@,
            Binding::Install => "I"@,
            Binding::Update => "U"@,
            Binding::Delete => "X"@,
            Binding::Search => "/"@,
            Binding::ExitSearch => "esc"@,
            Binding::FindSearch => "enter"@,
            Binding::ClearSearch => "esc"@,
        }
    }

    /// What the binding does, in words.
    pub open spec fn description(self) -> Seq<char> {
        match self {
            Binding::Quit => "quit"@,
            Binding::ToggleInstalled => "toggle installed"@,
            Binding::ToggleAvailable => "toggle available"@,
            Binding::Next => "next"@,
            Binding::Previous => "previous"@,
            Binding::Install => "install"@,
            Binding::Update => "update"@,
            Binding::Delete => "delete"@,
            Binding::Search => "search"@,
            Binding::ExitSearch => "exit search"@,
            Binding::FindSearch => "confirm"@,
            Binding::ClearSearch => "clear search"@,
        }
    }

    /// The key of the binding, as the interface writes it.
    pub fn key(&self) -> (text: String)
        ensures
            text@ == self.key_text(),
    {
        match self {
            Self::Quit => "q".to_owned(),
            Self::ToggleInstalled => "C-o".to_owned(),
            Self::ToggleAvailable => "C-o".to_owned(),
            Self::Next => "j".to_owned(),
            Self::Previous => "k".to_owned(),
            Self::Install => "I".to_owned(),
            Self::Update => "U".to_owned(),
            Self::Delete => "X".to_owned(),
            Self::Search => "/".to_owned(),
            Self::ExitSearch => "esc".to_owned(),
            Self::FindSearch => "enter".to_owned(),
            Self::ClearSearch => "esc".to_owned(),
        }
    }

    /// What the binding does, in words.
    pub fn repr(&self) -> (text: String)
        ensures
            text@ == self.description(),
    {
        match self {
            Self::Quit => "quit".to_owned(),
            Self::ToggleInstalled => "toggle installed".to_owned(),
            Self::ToggleAvailable => "toggle available".to_owned(),
            Self::Next => "next".to_owned(),
            Self::Previous => "previous".to_owned(),
            Self::Install => "install".to_owned(),
            Self::Update => "update".to_owned(),
            Self::Delete => "delete".to_owned(),
            Self::Search => "search".to_owned(),
            Self::ExitSearch => "exit search".to_owned(),
            Self::FindSearch => "confirm".to_owned(),
            Self::ClearSearch => "clear search".to_owned(),
        }
    }
}

/// The bindings outside the search, without the one that clears the query.
pub open spec fn browsing(tab: WindowTab, toggle_available_list: bool) -> Seq<Binding> {
    if tab == WindowTab::All {
        seq![
            Binding::Quit,
            Binding::Next,
            Binding::Previous,
            Binding::Search,
            Binding::Update,
            Binding::Delete,
        ]
    } else if toggle_available_list {
        seq![
            Binding::Quit,
            Binding::Next,
            Binding::Previous,
            Binding::Search,
            Binding::ToggleInstalled,
            Binding::Install,
        ]
    } else {
        seq![
            Binding::Quit,
            Binding::Next,
            Binding::Previous,
            Binding::Search,
            Binding::ToggleAvailable,
            Binding::Update,
            Binding::Delete,
        ]
    }
}

/// The bindings that a state offers. In the search these are the two that
/// end it. Outside, they go by tab and list, and clearing the query is
/// offered while there is a query.
pub open spec fn offered(v: StateView) -> Seq<Binding> {
    if v.search_mode {
        seq![Binding::ExitSearch, Binding::FindSearch]
    } else if v.search_string.len() > 0 {
        browsing(v.tab, v.toggle_available_list).push(Binding::ClearSearch)
    } else {
        browsing(v.tab, v.toggle_available_list)
    }
}

/// The bindings to list for a state.
pub fn get(state: &State) -> (bindings: Vec<Binding>)
    ensures
        bindings@ == offered(state@),
{
    if state.search_mode {
        return vec![Binding::ExitSearch, Binding::FindSearch];
    }
    let mut bindings = if state.tab == WindowTab::All {
        vec![
            Binding::Quit,
            Binding::Next,
            Binding::Previous,
            Binding::Search,
            Binding::Update,
            Binding::Delete,
        ]
    } else if state.toggle_available_list {
        vec![
            Binding::Quit,
            Binding::Next,
            Binding::Previous,
            Binding::Search,
            Binding::ToggleInstalled,
            Binding::Install,
        ]
    } else {
        vec![
            Binding::Quit,
            Binding::Next,
            Binding::Previous,
            Binding::Search,
            Binding::ToggleAvailable,
            Binding::Update,
            Binding::Delete,
        ]
    };
    if !state.search_string.as_str().is_empty() {
        bindings.push(Binding::ClearSearch);
    }
    bindings
}

} // verus!
