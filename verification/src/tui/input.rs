//! What a key does: in the search it is typed into the query, otherwise it
//! switches tabs, moves a cursor, or asks for a plugin to be installed,
//! updated or removed.

use vstd::prelude::*;
use vstd::string::*;

use crate::inventory::{members, same_catalog};
use crate::state::{
    after_install, after_remove, after_update, available_shown, chosen, installed_shown,
    next_index, previous_index, State, StateView,
};
use crate::tui::WindowTab;

verus! {

/// The keys that the interface tells apart.
#[derive(Debug, Clone, Copy, PartialEq, Eq, Structural)]
pub enum Key {
    Char(char),
    Esc,
    Backspace,
    Enter,
    Other,
}

/// A key with the one modifier that matters.
#[derive(Debug, Clone, Copy, PartialEq, Eq, Structural)]
pub struct KeyPress {
    pub key: Key,
    /// Whether the control key, and no other modifier, was held.
    pub control: bool,
}

/// What the caller is to do after a key: nothing, leave, or run the
/// operation on the named plugin and report its outcome to the state.
#[derive(Debug, Clone, PartialEq, Eq)]
pub enum Action {
    Idle,
    Quit,
    Install(String),
    Update(String),
    Remove(String),
}

/// What an [`Action`] stands for in contracts.
pub enum ActionView {
    Idle,
    Quit,
    Install(Seq<char>),
    Update(Seq<char>),
    Remove(Seq<char>),
}

impl View for Action {
    type V = ActionView;

    open spec fn view(&self) -> ActionView {
        match self {
            Action::Idle => ActionView::Idle,
            Action::Quit => ActionView::Quit,
            Action::Install(id) => ActionView::Install(id@),
            Action::Update(id) => ActionView::Update(id@),
            Action::Remove(id) => ActionView::Remove(id@),
        }
    }
}

/// The state with another tab shown and both cursors at the top.
pub open spec fn on_tab(v: StateView, tab: WindowTab) -> StateView {
    StateView { tab, selected_available_plugin: 0, selected_installed_plugin: 0, ..v }
}

/// The state after a key in the search.
pub open spec fn after_search_key(v: StateView, press: KeyPress) -> StateView {
    match press.key {
        Key::Esc => StateView { search_mode: !v.search_mode, search_string: Seq::empty(), ..v },
        Key::Char(c) => StateView { search_string: v.search_string.push(c), ..v },
        Key::Backspace => StateView {
            search_string: if v.search_string.len() == 0 {
                v.search_string
            } else {
                v.search_string.drop_last()
            },
            ..v
        },
        Key::Enter => StateView {
            search_mode: !v.search_mode,
            selected_available_plugin: 0,
            selected_installed_plugin: 0,
            ..v
        },
        Key::Other => v,
    }
}

/// The state after a key that moves a cursor: `j` moves down and `k` up, in
/// the available list while that is browsed, else in the installed list.
/// Other keys move nothing.
pub open spec fn after_list_key(v: StateView, c: char) -> StateView {
    if c == 'j' && v.toggle_available_list {
        StateView {
            selected_available_plugin: next_index(
                v.selected_available_plugin,
                available_shown(v).len(),
            ),
            ..v
        }
    } else if c == 'j' {
        StateView {
            selected_installed_plugin: next_index(
                v.selected_installed_plugin,
                installed_shown(v).len(),
            ),
            ..v
        }
    } else if c == 'k' && v.toggle_available_list {
        StateView {
            selected_available_plugin: previous_index(
                v.selected_available_plugin,
                available_shown(v).len(),
            ),
            ..v
        }
    } else if c == 'k' {
        StateView {
            selected_installed_plugin: previous_index(
                v.selected_installed_plugin,
                installed_shown(v).len(),
            ),
            ..v
        }
    } else {
        v
    }
}

/// What a key asks for on the list that is browsed: `I` installs the
/// available plugin under the cursor; `U` and `X` update and remove the
/// installed plugin under the cursor.
pub open spec fn list_action(v: StateView, c: char) -> ActionView {
    if c == 'I' && v.toggle_available_list {
        match chosen(available_shown(v), v.selected_available_plugin) {
            Some(id) => ActionView::Install(id),
            None => ActionView::Idle,
        }
    } else if c == 'U' && !v.toggle_available_list {
        match chosen(installed_shown(v), v.selected_installed_plugin) {
            Some(id) => ActionView::Update(id),
            None => ActionView::Idle,
        }
    } else if c == 'X' && !v.toggle_available_list {
        match chosen(installed_shown(v), v.selected_installed_plugin) {
            Some(id) => ActionView::Remove(id),
            None => ActionView::Idle,
        }
    } else {
        ActionView::Idle
    }
}

/// The state after a key outside the search.
pub open spec fn after_normal_key(v: StateView, press: KeyPress) -> StateView {
    match press.key {
        Key::Char(c) => if c == 'q' {
            v
        } else if c == '1' {
            on_tab(v, WindowTab::All)
        } else if c == '2' {
            on_tab(v, WindowTab::Themes)
        } else if c == '3' {
            on_tab(v, WindowTab::StatusBar)
        } else if c == '4' {
            on_tab(v, WindowTab::Plugins)
        } else if c == 'o' && press.control && v.tab != WindowTab::All {
            StateView { toggle_available_list: !v.toggle_available_list, ..v }
        } else if c == '/' {
            StateView { search_string: Seq::empty(), search_mode: !v.search_mode, ..v }
        } else {
            after_list_key(v, c)
        },
        Key::Esc => StateView { search_string: Seq::empty(), ..v },
        _ => v,
    }
}

/// The state after a key.
pub open spec fn after_key(v: StateView, press: KeyPress) -> StateView {
    if v.search_mode {
        after_search_key(v, press)
    } else {
        after_normal_key(v, press)
    }
}

/// What a key asks the caller to do. In the search no key asks for
/// anything. Outside it `q` leaves, and the other keys ask what
/// [`list_action`] says.
pub open spec fn action_of(v: StateView, press: KeyPress) -> ActionView {
    if v.search_mode {
        ActionView::Idle
    } else {
        match press.key {
            Key::Char(c) => if c == 'q' {
                ActionView::Quit
            } else {
                list_action(v, c)
            },
            _ => ActionView::Idle,
        }
    }
}

/// Handles one key: changes the state as the key says and returns what the
/// caller is to do. The inventory is never touched here; it changes when the
/// caller reports the outcome of an operation.
pub fn handle_input(key: KeyPress, state: &mut State) -> (action: Action)
    ensures
        final(state)@ == after_key(old(state)@, key),
        action@ == action_of(old(state)@, key),
        final(state).inventory == old(state).inventory,
{
    if state.search_mode {
        handle_search_mode_input(key, state);
        Action::Idle
    } else {
        handle_normal_mode_input(key, state)
    }
}

fn handle_search_mode_input(key: KeyPress, state: &mut State)
    ensures
        final(state)@ == after_search_key(old(state)@, key),
        final(state).inventory == old(state).inventory,
{
    match key.key {
        Key::Esc => {
            state.toggle_search_mode();
            state.clear_search_string();
        },
        Key::Char(c) => {
            state.push_letter_to_search_string(c);
        },
        Key::Backspace => {
            state.pop_letter_from_search_string();
        },
        Key::Enter => {
            state.toggle_search_mode();
            state.reset_selected_installed_plugin();
            state.reset_selected_available_plugin();
        },
        Key::Other => {},
    }
}

fn handle_normal_mode_input(key: KeyPress, state: &mut State) -> (action: Action)
    requires
        !old(state).search_mode,
    ensures
        final(state)@ == after_normal_key(old(state)@, key),
        action@ == action_of(old(state)@, key),
        final(state).inventory == old(state).inventory,
{
    match key.key {
        Key::Char(c) => {
            if c == 'q' {
                return Action::Quit;
            }
            if c == '1' {
                switch_tab(state, WindowTab::All);
            } else if c == '2' {
                switch_tab(state, WindowTab::Themes);
            } else if c == '3' {
                switch_tab(state, WindowTab::StatusBar);
            } else if c == '4' {
                switch_tab(state, WindowTab::Plugins);
            } else if c == 'o' && key.control && state.tab != WindowTab::All {
                state.toggle_available();
            } else if c == '/' {
                state.clear_search_string();
                state.toggle_search_mode();
            } else if state.toggle_available_list {
                return install_actions(c, state);
            } else {
                return update_and_delete_actions(c, state);
            }
            Action::Idle
        },
        Key::Esc => {
            state.clear_search_string();
            Action::Idle
        },
        _ => Action::Idle,
    }
}

fn switch_tab(state: &mut State, tab: WindowTab)
    ensures
        final(state)@ == on_tab(old(state)@, tab),
        final(state).inventory == old(state).inventory,
{
    state.set_tab(tab);
    state.reset_selected_available_plugin();
    state.reset_selected_installed_plugin();
}

/// The keys that act on the available list.
fn install_actions(c: char, state: &mut State) -> (action: Action)
    requires
        old(state).toggle_available_list,
    ensures
        final(state)@ == after_list_key(old(state)@, c),
        action@ == list_action(old(state)@, c),
        final(state).inventory == old(state).inventory,
{
    if c == 'j' {
        state.next_available_plugin();
    } else if c == 'k' {
        state.previous_available_plugin();
    } else if c == 'I' {
        return match state.selected_available() {
            Some(id) => Action::Install(id),
            None => Action::Idle,
        };
    }
    Action::Idle
}

/// The keys that act on the installed list.
fn update_and_delete_actions(c: char, state: &mut State) -> (action: Action)
    requires
        !old(state).toggle_available_list,
    ensures
        final(state)@ == after_list_key(old(state)@, c),
        action@ == list_action(old(state)@, c),
        final(state).inventory == old(state).inventory,
{
    if c == 'j' {
        state.next_installed_plugin();
    } else if c == 'k' {
        state.previous_installed_plugin();
    } else if c == 'U' {
        return match state.selected_installed() {
            Some(id) => Action::Update(id),
            None => Action::Idle,
        };
    } else if c == 'X' {
        return match state.selected_installed() {
            Some(id) => Action::Remove(id),
            None => Action::Idle,
        };
    }
    Action::Idle
}

/// What the caller is to do once an operation has been carried out.
#[derive(Debug, Clone, Copy, PartialEq, Eq, Structural)]
pub struct Effects {
    /// Write the list of installed plugins anew.
    pub persist: bool,
    /// Run the scripts of the installed plugins again.
    pub activate: bool,
}

/// Whether an operation counts: it succeeded, and the tab that is shown
/// lists its plugin where the operation needs it, among the available
/// plugins for an installation and among the installed ones for an update
/// or a removal.
pub open spec fn counts(v: StateView, action: ActionView, succeeded: bool) -> bool {
    succeeded && match action {
        ActionView::Install(id) => members(v.inventory, v.tab, false).contains(id),
        ActionView::Update(id) => members(v.inventory, v.tab, true).contains(id),
        ActionView::Remove(id) => members(v.inventory, v.tab, true).contains(id),
        _ => false,
    }
}

/// The state after an operation has been carried out: after one that
/// counts, the plugin has moved or is up to date; after any other, the state
/// is as it was.
pub open spec fn completed(v: StateView, action: ActionView, succeeded: bool) -> StateView {
    if !counts(v, action, succeeded) {
        v
    } else {
        match action {
            ActionView::Install(id) => after_install(v, id),
            ActionView::Update(id) => after_update(v, id),
            ActionView::Remove(id) => after_remove(v, id),
            _ => v,
        }
    }
}

/// What follows an operation: after one that counts the scripts of the
/// plugins are run again, and the list of installed plugins is written anew
/// if the operation changed it, which an installation and a removal do and
/// an update does not. After an operation that does not count nothing
/// follows.
pub open spec fn effects_of(v: StateView, action: ActionView, succeeded: bool) -> Effects {
    Effects {
        persist: counts(v, action, succeeded) && (action is Install || action is Remove),
        activate: counts(v, action, succeeded),
    }
}

/// Records the outcome of the operation that an action asked for, and
/// returns what the caller is to do next.
pub fn complete(action: &Action, succeeded: bool, state: &mut State) -> (effects: Effects)
    ensures
        old(state).wf() ==> final(state).wf(),
        same_catalog(old(state)@.inventory, final(state)@.inventory),
        final(state)@ == completed(old(state)@, action@, succeeded),
        effects == effects_of(old(state)@, action@, succeeded),
{
    let done = match action {
        Action::Install(id) => succeeded && state.move_plugin_to_installed(id.as_str()),
        Action::Update(id) => {
            let tab = state.tab;
            state.inventory.update(tab, id.as_str(), succeeded).is_ok()
        },
        Action::Remove(id) => succeeded && state.move_plugin_to_available(id.as_str()),
        _ => false,
    };
    let persist = done && match action {
        Action::Install(_) => true,
        Action::Remove(_) => true,
        _ => false,
    };
    Effects { persist, activate: done }
}

/// In the search every character is typed into the query, `q` too, and no
/// key leaves the program or touches the inventory; escape empties the query
/// and ends the search.
pub proof fn lemma_search_mode_swallows_keys(v: StateView, press: KeyPress)
    requires
        v.search_mode,
    ensures
        action_of(v, press) == ActionView::Idle,
        after_key(v, press).inventory == v.inventory,
        press.key matches Key::Char(c) ==> after_key(v, press) == (StateView {
            search_string: v.search_string.push(c),
            ..v
        }),
        press.key == Key::Esc ==> after_key(v, press) == (StateView {
            search_string: Seq::empty(),
            search_mode: false,
            ..v
        }),
{
}

} // verus!
