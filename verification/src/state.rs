//! The state of the interface: the inventory, the tab that is shown, the two
//! cursors, and the search.

use vstd::prelude::*;
use vstd::string::*;

use crate::catalog::{Catalog, Category};
use crate::inventory::{
    available_set, catalog_set, installed_set, classified, installed_by, lemma_listing_members, listing, members, removed_by,
    moved, recorded, same_catalog, same_standing, scan_views, with_revision, EntryView, InstallError, Inventory, RemoveError,
    UpdateError,
};
use crate::search::{lemma_search_hits, search};
use crate::tui::WindowTab;
use crate::utils::{flattened, format_plugin_dir_name, texts};

verus! {

/// Everything that the interface shows and that keys change.
#[derive(Debug, Clone)]
pub struct State {
    /// The tab that is shown.
    pub tab: WindowTab,
    /// The cursor in the available list.
    pub selected_available_plugin: usize,
    /// The cursor in the installed list.
    pub selected_installed_plugin: usize,
    /// Whether the keys act on the available list rather than on the
    /// installed one.
    pub toggle_available_list: bool,
    /// Whether keys are typed into the query.
    pub search_mode: bool,
    /// The query; empty where nothing is searched for.
    pub search_string: String,
    /// The plugins.
    pub inventory: Inventory,
}

/// What a [`State`] stands for in contracts.
pub struct StateView {
    pub tab: WindowTab,
    pub selected_available_plugin: usize,
    pub selected_installed_plugin: usize,
    pub toggle_available_list: bool,
    pub search_mode: bool,
    pub search_string: Seq<char>,
    pub inventory: Seq<EntryView>,
}

impl View for State {
    type V = StateView;

    open spec fn view(&self) -> StateView {
        StateView {
            tab: self.tab,
            selected_available_plugin: self.selected_available_plugin,
            selected_installed_plugin: self.selected_installed_plugin,
            toggle_available_list: self.toggle_available_list,
            search_mode: self.search_mode,
            search_string: self.search_string@,
            inventory: self.inventory@,
        }
    }
}

/// The installed list as the state shows it.
pub open spec fn installed_shown(v: StateView) -> Seq<Seq<char>> {
    search(listing(v.inventory, v.tab, true), v.search_string)
}

/// The available list as the state shows it.
pub open spec fn available_shown(v: StateView) -> Seq<Seq<char>> {
    search(listing(v.inventory, v.tab, false), v.search_string)
}

/// The cursor one step further down a list of `len` items; it stops at the
/// last item. In an empty list it stays where it is.
pub open spec fn next_index(index: usize, len: nat) -> usize {
    if len == 0 {
        index
    } else if index + 1 < len {
        (index + 1) as usize
    } else {
        (len - 1) as usize
    }
}

/// The cursor one step further up a list of `len` items; it stops at the
/// first item. In an empty list it goes one step towards the top.
pub open spec fn previous_index(index: usize, len: nat) -> usize {
    if index == 0 {
        0
    } else if len == 0 || index - 1 < len {
        (index - 1) as usize
    } else {
        (len - 1) as usize
    }
}

/// The cursor brought back into a list of `len` items.
pub open spec fn clamped_index(index: usize, len: nat) -> usize {
    if index < len {
        index
    } else if len == 0 {
        0
    } else {
        (len - 1) as usize
    }
}

/// The item under the cursor, if the cursor is within the list.
pub open spec fn chosen(list: Seq<Seq<char>>, index: usize) -> Option<Seq<char>> {
    if index < list.len() {
        Some(list[index as int])
    } else {
        None
    }
}

/// The state after the plugin `id` has moved to the installed ones: the
/// cursor of the available list is brought back into the list, which has
/// become shorter.
pub open spec fn after_install(v: StateView, id: Seq<char>) -> StateView {
    let moved = StateView { inventory: moved(v.inventory, v.tab, id, true), ..v };
    StateView {
        selected_available_plugin: clamped_index(
            v.selected_available_plugin,
            available_shown(moved).len(),
        ),
        ..moved
    }
}

/// The state after the plugin `id` has moved to the available ones: the
/// cursor of the installed list is brought back into the list, which has
/// become shorter.
pub open spec fn after_remove(v: StateView, id: Seq<char>) -> StateView {
    let moved = StateView { inventory: moved(v.inventory, v.tab, id, false), ..v };
    StateView {
        selected_installed_plugin: clamped_index(
            v.selected_installed_plugin,
            installed_shown(moved).len(),
        ),
        ..moved
    }
}

/// The state after a pull of the plugin `id` has succeeded.
pub open spec fn after_update(v: StateView, id: Seq<char>) -> StateView {
    StateView { inventory: with_revision(v.inventory, id, Seq::empty()), ..v }
}

/// An identifier that a tab shows belongs to the list that is shown.
pub proof fn lemma_shown_is_member(v: StateView, installed: bool, index: usize)
    requires
        chosen(
            if installed {
                installed_shown(v)
            } else {
                available_shown(v)
            },
            index,
        ) is Some,
    ensures
        members(v.inventory, v.tab, installed).contains(
            chosen(
                if installed {
                    installed_shown(v)
                } else {
                    available_shown(v)
                },
                index,
            )->0,
        ),
{
    let list = listing(v.inventory, v.tab, installed);
    let shown = search(list, v.search_string);
    let id = shown[index as int];
    assert(shown.contains(id));
    lemma_search_hits(list, v.search_string, id);
    lemma_listing_members(v.inventory, v.tab, installed);
    assert(list.to_set().contains(id));
}

/// A step never takes the cursor out of a list that has items, and it does
/// not wrap: down from the last item and up from the first, the cursor
/// stays.
pub proof fn lemma_cursor_stays_in_list(index: usize, len: nat)
    requires
        0 < len <= usize::MAX,
    ensures
        next_index(index, len) < len,
        previous_index(index, len) < len,
        clamped_index(index, len) < len,
        index < len ==> next_index(index, len) >= index && previous_index(index, len) <= index,
        index == len - 1 ==> next_index(index, len) == index,
        index == 0 ==> previous_index(index, len) == 0,
        index < len ==> clamped_index(index, len) == index,
{
}

/// The item of a list under a cursor.
fn pick(list: &Vec<String>, index: usize) -> (item: Option<String>)
    ensures
        item is Some <==> chosen(texts(list@), index) is Some,
        item matches Some(id) ==> chosen(texts(list@), index) == Some(id@),
{
    if index < list.len() {
        Some(list[index].clone())
    } else {
        None
    }
}

fn step_down(index: usize, len: usize) -> (next: usize)
    ensures
        next == next_index(index, len as nat),
{
    if len == 0 {
        index
    } else if index < len - 1 {
        index + 1
    } else {
        len - 1
    }
}

fn step_up(index: usize, len: usize) -> (previous: usize)
    ensures
        previous == previous_index(index, len as nat),
{
    if index == 0 {
        0
    } else if len == 0 || index - 1 < len {
        index - 1
    } else {
        len - 1
    }
}

fn clamp(index: usize, len: usize) -> (clamped: usize)
    ensures
        clamped == clamped_index(index, len as nat),
{
    if index < len {
        index
    } else if len == 0 {
        0
    } else {
        len - 1
    }
}

impl State {
    /// The invariant of the state: that of its inventory.
    pub open spec fn wf(&self) -> bool {
        self.inventory.wf()
    }

    /// The state at start: the inventory built from the catalog and the
    /// persisted list, the tab of all installed plugins, both cursors at the
    /// top, no search.
    pub fn default(catalog: &Catalog, persisted: &Vec<String>) -> (state: State)
        ensures
            state.wf(),
            state@ == (StateView {
                tab: WindowTab::All,
                selected_available_plugin: 0,
                selected_installed_plugin: 0,
                toggle_available_list: false,
                search_mode: false,
                search_string: Seq::empty(),
                inventory: state@.inventory,
            }),
            forall|category: Category| #[trigger]
                catalog_set(state@.inventory, category) == catalog.listed(category),
            forall|category: Category|
                installed_set(state@.inventory, category).union(
                    #[trigger] available_set(state@.inventory, category),
                ) == catalog.listed(category),
            forall|category: Category|
                installed_set(state@.inventory, category).disjoint(
                    #[trigger] available_set(state@.inventory, category),
                ),
            forall|k: int|
                0 <= k < state@.inventory.len() ==> classified(
                    #[trigger] state@.inventory[k],
                    persisted@,
                ),
    {
        State {
            tab: WindowTab::All,
            selected_available_plugin: 0,
            selected_installed_plugin: 0,
            toggle_available_list: false,
            search_mode: false,
            search_string: String::new(),
            inventory: Inventory::new(catalog, persisted),
        }
    }

    /// The installed plugins that the tab shows for the query.
    pub fn get_installed_plugins(&self) -> (ids: Vec<String>)
        ensures
            texts(ids@) == installed_shown(self@),
            ids@.len() == installed_shown(self@).len(),
    {
        let ids = self.inventory.installed_view(self.tab, self.search_string.as_str());
        assert(texts(ids@).len() == ids@.len());
        ids
    }

    /// The plugins that the tab offers for the query; none under the tab of
    /// all installed plugins.
    pub fn get_available_plugins(&self) -> (ids: Vec<String>)
        ensures
            texts(ids@) == available_shown(self@),
            ids@.len() == available_shown(self@).len(),
            self.tab == WindowTab::All ==> ids@.len() == 0,
    {
        let ids = self.inventory.available_view(self.tab, self.search_string.as_str());
        assert(texts(ids@).len() == ids@.len());
        ids
    }

    /// Shows another tab.
    pub fn set_tab(&mut self, tab: WindowTab)
        ensures
            final(self)@ == (StateView { tab, ..old(self)@ }),
            final(self).inventory == old(self).inventory,
    {
        self.tab = tab;
    }

    /// Switches between the installed and the available list.
    pub fn toggle_available(&mut self)
        ensures
            final(self)@ == (StateView {
                toggle_available_list: !old(self)@.toggle_available_list,
                ..old(self)@
            }),
            final(self).inventory == old(self).inventory,
    {
        self.toggle_available_list = !self.toggle_available_list
    }

    /// Moves the cursor of the available list down by one; at the last item,
    /// and in an empty list, it stays.
    pub fn next_available_plugin(&mut self)
        ensures
            final(self)@ == (StateView {
                selected_available_plugin: next_index(
                    old(self)@.selected_available_plugin,
                    available_shown(old(self)@).len(),
                ),
                ..old(self)@
            }),
            final(self).inventory == old(self).inventory,
    {
        let n = self.get_available_plugins().len();
        self.selected_available_plugin = step_down(self.selected_available_plugin, n);
    }

    /// Moves the cursor of the available list up by one; at the first item
    /// it stays.
    pub fn previous_available_plugin(&mut self)
        ensures
            final(self)@ == (StateView {
                selected_available_plugin: previous_index(
                    old(self)@.selected_available_plugin,
                    available_shown(old(self)@).len(),
                ),
                ..old(self)@
            }),
            final(self).inventory == old(self).inventory,
    {
        let n = self.get_available_plugins().len();
        self.selected_available_plugin = step_up(self.selected_available_plugin, n);
    }

    /// Moves the cursor of the installed list down by one; at the last item,
    /// and in an empty list, it stays.
    pub fn next_installed_plugin(&mut self)
        ensures
            final(self)@ == (StateView {
                selected_installed_plugin: next_index(
                    old(self)@.selected_installed_plugin,
                    installed_shown(old(self)@).len(),
                ),
                ..old(self)@
            }),
            final(self).inventory == old(self).inventory,
    {
        let n = self.get_installed_plugins().len();
        self.selected_installed_plugin = step_down(self.selected_installed_plugin, n);
    }

    /// Moves the cursor of the installed list up by one; at the first item
    /// it stays.
    pub fn previous_installed_plugin(&mut self)
        ensures
            final(self)@ == (StateView {
                selected_installed_plugin: previous_index(
                    old(self)@.selected_installed_plugin,
                    installed_shown(old(self)@).len(),
                ),
                ..old(self)@
            }),
            final(self).inventory == old(self).inventory,
    {
        let n = self.get_installed_plugins().len();
        self.selected_installed_plugin = step_up(self.selected_installed_plugin, n);
    }

    /// Puts the cursor of the available list at the top.
    pub fn reset_selected_available_plugin(&mut self)
        ensures
            final(self)@ == (StateView { selected_available_plugin: 0, ..old(self)@ }),
            final(self).inventory == old(self).inventory,
    {
        self.selected_available_plugin = 0;
    }

    /// Puts the cursor of the installed list at the top.
    pub fn reset_selected_installed_plugin(&mut self)
        ensures
            final(self)@ == (StateView { selected_installed_plugin: 0, ..old(self)@ }),
            final(self).inventory == old(self).inventory,
    {
        self.selected_installed_plugin = 0;
    }

    /// Enters or leaves the search.
    pub fn toggle_search_mode(&mut self)
        ensures
            final(self)@ == (StateView { search_mode: !old(self)@.search_mode, ..old(self)@ }),
            final(self).inventory == old(self).inventory,
    {
        self.search_mode = !self.search_mode;
    }

    /// Empties the query.
    pub fn clear_search_string(&mut self)
        ensures
            final(self)@ == (StateView { search_string: Seq::empty(), ..old(self)@ }),
            final(self).inventory == old(self).inventory,
    {
        self.search_string = String::new();
    }

    /// Appends a character to the query.
    pub fn push_letter_to_search_string(&mut self, letter: char)
        ensures
            final(self)@ == (StateView {
                search_string: old(self)@.search_string.push(letter),
                ..old(self)@
            }),
            final(self).inventory == old(self).inventory,
    {
        self.search_string.push(letter);
    }

    /// Takes the last character off the query; an empty query stays empty.
    pub fn pop_letter_from_search_string(&mut self)
        ensures
            final(self)@ == (StateView {
                search_string: if old(self)@.search_string.len() == 0 {
                    old(self)@.search_string
                } else {
                    old(self)@.search_string.drop_last()
                },
                ..old(self)@
            }),
            final(self).inventory == old(self).inventory,
    {
        let _ = self.search_string.pop();
    }

    /// The installed plugin under the cursor.
    pub fn selected_installed(&self) -> (id: Option<String>)
        ensures
            id is Some <==> chosen(installed_shown(self@), self@.selected_installed_plugin) is Some,
            id matches Some(s) ==> chosen(installed_shown(self@), self@.selected_installed_plugin)
                == Some(s@),
    {
        let list = self.get_installed_plugins();
        pick(&list, self.selected_installed_plugin)
    }

    /// The available plugin under the cursor.
    pub fn selected_available(&self) -> (id: Option<String>)
        ensures
            id is Some <==> chosen(available_shown(self@), self@.selected_available_plugin) is Some,
            id matches Some(s) ==> chosen(available_shown(self@), self@.selected_available_plugin)
                == Some(s@),
    {
        let list = self.get_available_plugins();
        pick(&list, self.selected_available_plugin)
    }

    /// The name of the directory that holds the installed plugin under the
    /// cursor.
    pub fn get_installed_plugin_dir_name(&self) -> (name: Option<String>)
        ensures
            name is Some <==> chosen(installed_shown(self@), self@.selected_installed_plugin)
                is Some,
            name matches Some(s) ==> s@ == flattened(
                chosen(installed_shown(self@), self@.selected_installed_plugin)->0,
            ),
    {
        match self.selected_installed() {
            Some(id) => Some(format_plugin_dir_name(id.as_str())),
            None => None,
        }
    }

    /// Moves a plugin that the tab offers to the installed ones. Returns
    /// whether the tab offered it; if not, nothing changes.
    pub fn move_plugin_to_installed(&mut self, plugin: &str) -> (moved: bool)
        ensures
            old(self).wf() ==> final(self).wf(),
            same_catalog(old(self)@.inventory, final(self)@.inventory),
            moved == members(old(self)@.inventory, old(self)@.tab, false).contains(plugin@),
            moved ==> final(self)@ == after_install(old(self)@, plugin@),
            moved ==> installed_by(
                old(self)@.inventory,
                final(self)@.inventory,
                old(self)@.tab,
                plugin@,
            ),
            !moved ==> final(self)@ == old(self)@,
    {
        match self.inventory.install(self.tab, plugin, true) {
            Ok(()) => {
                let n = self.get_available_plugins().len();
                self.selected_available_plugin = clamp(self.selected_available_plugin, n);
                true
            },
            Err(_) => false,
        }
    }

    /// Moves a plugin that the tab lists as installed to the available
    /// ones. Returns whether the tab listed it; if not, nothing changes.
    pub fn move_plugin_to_available(&mut self, plugin: &str) -> (moved: bool)
        ensures
            old(self).wf() ==> final(self).wf(),
            same_catalog(old(self)@.inventory, final(self)@.inventory),
            moved == members(old(self)@.inventory, old(self)@.tab, true).contains(plugin@),
            moved ==> final(self)@ == after_remove(old(self)@, plugin@),
            moved ==> removed_by(
                old(self)@.inventory,
                final(self)@.inventory,
                old(self)@.tab,
                plugin@,
            ),
            !moved ==> final(self)@ == old(self)@,
    {
        match self.inventory.remove(self.tab, plugin, true) {
            Ok(()) => {
                let n = self.get_installed_plugins().len();
                self.selected_installed_plugin = clamp(self.selected_installed_plugin, n);
                true
            },
            Err(_) => false,
        }
    }

    /// Records the outcome of cloning the available plugin under the
    /// cursor: after a clone that succeeded the plugin is installed, after
    /// one that failed nothing changes.
    pub fn install_plugin(&mut self, cloned: bool) -> (result: Result<(), InstallError>)
        ensures
            old(self).wf() ==> final(self).wf(),
            same_catalog(old(self)@.inventory, final(self)@.inventory),
            match result {
                Ok(()) => cloned && chosen(
                    available_shown(old(self)@),
                    old(self)@.selected_available_plugin,
                ) is Some && final(self)@ == after_install(
                    old(self)@,
                    chosen(available_shown(old(self)@), old(self)@.selected_available_plugin)->0,
                ),
                Err(InstallError::NotAvailable) => chosen(
                    available_shown(old(self)@),
                    old(self)@.selected_available_plugin,
                ) is None && final(self)@ == old(self)@,
                Err(InstallError::CloneFailed) => !cloned && chosen(
                    available_shown(old(self)@),
                    old(self)@.selected_available_plugin,
                ) is Some && final(self)@ == old(self)@,
            },
    {
        match self.selected_available() {
            None => Err(InstallError::NotAvailable),
            Some(id) => {
                if !cloned {
                    return Err(InstallError::CloneFailed);
                }
                proof {
                    lemma_shown_is_member(self@, false, self.selected_available_plugin);
                }
                let moved = self.move_plugin_to_installed(id.as_str());
                assert(moved);
                Ok(())
            },
        }
    }

    /// Records the outcome of pulling the installed plugin under the
    /// cursor: after a pull that succeeded the plugin is up to date, after
    /// one that failed nothing changes.
    pub fn update_plugin(&mut self, pulled: bool) -> (result: Result<(), UpdateError>)
        ensures
            old(self).wf() ==> final(self).wf(),
            same_standing(old(self)@.inventory, final(self)@.inventory),
            match result {
                Ok(()) => pulled && chosen(
                    installed_shown(old(self)@),
                    old(self)@.selected_installed_plugin,
                ) is Some && final(self)@ == after_update(
                    old(self)@,
                    chosen(installed_shown(old(self)@), old(self)@.selected_installed_plugin)->0,
                ),
                Err(UpdateError::NotInstalled) => chosen(
                    installed_shown(old(self)@),
                    old(self)@.selected_installed_plugin,
                ) is None && final(self)@ == old(self)@,
                Err(UpdateError::PullFailed) => !pulled && chosen(
                    installed_shown(old(self)@),
                    old(self)@.selected_installed_plugin,
                ) is Some && final(self)@ == old(self)@,
            },
    {
        match self.selected_installed() {
            None => Err(UpdateError::NotInstalled),
            Some(id) => {
                proof {
                    lemma_shown_is_member(self@, true, self.selected_installed_plugin);
                }
                self.inventory.update(self.tab, id.as_str(), pulled)
            },
        }
    }

    /// Records the outcome of deleting the directory of the installed
    /// plugin under the cursor: after a deletion that succeeded the plugin
    /// is available again, after one that failed nothing changes.
    pub fn remove_plugin(&mut self, removed: bool) -> (result: Result<(), RemoveError>)
        ensures
            old(self).wf() ==> final(self).wf(),
            same_catalog(old(self)@.inventory, final(self)@.inventory),
            match result {
                Ok(()) => removed && chosen(
                    installed_shown(old(self)@),
                    old(self)@.selected_installed_plugin,
                ) is Some && final(self)@ == after_remove(
                    old(self)@,
                    chosen(installed_shown(old(self)@), old(self)@.selected_installed_plugin)->0,
                ),
                Err(RemoveError::NotInstalled) => chosen(
                    installed_shown(old(self)@),
                    old(self)@.selected_installed_plugin,
                ) is None && final(self)@ == old(self)@,
                Err(RemoveError::RemoveFailed) => !removed && chosen(
                    installed_shown(old(self)@),
                    old(self)@.selected_installed_plugin,
                ) is Some && final(self)@ == old(self)@,
            },
    {
        match self.selected_installed() {
            None => Err(RemoveError::NotInstalled),
            Some(id) => {
                if !removed {
                    return Err(RemoveError::RemoveFailed);
                }
                proof {
                    lemma_shown_is_member(self@, true, self.selected_installed_plugin);
                }
                let moved = self.move_plugin_to_available(id.as_str());
                assert(moved);
                Ok(())
            },
        }
    }

    /// Records what a scan for newer remote revisions found, each result an
    /// identifier with the revision found for it. Only the recorded
    /// revisions change.
    pub fn check_for_plugin_updated(&mut self, results: &Vec<(String, String)>)
        ensures
            old(self).wf() ==> final(self).wf(),
            same_standing(old(self)@.inventory, final(self)@.inventory),
            final(self)@ == (StateView {
                inventory: recorded(old(self)@.inventory, scan_views(results@)),
                ..old(self)@
            }),
    {
        self.inventory.record_scan(results);
    }
}

} // verus!
