//! The inventory: every plugin of the catalog under each category that lists
//! it, with whether it is installed there. The installed and the available
//! plugins of a category, and the list of all installed plugins, are read off
//! this one list, so they cannot drift apart.

use vstd::prelude::*;
use vstd::string::*;

use crate::catalog::{names, Catalog, Category};
use crate::plugins::{Plugin, PluginView};
use crate::search::{match_score, search, search_list};
use crate::tui::WindowTab;
use crate::utils::{
    lemma_lex_irreflexive, lemma_lex_total, lemma_lex_transitive, lex_lt, str_eq, str_lt, texts,
};

verus! {

/// One plugin of the catalog under one category, as the inventory keeps it.
#[derive(Debug, Clone)]
pub struct Entry {
    pub plugin: Plugin,
    pub category: Category,
    pub installed: bool,
}

/// What an [`Entry`] stands for in contracts.
pub struct EntryView {
    pub plugin: PluginView,
    pub category: Category,
    pub installed: bool,
}

impl View for Entry {
    type V = EntryView;

    open spec fn view(&self) -> EntryView {
        EntryView { plugin: self.plugin@, category: self.category, installed: self.installed }
    }
}

/// The entries of a list, each by its view.
pub open spec fn views(entries: Seq<Entry>) -> Seq<EntryView> {
    entries.map_values(|e: Entry| e@)
}

/// The order of the entries: by identifier, and under the same identifier by
/// category.
pub open spec fn precedes(a: EntryView, b: EntryView) -> bool {
    lex_lt(a.plugin.path, b.plugin.path) || (a.plugin.path == b.plugin.path && a.category.rank()
        < b.category.rank())
}

/// The entries stand in strictly ascending order; so no identifier occurs
/// twice under one category.
pub open spec fn sorted(m: Seq<EntryView>) -> bool {
    forall|i: int, j: int| #![trigger m[i], m[j]] 0 <= i < j < m.len() ==> precedes(m[i], m[j])
}

/// Whether some entry carries the identifier under the category.
pub open spec fn holds(m: Seq<EntryView>, id: Seq<char>, category: Category) -> bool {
    exists|k: int|
        0 <= k < m.len() && (#[trigger] m[k]).plugin.path == id && m[k].category == category
}

/// Whether an entry belongs to the list that a tab shows: its installed list
/// (`installed`), or its available list. The tab of all installed plugins
/// shows the installed plugins of every category and offers none to install.
pub open spec fn listed(e: EntryView, tab: WindowTab, installed: bool) -> bool {
    e.installed == installed && (tab.spec_category() == Some(e.category) || (installed && tab
        == WindowTab::All))
}

/// The identifiers of a tab's installed or available list, in the order of
/// the entries, each named once.
pub open spec fn listing(m: Seq<EntryView>, tab: WindowTab, installed: bool) -> Seq<Seq<char>>
    decreases m.len(),
{
    if m.len() == 0 {
        Seq::empty()
    } else {
        let rest = listing(m.drop_last(), tab, installed);
        if listed(m.last(), tab, installed) && !rest.contains(m.last().plugin.path) {
            rest.push(m.last().plugin.path)
        } else {
            rest
        }
    }
}

/// The identifiers of a tab's installed or available list, as a set.
pub open spec fn members(m: Seq<EntryView>, tab: WindowTab, installed: bool) -> Set<Seq<char>> {
    Set::new(
        |id: Seq<char>|
            exists|k: int|
                0 <= k < m.len() && (#[trigger] m[k]).plugin.path == id && listed(
                    m[k],
                    tab,
                    installed,
                ),
    )
}

/// The tab that shows one category.
pub open spec fn tab_of(category: Category) -> WindowTab {
    match category {
        Category::Themes => WindowTab::Themes,
        Category::StatusBar => WindowTab::StatusBar,
        Category::Plugins => WindowTab::Plugins,
    }
}

/// The installed plugins of a category.
pub open spec fn installed_set(m: Seq<EntryView>, category: Category) -> Set<Seq<char>> {
    members(m, tab_of(category), true)
}

/// The plugins of a category that are not installed.
pub open spec fn available_set(m: Seq<EntryView>, category: Category) -> Set<Seq<char>> {
    members(m, tab_of(category), false)
}

/// The installed plugins of all categories.
pub open spec fn all_installed_set(m: Seq<EntryView>) -> Set<Seq<char>> {
    members(m, WindowTab::All, true)
}

/// The plugins that the catalog knows under a category.
pub open spec fn catalog_set(m: Seq<EntryView>, category: Category) -> Set<Seq<char>> {
    Set::new(|id: Seq<char>| holds(m, id, category))
}

/// Whether a sequence of identifiers ascends strictly.
pub open spec fn ascending(ids: Seq<Seq<char>>) -> bool {
    forall|i: int, j: int| 0 <= i < j < ids.len() ==> lex_lt(#[trigger] ids[i], #[trigger] ids[j])
}

/// No entry comes before itself, and of two entries that differ in
/// identifier or category one comes before the other.
pub proof fn lemma_precedes_total(a: EntryView, b: EntryView)
    ensures
        !precedes(a, a),
        !(precedes(a, b) && precedes(b, a)),
        (a.plugin.path != b.plugin.path || a.category != b.category) ==> precedes(a, b)
            || precedes(b, a),
{
    lemma_lex_irreflexive(a.plugin.path);
    lemma_lex_total(a.plugin.path, b.plugin.path);
}

/// The order of the entries is transitive.
pub proof fn lemma_precedes_transitive(a: EntryView, b: EntryView, c: EntryView)
    requires
        precedes(a, b),
        precedes(b, c),
    ensures
        precedes(a, c),
{
    if lex_lt(a.plugin.path, b.plugin.path) && lex_lt(b.plugin.path, c.plugin.path) {
        lemma_lex_transitive(a.plugin.path, b.plugin.path, c.plugin.path);
    }
}

/// In a sorted list an identifier has one entry under a category.
pub proof fn lemma_one_entry(m: Seq<EntryView>, i: int, j: int)
    requires
        sorted(m),
        0 <= i < m.len(),
        0 <= j < m.len(),
        m[i].plugin.path == m[j].plugin.path,
        m[i].category == m[j].category,
    ensures
        i == j,
{
    lemma_precedes_total(m[i], m[j]);
    if i < j {
        assert(precedes(m[i], m[j]));
    } else if j < i {
        assert(precedes(m[j], m[i]));
    }
}

/// A listing holds exactly the identifiers of the entries that belong to it.
pub proof fn lemma_listing_members(m: Seq<EntryView>, tab: WindowTab, installed: bool)
    ensures
        listing(m, tab, installed).to_set() == members(m, tab, installed),
        forall|k: int|
            0 <= k < m.len() && listed(#[trigger] m[k], tab, installed) ==> listing(
                m,
                tab,
                installed,
            ).contains(m[k].plugin.path),
        forall|i: int|
            0 <= i < listing(m, tab, installed).len() ==> members(m, tab, installed).contains(
                #[trigger] listing(m, tab, installed)[i],
            ),
    decreases m.len(),
{
    let l = listing(m, tab, installed);
    if m.len() == 0 {
        assert(l.to_set() =~= members(m, tab, installed));
    } else {
        let front = m.drop_last();
        let rest = listing(front, tab, installed);
        lemma_listing_members(front, tab, installed);
        assert forall|i: int| 0 <= i < rest.len() implies l[i] == rest[i] by {}
        assert forall|k: int| 0 <= k < m.len() && listed(#[trigger] m[k], tab, installed) implies l.contains(
            m[k].plugin.path,
        ) by {
            if k < m.len() - 1 {
                assert(front[k] == m[k]);
                assert(rest.contains(m[k].plugin.path));
                let i = choose|i: int| 0 <= i < rest.len() && rest[i] == m[k].plugin.path;
                assert(l[i] == m[k].plugin.path);
            } else if rest.contains(m[k].plugin.path) {
                let i = choose|i: int| 0 <= i < rest.len() && rest[i] == m[k].plugin.path;
                assert(l[i] == m[k].plugin.path);
            } else {
                assert(l[l.len() - 1] == m[k].plugin.path);
            }
        }
        assert forall|i: int| 0 <= i < l.len() implies members(m, tab, installed).contains(
            #[trigger] l[i],
        ) by {
            if i < rest.len() {
                assert(l[i] == rest[i]);
                assert(members(front, tab, installed).contains(rest[i]));
                let k = choose|k: int|
                    0 <= k < front.len() && (#[trigger] front[k]).plugin.path == rest[i] && listed(
                        front[k],
                        tab,
                        installed,
                    );
                assert(m[k] == front[k]);
            } else {
                assert(m[m.len() - 1] == m.last());
            }
        }
        assert(l.to_set() =~= members(m, tab, installed)) by {
            assert forall|id: Seq<char>| l.to_set().contains(id) <==> members(
                m,
                tab,
                installed,
            ).contains(id) by {
                if l.to_set().contains(id) {
                    let i = choose|i: int| 0 <= i < l.len() && l[i] == id;
                    assert(members(m, tab, installed).contains(l[i]));
                }
                if members(m, tab, installed).contains(id) {
                    let k = choose|k: int|
                        0 <= k < m.len() && (#[trigger] m[k]).plugin.path == id && listed(
                            m[k],
                            tab,
                            installed,
                        );
                    assert(l.contains(m[k].plugin.path));
                }
            }
        }
    }
}

/// The listing of a sorted list ascends strictly, so it names no plugin
/// twice.
pub proof fn lemma_listing_ascending(m: Seq<EntryView>, tab: WindowTab, installed: bool)
    requires
        sorted(m),
    ensures
        ascending(listing(m, tab, installed)),
        listing(m, tab, installed).no_duplicates(),
    decreases m.len(),
{
    let l = listing(m, tab, installed);
    if m.len() > 0 {
        let front = m.drop_last();
        let rest = listing(front, tab, installed);
        assert(sorted(front)) by {
            assert forall|i: int, j: int| 0 <= i < j < front.len() implies precedes(
                front[i],
                front[j],
            ) by {
                assert(front[i] == m[i] && front[j] == m[j]);
            }
        }
        lemma_listing_ascending(front, tab, installed);
        lemma_listing_members(front, tab, installed);
        assert forall|i: int, j: int| 0 <= i < j < l.len() implies lex_lt(
            #[trigger] l[i],
            #[trigger] l[j],
        ) by {
            if j < rest.len() {
                assert(l[i] == rest[i] && l[j] == rest[j]);
            } else {
                assert(l[i] == rest[i]);
                assert(rest.contains(rest[i]));
                assert(members(front, tab, installed).contains(rest[i]));
                let k = choose|k: int|
                    0 <= k < front.len() && (#[trigger] front[k]).plugin.path == rest[i] && listed(
                        front[k],
                        tab,
                        installed,
                    );
                assert(m[k] == front[k]);
                assert(precedes(m[k], m[m.len() - 1]));
            }
        }
    }
    assert forall|i: int, j: int| 0 <= i < l.len() && 0 <= j < l.len() && i != j implies l[i]
        != l[j] by {
        lemma_lex_irreflexive(l[i]);
        if i < j {
            assert(lex_lt(l[i], l[j]));
        } else {
            assert(lex_lt(l[j], l[i]));
        }
    }
}

/// Whether the list names the identifier.
pub fn contains(list: &Vec<String>, id: &str) -> (found: bool)
    ensures
        found == names(list@).contains(id@),
        found == texts(list@).contains(id@),
{
    let mut i: usize = 0;
    while i < list.len()
        invariant
            i <= list.len(),
            forall|j: int| 0 <= j < i ==> (#[trigger] list@[j])@ != id@,
        decreases list.len() - i,
    {
        if str_eq(list[i].as_str(), id) {
            assert(texts(list@)[i as int] == id@);
            return true;
        }
        i = i + 1;
    }
    proof {
        assert forall|j: int| 0 <= j < texts(list@).len() implies texts(list@)[j] != id@ by {
            assert(texts(list@)[j] == list@[j]@);
        }
    }
    false
}

/// Whether one entry comes before another.
fn entry_precedes(a: &Entry, b: &Entry) -> (before: bool)
    ensures
        before == precedes(a@, b@),
{
    if str_lt(a.plugin.path.as_str(), b.plugin.path.as_str()) {
        true
    } else {
        str_eq(a.plugin.path.as_str(), b.plugin.path.as_str()) && a.category.position()
            < b.category.position()
    }
}

/// Puts an entry at its place in a sorted list, unless the list already
/// holds its identifier under its category. Returns the place, or `None`
/// where nothing was added.
fn insert_entry(entries: &mut Vec<Entry>, entry: Entry) -> (place: Option<usize>)
    requires
        sorted(views(old(entries)@)),
    ensures
        sorted(views(final(entries)@)),
        match place {
            Some(p) => {
                &&& !holds(views(old(entries)@), entry@.plugin.path, entry@.category)
                &&& p <= old(entries)@.len()
                &&& views(final(entries)@) == views(old(entries)@).insert(p as int, entry@)
            },
            None => {
                &&& holds(views(old(entries)@), entry@.plugin.path, entry@.category)
                &&& final(entries)@ == old(entries)@
            },
        },
{
    let ghost m = views(entries@);
    let ghost e = entry@;
    let n = entries.len();
    let mut p: usize = 0;
    while p < n && entry_precedes(&entries[p], &entry)
        invariant
            n == entries.len(),
            p <= n,
            m == views(entries@),
            e == entry@,
            forall|i: int| 0 <= i < p ==> precedes(#[trigger] m[i], e),
        decreases n - p,
    {
        p = p + 1;
    }
    if p < n && str_eq(entries[p].plugin.path.as_str(), entry.plugin.path.as_str())
        && entries[p].category.position() == entry.category.position() {
        assert(m[p as int].plugin.path == e.plugin.path && m[p as int].category == e.category);
        return None;
    }
    proof {
        assert forall|i: int| p <= i < n implies precedes(e, #[trigger] m[i]) by {
            lemma_precedes_total(m[p as int], e);
            if p < i {
                assert(precedes(m[p as int], m[i]));
                lemma_precedes_transitive(e, m[p as int], m[i]);
            }
        }
        assert(!holds(m, e.plugin.path, e.category)) by {
            assert forall|k: int| 0 <= k < m.len() implies !((#[trigger] m[k]).plugin.path
                == e.plugin.path && m[k].category == e.category) by {
                lemma_precedes_total(m[k], e);
            }
        }
    }
    entries.insert(p, entry);
    proof {
        let after = views(entries@);
        assert(after =~= m.insert(p as int, e));
        assert forall|i: int, j: int| 0 <= i < j < after.len() implies precedes(
            after[i],
            after[j],
        ) by {
            if j < p {
                assert(after[i] == m[i] && after[j] == m[j]);
            } else if j == p {
                assert(after[i] == m[i]);
            } else if i < p {
                assert(after[i] == m[i] && after[j] == m[j - 1]);
            } else if i == p {
                assert(after[j] == m[j - 1]);
            } else {
                assert(after[i] == m[i - 1] && after[j] == m[j - 1]);
            }
        }
    }
    Some(p)
}

/// What is known of a plugin when the inventory is built: it is installed
/// exactly if the persisted list names it, and no check has looked at it.
pub open spec fn classified(e: EntryView, persisted: Seq<String>) -> bool {
    &&& e.installed == names(persisted).contains(e.plugin.path)
    &&& e.plugin.commit_hash == Seq::<char>::empty()
    &&& e.plugin.is_up_to_date
}

/// An entry that a list of the catalog brought in under `category`.
pub open spec fn brought(
    e: EntryView,
    list: Seq<String>,
    category: Category,
    persisted: Seq<String>,
) -> bool {
    &&& e.category == category
    &&& names(list).contains(e.plugin.path)
    &&& classified(e, persisted)
}

/// `after` is `before` with the identifiers of `list` added under `category`,
/// each once.
pub open spec fn extended(
    before: Seq<EntryView>,
    after: Seq<EntryView>,
    list: Seq<String>,
    category: Category,
    persisted: Seq<String>,
) -> bool {
    &&& forall|k: int| 0 <= k < before.len() ==> after.contains(#[trigger] before[k])
    &&& forall|k: int|
        0 <= k < after.len() ==> before.contains(#[trigger] after[k]) || brought(
            after[k],
            list,
            category,
            persisted,
        )
    &&& forall|i: int| 0 <= i < list.len() ==> holds(after, (#[trigger] list[i])@, category)
}

/// Adds the identifiers of one list of the catalog under `category`.
fn add_all(
    entries: &mut Vec<Entry>,
    list: &Vec<String>,
    category: Category,
    persisted: &Vec<String>,
)
    requires
        sorted(views(old(entries)@)),
    ensures
        sorted(views(final(entries)@)),
        extended(views(old(entries)@), views(final(entries)@), list@, category, persisted@),
{
    let ghost before = views(entries@);
    let mut i: usize = 0;
    proof {
        assert(list@.take(0).len() == 0);
        assert forall|k: int| 0 <= k < before.len() implies before.contains(
            #[trigger] before[k],
        ) by {}
    }
    while i < list.len()
        invariant
            i <= list.len(),
            before == views(old(entries)@),
            sorted(views(entries@)),
            extended(before, views(entries@), list@.take(i as int), category, persisted@),
        decreases list.len() - i,
    {
        let ghost m = views(entries@);
        let ghost shorter = list@.take(i as int);
        let ghost longer = list@.take(i + 1);
        let installed = contains(persisted, list[i].as_str());
        let entry = Entry { plugin: Plugin::new(list[i].clone()), category, installed };
        let ghost e = entry@;
        let place = insert_entry(entries, entry);
        proof {
            let after = views(entries@);
            assert(longer[i as int] == list@[i as int]);
            assert forall|id: Seq<char>| names(shorter).contains(id) implies names(
                longer,
            ).contains(id) by {
                let j = choose|j: int| 0 <= j < shorter.len() && (#[trigger] shorter[j])@ == id;
                assert(longer[j] == shorter[j]);
            }
            assert forall|k: int| 0 <= k < m.len() implies after.contains(#[trigger] m[k]) by {
                match place {
                    Some(p) => {
                        if k < p {
                            assert(after[k] == m[k]);
                        } else {
                            assert(after[k + 1] == m[k]);
                        }
                    },
                    None => {},
                }
            }
            assert forall|k: int| 0 <= k < before.len() implies after.contains(
                #[trigger] before[k],
            ) by {
                assert(m.contains(before[k]));
                let k1 = choose|k1: int| 0 <= k1 < m.len() && m[k1] == before[k];
                assert(after.contains(m[k1]));
            }
            assert forall|k: int| 0 <= k < after.len() implies before.contains(
                #[trigger] after[k],
            ) || brought(after[k], longer, category, persisted@) by {
                let from_m = match place {
                    Some(p) => k != p,
                    None => true,
                };
                if from_m {
                    let k0 = match place {
                        Some(p) => if k < p {
                            k
                        } else {
                            k - 1
                        },
                        None => k,
                    };
                    assert(after[k] == m[k0]);
                    assert(before.contains(m[k0]) || brought(
                        m[k0],
                        shorter,
                        category,
                        persisted@,
                    ));
                } else {
                    assert(after[k] == e);
                }
            }
            assert forall|j: int| 0 <= j < longer.len() implies holds(
                after,
                (#[trigger] longer[j])@,
                category,
            ) by {
                if j < i {
                    assert(longer[j] == shorter[j]);
                    assert(holds(m, shorter[j]@, category));
                    let k = choose|k: int|
                        0 <= k < m.len() && (#[trigger] m[k]).plugin.path == shorter[j]@
                            && m[k].category == category;
                    assert(after.contains(m[k]));
                    let k1 = choose|k1: int| 0 <= k1 < after.len() && after[k1] == m[k];
                    assert(after[k1].plugin.path == longer[j]@);
                } else {
                    match place {
                        Some(p) => {
                            assert(after[p as int] == e);
                        },
                        None => {},
                    }
                }
            }
        }
        i = i + 1;
    }
    proof {
        assert(list@.take(list@.len() as int) =~= list@);
    }
}

/// Every plugin of the catalog under each of its categories, in ascending
/// order of the identifiers, each with whether it is installed.
#[derive(Debug, Clone)]
pub struct Inventory {
    entries: Vec<Entry>,
}

impl View for Inventory {
    type V = Seq<EntryView>;

    closed spec fn view(&self) -> Seq<EntryView> {
        views(self.entries@)
    }
}

/// Why a plugin was not installed.
#[derive(Debug, Clone, Copy, PartialEq, Eq, Structural)]
pub enum InstallError {
    /// The tab does not offer the plugin for installation.
    NotAvailable,
    /// The clone did not succeed.
    CloneFailed,
}

/// Why a plugin was not updated.
#[derive(Debug, Clone, Copy, PartialEq, Eq, Structural)]
pub enum UpdateError {
    /// The tab does not list the plugin as installed.
    NotInstalled,
    /// The pull did not succeed.
    PullFailed,
}

/// Why a plugin was not removed.
#[derive(Debug, Clone, Copy, PartialEq, Eq, Structural)]
pub enum RemoveError {
    /// The tab does not list the plugin as installed.
    NotInstalled,
    /// The directory of the plugin could not be deleted.
    RemoveFailed,
}

impl Inventory {
    /// The invariant of the inventory: the entries ascend strictly, by
    /// identifier and then by category.
    pub open spec fn wf(&self) -> bool {
        sorted(self@)
    }

    /// Builds the inventory from the catalog and the persisted list of
    /// installed plugins: every plugin that the catalog lists under a
    /// category is a plugin of that category, installed if the persisted
    /// list names it and available otherwise.
    pub fn new(catalog: &Catalog, persisted: &Vec<String>) -> (inventory: Inventory)
        ensures
            inventory.wf(),
            forall|category: Category| #[trigger]
                catalog_set(inventory@, category) == catalog.listed(category),
            forall|category: Category|
                installed_set(inventory@, category).union(
                    #[trigger] available_set(inventory@, category),
                ) == catalog.listed(category),
            forall|category: Category|
                installed_set(inventory@, category).disjoint(
                    #[trigger] available_set(inventory@, category),
                ),
            forall|k: int|
                0 <= k < inventory@.len() ==> classified(#[trigger] inventory@[k], persisted@),
    {
        let mut entries: Vec<Entry> = Vec::new();
        let ghost m0 = views(entries@);
        add_all(&mut entries, &catalog.themes, Category::Themes, persisted);
        let ghost m1 = views(entries@);
        add_all(&mut entries, &catalog.status_bars, Category::StatusBar, persisted);
        let ghost m2 = views(entries@);
        add_all(&mut entries, &catalog.plugins, Category::Plugins, persisted);
        let ghost m3 = views(entries@);
        proof {
            let t = catalog.themes@;
            let s = catalog.status_bars@;
            let p = catalog.plugins@;
            assert forall|k: int| 0 <= k < m1.len() implies brought(
                #[trigger] m1[k],
                t,
                Category::Themes,
                persisted@,
            ) by {
                assert(!m0.contains(m1[k]));
            }
            assert forall|k: int| 0 <= k < m2.len() implies brought(
                #[trigger] m2[k],
                t,
                Category::Themes,
                persisted@,
            ) || brought(m2[k], s, Category::StatusBar, persisted@) by {
                if m1.contains(m2[k]) {
                    let k1 = choose|k1: int| 0 <= k1 < m1.len() && m1[k1] == m2[k];
                    assert(brought(m1[k1], t, Category::Themes, persisted@));
                }
            }
            assert forall|k: int| 0 <= k < m3.len() implies brought(
                #[trigger] m3[k],
                t,
                Category::Themes,
                persisted@,
            ) || brought(m3[k], s, Category::StatusBar, persisted@) || brought(
                m3[k],
                p,
                Category::Plugins,
                persisted@,
            ) by {
                if m2.contains(m3[k]) {
                    let k2 = choose|k2: int| 0 <= k2 < m2.len() && m2[k2] == m3[k];
                    assert(brought(m2[k2], t, Category::Themes, persisted@) || brought(
                        m2[k2],
                        s,
                        Category::StatusBar,
                        persisted@,
                    ));
                }
            }
            assert forall|id: Seq<char>| names(t).contains(id) implies holds(
                m3,
                id,
                Category::Themes,
            ) by {
                let i = choose|i: int| 0 <= i < t.len() && (#[trigger] t[i])@ == id;
                assert(holds(m1, t[i]@, Category::Themes));
                let k = choose|k: int|
                    0 <= k < m1.len() && (#[trigger] m1[k]).plugin.path == id && m1[k].category
                        == Category::Themes;
                assert(m2.contains(m1[k]));
                let k2 = choose|k2: int| 0 <= k2 < m2.len() && m2[k2] == m1[k];
                assert(m3.contains(m2[k2]));
                let k3 = choose|k3: int| 0 <= k3 < m3.len() && m3[k3] == m2[k2];
                assert(m3[k3].plugin.path == id);
            }
            assert forall|id: Seq<char>| names(s).contains(id) implies holds(
                m3,
                id,
                Category::StatusBar,
            ) by {
                let i = choose|i: int| 0 <= i < s.len() && (#[trigger] s[i])@ == id;
                assert(holds(m2, s[i]@, Category::StatusBar));
                let k = choose|k: int|
                    0 <= k < m2.len() && (#[trigger] m2[k]).plugin.path == id && m2[k].category
                        == Category::StatusBar;
                assert(m3.contains(m2[k]));
                let k3 = choose|k3: int| 0 <= k3 < m3.len() && m3[k3] == m2[k];
                assert(m3[k3].plugin.path == id);
            }
            assert forall|id: Seq<char>| names(p).contains(id) implies holds(
                m3,
                id,
                Category::Plugins,
            ) by {
                let i = choose|i: int| 0 <= i < p.len() && (#[trigger] p[i])@ == id;
                assert(holds(m3, p[i]@, Category::Plugins));
            }
            assert forall|category: Category| #[trigger]
                catalog_set(m3, category) == catalog.listed(category) by {
                assert forall|id: Seq<char>| catalog_set(m3, category).contains(id)
                    <==> catalog.listed(category).contains(id) by {
                    if catalog_set(m3, category).contains(id) {
                        let k = choose|k: int|
                            0 <= k < m3.len() && (#[trigger] m3[k]).plugin.path == id
                                && m3[k].category == category;
                        assert(brought(m3[k], t, Category::Themes, persisted@) || brought(
                            m3[k],
                            s,
                            Category::StatusBar,
                            persisted@,
                        ) || brought(m3[k], p, Category::Plugins, persisted@));
                    }
                }
                assert(catalog_set(m3, category) =~= catalog.listed(category));
            }
        }
        let inventory = Inventory { entries };
        proof {
            assert forall|category: Category|
                installed_set(inventory@, category).union(
                    #[trigger] available_set(inventory@, category),
                ) == catalog.listed(category) && installed_set(inventory@, category).disjoint(
                    available_set(inventory@, category),
                ) by {
                lemma_partition(inventory, category);
            }
        }
        inventory
    }

    /// Whether the inventory meets its invariant. One that was built by
    /// [`Inventory::new`] and changed by the operations of this type always
    /// does.
    pub fn is_well_formed(&self) -> (ok: bool)
        ensures
            ok == self.wf(),
    {
        let mut k: usize = 1;
        while k < self.entries.len()
            invariant
                1 <= k,
                forall|i: int, j: int|
                    #![trigger self@[i], self@[j]]
                    0 <= i < j < k && j < self@.len() ==> precedes(self@[i], self@[j]),
            decreases self.entries.len() - k,
        {
            if !entry_precedes(&self.entries[k - 1], &self.entries[k]) {
                assert(!precedes(self@[k - 1], self@[k as int]));
                return false;
            }
            proof {
                assert forall|i: int| 0 <= i < k implies precedes(
                    #[trigger] self@[i],
                    self@[k as int],
                ) by {
                    if i < k - 1 {
                        assert(precedes(self@[i], self@[k - 1]));
                        lemma_precedes_transitive(self@[i], self@[k - 1], self@[k as int]);
                    }
                }
            }
            k = k + 1;
        }
        true
    }

    /// The number of entries: the plugins of the catalog, each counted under
    /// every category that lists it.
    pub fn len(&self) -> (n: usize)
        ensures
            n == self@.len(),
    {
        self.entries.len()
    }
}

/// The two lists name the same plugins at the same places, each under the
/// same category.
pub open spec fn same_catalog(before: Seq<EntryView>, after: Seq<EntryView>) -> bool {
    &&& after.len() == before.len()
    &&& forall|k: int|
        0 <= k < before.len() ==> (#[trigger] after[k]).plugin.path == before[k].plugin.path
            && after[k].category == before[k].category
}

/// The two lists agree on catalog and on which plugins are installed.
pub open spec fn same_standing(before: Seq<EntryView>, after: Seq<EntryView>) -> bool {
    &&& same_catalog(before, after)
    &&& forall|k: int| 0 <= k < before.len() ==> (#[trigger] after[k]).installed == before[k].installed
}

/// The list after the plugin `id` has moved within what `tab` shows: to the
/// installed plugins (`installed`), or to the available ones. Under a
/// category that is the entry of the plugin under that category; under the
/// tab of all installed plugins it is every entry of the plugin that is
/// installed. All other entries stay as they are.
pub open spec fn moved(m: Seq<EntryView>, tab: WindowTab, id: Seq<char>, installed: bool) -> Seq<
    EntryView,
> {
    m.map_values(
        |e: EntryView|
            if e.plugin.path == id && listed(e, tab, !installed) {
                EntryView { installed, ..e }
            } else {
                e
            },
    )
}

/// `after` is `before` once the plugin `id`, which `tab` offered, has been
/// installed.
pub open spec fn installed_by(
    before: Seq<EntryView>,
    after: Seq<EntryView>,
    tab: WindowTab,
    id: Seq<char>,
) -> bool {
    members(before, tab, false).contains(id) && after == moved(before, tab, id, true)
}

/// `after` is `before` once the plugin `id`, which `tab` listed as installed,
/// has been removed.
pub open spec fn removed_by(
    before: Seq<EntryView>,
    after: Seq<EntryView>,
    tab: WindowTab,
    id: Seq<char>,
) -> bool {
    members(before, tab, true).contains(id) && after == moved(before, tab, id, false)
}

/// The list with `revision` recorded for the plugin `id` wherever it is
/// installed; the plugin counts as up to date exactly if the revision is
/// empty. Where the plugin is not installed nothing changes.
pub open spec fn with_revision(m: Seq<EntryView>, id: Seq<char>, revision: Seq<char>) -> Seq<
    EntryView,
> {
    m.map_values(
        |e: EntryView|
            if e.plugin.path == id && e.installed {
                EntryView {
                    plugin: PluginView {
                        commit_hash: revision,
                        is_up_to_date: revision.len() == 0,
                        ..e.plugin
                    },
                    ..e
                }
            } else {
                e
            },
    )
}

/// What the results of a scan do to the list, taken one by one in their
/// order: each records its revision for its plugin.
pub open spec fn recorded(m: Seq<EntryView>, results: Seq<(Seq<char>, Seq<char>)>) -> Seq<
    EntryView,
>
    decreases results.len(),
{
    if results.len() == 0 {
        m
    } else {
        with_revision(recorded(m, results.drop_last()), results.last().0, results.last().1)
    }
}

/// The results of a scan, each as identifier and revision.
pub open spec fn scan_views(results: Seq<(String, String)>) -> Seq<(Seq<char>, Seq<char>)> {
    results.map_values(|r: (String, String)| (r.0@, r.1@))
}

/// The entry that speaks for a plugin: its first entry that is installed,
/// or, where it is installed nowhere, its first entry.
pub open spec fn spokesman(m: Seq<EntryView>, id: Seq<char>) -> Option<EntryView>
    decreases m.len(),
{
    if m.len() == 0 {
        None
    } else {
        let earlier = spokesman(m.drop_last(), id);
        if m.last().plugin.path != id {
            earlier
        } else {
            match earlier {
                Some(e) => if !e.installed && m.last().installed {
                    Some(m.last())
                } else {
                    earlier
                },
                None => Some(m.last()),
            }
        }
    }
}

/// A plugin has a spokesman exactly if the catalog knows it. The spokesman
/// is an entry of the plugin, and it is installed exactly if the plugin is
/// installed somewhere.
pub proof fn lemma_spokesman(m: Seq<EntryView>, id: Seq<char>)
    ensures
        spokesman(m, id) is Some <==> exists|k: int|
            0 <= k < m.len() && (#[trigger] m[k]).plugin.path == id,
        spokesman(m, id) matches Some(e) ==> e.plugin.path == id && m.contains(e) && (e.installed
            <==> all_installed_set(m).contains(id)),
    decreases m.len(),
{
    if m.len() > 0 {
        let front = m.drop_last();
        lemma_spokesman(front, id);
        assert(m[m.len() - 1] == m.last());
        if exists|k: int| 0 <= k < front.len() && (#[trigger] front[k]).plugin.path == id {
            let k = choose|k: int| 0 <= k < front.len() && (#[trigger] front[k]).plugin.path == id;
            assert(m[k] == front[k]);
        }
        if exists|k: int| 0 <= k < m.len() && (#[trigger] m[k]).plugin.path == id {
            let k = choose|k: int| 0 <= k < m.len() && (#[trigger] m[k]).plugin.path == id;
            if k < front.len() {
                assert(front[k] == m[k]);
            }
        }
        if all_installed_set(front).contains(id) {
            let k = choose|k: int|
                0 <= k < front.len() && (#[trigger] front[k]).plugin.path == id && listed(
                    front[k],
                    WindowTab::All,
                    true,
                );
            assert(m[k] == front[k]);
        }
        if all_installed_set(m).contains(id) {
            let k = choose|k: int|
                0 <= k < m.len() && (#[trigger] m[k]).plugin.path == id && listed(
                    m[k],
                    WindowTab::All,
                    true,
                );
            if k < front.len() {
                assert(front[k] == m[k]);
                assert(listed(front[k], WindowTab::All, true));
            }
        }
        match spokesman(m, id) {
            Some(e) => {
                if front.contains(e) {
                    let k = choose|k: int| 0 <= k < front.len() && front[k] == e;
                    assert(m[k] == e);
                }
                if e.installed {
                    let k = choose|k: int| 0 <= k < m.len() && m[k] == e;
                    assert(listed(m[k], WindowTab::All, true));
                }
            },
            None => {},
        }
    }
}

/// A list that names the same plugins at the same places is sorted as the
/// other is, and its catalog is the same.
pub proof fn lemma_same_catalog(before: Seq<EntryView>, after: Seq<EntryView>)
    requires
        same_catalog(before, after),
    ensures
        sorted(before) ==> sorted(after),
        forall|id: Seq<char>, category: Category|
            holds(before, id, category) <==> holds(after, id, category),
        forall|category: Category| #[trigger]
            catalog_set(after, category) == catalog_set(before, category),
{
    if sorted(before) {
        assert forall|i: int, j: int| 0 <= i < j < after.len() implies precedes(
            after[i],
            after[j],
        ) by {
            assert(precedes(before[i], before[j]));
        }
    }
    assert forall|id: Seq<char>, category: Category|
        holds(before, id, category) <==> holds(after, id, category) by {
        if holds(before, id, category) {
            let k = choose|k: int|
                0 <= k < before.len() && (#[trigger] before[k]).plugin.path == id
                    && before[k].category == category;
            assert(after[k].plugin.path == id);
        }
        if holds(after, id, category) {
            let k = choose|k: int|
                0 <= k < after.len() && (#[trigger] after[k]).plugin.path == id
                    && after[k].category == category;
            assert(before[k].plugin.path == id);
        }
    }
    assert forall|category: Category| #[trigger]
        catalog_set(after, category) == catalog_set(before, category) by {
        assert(catalog_set(after, category) =~= catalog_set(before, category));
    }
}

/// Lists that agree on catalog and on which plugins are installed show the
/// same in every tab.
pub proof fn lemma_same_standing(
    before: Seq<EntryView>,
    after: Seq<EntryView>,
    tab: WindowTab,
    installed: bool,
)
    requires
        same_standing(before, after),
    ensures
        listing(after, tab, installed) == listing(before, tab, installed),
        members(after, tab, installed) == members(before, tab, installed),
    decreases before.len(),
{
    if before.len() > 0 {
        assert(after.last().plugin.path == before.last().plugin.path);
        assert(same_standing(before.drop_last(), after.drop_last())) by {
            assert forall|k: int| 0 <= k < before.len() - 1 implies (
            #[trigger] after.drop_last()[k]).plugin.path == before.drop_last()[k].plugin.path
                && after.drop_last()[k].category == before.drop_last()[k].category
                && after.drop_last()[k].installed == before.drop_last()[k].installed by {
                assert(after.drop_last()[k] == after[k]);
                assert(before.drop_last()[k] == before[k]);
            }
        }
        lemma_same_standing(before.drop_last(), after.drop_last(), tab, installed);
    }
    lemma_listing_members(before, tab, installed);
    lemma_listing_members(after, tab, installed);
    assert forall|id: Seq<char>| members(after, tab, installed).contains(id) <==> members(
        before,
        tab,
        installed,
    ).contains(id) by {
        if members(after, tab, installed).contains(id) {
            let k = choose|k: int|
                0 <= k < after.len() && (#[trigger] after[k]).plugin.path == id && listed(
                    after[k],
                    tab,
                    installed,
                );
            assert(before[k].plugin.path == id);
        }
        if members(before, tab, installed).contains(id) {
            let k = choose|k: int|
                0 <= k < before.len() && (#[trigger] before[k]).plugin.path == id && listed(
                    before[k],
                    tab,
                    installed,
                );
            assert(after[k].plugin.path == id);
        }
    }
    assert(members(after, tab, installed) =~= members(before, tab, installed));
}

/// A move takes the plugin out of the list it was in, puts it into the
/// other list of its category, and leaves every other plugin where it is.
pub proof fn lemma_moved(m: Seq<EntryView>, tab: WindowTab, id: Seq<char>, installed: bool)
    requires
        members(m, tab, !installed).contains(id),
    ensures
        same_catalog(m, moved(m, tab, id, installed)),
        sorted(m) ==> sorted(moved(m, tab, id, installed)),
        !members(moved(m, tab, id, installed), tab, !installed).contains(id),
        tab != WindowTab::All ==> members(moved(m, tab, id, installed), tab, installed).contains(
            id,
        ),
        forall|any: WindowTab, other: Seq<char>, flag: bool|
            other != id ==> (#[trigger] members(moved(m, tab, id, installed), any, flag).contains(
                other,
            ) <==> members(m, any, flag).contains(other)),
{
    let after = moved(m, tab, id, installed);
    assert(same_catalog(m, after));
    lemma_same_catalog(m, after);
    if members(after, tab, !installed).contains(id) {
        let k = choose|k: int|
            0 <= k < after.len() && (#[trigger] after[k]).plugin.path == id && listed(
                after[k],
                tab,
                !installed,
            );
        assert(m[k].plugin.path == id);
    }
    let k = choose|k: int|
        0 <= k < m.len() && (#[trigger] m[k]).plugin.path == id && listed(m[k], tab, !installed);
    if tab != WindowTab::All {
        assert(listed(after[k], tab, installed));
    }
    assert forall|any: WindowTab, other: Seq<char>, flag: bool| other != id implies (
    #[trigger] members(after, any, flag).contains(other) <==> members(m, any, flag).contains(
        other,
    )) by {
        if members(after, any, flag).contains(other) {
            let j = choose|j: int|
                0 <= j < after.len() && (#[trigger] after[j]).plugin.path == other && listed(
                    after[j],
                    any,
                    flag,
                );
            assert(m[j] == after[j]);
        }
        if members(m, any, flag).contains(other) {
            let j = choose|j: int|
                0 <= j < m.len() && (#[trigger] m[j]).plugin.path == other && listed(
                    m[j],
                    any,
                    flag,
                );
            assert(after[j] == m[j]);
        }
    }
}

/// Recording a revision changes neither the catalog nor which plugins are
/// installed, and for a plugin that is not installed it changes nothing.
pub proof fn lemma_with_revision(m: Seq<EntryView>, id: Seq<char>, revision: Seq<char>)
    ensures
        same_standing(m, with_revision(m, id, revision)),
        sorted(m) ==> sorted(with_revision(m, id, revision)),
        !all_installed_set(m).contains(id) ==> with_revision(m, id, revision) == m,
{
    let after = with_revision(m, id, revision);
    assert(same_catalog(m, after));
    lemma_same_catalog(m, after);
    if !all_installed_set(m).contains(id) {
        assert forall|k: int| 0 <= k < m.len() implies after[k] == m[k] by {
            if m[k].plugin.path == id && m[k].installed {
                assert(listed(m[k], WindowTab::All, true));
            }
        }
        assert(after =~= m);
    }
}

/// The results of a scan change neither the catalog nor which plugins are
/// installed: no plugin is added, none is removed, none changes lists.
pub proof fn lemma_recorded(m: Seq<EntryView>, results: Seq<(Seq<char>, Seq<char>)>)
    ensures
        same_standing(m, recorded(m, results)),
        sorted(m) ==> sorted(recorded(m, results)),
    decreases results.len(),
{
    if results.len() > 0 {
        let before = recorded(m, results.drop_last());
        lemma_recorded(m, results.drop_last());
        lemma_with_revision(before, results.last().0, results.last().1);
    }
}

/// The tab of all installed plugins offers no plugin for installation.
pub proof fn lemma_all_offers_nothing(m: Seq<EntryView>)
    ensures
        listing(m, WindowTab::All, false) == Seq::<Seq<char>>::empty(),
        forall|query: Seq<char>|
            #[trigger] search(listing(m, WindowTab::All, false), query).len() == 0,
    decreases m.len(),
{
    if m.len() > 0 {
        lemma_all_offers_nothing(m.drop_last());
    }
    assert forall|query: Seq<char>|
        #[trigger] search(Seq::<Seq<char>>::empty(), query).len() == 0 by {
        let scored = Seq::<Seq<char>>::empty().map_values(
            |id: Seq<char>| (id, match_score(id, query)),
        );
        assert(scored.len() == 0);
    }
}

impl Inventory {
    /// The identifiers that the installed list of a tab shows for a query.
    pub open spec fn installed_ids(&self, tab: WindowTab, query: Seq<char>) -> Seq<Seq<char>> {
        search(listing(self@, tab, true), query)
    }

    /// The identifiers that the available list of a tab shows for a query.
    pub open spec fn available_ids(&self, tab: WindowTab, query: Seq<char>) -> Seq<Seq<char>> {
        search(listing(self@, tab, false), query)
    }

    /// The identifiers of all installed plugins, ascending: what is persisted.
    pub open spec fn persisted_ids(&self) -> Seq<Seq<char>> {
        listing(self@, WindowTab::All, true)
    }

    /// Whether an entry belongs to the installed (`installed`) or to the
    /// available list of a tab.
    fn shows(entry: &Entry, tab: WindowTab, installed: bool) -> (shown: bool)
        ensures
            shown == listed(entry@, tab, installed),
    {
        entry.installed == installed && match tab {
            WindowTab::All => installed,
            WindowTab::Themes => entry.category.position() == 0,
            WindowTab::StatusBar => entry.category.position() == 1,
            WindowTab::Plugins => entry.category.position() == 2,
        }
    }

    /// The identifiers of the installed (`installed`) or of the available
    /// list of a tab, ascending, each once.
    fn list(&self, tab: WindowTab, installed: bool) -> (ids: Vec<String>)
        ensures
            texts(ids@) == listing(self@, tab, installed),
    {
        let mut ids: Vec<String> = Vec::new();
        let mut k: usize = 0;
        while k < self.entries.len()
            invariant
                k <= self.entries.len(),
                texts(ids@) == listing(self@.take(k as int), tab, installed),
            decreases self.entries.len() - k,
        {
            let entry = &self.entries[k];
            proof {
                assert(self@.take(k + 1).drop_last() =~= self@.take(k as int));
                assert(self@.take(k + 1).last() == self@[k as int]);
            }
            if Self::shows(entry, tab, installed) && !contains(&ids, entry.plugin.path.as_str()) {
                let ghost before = ids@;
                ids.push(entry.plugin.path.clone());
                assert(texts(ids@) =~= texts(before).push(self@[k as int].plugin.path));
            }
            k = k + 1;
        }
        proof {
            assert(self@.take(self@.len() as int) =~= self@);
        }
        ids
    }

    /// Whether the installed (`installed`) or the available list of a tab
    /// names the identifier.
    fn has(&self, tab: WindowTab, id: &str, installed: bool) -> (found: bool)
        ensures
            found == members(self@, tab, installed).contains(id@),
    {
        let mut k: usize = 0;
        while k < self.entries.len()
            invariant
                k <= self.entries.len(),
                forall|j: int|
                    0 <= j < k ==> !((#[trigger] self@[j]).plugin.path == id@ && listed(
                        self@[j],
                        tab,
                        installed,
                    )),
            decreases self.entries.len() - k,
        {
            if str_eq(self.entries[k].plugin.path.as_str(), id) && Self::shows(
                &self.entries[k],
                tab,
                installed,
            ) {
                assert(self@[k as int].plugin.path == id@ && listed(
                    self@[k as int],
                    tab,
                    installed,
                ));
                return true;
            }
            k = k + 1;
        }
        false
    }

    /// Moves the plugin within what the tab shows.
    fn mark(&mut self, tab: WindowTab, id: &str, installed: bool)
        ensures
            final(self)@ == moved(old(self)@, tab, id@, installed),
    {
        let ghost before = self@;
        let mut k: usize = 0;
        while k < self.entries.len()
            invariant
                k <= self.entries.len(),
                self@.len() == before.len(),
                forall|j: int| 0 <= j < k ==> (#[trigger] self@[j]) == moved(
                    before,
                    tab,
                    id@,
                    installed,
                )[j],
                forall|j: int| k <= j < before.len() ==> (#[trigger] self@[j]) == before[j],
            decreases self.entries.len() - k,
        {
            let ghost now = self@;
            if str_eq(self.entries[k].plugin.path.as_str(), id) && Self::shows(
                &self.entries[k],
                tab,
                !installed,
            ) {
                self.entries[k].installed = installed;
                assert(self@ =~= now.update(k as int, EntryView { installed, ..now[k as int] }));
            }
            k = k + 1;
        }
        assert(self@ =~= moved(before, tab, id@, installed));
    }

    /// Records a revision for the plugin wherever it is installed.
    fn revise(&mut self, id: &str, revision: &str)
        ensures
            final(self)@ == with_revision(old(self)@, id@, revision@),
    {
        let ghost before = self@;
        let fresh = revision.is_empty();
        let mut k: usize = 0;
        while k < self.entries.len()
            invariant
                k <= self.entries.len(),
                self@.len() == before.len(),
                fresh == (revision@.len() == 0),
                forall|j: int| 0 <= j < k ==> (#[trigger] self@[j]) == with_revision(
                    before,
                    id@,
                    revision@,
                )[j],
                forall|j: int| k <= j < before.len() ==> (#[trigger] self@[j]) == before[j],
            decreases self.entries.len() - k,
        {
            let ghost now = self@;
            if self.entries[k].installed && str_eq(self.entries[k].plugin.path.as_str(), id) {
                self.entries[k].plugin.commit_hash = revision.to_owned();
                self.entries[k].plugin.is_up_to_date = fresh;
                assert(self@ =~= now.update(
                    k as int,
                    EntryView {
                        plugin: PluginView {
                            commit_hash: revision@,
                            is_up_to_date: fresh,
                            ..now[k as int].plugin
                        },
                        ..now[k as int]
                    },
                ));
            }
            k = k + 1;
        }
        assert(self@ =~= with_revision(before, id@, revision@));
    }

    /// The installed plugins that a tab shows for a query: those of its
    /// category, or of all categories under the tab of all installed
    /// plugins. Without a query they ascend by identifier; with one, the
    /// fuzzy matches come by descending score.
    pub fn installed_view(&self, tab: WindowTab, query: &str) -> (ids: Vec<String>)
        ensures
            texts(ids@) == self.installed_ids(tab, query@),
    {
        search_list(self.list(tab, true), query)
    }

    /// The plugins that a tab offers for installation for a query, ordered
    /// as the installed ones are. The tab of all installed plugins offers
    /// none.
    pub fn available_view(&self, tab: WindowTab, query: &str) -> (ids: Vec<String>)
        ensures
            texts(ids@) == self.available_ids(tab, query@),
            tab == WindowTab::All ==> ids@.len() == 0,
    {
        let ids = search_list(self.list(tab, false), query);
        proof {
            lemma_all_offers_nothing(self@);
            assert(texts(ids@).len() == ids@.len());
        }
        ids
    }

    /// The identifiers to persist: those of all installed plugins,
    /// ascending, each once.
    pub fn persisted_lines(&self) -> (lines: Vec<String>)
        ensures
            texts(lines@) == self.persisted_ids(),
    {
        self.list(WindowTab::All, true)
    }

    /// The first category, in the order themes, status bars, plugins, under
    /// which the plugin is installed; `None` for an identifier that is
    /// installed nowhere.
    pub fn owner(&self, id: &str) -> (category: Option<Category>)
        ensures
            category == if installed_set(self@, Category::Themes).contains(id@) {
                Some(Category::Themes)
            } else if installed_set(self@, Category::StatusBar).contains(id@) {
                Some(Category::StatusBar)
            } else if installed_set(self@, Category::Plugins).contains(id@) {
                Some(Category::Plugins)
            } else {
                None
            },
    {
        if self.has(WindowTab::Themes, id, true) {
            Some(Category::Themes)
        } else if self.has(WindowTab::StatusBar, id, true) {
            Some(Category::StatusBar)
        } else if self.has(WindowTab::Plugins, id, true) {
            Some(Category::Plugins)
        } else {
            None
        }
    }

    /// What is known of a plugin of the catalog: the state of its first
    /// entry that is installed, or of its first entry where it is installed
    /// nowhere. `None` for an identifier that the catalog does not know.
    pub fn plugin(&self, id: &str) -> (plugin: Option<Plugin>)
        ensures
            plugin is Some <==> spokesman(self@, id@) is Some,
            plugin matches Some(p) ==> p@ == spokesman(self@, id@)->0.plugin,
    {
        let mut best: Option<usize> = None;
        let mut k: usize = 0;
        while k < self.entries.len()
            invariant
                k <= self.entries.len(),
                best is Some <==> spokesman(self@.take(k as int), id@) is Some,
                best matches Some(b) ==> b < k && self@[b as int] == spokesman(
                    self@.take(k as int),
                    id@,
                )->0,
            decreases self.entries.len() - k,
        {
            proof {
                assert(self@.take(k + 1).drop_last() =~= self@.take(k as int));
                assert(self@.take(k + 1).last() == self@[k as int]);
            }
            if str_eq(self.entries[k].plugin.path.as_str(), id) {
                match best {
                    Some(b) => {
                        if !self.entries[b].installed && self.entries[k].installed {
                            best = Some(k);
                        }
                    },
                    None => {
                        best = Some(k);
                    },
                }
            }
            k = k + 1;
        }
        proof {
            assert(self@.take(self@.len() as int) =~= self@);
        }
        match best {
            Some(b) => {
                let p = &self.entries[b].plugin;
                Some(
                    Plugin {
                        path: p.path.clone(),
                        commit_hash: p.commit_hash.clone(),
                        is_up_to_date: p.is_up_to_date,
                    },
                )
            },
            None => None,
        }
    }

    /// Records the outcome of cloning a plugin that `tab` offers. After a
    /// clone that succeeded the plugin is installed under the category of
    /// the tab; after one that failed nothing changes.
    pub fn install(&mut self, tab: WindowTab, id: &str, cloned: bool) -> (result: Result<
        (),
        InstallError,
    >)
        ensures
            old(self).wf() ==> final(self).wf(),
            same_catalog(old(self)@, final(self)@),
            match result {
                Ok(()) => cloned && installed_by(old(self)@, final(self)@, tab, id@),
                Err(InstallError::NotAvailable) => !members(old(self)@, tab, false).contains(id@)
                    && final(self)@ == old(self)@,
                Err(InstallError::CloneFailed) => !cloned && members(old(self)@, tab, false).contains(
                    id@,
                ) && final(self)@ == old(self)@,
            },
    {
        if !self.has(tab, id, false) {
            return Err(InstallError::NotAvailable);
        }
        if !cloned {
            return Err(InstallError::CloneFailed);
        }
        proof {
            lemma_moved(self@, tab, id@, true);
        }
        self.mark(tab, id, true);
        Ok(())
    }

    /// Records the outcome of pulling a plugin that `tab` lists as
    /// installed. After a pull that succeeded the plugin is up to date and
    /// no newer revision is recorded for it, wherever it is installed;
    /// after one that failed nothing changes.
    pub fn update(&mut self, tab: WindowTab, id: &str, pulled: bool) -> (result: Result<
        (),
        UpdateError,
    >)
        ensures
            old(self).wf() ==> final(self).wf(),
            same_standing(old(self)@, final(self)@),
            match result {
                Ok(()) => pulled && members(old(self)@, tab, true).contains(id@) && final(self)@
                    == with_revision(old(self)@, id@, Seq::empty()),
                Err(UpdateError::NotInstalled) => !members(old(self)@, tab, true).contains(id@)
                    && final(self)@ == old(self)@,
                Err(UpdateError::PullFailed) => !pulled && members(old(self)@, tab, true).contains(
                    id@,
                ) && final(self)@ == old(self)@,
            },
    {
        if !self.has(tab, id, true) {
            return Err(UpdateError::NotInstalled);
        }
        if !pulled {
            return Err(UpdateError::PullFailed);
        }
        proof {
            lemma_with_revision(self@, id@, Seq::empty());
        }
        let none = String::new();
        self.revise(id, none.as_str());
        Ok(())
    }

    /// Records the outcome of deleting the directory of a plugin that `tab`
    /// lists as installed. After a deletion that succeeded the plugin is
    /// available again: under the category of the tab, or, under the tab of
    /// all installed plugins, under every category where it was installed.
    /// After a deletion that failed nothing changes.
    pub fn remove(&mut self, tab: WindowTab, id: &str, removed: bool) -> (result: Result<
        (),
        RemoveError,
    >)
        ensures
            old(self).wf() ==> final(self).wf(),
            same_catalog(old(self)@, final(self)@),
            match result {
                Ok(()) => removed && removed_by(old(self)@, final(self)@, tab, id@),
                Err(RemoveError::NotInstalled) => !members(old(self)@, tab, true).contains(id@)
                    && final(self)@ == old(self)@,
                Err(RemoveError::RemoveFailed) => !removed && members(old(self)@, tab, true).contains(
                    id@,
                ) && final(self)@ == old(self)@,
            },
    {
        if !self.has(tab, id, true) {
            return Err(RemoveError::NotInstalled);
        }
        if !removed {
            return Err(RemoveError::RemoveFailed);
        }
        proof {
            lemma_moved(self@, tab, id@, false);
        }
        self.mark(tab, id, false);
        Ok(())
    }

    /// Records the results of a scan for newer remote revisions, each an
    /// identifier with the revision found for it (empty where none was
    /// found). A revision is recorded only for a plugin that is installed;
    /// no plugin is added, removed or moved.
    pub fn record_scan(&mut self, results: &Vec<(String, String)>)
        ensures
            old(self).wf() ==> final(self).wf(),
            same_standing(old(self)@, final(self)@),
            final(self)@ == recorded(old(self)@, scan_views(results@)),
    {
        let ghost all = scan_views(results@);
        let mut i: usize = 0;
        while i < results.len()
            invariant
                i <= results.len(),
                all == scan_views(results@),
                self@ == recorded(old(self)@, all.take(i as int)),
            decreases results.len() - i,
        {
            proof {
                assert(all.take(i + 1).drop_last() =~= all.take(i as int));
                assert(all.take(i + 1).last() == all[i as int]);
            }
            self.revise(results[i].0.as_str(), results[i].1.as_str());
            i = i + 1;
        }
        proof {
            assert(all.take(results@.len() as int) =~= all);
            lemma_recorded(old(self)@, all);
        }
    }
}

/// Within a category every plugin of the catalog is either installed or
/// available, and never both.
pub proof fn lemma_partition(inventory: Inventory, category: Category)
    requires
        inventory.wf(),
    ensures
        installed_set(inventory@, category).disjoint(available_set(inventory@, category)),
        installed_set(inventory@, category).union(available_set(inventory@, category))
            == catalog_set(inventory@, category),
{
    let m = inventory@;
    let tab = tab_of(category);
    assert forall|id: Seq<char>|
        !(installed_set(m, category).contains(id) && available_set(m, category).contains(
            id,
        )) by {
        if installed_set(m, category).contains(id) && available_set(m, category).contains(id) {
            let i = choose|k: int|
                0 <= k < m.len() && (#[trigger] m[k]).plugin.path == id && listed(m[k], tab, true);
            let a = choose|k: int|
                0 <= k < m.len() && (#[trigger] m[k]).plugin.path == id && listed(
                    m[k],
                    tab,
                    false,
                );
            lemma_one_entry(m, i, a);
        }
    }
    assert forall|id: Seq<char>|
        installed_set(m, category).union(available_set(m, category)).contains(id)
            <==> catalog_set(m, category).contains(id) by {
        if installed_set(m, category).contains(id) {
            let k = choose|k: int|
                0 <= k < m.len() && (#[trigger] m[k]).plugin.path == id && listed(m[k], tab, true);
            assert(m[k].category == category);
        }
        if available_set(m, category).contains(id) {
            let k = choose|k: int|
                0 <= k < m.len() && (#[trigger] m[k]).plugin.path == id && listed(
                    m[k],
                    tab,
                    false,
                );
            assert(m[k].category == category);
        }
        if catalog_set(m, category).contains(id) {
            let k = choose|k: int|
                0 <= k < m.len() && (#[trigger] m[k]).plugin.path == id && m[k].category
                    == category;
            assert(listed(m[k], tab, true) || listed(m[k], tab, false));
        }
    }
    assert(installed_set(m, category).union(available_set(m, category)) =~= catalog_set(
        m,
        category,
    ));
}

/// The installed plugins of all categories are those of the three
/// categories taken together, and the list of them names each once.
pub proof fn lemma_all_installed(inventory: Inventory)
    requires
        inventory.wf(),
    ensures
        all_installed_set(inventory@) == installed_set(inventory@, Category::Themes).union(
            installed_set(inventory@, Category::StatusBar),
        ).union(installed_set(inventory@, Category::Plugins)),
        inventory.persisted_ids().no_duplicates(),
        ascending(inventory.persisted_ids()),
        inventory.persisted_ids().to_set() == all_installed_set(inventory@),
{
    let m = inventory@;
    let union = installed_set(m, Category::Themes).union(
        installed_set(m, Category::StatusBar),
    ).union(installed_set(m, Category::Plugins));
    assert forall|id: Seq<char>| all_installed_set(m).contains(id) <==> union.contains(id) by {
        if all_installed_set(m).contains(id) {
            let k = choose|k: int|
                0 <= k < m.len() && (#[trigger] m[k]).plugin.path == id && listed(
                    m[k],
                    WindowTab::All,
                    true,
                );
            assert(listed(m[k], tab_of(m[k].category), true));
            assert(installed_set(m, m[k].category).contains(id));
        }
        if union.contains(id) {
            let category = if installed_set(m, Category::Themes).contains(id) {
                Category::Themes
            } else if installed_set(m, Category::StatusBar).contains(id) {
                Category::StatusBar
            } else {
                Category::Plugins
            };
            let k = choose|k: int|
                0 <= k < m.len() && (#[trigger] m[k]).plugin.path == id && listed(
                    m[k],
                    tab_of(category),
                    true,
                );
            assert(listed(m[k], WindowTab::All, true));
        }
    }
    assert(all_installed_set(m) =~= union);
    lemma_listing_ascending(m, WindowTab::All, true);
    lemma_listing_members(m, WindowTab::All, true);
}

/// Without a query a list ascends by identifier and names exactly the
/// plugins that belong to it.
pub proof fn lemma_plain_views(inventory: Inventory, tab: WindowTab)
    requires
        inventory.wf(),
    ensures
        ascending(inventory.installed_ids(tab, Seq::empty())),
        ascending(inventory.available_ids(tab, Seq::empty())),
        inventory.installed_ids(tab, Seq::empty()).to_set() == members(inventory@, tab, true),
        inventory.available_ids(tab, Seq::empty()).to_set() == members(inventory@, tab, false),
{
    lemma_listing_ascending(inventory@, tab, true);
    lemma_listing_ascending(inventory@, tab, false);
    lemma_listing_members(inventory@, tab, true);
    lemma_listing_members(inventory@, tab, false);
}

/// Asking twice for a view of the same inventory with the same query gives
/// the same identifiers in the same order.
pub proof fn lemma_views_repeat(
    inventory: Inventory,
    tab: WindowTab,
    query: Seq<char>,
    first: Seq<String>,
    second: Seq<String>,
    installed: bool,
)
    requires
        texts(first) == (if installed {
            inventory.installed_ids(tab, query)
        } else {
            inventory.available_ids(tab, query)
        }),
        texts(second) == (if installed {
            inventory.installed_ids(tab, query)
        } else {
            inventory.available_ids(tab, query)
        }),
    ensures
        texts(first) == texts(second),
        first.len() == second.len(),
        forall|i: int| 0 <= i < first.len() ==> (#[trigger] first[i])@ == second[i]@,
{
    assert(texts(first).len() == first.len());
    assert(texts(second).len() == second.len());
    assert forall|i: int| 0 <= i < first.len() implies (#[trigger] first[i])@ == second[i]@ by {
        assert(texts(first)[i] == first[i]@);
        assert(texts(second)[i] == second[i]@);
    }
}

/// After a plugin has been installed, the installed list of its tab names it
/// and the available list does not. After it has then been removed, it is
/// the other way round, the persisted identifiers are exactly those of the
/// installed plugins, and the inventory is as it was before the two.
pub proof fn lemma_install_then_remove(
    before: Inventory,
    between: Inventory,
    after: Inventory,
    tab: WindowTab,
    id: Seq<char>,
)
    requires
        before.wf(),
        installed_by(before@, between@, tab, id),
        removed_by(between@, after@, tab, id),
    ensures
        between.installed_ids(tab, Seq::empty()).contains(id),
        !between.available_ids(tab, Seq::empty()).contains(id),
        after.available_ids(tab, Seq::empty()).contains(id),
        !after.installed_ids(tab, Seq::empty()).contains(id),
        after.persisted_ids().to_set() == all_installed_set(after@),
        after@ == before@,
{
    let m0 = before@;
    let m1 = between@;
    let m2 = after@;
    let k = choose|k: int|
        0 <= k < m0.len() && (#[trigger] m0[k]).plugin.path == id && listed(m0[k], tab, false);
    lemma_moved(m0, tab, id, true);
    lemma_moved(m1, tab, id, false);
    assert forall|j: int| 0 <= j < m0.len() implies m2[j] == m0[j] by {
        if m0[j].plugin.path == id && m0[j].category == m0[k].category {
            lemma_one_entry(m0, j, k);
        }
    }
    assert(m2 =~= m0);
    lemma_listing_members(m1, tab, true);
    lemma_listing_members(m1, tab, false);
    lemma_listing_members(m2, tab, true);
    lemma_listing_members(m2, tab, false);
    lemma_listing_members(m2, WindowTab::All, true);
    assert(members(m1, tab, true).contains(id));
    assert(!members(m1, tab, false).contains(id));
    assert(members(m2, tab, false).contains(id));
    assert(!members(m2, tab, true).contains(id));
}

} // verus!
