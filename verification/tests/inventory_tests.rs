use tmuxedo::catalog::{Catalog, Category};
use tmuxedo::inventory::{InstallError, Inventory, RemoveError, UpdateError};
use tmuxedo::tui::WindowTab;

fn strings(items: &[&str]) -> Vec<String> {
    items.iter().map(|s| s.to_string()).collect()
}

fn catalog() -> Catalog {
    Catalog {
        themes: strings(&["catppuccin/tmux", "dracula/tmux", "arcticicestudio/nord-tmux"]),
        status_bars: strings(&["erikw/tmux-powerline", "vaaleyard/tmux-dotbar"]),
        plugins: strings(&["tmux-plugins/tmux-sensible", "tmux-plugins/tmux-yank", "christoomey/vim-tmux-navigator"]),
    }
}

fn inventory() -> Inventory {
    Inventory::new(
        &catalog(),
        &strings(&["dracula/tmux", "tmux-plugins/tmux-yank", "erikw/tmux-powerline", "someone/unknown"]),
    )
}

const TABS: [WindowTab; 3] = [WindowTab::Themes, WindowTab::StatusBar, WindowTab::Plugins];

#[test]
fn new_classifies_every_catalog_entry() {
    let inv = inventory();
    assert_eq!(inv.len(), 8);
    assert_eq!(inv.installed_view(WindowTab::Themes, ""), strings(&["dracula/tmux"]));
    assert_eq!(
        inv.available_view(WindowTab::Themes, ""),
        strings(&["arcticicestudio/nord-tmux", "catppuccin/tmux"])
    );
    assert_eq!(inv.installed_view(WindowTab::StatusBar, ""), strings(&["erikw/tmux-powerline"]));
    assert_eq!(inv.available_view(WindowTab::StatusBar, ""), strings(&["vaaleyard/tmux-dotbar"]));
    assert_eq!(inv.installed_view(WindowTab::Plugins, ""), strings(&["tmux-plugins/tmux-yank"]));
    assert_eq!(
        inv.available_view(WindowTab::Plugins, ""),
        strings(&["christoomey/vim-tmux-navigator", "tmux-plugins/tmux-sensible"])
    );
}

#[test]
fn new_leaves_out_what_the_catalog_does_not_know() {
    let inv = inventory();
    assert!(inv.plugin("someone/unknown").is_none());
    assert!(!inv.persisted_lines().contains(&"someone/unknown".to_string()));
}

#[test]
fn new_plugins_are_fresh() {
    let inv = inventory();
    let p = inv.plugin("dracula/tmux").unwrap();
    assert_eq!(p.path, "dracula/tmux");
    assert_eq!(p.commit_hash, "");
    assert!(p.is_up_to_date);
    assert!(!p.has_update());
}

#[test]
fn an_identifier_is_a_plugin_of_every_category_that_lists_it() {
    let catalog = Catalog {
        themes: strings(&["a/shared", "a/theme"]),
        status_bars: strings(&["a/shared", "a/bar", "a/bar"]),
        plugins: strings(&["a/bar", "a/plugin", "a/theme"]),
    };
    let mut inv = Inventory::new(&catalog, &strings(&["a/shared", "a/bar"]));
    assert_eq!(inv.len(), 7);
    assert!(inv.is_well_formed());
    assert_eq!(inv.installed_view(WindowTab::Themes, ""), strings(&["a/shared"]));
    assert_eq!(inv.available_view(WindowTab::Themes, ""), strings(&["a/theme"]));
    assert_eq!(inv.installed_view(WindowTab::StatusBar, ""), strings(&["a/bar", "a/shared"]));
    assert_eq!(inv.available_view(WindowTab::StatusBar, ""), Vec::<String>::new());
    assert_eq!(inv.installed_view(WindowTab::Plugins, ""), strings(&["a/bar"]));
    assert_eq!(inv.available_view(WindowTab::Plugins, ""), strings(&["a/plugin", "a/theme"]));
    assert_eq!(inv.installed_view(WindowTab::All, ""), strings(&["a/bar", "a/shared"]));
    assert_eq!(inv.persisted_lines(), strings(&["a/bar", "a/shared"]));
    assert_eq!(inv.owner("a/shared"), Some(Category::Themes));
    assert_eq!(inv.owner("a/bar"), Some(Category::StatusBar));
    assert_eq!(inv.owner("a/plugin"), None);

    // a move under a category touches that category alone
    assert_eq!(inv.remove(WindowTab::Themes, "a/shared", true), Ok(()));
    assert_eq!(inv.installed_view(WindowTab::Themes, ""), Vec::<String>::new());
    assert_eq!(inv.available_view(WindowTab::Themes, ""), strings(&["a/shared", "a/theme"]));
    assert_eq!(inv.installed_view(WindowTab::StatusBar, ""), strings(&["a/bar", "a/shared"]));
    assert_eq!(inv.installed_view(WindowTab::All, ""), strings(&["a/bar", "a/shared"]));
    assert_eq!(inv.owner("a/shared"), Some(Category::StatusBar));
    assert_eq!(inv.install(WindowTab::Plugins, "a/theme", true), Ok(()));
    assert_eq!(inv.available_view(WindowTab::Themes, ""), strings(&["a/shared", "a/theme"]));
    assert_eq!(inv.installed_view(WindowTab::Plugins, ""), strings(&["a/bar", "a/theme"]));

    // a removal under the tab of all installed plugins touches every category
    assert_eq!(inv.remove(WindowTab::All, "a/bar", true), Ok(()));
    assert_eq!(inv.installed_view(WindowTab::StatusBar, ""), strings(&["a/shared"]));
    assert_eq!(inv.available_view(WindowTab::StatusBar, ""), strings(&["a/bar"]));
    assert_eq!(inv.installed_view(WindowTab::Plugins, ""), strings(&["a/theme"]));
    assert_eq!(inv.available_view(WindowTab::Plugins, ""), strings(&["a/bar", "a/plugin"]));
    assert_eq!(inv.installed_view(WindowTab::All, ""), strings(&["a/shared", "a/theme"]));
    assert!(inv.is_well_formed());
}

#[test]
fn shared_identifiers_keep_the_partition_of_every_category() {
    let catalog = Catalog {
        themes: strings(&["a/x", "a/t"]),
        status_bars: strings(&["a/x", "a/s"]),
        plugins: strings(&["a/x"]),
    };
    for persisted in [strings(&[]), strings(&["a/x"]), strings(&["a/x", "a/t", "a/s"])] {
        let inv = Inventory::new(&catalog, &persisted);
        let lists = [&catalog.themes, &catalog.status_bars, &catalog.plugins];
        for (tab, list) in TABS.iter().zip(lists.iter()) {
            let installed = inv.installed_view(*tab, "");
            let available = inv.available_view(*tab, "");
            for id in list.iter() {
                assert!(installed.contains(id) != available.contains(id));
            }
            for id in installed.iter().chain(available.iter()) {
                assert!(list.contains(id));
            }
            assert_eq!(installed.len() + available.len(), list.len());
        }
    }
}

#[test]
fn a_revision_is_recorded_wherever_the_plugin_is_installed() {
    let catalog = Catalog {
        themes: strings(&["a/x"]),
        status_bars: strings(&["a/x"]),
        plugins: strings(&["a/y"]),
    };
    let mut inv = Inventory::new(&catalog, &strings(&[]));
    assert_eq!(inv.install(WindowTab::StatusBar, "a/x", true), Ok(()));
    inv.record_scan(&vec![("a/x".to_string(), "abc1234".to_string())]);
    assert_eq!(inv.plugin("a/x").unwrap().commit_hash, "abc1234");
    assert!(!inv.plugin("a/x").unwrap().is_up_to_date);
    assert_eq!(inv.update(WindowTab::Themes, "a/x", true), Err(UpdateError::NotInstalled));
    assert_eq!(inv.update(WindowTab::All, "a/x", true), Ok(()));
    assert_eq!(inv.plugin("a/x").unwrap().commit_hash, "");
    assert_eq!(inv.plugin("a/y").unwrap().commit_hash, "");
    assert!(inv.plugin("a/z").is_none());
}

#[test]
fn installed_and_available_partition_the_catalog() {
    let catalog = catalog();
    let mut inv = inventory();
    let lists = [&catalog.themes, &catalog.status_bars, &catalog.plugins];
    for round in 0..3 {
        for (tab, list) in TABS.iter().zip(lists.iter()) {
            let installed = inv.installed_view(*tab, "");
            let available = inv.available_view(*tab, "");
            for id in list.iter() {
                assert!(installed.contains(id) != available.contains(id));
            }
            assert_eq!(installed.len() + available.len(), list.len());
        }
        if round == 0 {
            assert_eq!(inv.install(WindowTab::Themes, "catppuccin/tmux", true), Ok(()));
        } else if round == 1 {
            assert_eq!(inv.remove(WindowTab::All, "erikw/tmux-powerline", true), Ok(()));
        }
    }
}

#[test]
fn all_installed_is_the_union_of_the_categories() {
    let mut inv = inventory();
    for round in 0..3 {
        let all = inv.installed_view(WindowTab::All, "");
        let mut union: Vec<String> = Vec::new();
        for tab in TABS.iter() {
            union.extend(inv.installed_view(*tab, ""));
        }
        union.sort();
        assert_eq!(all, union);
        let mut deduped = all.clone();
        deduped.dedup();
        assert_eq!(all, deduped);
        assert_eq!(inv.persisted_lines(), all);
        if round == 0 {
            assert_eq!(inv.install(WindowTab::Plugins, "tmux-plugins/tmux-sensible", true), Ok(()));
        } else if round == 1 {
            assert_eq!(inv.remove(WindowTab::Themes, "dracula/tmux", true), Ok(()));
        }
    }
}

#[test]
fn all_installed_ascends() {
    let inv = inventory();
    assert_eq!(
        inv.installed_view(WindowTab::All, ""),
        strings(&["dracula/tmux", "erikw/tmux-powerline", "tmux-plugins/tmux-yank"])
    );
}

#[test]
fn the_tab_of_all_installed_offers_nothing() {
    let inv = inventory();
    assert_eq!(inv.available_view(WindowTab::All, ""), Vec::<String>::new());
    assert_eq!(inv.available_view(WindowTab::All, "tmux"), Vec::<String>::new());
}

#[test]
fn views_repeat() {
    let inv = inventory();
    for tab in [WindowTab::All, WindowTab::Themes, WindowTab::StatusBar, WindowTab::Plugins] {
        for query in ["", "tmux", "t", "zzz"] {
            assert_eq!(inv.installed_view(tab, query), inv.installed_view(tab, query));
            assert_eq!(inv.available_view(tab, query), inv.available_view(tab, query));
        }
    }
}

#[test]
fn install_then_remove_round_trip() {
    let mut inv = inventory();
    let before_installed = inv.installed_view(WindowTab::Themes, "");
    let before_available = inv.available_view(WindowTab::Themes, "");
    let x = "catppuccin/tmux".to_string();

    assert_eq!(inv.install(WindowTab::Themes, &x, true), Ok(()));
    assert!(inv.installed_view(WindowTab::Themes, "").contains(&x));
    assert!(!inv.available_view(WindowTab::Themes, "").contains(&x));
    assert!(inv.persisted_lines().contains(&x));
    assert_eq!(inv.owner(&x), Some(Category::Themes));

    assert_eq!(inv.remove(WindowTab::Themes, &x, true), Ok(()));
    assert!(!inv.installed_view(WindowTab::Themes, "").contains(&x));
    assert!(inv.available_view(WindowTab::Themes, "").contains(&x));
    assert_eq!(
        inv.persisted_lines(),
        strings(&["dracula/tmux", "erikw/tmux-powerline", "tmux-plugins/tmux-yank"])
    );
    assert_eq!(inv.persisted_lines(), inv.installed_view(WindowTab::All, ""));
    assert_eq!(inv.installed_view(WindowTab::Themes, ""), before_installed);
    assert_eq!(inv.available_view(WindowTab::Themes, ""), before_available);
}

#[test]
fn install_keeps_the_list_sorted() {
    let mut inv = inventory();
    assert_eq!(inv.install(WindowTab::Themes, "arcticicestudio/nord-tmux", true), Ok(()));
    assert_eq!(
        inv.installed_view(WindowTab::Themes, ""),
        strings(&["arcticicestudio/nord-tmux", "dracula/tmux"])
    );
    assert_eq!(
        inv.installed_view(WindowTab::All, ""),
        strings(&[
            "arcticicestudio/nord-tmux",
            "dracula/tmux",
            "erikw/tmux-powerline",
            "tmux-plugins/tmux-yank"
        ])
    );
}

#[test]
fn install_after_a_failed_clone_changes_nothing() {
    let mut inv = inventory();
    let installed = inv.installed_view(WindowTab::All, "");
    let available = inv.available_view(WindowTab::Themes, "");
    assert_eq!(
        inv.install(WindowTab::Themes, "catppuccin/tmux", false),
        Err(InstallError::CloneFailed)
    );
    assert_eq!(inv.installed_view(WindowTab::All, ""), installed);
    assert_eq!(inv.available_view(WindowTab::Themes, ""), available);
}

#[test]
fn install_of_what_the_tab_does_not_offer_is_refused() {
    let mut inv = inventory();
    let installed = inv.installed_view(WindowTab::All, "");
    // installed already
    assert_eq!(inv.install(WindowTab::Themes, "dracula/tmux", true), Err(InstallError::NotAvailable));
    // of another category
    assert_eq!(
        inv.install(WindowTab::Themes, "tmux-plugins/tmux-sensible", true),
        Err(InstallError::NotAvailable)
    );
    // the tab of all installed plugins offers nothing
    assert_eq!(inv.install(WindowTab::All, "catppuccin/tmux", true), Err(InstallError::NotAvailable));
    // unknown
    assert_eq!(inv.install(WindowTab::Plugins, "no/such", true), Err(InstallError::NotAvailable));
    // not offered goes before a failed clone
    assert_eq!(inv.install(WindowTab::Plugins, "no/such", false), Err(InstallError::NotAvailable));
    assert_eq!(inv.installed_view(WindowTab::All, ""), installed);
}

#[test]
fn remove_from_the_tab_of_all_installed_finds_the_owner() {
    let mut inv = inventory();
    assert_eq!(inv.remove(WindowTab::All, "tmux-plugins/tmux-yank", true), Ok(()));
    assert_eq!(inv.installed_view(WindowTab::Plugins, ""), Vec::<String>::new());
    assert_eq!(
        inv.available_view(WindowTab::Plugins, ""),
        strings(&["christoomey/vim-tmux-navigator", "tmux-plugins/tmux-sensible", "tmux-plugins/tmux-yank"])
    );
    assert_eq!(inv.installed_view(WindowTab::All, ""), strings(&["dracula/tmux", "erikw/tmux-powerline"]));
}

#[test]
fn remove_errors() {
    let mut inv = inventory();
    let installed = inv.installed_view(WindowTab::All, "");
    assert_eq!(inv.remove(WindowTab::All, "catppuccin/tmux", true), Err(RemoveError::NotInstalled));
    assert_eq!(inv.remove(WindowTab::All, "no/such", true), Err(RemoveError::NotInstalled));
    assert_eq!(inv.remove(WindowTab::Plugins, "dracula/tmux", true), Err(RemoveError::NotInstalled));
    assert_eq!(inv.remove(WindowTab::Themes, "dracula/tmux", false), Err(RemoveError::RemoveFailed));
    assert_eq!(inv.installed_view(WindowTab::All, ""), installed);
}

#[test]
fn update_clears_the_recorded_revision() {
    let mut inv = inventory();
    inv.record_scan(&vec![("dracula/tmux".to_string(), "abc1234".to_string())]);
    let p = inv.plugin("dracula/tmux").unwrap();
    assert_eq!(p.commit_hash, "abc1234");
    assert!(!p.is_up_to_date);

    assert_eq!(inv.update(WindowTab::Themes, "dracula/tmux", false), Err(UpdateError::PullFailed));
    let p = inv.plugin("dracula/tmux").unwrap();
    assert_eq!(p.commit_hash, "abc1234");
    assert!(!p.is_up_to_date);

    assert_eq!(inv.update(WindowTab::All, "dracula/tmux", true), Ok(()));
    let p = inv.plugin("dracula/tmux").unwrap();
    assert_eq!(p.commit_hash, "");
    assert!(p.is_up_to_date);
}

#[test]
fn update_errors() {
    let mut inv = inventory();
    assert_eq!(inv.update(WindowTab::Themes, "catppuccin/tmux", true), Err(UpdateError::NotInstalled));
    assert_eq!(inv.update(WindowTab::Plugins, "dracula/tmux", true), Err(UpdateError::NotInstalled));
    assert_eq!(inv.update(WindowTab::All, "no/such", true), Err(UpdateError::NotInstalled));
    assert_eq!(inv.update(WindowTab::All, "dracula/tmux", false), Err(UpdateError::PullFailed));
}

#[test]
fn record_scan_sets_revisions_of_installed_plugins_only() {
    let mut inv = inventory();
    let installed = inv.installed_view(WindowTab::All, "");
    let available: Vec<Vec<String>> = TABS.iter().map(|t| inv.available_view(*t, "")).collect();
    inv.record_scan(&vec![
        ("dracula/tmux".to_string(), "1111111".to_string()),
        ("catppuccin/tmux".to_string(), "2222222".to_string()),
        ("no/such".to_string(), "3333333".to_string()),
        ("erikw/tmux-powerline".to_string(), "".to_string()),
    ]);
    assert_eq!(inv.installed_view(WindowTab::All, ""), installed);
    for (t, a) in TABS.iter().zip(available.iter()) {
        assert_eq!(&inv.available_view(*t, ""), a);
    }
    assert_eq!(inv.len(), 8);
    assert_eq!(inv.plugin("dracula/tmux").unwrap().commit_hash, "1111111");
    assert!(!inv.plugin("dracula/tmux").unwrap().is_up_to_date);
    assert_eq!(inv.plugin("catppuccin/tmux").unwrap().commit_hash, "");
    assert!(inv.plugin("catppuccin/tmux").unwrap().is_up_to_date);
    assert!(inv.plugin("no/such").is_none());
    assert_eq!(inv.plugin("erikw/tmux-powerline").unwrap().commit_hash, "");
    assert!(inv.plugin("erikw/tmux-powerline").unwrap().is_up_to_date);
    assert_eq!(inv.plugin("tmux-plugins/tmux-yank").unwrap().commit_hash, "");
}

#[test]
fn record_scan_takes_results_in_order() {
    let mut inv = inventory();
    inv.record_scan(&vec![
        ("dracula/tmux".to_string(), "1111111".to_string()),
        ("dracula/tmux".to_string(), "2222222".to_string()),
    ]);
    assert_eq!(inv.plugin("dracula/tmux").unwrap().commit_hash, "2222222");
}

#[test]
fn an_empty_catalog_gives_an_empty_inventory() {
    let inv = Inventory::new(
        &Catalog { themes: vec![], status_bars: vec![], plugins: vec![] },
        &strings(&["a/b"]),
    );
    assert_eq!(inv.len(), 0);
    assert_eq!(inv.installed_view(WindowTab::All, ""), Vec::<String>::new());
    assert_eq!(inv.persisted_lines(), Vec::<String>::new());
}

#[test]
fn the_inventory_stays_in_order() {
    let mut inv = inventory();
    assert!(inv.is_well_formed());
    assert_eq!(inv.install(WindowTab::Themes, "catppuccin/tmux", true), Ok(()));
    assert!(inv.is_well_formed());
    assert_eq!(inv.remove(WindowTab::All, "dracula/tmux", true), Ok(()));
    assert!(inv.is_well_formed());
    assert_eq!(inv.update(WindowTab::All, "catppuccin/tmux", true), Ok(()));
    inv.record_scan(&vec![("catppuccin/tmux".to_string(), "abcdef0".to_string())]);
    assert!(inv.is_well_formed());
    let unsorted = Catalog {
        themes: strings(&["z/z", "a/a", "m/m", "a/a"]),
        status_bars: strings(&["b/b"]),
        plugins: strings(&["y/y", "c/c"]),
    };
    let inv = Inventory::new(&unsorted, &Vec::new());
    assert!(inv.is_well_formed());
    assert_eq!(inv.len(), 6);
    assert_eq!(inv.available_view(WindowTab::Themes, ""), strings(&["a/a", "m/m", "z/z"]));
    let shared = Catalog {
        themes: strings(&["b/b", "a/a"]),
        status_bars: strings(&["a/a", "b/b"]),
        plugins: strings(&["a/a"]),
    };
    let inv = Inventory::new(&shared, &strings(&["a/a"]));
    assert!(inv.is_well_formed());
    assert_eq!(inv.len(), 5);
    assert_eq!(inv.installed_view(WindowTab::All, ""), strings(&["a/a"]));
    assert_eq!(inv.available_view(WindowTab::Themes, ""), strings(&["b/b"]));
}
