use tmuxedo::cli::{Cli, Commands, RunMode};
use tmuxedo::inventory::Inventory;
use tmuxedo::catalog::Catalog;
use tmuxedo::plugins::{
    check_arguments, clone_arguments, is_plugin_script, new_revision, parse_plugin_line,
    pull_arguments, remote_url, revision_or_empty, scan, submodule_arguments, Plugin, ScanOutcome,
};
use tmuxedo::tmux::TmuxCommand;
use tmuxedo::tmuxedo::{
    ensure_structure, line_plugin, origin_matches, plugin_origin_matches_repo_name, prune_decision,
    prune_mismatched_remote_origins, source_action, OriginError, Path, SourceAction, Step,
};
use tmuxedo::tui::WindowTab;
use tmuxedo::utils::{chars_of, ends_with, is_whitespace, split_words, str_eq, str_lt};

fn strings(items: &[&str]) -> Vec<String> {
    items.iter().map(|s| s.to_string()).collect()
}

const SAMPLES: [&str; 14] = [
    "",
    "a",
    "A",
    "ab",
    "abc",
    "abd",
    "b",
    "owner/repo",
    "owner/repo2",
    "owner_repo",
    "z",
    "é",
    "日本",
    "\u{10348}",
];

#[test]
fn str_lt_is_the_order_of_strings() {
    for a in SAMPLES {
        for b in SAMPLES {
            assert_eq!(str_lt(a, b), a < b, "{a:?} {b:?}");
        }
    }
}

#[test]
fn str_eq_is_equality() {
    for a in SAMPLES {
        for b in SAMPLES {
            assert_eq!(str_eq(a, b), a == b, "{a:?} {b:?}");
        }
    }
}

#[test]
fn chars_of_gives_the_characters() {
    for a in SAMPLES {
        assert_eq!(chars_of(a), a.chars().collect::<Vec<char>>());
    }
}

#[test]
fn ends_with_is_suffix() {
    assert!(ends_with("plugins.conf", "plugins.conf"));
    assert!(ends_with("/home/u/.config/tmux/tmuxedo/plugins.conf", "plugins.conf"));
    assert!(!ends_with("lugins.conf", "plugins.conf"));
    assert!(!ends_with("plugins.conf.bak", "plugins.conf"));
    assert!(ends_with("anything", ""));
    assert!(ends_with("", ""));
    assert!(!ends_with("", "a"));
    assert!(ends_with("日本", "本"));
    for a in SAMPLES {
        for b in SAMPLES {
            assert_eq!(ends_with(a, b), a.ends_with(b), "{a:?} {b:?}");
        }
    }
}

#[test]
fn is_whitespace_is_unicode_white_space() {
    let mut c = 0u32;
    while c <= 0x3100 {
        if let Some(ch) = char::from_u32(c) {
            assert_eq!(is_whitespace(ch), ch.is_whitespace(), "{c:#x}");
        }
        c += 1;
    }
    assert!(!is_whitespace('\u{feff}'));
    assert!(!is_whitespace('\u{10348}'));
}

#[test]
fn split_words_splits_at_white_space() {
    for text in [
        "",
        " ",
        "a",
        " a",
        "a ",
        "owner/repo",
        "owner/repo main",
        "  owner/repo \t main  ",
        "a b c",
        "a\nb",
        "a\u{3000}b\u{a0}c",
        "日本 語",
        "\t\t",
    ] {
        let expected: Vec<String> = text.split_whitespace().map(|w| w.to_string()).collect();
        assert_eq!(split_words(text), expected, "{text:?}");
    }
}

#[test]
fn plugin_equality_ignores_the_recorded_revision() {
    let mut a = Plugin::new("owner/repo".to_string());
    let b = Plugin::new("owner/repo".to_string());
    assert_eq!(a.path, "owner/repo");
    assert_eq!(a.commit_hash, "");
    assert!(a.is_up_to_date);
    a.set_commit_hash("abc1234".to_string());
    assert_eq!(a.commit_hash, "abc1234");
    assert_eq!(a.path, "owner/repo");
    assert!(a.is_up_to_date);
    assert!(a.has_update());
    assert!(!b.has_update());
    assert!(a == b);
    a.is_up_to_date = false;
    assert!(a != b);
    let c = Plugin::new("owner/other".to_string());
    assert!(b != c);
}

#[test]
fn remote_url_is_prefix_and_identifier() {
    assert_eq!(remote_url("owner/repo"), "https://git::@github.com/owner/repo");
    assert_eq!(remote_url(""), "https://git::@github.com/");
}

#[test]
fn clone_arguments_without_branch() {
    assert_eq!(
        clone_arguments("owner/repo", None),
        strings(&[
            "clone",
            "--single-branch",
            "--recursive",
            "https://git::@github.com/owner/repo",
            "owner_repo"
        ])
    );
}

#[test]
fn clone_arguments_with_branch() {
    assert_eq!(
        clone_arguments("owner/repo", Some("dev")),
        strings(&[
            "clone",
            "-b",
            "dev",
            "--single-branch",
            "--recursive",
            "https://git::@github.com/owner/repo",
            "owner_repo"
        ])
    );
}

#[test]
fn other_git_arguments() {
    assert_eq!(pull_arguments(), strings(&["pull"]));
    assert_eq!(submodule_arguments(), strings(&["submodule", "update", "--init", "--recursive"]));
    assert_eq!(check_arguments(), strings(&["pull", "--dry-run"]));
}

#[test]
fn parse_plugin_line_reads_plugin_and_branch() {
    assert_eq!(parse_plugin_line(""), None);
    assert_eq!(parse_plugin_line("   \t"), None);
    assert_eq!(parse_plugin_line("owner/repo"), Some(("owner/repo".to_string(), None)));
    assert_eq!(
        parse_plugin_line("  owner/repo   main "),
        Some(("owner/repo".to_string(), Some("main".to_string())))
    );
    assert_eq!(parse_plugin_line("owner/repo main extra"), Some(("owner/repo".to_string(), None)));
    assert_eq!(line_plugin("owner/repo main"), Some("owner/repo".to_string()));
    assert_eq!(line_plugin(" "), None);
}

#[test]
fn is_plugin_script_goes_by_the_ending() {
    assert!(is_plugin_script("/p/owner_repo/main.tmux"));
    assert!(is_plugin_script(".tmux"));
    assert!(!is_plugin_script("/p/owner_repo/main.tmux.bak"));
    assert!(!is_plugin_script("/p/owner_repo/tmux"));
    assert!(!is_plugin_script(""));
}

#[test]
fn new_revision_reads_the_second_revision() {
    assert_eq!(
        new_revision("From https://github.com/owner/repo\n   abc1234..def5678  main       -> origin/main\n"),
        "def5678"
    );
    assert_eq!(new_revision("abc1234..def5678"), "def5678");
    assert_eq!(new_revision("0000000..1111111 2222222..3333333"), "1111111");
    assert_eq!(new_revision("xabc1234..def56789"), "def5678");
}

#[test]
fn new_revision_is_empty_without_a_pair() {
    assert_eq!(new_revision(""), "");
    assert_eq!(new_revision("Already up to date."), "");
    assert_eq!(new_revision("abc123..def5678"), "");
    assert_eq!(new_revision("abc1234.def5678"), "");
    assert_eq!(new_revision("abc1234...def5678"), "");
    assert_eq!(new_revision("ABC1234..DEF5678"), "");
    assert_eq!(new_revision("abc1234..def567g"), "");
}

#[test]
fn revision_or_empty_unwraps() {
    assert_eq!(revision_or_empty(Some("def5678".to_string())), "def5678");
    assert_eq!(revision_or_empty(None), "");
}

#[test]
fn concurrent_scan() {
    let catalog = Catalog {
        themes: strings(&["o/one", "o/two"]),
        status_bars: strings(&["o/three"]),
        plugins: strings(&["o/four", "o/five", "o/six"]),
    };
    let installed = strings(&["o/one", "o/two", "o/three", "o/four", "o/five"]);
    let mut inv = Inventory::new(&catalog, &installed);
    let outcomes = vec![
        ("o/one".to_string(), ScanOutcome::Output("   1111111..aaaaaaa  main -> origin/main".to_string())),
        ("o/two".to_string(), ScanOutcome::Output("Already up to date.".to_string())),
        ("o/three".to_string(), ScanOutcome::RepoError),
        ("o/four".to_string(), ScanOutcome::Output("   2222222..bbbbbbb  main -> origin/main".to_string())),
        ("o/five".to_string(), ScanOutcome::Output(String::new())),
    ];
    let results = scan(&outcomes);
    assert_eq!(
        results,
        vec![
            ("o/one".to_string(), "aaaaaaa".to_string()),
            ("o/two".to_string(), String::new()),
            ("o/three".to_string(), String::new()),
            ("o/four".to_string(), "bbbbbbb".to_string()),
            ("o/five".to_string(), String::new()),
        ]
    );
    inv.record_scan(&results);
    assert_eq!(inv.plugin("o/one").unwrap().commit_hash, "aaaaaaa");
    assert_eq!(inv.plugin("o/four").unwrap().commit_hash, "bbbbbbb");
    for id in ["o/two", "o/three", "o/five", "o/six"] {
        assert_eq!(inv.plugin(id).unwrap().commit_hash, "", "{id}");
        assert!(inv.plugin(id).unwrap().is_up_to_date, "{id}");
    }
    assert!(!inv.plugin("o/one").unwrap().is_up_to_date);
    assert!(!inv.plugin("o/four").unwrap().is_up_to_date);
    assert_eq!(inv.installed_view(WindowTab::All, ""), {
        let mut sorted = installed.clone();
        sorted.sort();
        sorted
    });
}

#[test]
fn a_task_that_did_not_finish_counts_as_no_update() {
    let results = scan(&vec![
        ("o/one".to_string(), ScanOutcome::JoinError),
        ("o/two".to_string(), ScanOutcome::Output("abc1234..def5678".to_string())),
    ]);
    assert_eq!(
        results,
        vec![("o/one".to_string(), String::new()), ("o/two".to_string(), "def5678".to_string())]
    );
    assert_eq!(scan(&Vec::new()), Vec::new());
}

#[test]
fn tmux_commands() {
    assert_eq!(TmuxCommand::SourceFile.command(), "source-file");
    assert_eq!(TmuxCommand::RunShell.command(), "run-shell");
    assert_eq!(TmuxCommand::Run.command(), "run");
    assert_eq!(
        TmuxCommand::RunShell.arguments(strings(&["/p/a.tmux", "x"])),
        strings(&["run-shell", "/p/a.tmux", "x"])
    );
    assert_eq!(TmuxCommand::SourceFile.arguments(Vec::new()), strings(&["source-file"]));
}

#[test]
fn paths_from_the_home_directory() {
    assert_eq!(Path::Tmuxedo.relative(), ".config/tmux/tmuxedo");
    assert_eq!(Path::Plugins.relative(), ".config/tmux/plugins");
    assert_eq!(Path::PluginsConfig.relative(), ".config/tmux/tmuxedo/plugins.conf");
    assert_eq!(Path::TmuxedoConfig.relative(), ".config/tmux/tmuxedo/tmuxedo.conf");
    assert_eq!(Path::TmuxConfig.relative(), ".config/tmux/tmux.conf");
}

#[test]
fn the_structure_to_set_up() {
    assert_eq!(
        ensure_structure(),
        vec![
            Step::Directory(Path::Tmuxedo),
            Step::Directory(Path::Plugins),
            Step::File(Path::PluginsConfig, strings(&[""])),
            Step::File(
                Path::TmuxedoConfig,
                strings(&[
                    "unbind r",
                    "bind r run-shell tmuxedo",
                    "bind C-u run-shell 'tmuxedo --update'",
                    "bind C-t display-popup -E 'tmuxedo --tui'",
                ])
            ),
            Step::File(Path::TmuxConfig, strings(&["run-shell 'tmuxedo'"])),
        ]
    );
}

#[test]
fn what_is_done_with_a_configuration_file() {
    assert_eq!(source_action("/h/.config/tmux/tmuxedo/plugins.conf", false), SourceAction::ClonePlugins);
    assert_eq!(source_action("/h/.config/tmux/tmuxedo/plugins.conf", true), SourceAction::PullPlugins);
    assert_eq!(source_action("/h/.config/tmux/tmuxedo/tmuxedo.conf", false), SourceAction::SourceFile);
    assert_eq!(source_action("/h/.config/tmux/tmuxedo/tmuxedo.conf", true), SourceAction::SourceFile);
    assert_eq!(source_action("", true), SourceAction::SourceFile);
}

fn git_config(url: &str) -> String {
    format!(
        "[core]\n\trepositoryformatversion = 0\n\tbare = false\n[remote \"origin\"]\n\turl = {url}\n\tfetch = +refs/heads/*:refs/remotes/origin/*\n[branch \"main\"]\n\tremote = origin\n"
    )
}

#[test]
fn origin_matches_compares_with_the_address_of_the_plugin() {
    assert!(origin_matches(Some("https://git::@github.com/owner/repo".to_string()), "owner/repo"));
    assert!(!origin_matches(Some("https://git::@github.com/owner/other".to_string()), "owner/repo"));
    assert!(!origin_matches(Some("https://github.com/owner/repo".to_string()), "owner/repo"));
    assert!(!origin_matches(Some("owner/repo".to_string()), "owner/repo"));
    assert!(!origin_matches(None, "owner/repo"));
}

#[test]
fn the_origin_is_read_from_the_configuration_of_the_clone() {
    let config = git_config("https://git::@github.com/owner/repo");
    assert_eq!(plugin_origin_matches_repo_name(Some(&config), "owner/repo"), Ok(true));
    assert_eq!(plugin_origin_matches_repo_name(Some(&config), "owner/other"), Ok(false));
    assert_eq!(
        plugin_origin_matches_repo_name(Some("[core]\n\tbare = false\n"), "owner/repo"),
        Ok(false)
    );
    assert_eq!(
        plugin_origin_matches_repo_name(Some("[remote \"origin\"]\n\tfetch = x\n"), "owner/repo"),
        Ok(false)
    );
    assert_eq!(plugin_origin_matches_repo_name(Some(""), "owner/repo"), Ok(false));
}

#[test]
fn origin_errors() {
    assert_eq!(
        plugin_origin_matches_repo_name(None, "owner/repo"),
        Err(OriginError::ConfigReadFailed)
    );
    assert_eq!(
        plugin_origin_matches_repo_name(Some("[remote \"origin\"\nurl = x\n"), "owner/repo"),
        Err(OriginError::ConfigParseFailed)
    );
}

#[test]
fn prune_decision_names_the_directory_of_a_stale_clone() {
    let stale = git_config("https://git::@github.com/someone/else");
    let good = git_config("https://git::@github.com/owner/repo");
    assert_eq!(prune_decision("owner/repo", Some(&stale)), Some("owner_repo".to_string()));
    assert_eq!(prune_decision("  owner/repo  main", Some(&stale)), Some("owner_repo".to_string()));
    assert_eq!(prune_decision("owner/repo", Some(&good)), None);
    assert_eq!(prune_decision("owner/repo", None), None);
    assert_eq!(prune_decision("", Some(&stale)), None);
    assert_eq!(prune_decision("owner/repo", Some("[broken")), None);
}

#[test]
fn prune_goes_through_the_list() {
    let stale = git_config("https://git::@github.com/someone/else");
    let lines = strings(&["a/one", "", "b/two main", "c/three", "d/four"]);
    let configs = vec![
        Some(stale.clone()),
        Some(stale.clone()),
        Some(git_config("https://git::@github.com/b/two")),
        None,
        Some(stale.clone()),
    ];
    assert_eq!(prune_mismatched_remote_origins(&lines, &configs), strings(&["a_one", "d_four"]));
    assert_eq!(
        prune_mismatched_remote_origins(&lines, &configs[..1].to_vec()),
        strings(&["a_one"])
    );
    assert_eq!(
        prune_mismatched_remote_origins(&lines[..1].to_vec(), &configs),
        strings(&["a_one"])
    );
    assert_eq!(prune_mismatched_remote_origins(&Vec::new(), &configs), Vec::<String>::new());
}

#[test]
fn the_mode_of_a_run() {
    let cli = |tui, update, commands| Cli { tui, update, commands };
    let install = || Some(Commands::Install { path: "/tmp".to_string(), branch: None });
    assert_eq!(cli(false, false, None).mode(), RunMode::Sync);
    assert_eq!(cli(false, true, None).mode(), RunMode::Update);
    assert_eq!(cli(true, false, None).mode(), RunMode::Tui);
    assert_eq!(cli(true, true, None).mode(), RunMode::Tui);
    assert_eq!(cli(false, false, install()).mode(), RunMode::Install);
    assert_eq!(cli(false, true, install()).mode(), RunMode::Install);
    assert_eq!(cli(true, false, install()).mode(), RunMode::Tui);
}

#[test]
fn options_that_cannot_stand_together() {
    let cli = |tui, update, commands| Cli { tui, update, commands };
    let install = || Some(Commands::Install { path: ".".to_string(), branch: Some("dev".to_string()) });
    assert!(cli(false, false, None).is_consistent());
    assert!(cli(true, false, None).is_consistent());
    assert!(cli(false, true, None).is_consistent());
    assert!(!cli(true, true, None).is_consistent());
    assert!(cli(false, false, install()).is_consistent());
    assert!(!cli(true, false, install()).is_consistent());
    assert!(!cli(false, true, install()).is_consistent());
}
