//! Where the program keeps its files, what it sets up at start, and what it
//! clears away: clones whose remote is not the plugin they are named after.

use vstd::prelude::*;
use vstd::string::*;

use crate::plugins::{line_request, parse_plugin_line, remote_prefix, remote_url};
use crate::utils::{ends_with, flattened, format_plugin_dir_name, has_suffix, str_eq, texts};

verus! {

/// The files and directories of the program.
#[derive(Debug, Clone, Copy, PartialEq, Eq, Structural)]
pub enum Path {
    /// The directory of the program's own configuration.
    Tmuxedo,
    /// The directory that holds the clones of the plugins.
    Plugins,
    /// The list of installed plugins.
    PluginsConfig,
    /// The program's own tmux configuration.
    TmuxedoConfig,
    /// The user's tmux configuration.
    TmuxConfig,
}

impl Path {
    /// The path, from the home directory.
    pub open spec fn location(self) -> Seq<char> {
        match self {
            Path::Tmuxedo => ".config/tmux/tmuxedo"@,
            Path::Plugins => ".config/tmux/plugins"@,
            Path::PluginsConfig => ".config/tmux/tmuxedo/plugins.conf"@,
            Path::TmuxedoConfig => ".config/tmux/tmuxedo/tmuxedo.conf"@,
            Path::TmuxConfig => ".config/tmux/tmux.conf"@,
        }
    }

    /// The path, from the home directory.
    pub fn relative(&self) -> (path: String)
        ensures
            path@ == self.location(),
    {
        match self {
            Self::Tmuxedo => ".config/tmux/tmuxedo".to_owned(),
            Self::Plugins => ".config/tmux/plugins".to_owned(),
            Self::PluginsConfig => ".config/tmux/tmuxedo/plugins.conf".to_owned(),
            Self::TmuxedoConfig => ".config/tmux/tmuxedo/tmuxedo.conf".to_owned(),
            Self::TmuxConfig => ".config/tmux/tmux.conf".to_owned(),
        }
    }
}

/// One thing to set up at start.
#[derive(Debug, Clone, PartialEq, Eq)]
pub enum Step {
    /// A directory to create, with the directories above it.
    Directory(Path),
    /// A file to create with these lines, unless it exists.
    File(Path, Vec<String>),
}

/// What a [`Step`] stands for in contracts.
pub enum StepView {
    Directory(Path),
    File(Path, Seq<Seq<char>>),
}

impl View for Step {
    type V = StepView;

    open spec fn view(&self) -> StepView {
        match self {
            Step::Directory(path) => StepView::Directory(*path),
            Step::File(path, lines) => StepView::File(*path, texts(lines@)),
        }
    }
}

/// The steps of a list, each by its view.
pub open spec fn steps(list: Seq<Step>) -> Seq<StepView> {
    list.map_values(|s: Step| s@)
}

/// What is set up at start, in this order: the two directories, an empty
/// list of plugins, the program's tmux configuration with its key bindings,
/// and a tmux configuration that runs the program.
pub open spec fn structure() -> Seq<StepView> {
    seq![
        StepView::Directory(Path::Tmuxedo),
        StepView::Directory(Path::Plugins),
        StepView::File(Path::PluginsConfig, seq![""@]),
        StepView::File(
            Path::TmuxedoConfig,
            seq![
                "unbind r"@,
                "bind r run-shell tmuxedo"@,
                "bind C-u run-shell 'tmuxedo --update'"@,
                "bind C-t display-popup -E 'tmuxedo --tui'"@,
            ],
        ),
        StepView::File(Path::TmuxConfig, seq!["run-shell 'tmuxedo'"@]),
    ]
}

/// The steps that set up the files and directories of the program.
pub fn ensure_structure() -> (plan: Vec<Step>)
    ensures
        steps(plan@) == structure(),
{
    let plugins_defaults = vec!["".to_owned()];
    let tmuxedo_defaults = vec![
        "unbind r".to_owned(),
        "bind r run-shell tmuxedo".to_owned(),
        "bind C-u run-shell 'tmuxedo --update'".to_owned(),
        "bind C-t display-popup -E 'tmuxedo --tui'".to_owned(),
    ];
    let tmux_defaults = vec!["run-shell 'tmuxedo'".to_owned()];
    proof {
        assert(texts(plugins_defaults@) =~= seq![""@]);
        assert(texts(tmuxedo_defaults@) =~= seq![
            "unbind r"@,
            "bind r run-shell tmuxedo"@,
            "bind C-u run-shell 'tmuxedo --update'"@,
            "bind C-t display-popup -E 'tmuxedo --tui'"@,
        ]);
        assert(texts(tmux_defaults@) =~= seq!["run-shell 'tmuxedo'"@]);
    }
    let plan = vec![
        Step::Directory(Path::Tmuxedo),
        Step::Directory(Path::Plugins),
        Step::File(Path::PluginsConfig, plugins_defaults),
        Step::File(Path::TmuxedoConfig, tmuxedo_defaults),
        Step::File(Path::TmuxConfig, tmux_defaults),
    ];
    assert(steps(plan@) =~= structure());
    plan
}

/// What is done with a file of the program's configuration directory.
#[derive(Debug, Clone, Copy, PartialEq, Eq, Structural)]
pub enum SourceAction {
    /// The list of plugins, on an update: pull every clone.
    PullPlugins,
    /// The list of plugins, otherwise: clone what it names.
    ClonePlugins,
    /// Any other file: have tmux read it.
    SourceFile,
}

/// What to do with a file of the program's configuration directory.
pub fn source_action(path: &str, update: bool) -> (action: SourceAction)
    ensures
        action == if !has_suffix(path@, "plugins.conf"@) {
            SourceAction::SourceFile
        } else if update {
            SourceAction::PullPlugins
        } else {
            SourceAction::ClonePlugins
        },
{
    if !ends_with(path, "plugins.conf") {
        SourceAction::SourceFile
    } else if update {
        SourceAction::PullPlugins
    } else {
        SourceAction::ClonePlugins
    }
}

/// The value of `key` in the section `section` of a text in INI format.
/// `None` where the text is not in that format; `Some(None)` where it is and
/// has no such section or no such key in it.
pub uninterp spec fn ini_value(content: Seq<char>, section: Seq<char>, key: Seq<char>) -> Option<
    Option<Seq<char>>,
>;

/// The error with which the crate `rust-ini` refuses a text.
#[verifier::external_type_specification]
#[verifier::external_body]
pub struct ExParseError(ini::ParseError);

/// Calls `Ini::load_from_str(content)`, then `get_from(Some(section), key)`,
/// of the crate `rust-ini`. The result depends on the three strings alone;
/// the contract gives it its name and says no more of it.
#[verifier::external_body]
fn ini_get(content: &str, section: &str, key: &str) -> (value: Result<
    Option<String>,
    ini::ParseError,
>)
    ensures
        value is Ok <==> ini_value(content@, section@, key@) is Some,
        value matches Ok(Some(s)) ==> ini_value(content@, section@, key@) == Some(Some(s@)),
        value matches Ok(None) ==> ini_value(content@, section@, key@) == Some(
            None::<Seq<char>>,
        ),
{
    let conf = ini::Ini::load_from_str(content)?;
    match conf.get_from(Some(section), key) {
        Some(v) => Ok(Some(v.to_string())),
        None => Ok(None),
    }
}

/// Why the remote of a clone is not known.
#[derive(Debug, Clone, Copy, PartialEq, Eq, Structural)]
pub enum OriginError {
    /// The configuration of the clone could not be read.
    ConfigReadFailed,
    /// The configuration of the clone is not in INI format.
    ConfigParseFailed,
}

/// Whether the remote address of a clone is the one that the plugin is
/// cloned from. A clone without a remote address does not match.
pub open spec fn url_matches(url: Option<Seq<char>>, repo_name: Seq<char>) -> bool {
    url == Some(remote_prefix() + repo_name)
}

/// Compares the remote address of a clone with the plugin that the clone is
/// named after.
pub fn origin_matches(url: Option<String>, repo_name: &str) -> (same: bool)
    ensures
        same == url_matches(
            match url {
                Some(u) => Some(u@),
                None => None,
            },
            repo_name@,
        ),
{
    match url {
        Some(u) => {
            let expected = remote_url(repo_name);
            str_eq(u.as_str(), expected.as_str())
        },
        None => false,
    }
}

/// Whether the configuration of a clone names the plugin `repo_name` as
/// the address of the remote `origin`.
pub open spec fn config_matches(config: Seq<char>, repo_name: Seq<char>) -> Option<bool> {
    match ini_value(config, "remote \"origin\""@, "url"@) {
        Some(url) => Some(url_matches(url, repo_name)),
        None => None,
    }
}

/// Reads the configuration of a clone, `None` standing for one that could
/// not be read, and says whether its remote `origin` is the plugin
/// `repo_name`.
pub fn plugin_origin_matches_repo_name(config: Option<&str>, repo_name: &str) -> (same: Result<
    bool,
    OriginError,
>)
    ensures
        match same {
            Ok(m) => config is Some && config_matches(config->0@, repo_name@) == Some(m),
            Err(OriginError::ConfigReadFailed) => config is None,
            Err(OriginError::ConfigParseFailed) => config is Some && config_matches(
                config->0@,
                repo_name@,
            ) is None,
        },
{
    match config {
        None => Err(OriginError::ConfigReadFailed),
        Some(content) => match ini_get(content, "remote \"origin\"", "url") {
            Ok(url) => Ok(origin_matches(url, repo_name)),
            Err(_) => Err(OriginError::ConfigParseFailed),
        },
    }
}

/// The plugin that a line of the plugin list names; the empty identifier
/// for a line that names none.
pub open spec fn line_plugin_name(line: Seq<char>) -> Seq<char> {
    match line_request(line) {
        Some(request) => request.0,
        None => Seq::empty(),
    }
}

/// Whether the clone of the plugin that a line of the plugin list names is
/// to be deleted: the line names a plugin, the configuration of its clone
/// was read, and the remote in it is another.
pub open spec fn prunes(line: Seq<char>, config: Option<Seq<char>>) -> bool {
    line_request(line) is Some && config is Some && config_matches(
        config->0,
        line_plugin_name(line),
    ) == Some(false)
}

/// The directory to delete for a line of the plugin list, if any.
pub open spec fn pruned_directory(line: Seq<char>, config: Option<Seq<char>>) -> Option<
    Seq<char>,
> {
    if prunes(line, config) {
        Some(flattened(line_plugin_name(line)))
    } else {
        None
    }
}

/// The plugin that a line of the plugin list names.
pub fn line_plugin(line: &str) -> (plugin: Option<String>)
    ensures
        match plugin {
            Some(p) => line_request(line@) is Some && line_plugin_name(line@) == p@,
            None => line_request(line@) is None,
        },
{
    match parse_plugin_line(line) {
        Some((plugin, _)) => Some(plugin),
        None => None,
    }
}

/// Decides for one line of the plugin list whether the clone of its plugin
/// is to be deleted, and names the directory. `config` is the configuration
/// of that clone, `None` where it could not be read.
pub fn prune_decision(line: &str, config: Option<&str>) -> (directory: Option<String>)
    ensures
        match directory {
            Some(d) => pruned_directory(
                line@,
                match config {
                    Some(c) => Some(c@),
                    None => None,
                },
            ) == Some(d@),
            None => pruned_directory(
                line@,
                match config {
                    Some(c) => Some(c@),
                    None => None,
                },
            ) is None,
        },
{
    match line_plugin(line) {
        None => None,
        Some(plugin) => match plugin_origin_matches_repo_name(config, plugin.as_str()) {
            Ok(false) => Some(format_plugin_dir_name(plugin.as_str())),
            _ => None,
        },
    }
}

/// Goes through the plugin list with the configuration of each line's
/// clone and returns the directories to delete, in the order of the lines.
/// Where the two lists differ in length, what lies beyond the shorter one is
/// left alone.
pub fn prune_mismatched_remote_origins(
    lines: &Vec<String>,
    configs: &Vec<Option<String>>,
) -> (directories: Vec<String>)
    ensures
        texts(directories@) == pruned(texts(lines@), config_views(configs@)),
{
    let mut directories: Vec<String> = Vec::new();
    let n = if lines.len() < configs.len() {
        lines.len()
    } else {
        configs.len()
    };
    let ghost l = texts(lines@);
    let ghost c = config_views(configs@);
    let mut i: usize = 0;
    while i < n
        invariant
            i <= n,
            n <= lines@.len(),
            n <= configs@.len(),
            l == texts(lines@),
            c == config_views(configs@),
            texts(directories@) == pruned_among(l, c, i as nat),
        decreases n - i,
    {
        let config: Option<&str> = match &configs[i] {
            Some(content) => Some(content.as_str()),
            None => None,
        };
        match prune_decision(lines[i].as_str(), config) {
            Some(directory) => {
                let ghost before = texts(directories@);
                directories.push(directory);
                assert(texts(directories@) =~= before.push(directories@.last()@));
            },
            None => {},
        }
        i = i + 1;
    }
    directories
}

/// The configurations of a list, each as text.
pub open spec fn config_views(configs: Seq<Option<String>>) -> Seq<Option<Seq<char>>> {
    configs.map_values(
        |c: Option<String>|
            match c {
                Some(text) => Some(text@),
                None => None,
            },
    )
}

/// The directories to delete for the first `n` lines of a plugin list,
/// given the configurations of their clones.
pub open spec fn pruned_among(
    lines: Seq<Seq<char>>,
    configs: Seq<Option<Seq<char>>>,
    n: nat,
) -> Seq<Seq<char>>
    decreases n,
{
    if n == 0 {
        Seq::empty()
    } else {
        let before = pruned_among(lines, configs, (n - 1) as nat);
        match pruned_directory(lines[n - 1], configs[n - 1]) {
            Some(directory) => before.push(directory),
            None => before,
        }
    }
}

/// The directories to delete for a plugin list and the configurations of
/// the clones, line by line, as far as both lists reach.
pub open spec fn pruned(lines: Seq<Seq<char>>, configs: Seq<Option<Seq<char>>>) -> Seq<Seq<char>> {
    pruned_among(
        lines,
        configs,
        if lines.len() < configs.len() {
            lines.len()
        } else {
            configs.len()
        },
    )
}

} // verus!
