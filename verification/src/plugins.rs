//! A single plugin and what is known of its freshness; the `git` calls that
//! fetch plugins; and what a check for newer remote revisions found.

use vstd::prelude::*;
use vstd::std_specs::cmp::PartialEqSpecImpl;
use vstd::string::*;

use crate::utils::{ends_with, flattened, format_plugin_dir_name, has_suffix, split_words, texts, words};

verus! {

/// One installable unit.
#[derive(Debug, Eq, Clone)]
pub struct Plugin {
    /// The `owner/repo` identifier: what is cloned, and the key under which
    /// the plugin is kept and persisted.
    pub path: String,
    /// The newer remote revision that the last check found; empty when none
    /// was found.
    pub commit_hash: String,
    /// `true` until a check finds a newer remote revision.
    pub is_up_to_date: bool,
}

/// What a [`Plugin`] stands for in contracts.
pub struct PluginView {
    pub path: Seq<char>,
    pub commit_hash: Seq<char>,
    pub is_up_to_date: bool,
}

impl View for Plugin {
    type V = PluginView;

    open spec fn view(&self) -> PluginView {
        PluginView {
            path: self.path@,
            commit_hash: self.commit_hash@,
            is_up_to_date: self.is_up_to_date,
        }
    }
}

impl Plugin {
    /// A plugin that no check has looked at yet.
    pub fn new(path: String) -> (plugin: Plugin)
        ensures
            plugin@ == (PluginView { path: path@, commit_hash: Seq::empty(), is_up_to_date: true }),
    {
        Plugin { path, commit_hash: String::new(), is_up_to_date: true }
    }

    /// Records the revision that a check found; the identifier and the
    /// freshness flag stay as they are.
    pub fn set_commit_hash(&mut self, commit_hash: String)
        ensures
            final(self)@ == (PluginView { commit_hash: commit_hash@, ..old(self)@ }),
    {
        self.commit_hash = commit_hash;
    }

    /// Whether a check found a newer remote revision.
    pub fn has_update(&self) -> (pending: bool)
        ensures
            pending == (self@.commit_hash.len() > 0),
    {
        !self.commit_hash.as_str().is_empty()
    }
}

/// Two plugins are the same when identifier and freshness flag agree; the
/// recorded revision takes no part.
impl PartialEq for Plugin {
    fn eq(&self, other: &Self) -> (same: bool) {
        self.path == other.path && self.is_up_to_date == other.is_up_to_date
    }
}

impl PartialEqSpecImpl for Plugin {
    open spec fn obeys_eq_spec() -> bool {
        true
    }

    open spec fn eq_spec(&self, other: &Self) -> bool {
        self.path@ == other.path@ && self.is_up_to_date == other.is_up_to_date
    }
}

/// Where the plugins are cloned from: this, then the identifier.
pub open spec fn remote_prefix() -> Seq<char> {
    "https://git::@github.com/"@
}

/// The address that a plugin is cloned from.
pub fn remote_url(plugin: &str) -> (url: String)
    ensures
        url@ == remote_prefix() + plugin@,
{
    let mut url = "https://git::@github.com/".to_owned();
    url.append(plugin);
    url
}

/// The arguments of the `git` call that clones a plugin into the directory
/// named after it: with a branch, that branch alone; without, the default
/// branch.
pub open spec fn clone_command(plugin: Seq<char>, branch: Option<Seq<char>>) -> Seq<Seq<char>> {
    let tail = seq![
        "--single-branch"@,
        "--recursive"@,
        remote_prefix() + plugin,
        flattened(plugin),
    ];
    match branch {
        Some(b) => seq!["clone"@, "-b"@, b] + tail,
        None => seq!["clone"@] + tail,
    }
}

/// The arguments of the `git` call that clones a plugin.
pub fn clone_arguments(plugin: &str, branch: Option<&str>) -> (args: Vec<String>)
    ensures
        texts(args@) == clone_command(
            plugin@,
            match branch {
                Some(b) => Some(b@),
                None => None,
            },
        ),
{
    let mut args: Vec<String> = Vec::new();
    args.push("clone".to_owned());
    match branch {
        Some(b) => {
            args.push("-b".to_owned());
            args.push(b.to_owned());
        },
        None => {},
    }
    args.push("--single-branch".to_owned());
    args.push("--recursive".to_owned());
    args.push(remote_url(plugin));
    args.push(format_plugin_dir_name(plugin));
    proof {
        assert(texts(args@) =~= clone_command(
            plugin@,
            match branch {
                Some(b) => Some(b@),
                None => None,
            },
        ));
    }
    args
}

/// The arguments of the `git` call that brings a clone up to date.
pub fn pull_arguments() -> (args: Vec<String>)
    ensures
        texts(args@) == seq!["pull"@],
{
    let args = vec!["pull".to_owned()];
    assert(texts(args@) =~= seq!["pull"@]);
    args
}

/// The arguments of the `git` call that brings the submodules of a clone up
/// to date.
pub fn submodule_arguments() -> (args: Vec<String>)
    ensures
        texts(args@) == seq!["submodule"@, "update"@, "--init"@, "--recursive"@],
{
    let args = vec![
        "submodule".to_owned(),
        "update".to_owned(),
        "--init".to_owned(),
        "--recursive".to_owned(),
    ];
    assert(texts(args@) =~= seq!["submodule"@, "update"@, "--init"@, "--recursive"@]);
    args
}

/// The arguments of the `git` call that asks what a pull would bring,
/// without bringing it.
pub fn check_arguments() -> (args: Vec<String>)
    ensures
        texts(args@) == seq!["pull"@, "--dry-run"@],
{
    let args = vec!["pull".to_owned(), "--dry-run".to_owned()];
    assert(texts(args@) =~= seq!["pull"@, "--dry-run"@]);
    args
}

/// What a line of the plugin list asks for: the plugin, and the branch where
/// the line names one. The plugin is the first word of the line; the branch
/// is the second, if the line has exactly two words. A line without words
/// asks for nothing.
pub open spec fn line_request(line: Seq<char>) -> Option<(Seq<char>, Option<Seq<char>>)> {
    let w = words(line);
    if w.len() == 0 {
        None
    } else if w.len() == 2 {
        Some((w[0], Some(w[1])))
    } else {
        Some((w[0], None))
    }
}

/// Reads a line of the plugin list.
pub fn parse_plugin_line(line: &str) -> (request: Option<(String, Option<String>)>)
    ensures
        match request {
            Some((plugin, Some(branch))) => line_request(line@) == Some(
                (plugin@, Some(branch@)),
            ),
            Some((plugin, None)) => line_request(line@) == Some(
                (plugin@, None::<Seq<char>>),
            ),
            None => line_request(line@) is None,
        },
{
    let w = split_words(line);
    assert(texts(w@).len() == w@.len());
    if w.len() == 0 {
        None
    } else if w.len() == 2 {
        assert(texts(w@)[0] == w@[0]@ && texts(w@)[1] == w@[1]@);
        Some((w[0].clone(), Some(w[1].clone())))
    } else {
        assert(texts(w@)[0] == w@[0]@);
        Some((w[0].clone(), None))
    }
}

/// Whether a file is the script that activates a plugin: its name ends in
/// `.tmux`.
pub fn is_plugin_script(path: &str) -> (script: bool)
    ensures
        script == has_suffix(path@, ".tmux"@),
{
    ends_with(path, ".tmux")
}

/// What `git pull --dry-run` prints when the remote is ahead contains the
/// old and the new revision, seven hexadecimal digits each, with two dots
/// between them.
pub open spec fn revision_pair() -> Seq<char> {
    "([a-f0-9]{7})\\.\\.([a-f0-9]{7})"@
}

/// The text that the group `group` of the regular expression `pattern`
/// matched in the leftmost match in `text`. `None` where `pattern` is no
/// regular expression, where nothing in `text` matches it, and where the
/// group took no part in the match.
pub uninterp spec fn regex_group(pattern: Seq<char>, text: Seq<char>, group: int) -> Option<
    Seq<char>,
>;

/// Calls `Regex::new(pattern)`, then `captures(text)` and `get(group)` of the
/// crate `regex`. The result depends on the three arguments alone; the
/// contract gives it its name and says no more of it. A pattern that does
/// not compile gives `None`.
#[verifier::external_body]
fn capture_group(pattern: &str, text: &str, group: usize) -> (found: Option<String>)
    ensures
        found is Some <==> regex_group(pattern@, text@, group as int) is Some,
        found matches Some(s) ==> regex_group(pattern@, text@, group as int) == Some(s@),
{
    match regex::Regex::new(pattern) {
        Ok(re) => match re.captures(text) {
            Some(caps) => match caps.get(group) {
                Some(m) => Some(m.as_str().to_string()),
                None => None,
            },
            None => None,
        },
        Err(_) => None,
    }
}

/// The revision to record for what a check found: the revision itself, or
/// nothing where the check found none.
pub fn revision_or_empty(found: Option<String>) -> (revision: String)
    ensures
        revision@ == match found {
            Some(s) => s@,
            None => Seq::<char>::empty(),
        },
{
    match found {
        Some(s) => s,
        None => String::new(),
    }
}

/// The newer remote revision that the output of `git pull --dry-run` names;
/// empty where it names none.
pub open spec fn announced_revision(output: Seq<char>) -> Seq<char> {
    match regex_group(revision_pair(), output, 2) {
        Some(revision) => revision,
        None => Seq::empty(),
    }
}

/// Reads the newer remote revision from the output of `git pull --dry-run`.
pub fn new_revision(output: &str) -> (revision: String)
    ensures
        revision@ == announced_revision(output@),
{
    revision_or_empty(capture_group("([a-f0-9]{7})\\.\\.([a-f0-9]{7})", output, 2))
}

/// How the check of one plugin for a newer remote revision ended.
#[derive(Debug, Clone, PartialEq, Eq)]
pub enum ScanOutcome {
    /// `git` ran; this is what it printed.
    Output(String),
    /// `git` could not be run.
    RepoError,
    /// The task that was to run `git` did not finish.
    JoinError,
}

/// The revision to record for a plugin after a check: what the output of
/// `git` names, and nothing after a check that failed.
pub open spec fn outcome_revision(outcome: ScanOutcome) -> Seq<char> {
    match outcome {
        ScanOutcome::Output(text) => announced_revision(text@),
        ScanOutcome::RepoError => Seq::empty(),
        ScanOutcome::JoinError => Seq::empty(),
    }
}

/// The results of a scan: for every plugin that was checked its identifier
/// with the revision to record. A check that failed counts as one that
/// found nothing, and does not touch the results of the others.
pub fn scan(outcomes: &Vec<(String, ScanOutcome)>) -> (results: Vec<(String, String)>)
    ensures
        results@.len() == outcomes@.len(),
        forall|i: int|
            0 <= i < outcomes@.len() ==> (#[trigger] results@[i]).0@ == outcomes@[i].0@
                && results@[i].1@ == outcome_revision(outcomes@[i].1),
{
    let mut results: Vec<(String, String)> = Vec::new();
    let mut i: usize = 0;
    while i < outcomes.len()
        invariant
            i <= outcomes.len(),
            results@.len() == i,
            forall|j: int|
                0 <= j < i ==> (#[trigger] results@[j]).0@ == outcomes@[j].0@ && results@[j].1@
                    == outcome_revision(outcomes@[j].1),
        decreases outcomes.len() - i,
    {
        let revision = match &outcomes[i].1 {
            ScanOutcome::Output(text) => new_revision(text.as_str()),
            ScanOutcome::RepoError => String::new(),
            ScanOutcome::JoinError => String::new(),
        };
        results.push((outcomes[i].0.clone(), revision));
        i = i + 1;
    }
    results
}

} // verus!
