//! Watching a project's files: which change means what.

use crate::text::{eq_text, join_path, joined_path};
use vstd::prelude::*;
use vstd::string::*;

verus! {

/// The changes that matter.
#[derive(Debug, Clone, Copy, PartialEq, Eq, Structural)]
pub enum WatchKind {
    /// The configuration was changed: the server should be restarted.
    ConfigChanged,
    /// There is new output in the log.
    LogAppended,
    /// The state of the target changed.
    StateChanged,
}

/// What is watched.
#[derive(Debug, Clone, Copy, PartialEq, Eq, Structural)]
pub enum WatchSource {
    /// The configuration file itself. Its events carry no name.
    Config,
    /// A directory. Its events carry the name of the file that changed.
    Directory,
}

/// An event that matters.
pub struct WatchEvent {
    pub kind: WatchKind,
    /// The name of the file.
    pub path: String,
}

/// The paths that are watched: the configuration, the logs and the DUT's directory.
pub struct WatchPaths {
    pub config: String,
    pub logs: String,
    pub dut: String,
}

/// The paths that are watched for a project.
pub fn watch_paths(project_dir: &str, dut_dir: &str) -> (r: WatchPaths)
    ensures
        r.config@ == joined_path(project_dir@, ".target.toml"@),
        r.dut@ == joined_path(project_dir@, dut_dir@),
        r.logs@ == joined_path(r.dut@, "logs"@),
{
    let dut = join_path(project_dir, dut_dir);
    WatchPaths {
        config: join_path(project_dir, ".target.toml"),
        logs: join_path(&dut, "logs"),
        dut,
    }
}

/// What a change means, by where it was seen and the name of the file.
pub open spec fn kind_of(source: WatchSource, name: Seq<char>) -> Option<WatchKind> {
    if source == WatchSource::Config || name == ".target.toml"@ {
        Some(WatchKind::ConfigChanged)
    } else if name == "current.serial.log"@ {
        Some(WatchKind::LogAppended)
    } else if name == "target-state"@ {
        Some(WatchKind::StateChanged)
    } else {
        None
    }
}

/// What a change means, by where it was seen and the name of the file.
pub fn watch_kind(source: WatchSource, name: &str) -> (r: Option<WatchKind>)
    ensures
        r == kind_of(source, name@),
{
    if source == WatchSource::Config || eq_text(name, ".target.toml") {
        Some(WatchKind::ConfigChanged)
    } else if eq_text(name, "current.serial.log") {
        Some(WatchKind::LogAppended)
    } else if eq_text(name, "target-state") {
        Some(WatchKind::StateChanged)
    } else {
        None
    }
}

/// The models of the changes.
pub open spec fn changes_of(v: Seq<(WatchSource, String)>) -> Seq<(WatchSource, Seq<char>)> {
    Seq::new(v.len(), |i: int| (v[i].0, v[i].1@))
}

/// The first change that matters, from `i` on: what it means, and the name.
pub open spec fn first_change(v: Seq<(WatchSource, Seq<char>)>, i: int) -> Option<
    (WatchKind, Seq<char>),
>
    decreases v.len() - i,
{
    if i < 0 || i >= v.len() {
        None
    } else {
        match kind_of(v[i].0, v[i].1) {
            Some(k) => Some((k, v[i].1)),
            None => first_change(v, i + 1),
        }
    }
}

/// The first change that matters among those that were reported together. Where
/// none does, waiting goes on.
pub fn first_event(changes: &Vec<(WatchSource, String)>) -> (r: Option<WatchEvent>)
    ensures
        match first_change(changes_of(changes@), 0) {
            Some((k, name)) => r matches Some(e) && e.kind == k && e.path@ == name,
            None => r is None,
        },
{
    let ghost all = changes_of(changes@);
    let mut i: usize = 0;
    while i < changes.len()
        invariant
            i <= changes@.len(),
            all == changes_of(changes@),
            first_change(all, 0) == first_change(all, i as int),
        decreases changes@.len() - i,
    {
        assert(all[i as int] == (changes@[i as int].0, changes@[i as int].1@));
        if let Some(kind) = watch_kind(changes[i].0, &changes[i].1) {
            return Some(WatchEvent { kind, path: changes[i].1.clone() });
        }
        i = i + 1;
    }
    None
}

// ── Laws ────────────────────────────────────────────────────────────────────

/// Law: every change of the configuration file matters, whatever name its event
/// carries.
pub proof fn law_config_changes_matter(name: Seq<char>)
    ensures
        kind_of(WatchSource::Config, name) == Some(WatchKind::ConfigChanged),
{
}

/// Law: in a directory, the configuration, the log and the state are told by their names,
/// and no other file matters.
pub proof fn law_files_are_told_by_name(name: Seq<char>)
    ensures
        kind_of(WatchSource::Directory, name) == Some(WatchKind::ConfigChanged) <==> name
            == ".target.toml"@,
        kind_of(WatchSource::Directory, name) == Some(WatchKind::LogAppended) <==> name
            == "current.serial.log"@,
        kind_of(WatchSource::Directory, name) == Some(WatchKind::StateChanged) <==> name
            == "target-state"@,
{
    reveal_strlit(".target.toml");
    reveal_strlit("current.serial.log");
    reveal_strlit("target-state");
    assert(".target.toml"@[0] == '.' && "target-state"@[0] == 't');
    assert("current.serial.log"@.len() == 18 && "target-state"@.len() == 12
        && ".target.toml"@.len() == 12);
}

/// Law: of several changes the first that matters is reported.
pub proof fn law_first_change(v: Seq<(WatchSource, Seq<char>)>, k: int)
    ensures
        0 <= k < v.len() && kind_of(v[k].0, v[k].1) is Some && (forall|j: int|
            0 <= j < k ==> kind_of((#[trigger] v[j]).0, v[j].1) is None) ==> first_change(v, 0)
            == Some((kind_of(v[k].0, v[k].1)->0, v[k].1)),
        (forall|j: int| 0 <= j < v.len() ==> kind_of((#[trigger] v[j]).0, v[j].1) is None)
            ==> first_change(v, 0) is None,
{
    lemma_first_change(v, k, 0);
}

proof fn lemma_first_change(v: Seq<(WatchSource, Seq<char>)>, k: int, i: int)
    requires
        0 <= i,
    ensures
        i <= k < v.len() && kind_of(v[k].0, v[k].1) is Some && (forall|j: int|
            i <= j < k ==> kind_of((#[trigger] v[j]).0, v[j].1) is None) ==> first_change(v, i)
            == Some((kind_of(v[k].0, v[k].1)->0, v[k].1)),
        (forall|j: int| i <= j < v.len() ==> kind_of((#[trigger] v[j]).0, v[j].1) is None)
            ==> first_change(v, i) is None,
    decreases v.len() - i,
{
    if i < v.len() {
        let x = v[i];
        lemma_first_change(v, k, i + 1);
    }
}

} // verus!
