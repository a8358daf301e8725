use vstd::prelude::*;
use crate::branch_sidebar::{Loadable, UpstreamDivergence};
use crate::diff_target::{DiffArea, DiffTarget};
use crate::worktree_preview::{FileStatus, FileStatusKind, RepoStatus};

verus! {

/// What the action bar needs of the active repository: its work dir, head branch, how far
/// it is from its upstream, and its status, each once loaded.
#[derive(Clone, Debug)]
pub struct ActionBarRepo {
    pub workdir: String,
    pub head_branch: Loadable<String>,
    pub upstream_divergence: Loadable<Option<UpstreamDivergence>>,
    pub status: Loadable<RepoStatus>,
}

/// What the action bar shows: the repository's title, the branch, how many commits a pull
/// and a push would move, and whether there is anything to stash.
#[derive(Clone, Debug, PartialEq, Eq)]
pub struct ActionBarInfo {
    pub repo_title: String,
    pub branch: String,
    pub pull_count: usize,
    pub push_count: usize,
    pub can_stash: bool,
}

/// The branch label: the head branch's name, `…` while it loads, `error` when loading
/// failed, and `—` without one.
pub open spec fn branch_label(h: Option<Loadable<String>>) -> Seq<char> {
    match h {
        Some(Loadable::Ready(n)) => n@,
        Some(Loadable::Loading) => "…"@,
        Some(Loadable::Error(_)) => "error"@,
        _ => "—"@,
    }
}

/// The action bar for the active repository (none: `No repository`, `—`, no counts,
/// nothing to stash): its work dir, its branch label, the commits behind and ahead of the
/// upstream when known (else none), and whether its loaded status lists any change.
pub open spec fn action_bar_spec(repo: Option<ActionBarRepo>) -> (Seq<char>, Seq<char>, nat, nat, bool) {
    match repo {
        None => ("No repository"@, "—"@, 0, 0, false),
        Some(r) => (
            r.workdir@,
            branch_label(Some(r.head_branch)),
            match r.upstream_divergence {
                Loadable::Ready(Some(d)) => d.behind as nat,
                _ => 0,
            },
            match r.upstream_divergence {
                Loadable::Ready(Some(d)) => d.ahead as nat,
                _ => 0,
            },
            match r.status {
                Loadable::Ready(s) => s.staged@.len() > 0 || s.unstaged@.len() > 0,
                _ => false,
            },
        ),
    }
}

/// What the action bar shows for the active repository `repo` (see `action_bar_spec`).
pub fn action_bar_info(repo: Option<&ActionBarRepo>) -> (i: ActionBarInfo)
    ensures
        (i.repo_title@, i.branch@, i.pull_count as nat, i.push_count as nat, i.can_stash)
            == action_bar_spec(match repo {
            Some(r) => Some(*r),
            None => None,
        }),
{
    let r = match repo {
        None => {
            return ActionBarInfo {
                repo_title: String::from_str("No repository"),
                branch: String::from_str("—"),
                pull_count: 0,
                push_count: 0,
                can_stash: false,
            };
        },
        Some(r) => r,
    };
    let branch = match &r.head_branch {
        Loadable::Ready(n) => n.clone(),
        Loadable::Loading => String::from_str("…"),
        Loadable::Error(_) => String::from_str("error"),
        Loadable::NotLoaded => String::from_str("—"),
    };
    let (pull_count, push_count) = match &r.upstream_divergence {
        Loadable::Ready(Some(d)) => (d.behind, d.ahead),
        _ => (0, 0),
    };
    let can_stash = match &r.status {
        Loadable::Ready(s) => s.staged.len() > 0 || s.unstaged.len() > 0,
        _ => false,
    };
    ActionBarInfo { repo_title: r.workdir.clone(), branch, pull_count, push_count, can_stash }
}

/// The color role of the diff title's icon.
#[derive(Clone, Copy, Debug, PartialEq, Eq, Structural)]
pub enum TitleTone {
    Success,
    Warning,
    Danger,
    Accent,
    Muted,
}

/// The first entry of `entries` for `path` (the same path, compared by components), from `i` on.
pub open spec fn find_status(entries: Seq<FileStatus>, path: Seq<char>, i: int) -> Option<FileStatusKind>
    decreases entries.len() - i,
{
    if i < 0 || i >= entries.len() {
        None
    } else if crate::diff_target::same_path(entries[i].path@, path) {
        Some(entries[i].kind)
    } else {
        find_status(entries, path, i + 1)
    }
}

/// The icon and tone of a changed file by how it changed: `+` added or untracked, `✎`
/// modified, `−` deleted, `→` renamed, `!` in conflict.
pub open spec fn kind_icon(k: FileStatusKind) -> (Seq<char>, TitleTone) {
    match k {
        FileStatusKind::Untracked | FileStatusKind::Added => ("+"@, TitleTone::Success),
        FileStatusKind::Modified => ("✎"@, TitleTone::Warning),
        FileStatusKind::Deleted => ("−"@, TitleTone::Danger),
        FileStatusKind::Renamed => ("→"@, TitleTone::Accent),
        FileStatusKind::Conflicted => ("!"@, TitleTone::Danger),
    }
}

/// The title of the diff view: for a working-tree file, the icon of how the loaded status
/// lists it on its side (modified when not listed) and its path; for a commit, `✎` muted
/// and the file's path or `Full diff`; nothing without a target.
pub open spec fn diff_title_spec(target: Option<DiffTarget>, status: Loadable<RepoStatus>) -> Option<
    (Seq<char>, TitleTone, Seq<char>),
> {
    match target {
        None => None,
        Some(DiffTarget::WorkingTree { path, area }) => {
            let kind = match status {
                Loadable::Ready(s) => find_status(
                    match area {
                        DiffArea::Unstaged => s.unstaged@,
                        DiffArea::Staged => s.staged@,
                    },
                    path@,
                    0,
                ),
                _ => None,
            };
            let (icon, tone) = kind_icon(
                match kind {
                    Some(k) => k,
                    None => FileStatusKind::Modified,
                },
            );
            Some((icon, tone, path@))
        },
        Some(DiffTarget::Commit { path, .. }) => Some(
            (
                "✎"@,
                TitleTone::Muted,
                match path {
                    Some(p) => p@,
                    None => "Full diff"@,
                },
            ),
        ),
    }
}

fn find_status_exec(entries: &Vec<FileStatus>, path: &str) -> (r: Option<FileStatusKind>)
    ensures
        r == find_status(entries@, path@, 0),
{
    let mut i: usize = 0;
    while i < entries.len()
        invariant
            i <= entries@.len(),
            find_status(entries@, path@, 0) == find_status(entries@, path@, i as int),
        decreases entries@.len() - i,
    {
        if crate::diff_target::path_eq(entries[i].path.as_str(), path) {
            return Some(entries[i].kind);
        }
        i = i + 1;
    }
    None
}

/// The title of the diff view (see `diff_title_spec`): icon, tone and text.
pub fn diff_title(target: Option<&DiffTarget>, status: &Loadable<RepoStatus>) -> (r: Option<
    (String, TitleTone, String),
>)
    ensures
        match r {
            Some((icon, tone, text)) => diff_title_spec(
                match target {
                    Some(t) => Some(*t),
                    None => None,
                },
                *status,
            ) == Some((icon@, tone, text@)),
            None => diff_title_spec(
                match target {
                    Some(t) => Some(*t),
                    None => None,
                },
                *status,
            ) is None,
        },
{
    match target {
        None => None,
        Some(DiffTarget::WorkingTree { path, area }) => {
            let kind = match status {
                Loadable::Ready(s) => match area {
                    DiffArea::Unstaged => find_status_exec(&s.unstaged, path.as_str()),
                    DiffArea::Staged => find_status_exec(&s.staged, path.as_str()),
                },
                _ => None,
            };
            let k = match kind {
                Some(k) => k,
                None => FileStatusKind::Modified,
            };
            let (icon, tone) = match k {
                FileStatusKind::Untracked | FileStatusKind::Added => (String::from_str("+"), TitleTone::Success),
                FileStatusKind::Modified => (String::from_str("✎"), TitleTone::Warning),
                FileStatusKind::Deleted => (String::from_str("−"), TitleTone::Danger),
                FileStatusKind::Renamed => (String::from_str("→"), TitleTone::Accent),
                FileStatusKind::Conflicted => (String::from_str("!"), TitleTone::Danger),
            };
            Some((icon, tone, path.clone()))
        },
        Some(DiffTarget::Commit { path, .. }) => {
            let text = match path {
                Some(p) => p.clone(),
                None => String::from_str("Full diff"),
            };
            Some((String::from_str("✎"), TitleTone::Muted, text))
        },
    }
}

/// What the body of the diff view shows.
#[derive(Clone, Debug, PartialEq, Eq)]
pub enum DiffBody {
    /// An empty state with this message.
    Message(String),
    /// The error text, read only.
    Error(String),
    /// The rows.
    Rows,
}

/// How far what the diff view shows has loaded: the diff (or, for a file shown whole,
/// the file's texts).
#[derive(Clone, Debug, PartialEq, Eq)]
pub enum DiffLoad {
    NotLoaded,
    Loading,
    Error(String),
    /// Loaded; for a file shown whole, whether the file has texts and its view is active.
    Ready { has_file: bool },
}

/// The body of the diff view: without a repository `No repository.`; while nothing is
/// chosen `Select a file.`; `Loading…`; the error; for a loaded file without texts `No file
/// contents available.`; then, when there is nothing to list, `Empty file.` (a file shown
/// whole) or `No differences.`; `No matches.` for a search without matches; `Nothing to
/// render.` when no row is listed; else the rows.
pub open spec fn diff_body_spec(
    has_repo: bool,
    whole_file: bool,
    load: DiffLoad,
    total_rows: nat,
    searching: bool,
    matches: nat,
    listed_rows: nat,
) -> (Seq<char>, u8) {
    if !has_repo {
        ("No repository."@, 0)
    } else {
        match load {
            DiffLoad::NotLoaded => ("Select a file."@, 0),
            DiffLoad::Loading => ("Loading…"@, 0),
            DiffLoad::Error(e) => (e@, 1),
            DiffLoad::Ready { has_file } => if whole_file && !has_file {
                ("No file contents available."@, 0)
            } else if total_rows == 0 {
                (if whole_file { "Empty file."@ } else { "No differences."@ }, 0)
            } else if searching && matches == 0 {
                ("No matches."@, 0)
            } else if listed_rows == 0 {
                ("Nothing to render."@, 0)
            } else {
                (Seq::empty(), 2)
            },
        }
    }
}

/// The value of a diff body: its text and whether it is a message (0), an error (1) or
/// the rows (2).
pub open spec fn body_v(b: DiffBody) -> (Seq<char>, u8) {
    match b {
        DiffBody::Message(m) => (m@, 0),
        DiffBody::Error(e) => (e@, 1),
        DiffBody::Rows => (Seq::empty(), 2),
    }
}

/// The body of the diff view (see `diff_body_spec`).
pub fn diff_body(
    has_repo: bool,
    whole_file: bool,
    load: DiffLoad,
    total_rows: usize,
    searching: bool,
    matches: usize,
    listed_rows: usize,
) -> (b: DiffBody)
    ensures
        body_v(b) == diff_body_spec(
            has_repo,
            whole_file,
            load,
            total_rows as nat,
            searching,
            matches as nat,
            listed_rows as nat,
        ),
{
    if !has_repo {
        return DiffBody::Message(String::from_str("No repository."));
    }
    match load {
        DiffLoad::NotLoaded => DiffBody::Message(String::from_str("Select a file.")),
        DiffLoad::Loading => DiffBody::Message(String::from_str("Loading…")),
        DiffLoad::Error(e) => DiffBody::Error(e),
        DiffLoad::Ready { has_file } => {
            if whole_file && !has_file {
                DiffBody::Message(String::from_str("No file contents available."))
            } else if total_rows == 0 {
                if whole_file {
                    DiffBody::Message(String::from_str("Empty file."))
                } else {
                    DiffBody::Message(String::from_str("No differences."))
                }
            } else if searching && matches == 0 {
                DiffBody::Message(String::from_str("No matches."))
            } else if listed_rows == 0 {
                DiffBody::Message(String::from_str("Nothing to render."))
            } else {
                DiffBody::Rows
            }
        },
    }
}

} // verus!
