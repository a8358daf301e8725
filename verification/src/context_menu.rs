use vstd::prelude::*;
use crate::branch_sidebar::BranchSection;
use crate::diff_target::{str_eq, target_v, DiffArea, DiffTarget, DiffTargetV};
use crate::history_cache::{short_sha, short_sha_exec};
use crate::menu::{ContextMenuItem, ContextMenuModel};
use crate::text::{chars_to_string, find_chars, find_from, push_str, str_to_chars, sub_chars};

verus! {

/// How a pull combines the fetched branch with the current one.
#[derive(Clone, Copy, Debug, PartialEq, Eq, Structural)]
pub enum PullMode {
    Default,
    FastForwardIfPossible,
    FastForwardOnly,
    Rebase,
}

/// Which commits the history lists.
#[derive(Clone, Copy, Debug, PartialEq, Eq, Structural)]
pub enum LogScope {
    CurrentBranch,
    AllBranches,
}

/// What a context menu is opened on.
#[derive(Clone, Debug, PartialEq, Eq)]
pub enum MenuTarget {
    /// The pull button.
    PullPicker,
    /// A commit of the history.
    CommitMenu { repo_id: u64, commit_id: String },
    /// A changed file of the working tree.
    StatusFileMenu { repo_id: u64, area: DiffArea, path: String },
    /// A branch of the sidebar.
    BranchMenu { repo_id: u64, section: BranchSection, name: String },
    /// A section header of the sidebar.
    BranchSectionMenu { repo_id: u64, section: BranchSection },
    /// A file of a commit.
    CommitFileMenu { repo_id: u64, commit_id: String, path: String },
    /// The branch filter of the history.
    HistoryBranchFilter { repo_id: u64 },
}

/// What choosing a context menu entry does.
#[derive(Clone, Debug, PartialEq, Eq)]
pub enum ContextMenuAction {
    SelectDiff { repo_id: u64, target: DiffTarget },
    CheckoutCommit { repo_id: u64, commit_id: String },
    CherryPickCommit { repo_id: u64, commit_id: String },
    RevertCommit { repo_id: u64, commit_id: String },
    CheckoutBranch { repo_id: u64, name: String },
    SetHistoryScope { repo_id: u64, scope: LogScope },
    StagePath { repo_id: u64, path: String },
    UnstagePath { repo_id: u64, path: String },
    FetchAll { repo_id: u64 },
    Pull { repo_id: u64, mode: PullMode },
    PullBranch { repo_id: u64, remote: String, branch: String },
    MergeRef { repo_id: u64, reference: String },
    OpenBranchPicker,
    CopyText { text: String },
}

/// A commit of the loaded history: its id, author and summary.
#[derive(Clone, Debug, PartialEq, Eq)]
pub struct LogCommit {
    pub id: String,
    pub author: String,
    pub summary: String,
}

/// The value of an action, its texts taken as characters.
pub enum ActionV {
    SelectDiff(u64, DiffTargetV),
    CheckoutCommit(u64, Seq<char>),
    CherryPickCommit(u64, Seq<char>),
    RevertCommit(u64, Seq<char>),
    CheckoutBranch(u64, Seq<char>),
    SetHistoryScope(u64, LogScope),
    StagePath(u64, Seq<char>),
    UnstagePath(u64, Seq<char>),
    FetchAll(u64),
    Pull(u64, PullMode),
    PullBranch(u64, Seq<char>, Seq<char>),
    MergeRef(u64, Seq<char>),
    OpenBranchPicker,
    CopyText(Seq<char>),
}

/// The value of a menu item.
pub enum ItemV {
    Separator,
    Header(Seq<char>),
    Label(Seq<char>),
    Entry { label: Seq<char>, icon: Seq<char>, shortcut: Seq<char>, disabled: bool, action: ActionV },
}

/// The value of an action.
pub open spec fn action_v(a: ContextMenuAction) -> ActionV {
    match a {
        ContextMenuAction::SelectDiff { repo_id, target } => ActionV::SelectDiff(repo_id, target_v(target)),
        ContextMenuAction::CheckoutCommit { repo_id, commit_id } => ActionV::CheckoutCommit(repo_id, commit_id@),
        ContextMenuAction::CherryPickCommit { repo_id, commit_id } => ActionV::CherryPickCommit(
            repo_id,
            commit_id@,
        ),
        ContextMenuAction::RevertCommit { repo_id, commit_id } => ActionV::RevertCommit(repo_id, commit_id@),
        ContextMenuAction::CheckoutBranch { repo_id, name } => ActionV::CheckoutBranch(repo_id, name@),
        ContextMenuAction::SetHistoryScope { repo_id, scope } => ActionV::SetHistoryScope(repo_id, scope),
        ContextMenuAction::StagePath { repo_id, path } => ActionV::StagePath(repo_id, path@),
        ContextMenuAction::UnstagePath { repo_id, path } => ActionV::UnstagePath(repo_id, path@),
        ContextMenuAction::FetchAll { repo_id } => ActionV::FetchAll(repo_id),
        ContextMenuAction::Pull { repo_id, mode } => ActionV::Pull(repo_id, mode),
        ContextMenuAction::PullBranch { repo_id, remote, branch } => ActionV::PullBranch(
            repo_id,
            remote@,
            branch@,
        ),
        ContextMenuAction::MergeRef { repo_id, reference } => ActionV::MergeRef(repo_id, reference@),
        ContextMenuAction::OpenBranchPicker => ActionV::OpenBranchPicker,
        ContextMenuAction::CopyText { text } => ActionV::CopyText(text@),
    }
}

/// The value of a menu item; every entry of these menus has an icon and a shortcut.
pub open spec fn item_v(i: ContextMenuItem<ContextMenuAction>) -> ItemV {
    match i {
        ContextMenuItem::Separator => ItemV::Separator,
        ContextMenuItem::Header(t) => ItemV::Header(t@),
        ContextMenuItem::Label(t) => ItemV::Label(t@),
        ContextMenuItem::Entry { label, icon, shortcut, disabled, action } => ItemV::Entry {
            label: label@,
            icon: match icon {
                Some(t) => t@,
                None => Seq::empty(),
            },
            shortcut: match shortcut {
                Some(t) => t@,
                None => Seq::empty(),
            },
            disabled,
            action: action_v(action),
        },
    }
}

/// The values of a list of menu items.
pub open spec fn items_v(v: Seq<ContextMenuItem<ContextMenuAction>>) -> Seq<ItemV> {
    v.map_values(|i: ContextMenuItem<ContextMenuAction>| item_v(i))
}

/// An enabled entry.
pub open spec fn entry(label: Seq<char>, icon: Seq<char>, shortcut: Seq<char>, action: ActionV) -> ItemV {
    ItemV::Entry { label, icon, shortcut, disabled: false, action }
}

/// The first commit of the log with id `id`, from `i` on.
pub open spec fn find_commit(log: Seq<LogCommit>, id: Seq<char>, i: int) -> Option<int>
    decreases log.len() - i,
{
    if i < 0 || i >= log.len() {
        None
    } else if log[i].id@ == id {
        Some(i)
    } else {
        find_commit(log, id, i + 1)
    }
}

/// The line under a commit menu's header: the commit's author and summary, when the
/// loaded history has the commit.
pub open spec fn commit_summary(log: Option<Seq<LogCommit>>, id: Seq<char>) -> Seq<char> {
    match log {
        Some(l) => match find_commit(l, id, 0) {
            Some(k) => l[k].author@ + " — "@ + l[k].summary@,
            None => Seq::empty(),
        },
        None => Seq::empty(),
    }
}

/// A remote branch name split at its first `/`: the remote and the branch.
pub open spec fn split_remote(name: Seq<char>) -> Option<(Seq<char>, Seq<char>)> {
    match find_from(name, seq!['/'], 0) {
        Some(p) => Some((name.take(p), name.skip(p + 1))),
        None => None,
    }
}

/// The pull menu: pull in each of four ways, then fetch all; disabled without an active
/// repository (whose id then reads 0).
pub open spec fn pull_menu(active: Option<u64>) -> Seq<ItemV> {
    let id = match active {
        Some(i) => i,
        None => 0,
    };
    let d = active is None;
    seq![
        ItemV::Header("Pull"@),
        ItemV::Separator,
        ItemV::Entry { label: "Pull (default)"@, icon: "↓"@, shortcut: "Enter"@, disabled: d, action: ActionV::Pull(id, PullMode::Default) },
        ItemV::Entry { label: "Pull (fast-forward if possible)"@, icon: "↓"@, shortcut: "F"@, disabled: d, action: ActionV::Pull(id, PullMode::FastForwardIfPossible) },
        ItemV::Entry { label: "Pull (fast-forward only)"@, icon: "↓"@, shortcut: "O"@, disabled: d, action: ActionV::Pull(id, PullMode::FastForwardOnly) },
        ItemV::Entry { label: "Pull (rebase)"@, icon: "↓"@, shortcut: "R"@, disabled: d, action: ActionV::Pull(id, PullMode::Rebase) },
        ItemV::Separator,
        ItemV::Entry { label: "Fetch all"@, icon: "↓"@, shortcut: "A"@, disabled: d, action: ActionV::FetchAll(id) },
    ]
}

/// The menu of a commit: its short id, its author and summary when known, then opening
/// its diff, checking it out, cherry-picking and reverting it.
pub open spec fn commit_menu(repo_id: u64, id: Seq<char>, summary: Seq<char>) -> Seq<ItemV> {
    seq![ItemV::Header("Commit "@ + short_sha(id))] + (if summary.len() > 0 {
        seq![ItemV::Label(summary)]
    } else {
        Seq::empty()
    }) + seq![
        ItemV::Separator,
        entry("Open diff"@, "↗"@, "Enter"@, ActionV::SelectDiff(repo_id, DiffTargetV::Commit { commit_id: id, path: None })),
        entry("Checkout (detached)"@, "⎇"@, "D"@, ActionV::CheckoutCommit(repo_id, id)),
        entry("Cherry-pick"@, "⇡"@, "P"@, ActionV::CherryPickCommit(repo_id, id)),
        entry("Revert"@, "↶"@, "R"@, ActionV::RevertCommit(repo_id, id)),
    ]
}

/// The menu of a changed working-tree file: its name and path, opening its diff, staging
/// or unstaging it, and copying its path.
pub open spec fn status_file_menu(repo_id: u64, area: DiffArea, path: Seq<char>, header: Seq<char>) -> Seq<ItemV> {
    seq![
        ItemV::Header(header),
        ItemV::Label(path),
        ItemV::Separator,
        entry("Open diff"@, "↗"@, "Enter"@, ActionV::SelectDiff(repo_id, DiffTargetV::WorkingTree { path, area })),
        match area {
            DiffArea::Unstaged => entry("Stage"@, "+"@, "S"@, ActionV::StagePath(repo_id, path)),
            DiffArea::Staged => entry("Unstage"@, "−"@, "U"@, ActionV::UnstagePath(repo_id, path)),
        },
        ItemV::Separator,
        entry("Copy path"@, "⧉"@, "C"@, ActionV::CopyText(path)),
    ]
}

/// The menu of a branch: its kind and name, checking it out and copying its name; for a
/// remote branch also pulling and merging it when its name has a remote part, and
/// fetching all.
pub open spec fn branch_menu(repo_id: u64, section: BranchSection, name: Seq<char>) -> Seq<ItemV> {
    let head = match section {
        BranchSection::Local => "Local branch"@,
        BranchSection::Remote => "Remote branch"@,
    };
    let base = seq![
        ItemV::Header(head),
        ItemV::Label(name),
        ItemV::Separator,
        entry("Checkout"@, "⎇"@, "Enter"@, ActionV::CheckoutBranch(repo_id, name)),
        entry("Copy name"@, "⧉"@, "C"@, ActionV::CopyText(name)),
    ];
    if section == BranchSection::Remote {
        base + seq![ItemV::Separator] + match split_remote(name) {
            Some((remote, branch)) => seq![
                entry("Pull into current"@, "↓"@, "P"@, ActionV::PullBranch(repo_id, remote, branch)),
                entry("Merge into current"@, "⇄"@, "M"@, ActionV::MergeRef(repo_id, name)),
                ItemV::Separator,
            ],
            None => Seq::empty(),
        } + seq![entry("Fetch all"@, "↓"@, "F"@, ActionV::FetchAll(repo_id))]
    } else {
        base
    }
}

/// The menu of a sidebar section: switching branch, and fetching all for remotes.
pub open spec fn branch_section_menu(repo_id: u64, section: BranchSection) -> Seq<ItemV> {
    let head = match section {
        BranchSection::Local => "Local"@,
        BranchSection::Remote => "Remote"@,
    };
    seq![
        ItemV::Header(head),
        ItemV::Separator,
        entry("Switch branch…"@, "⎇"@, "Enter"@, ActionV::OpenBranchPicker),
    ] + if section == BranchSection::Remote {
        seq![entry("Fetch all"@, "↓"@, "F"@, ActionV::FetchAll(repo_id))]
    } else {
        Seq::empty()
    }
}

/// The menu of a file of a commit: its name and path, opening its diff and copying its path.
pub open spec fn commit_file_menu(repo_id: u64, id: Seq<char>, path: Seq<char>, header: Seq<char>) -> Seq<ItemV> {
    seq![
        ItemV::Header(header),
        ItemV::Label(path),
        ItemV::Separator,
        entry("Open diff"@, "↗"@, "Enter"@, ActionV::SelectDiff(repo_id, DiffTargetV::Commit { commit_id: id, path: Some(path) })),
        entry("Copy path"@, "⧉"@, "C"@, ActionV::CopyText(path)),
    ]
}

/// The menu of the history's branch filter: the current branch or all branches.
pub open spec fn history_filter_menu(repo_id: u64) -> Seq<ItemV> {
    seq![
        ItemV::Header("History scope"@),
        ItemV::Separator,
        entry("Current branch"@, "⎇"@, "C"@, ActionV::SetHistoryScope(repo_id, LogScope::CurrentBranch)),
        entry("All branches"@, "∞"@, "A"@, ActionV::SetHistoryScope(repo_id, LogScope::AllBranches)),
    ]
}

/// The items of the context menu opened on `target`. `active` is the active repository,
/// `log` its loaded history, and `file_name` the file name of a file target's path (its
/// header, or the whole path without one).
pub open spec fn menu_items(
    target: MenuTarget,
    active: Option<u64>,
    log: Option<Seq<LogCommit>>,
    file_name: Option<Seq<char>>,
) -> Seq<ItemV> {
    let header_of = |path: Seq<char>| match file_name {
        Some(f) => f,
        None => path,
    };
    match target {
        MenuTarget::PullPicker => pull_menu(active),
        MenuTarget::CommitMenu { repo_id, commit_id } => commit_menu(
            repo_id,
            commit_id@,
            commit_summary(log, commit_id@),
        ),
        MenuTarget::StatusFileMenu { repo_id, area, path } => status_file_menu(
            repo_id,
            area,
            path@,
            header_of(path@),
        ),
        MenuTarget::BranchMenu { repo_id, section, name } => branch_menu(repo_id, section, name@),
        MenuTarget::BranchSectionMenu { repo_id, section } => branch_section_menu(repo_id, section),
        MenuTarget::CommitFileMenu { repo_id, commit_id, path } => commit_file_menu(
            repo_id,
            commit_id@,
            path@,
            header_of(path@),
        ),
        MenuTarget::HistoryBranchFilter { repo_id } => history_filter_menu(repo_id),
    }
}

fn lit(s: &str) -> (r: String)
    ensures
        r@ == s@,
{
    String::from_str(s)
}

fn item_entry(label: &str, icon: &str, shortcut: &str, disabled: bool, action: ContextMenuAction) -> (r:
    ContextMenuItem<ContextMenuAction>)
    ensures
        item_v(r) == (ItemV::Entry {
            label: label@,
            icon: icon@,
            shortcut: shortcut@,
            disabled,
            action: action_v(action),
        }),
{
    ContextMenuItem::Entry {
        label: lit(label),
        icon: Some(lit(icon)),
        shortcut: Some(lit(shortcut)),
        disabled,
        action,
    }
}

fn push_item(items: &mut Vec<ContextMenuItem<ContextMenuAction>>, it: ContextMenuItem<ContextMenuAction>)
    ensures
        items_v(final(items)@) == items_v(old(items)@).push(item_v(it)),
{
    let ghost before = items_v(items@);
    items.push(it);
    assert(items_v(items@) =~= before.push(item_v(it)));
}

fn find_summary(log: Option<&[LogCommit]>, id: &str) -> (r: String)
    ensures
        r@ == commit_summary(
            match log {
                Some(l) => Some(l@),
                None => None,
            },
            id@,
        ),
{
    let l = match log {
        Some(l) => l,
        None => return String::new(),
    };
    let mut i: usize = 0;
    while i < l.len()
        invariant
            i <= l@.len(),
            log == Some(l),
            find_commit(l@, id@, 0) == find_commit(l@, id@, i as int),
        decreases l@.len() - i,
    {
        if str_eq(l[i].id.as_str(), id) {
            assert(find_commit(l@, id@, i as int) == Some(i as int));
            let mut s = l[i].author.clone();
            push_str(&mut s, " — ");
            push_str(&mut s, l[i].summary.as_str());
            return s;
        }
        i = i + 1;
    }
    String::new()
}

fn split_remote_exec(name: &str) -> (r: Option<(String, String)>)
    ensures
        match r {
            Some((a, b)) => split_remote(name@) == Some((a@, b@)),
            None => split_remote(name@) is None,
        },
{
    let cs = str_to_chars(name);
    let n = cs.len();
    let slash = vec!['/'];
    assert(slash@ =~= seq!['/']);
    match find_chars(cs.as_slice(), slash.as_slice(), 0) {
        Some(p) => {
            proof {
                assert(crate::text::is_first_occurrence(cs@, slash@, 0, p as int));
                assert(crate::text::occurs_at(cs@, slash@, p as int));
                assert(p + 1 <= cs@.len());
            }
            let a = sub_chars(cs.as_slice(), 0, p);
            let b = sub_chars(cs.as_slice(), p + 1, n);
            assert(a@ =~= name@.take(p as int));
            assert(b@ =~= name@.skip(p + 1));
            Some((chars_to_string(a.as_slice()), chars_to_string(b.as_slice())))
        },
        None => None,
    }
}

fn pull_menu_items(active: Option<u64>) -> (items: Vec<ContextMenuItem<ContextMenuAction>>)
    ensures
        items_v(items@) == pull_menu(active),
{
    let (id, d) = match active {
        Some(i) => (i, false),
        None => (0, true),
    };
    let mut items: Vec<ContextMenuItem<ContextMenuAction>> = Vec::new();
    push_item(&mut items, ContextMenuItem::Header(lit("Pull")));
    push_item(&mut items, ContextMenuItem::Separator);
    push_item(&mut items, item_entry("Pull (default)", "↓", "Enter", d, ContextMenuAction::Pull { repo_id: id, mode: PullMode::Default }));
    push_item(&mut items, item_entry("Pull (fast-forward if possible)", "↓", "F", d, ContextMenuAction::Pull { repo_id: id, mode: PullMode::FastForwardIfPossible }));
    push_item(&mut items, item_entry("Pull (fast-forward only)", "↓", "O", d, ContextMenuAction::Pull { repo_id: id, mode: PullMode::FastForwardOnly }));
    push_item(&mut items, item_entry("Pull (rebase)", "↓", "R", d, ContextMenuAction::Pull { repo_id: id, mode: PullMode::Rebase }));
    push_item(&mut items, ContextMenuItem::Separator);
    push_item(&mut items, item_entry("Fetch all", "↓", "A", d, ContextMenuAction::FetchAll { repo_id: id }));
    assert(items_v(items@) =~= pull_menu(active));
    items
}

fn commit_menu_items(repo_id: u64, commit_id: &String, log: Option<&[LogCommit]>) -> (items: Vec<
    ContextMenuItem<ContextMenuAction>,
>)
    ensures
        items_v(items@) == commit_menu(
            repo_id,
            commit_id@,
            commit_summary(
                match log {
                    Some(l) => Some(l@),
                    None => None,
                },
                commit_id@,
            ),
        ),
{
    let ghost summary_v = commit_summary(
        match log {
            Some(l) => Some(l@),
            None => None,
        },
        commit_id@,
    );
    let mut header = lit("Commit ");
    let short = short_sha_exec(commit_id);
    push_str(&mut header, short.as_str());
    let summary = find_summary(log, commit_id.as_str());
    let summary_chars = str_to_chars(summary.as_str());
    let mut items: Vec<ContextMenuItem<ContextMenuAction>> = Vec::new();
    push_item(&mut items, ContextMenuItem::Header(header));
    let ghost first = items_v(items@);
    if summary_chars.len() > 0 {
        push_item(&mut items, ContextMenuItem::Label(summary));
    }
    let ghost second = items_v(items@);
    push_item(&mut items, ContextMenuItem::Separator);
    push_item(&mut items, item_entry("Open diff", "↗", "Enter", false, ContextMenuAction::SelectDiff {
        repo_id,
        target: DiffTarget::Commit { commit_id: commit_id.clone(), path: None },
    }));
    push_item(&mut items, item_entry("Checkout (detached)", "⎇", "D", false, ContextMenuAction::CheckoutCommit {
        repo_id,
        commit_id: commit_id.clone(),
    }));
    push_item(&mut items, item_entry("Cherry-pick", "⇡", "P", false, ContextMenuAction::CherryPickCommit {
        repo_id,
        commit_id: commit_id.clone(),
    }));
    push_item(&mut items, item_entry("Revert", "↶", "R", false, ContextMenuAction::RevertCommit {
        repo_id,
        commit_id: commit_id.clone(),
    }));
    proof {
        let tail = seq![
            ItemV::Separator,
            entry("Open diff"@, "↗"@, "Enter"@, ActionV::SelectDiff(repo_id, DiffTargetV::Commit { commit_id: commit_id@, path: None })),
            entry("Checkout (detached)"@, "⎇"@, "D"@, ActionV::CheckoutCommit(repo_id, commit_id@)),
            entry("Cherry-pick"@, "⇡"@, "P"@, ActionV::CherryPickCommit(repo_id, commit_id@)),
            entry("Revert"@, "↶"@, "R"@, ActionV::RevertCommit(repo_id, commit_id@)),
        ];
        assert(items_v(items@) =~= second + tail);
        if summary_v.len() > 0 {
            assert(second =~= first + seq![ItemV::Label(summary_v)]);
        } else {
            assert(second =~= first + Seq::<ItemV>::empty());
        }
        assert(first =~= seq![ItemV::Header("Commit "@ + short_sha(commit_id@))]);
    }
    items
}

fn status_file_menu_items(repo_id: u64, area: DiffArea, path: &String, header: String) -> (items: Vec<
    ContextMenuItem<ContextMenuAction>,
>)
    ensures
        items_v(items@) == status_file_menu(repo_id, area, path@, header@),
{
    let mut items: Vec<ContextMenuItem<ContextMenuAction>> = Vec::new();
    push_item(&mut items, ContextMenuItem::Header(header));
    push_item(&mut items, ContextMenuItem::Label(path.clone()));
    push_item(&mut items, ContextMenuItem::Separator);
    push_item(&mut items, item_entry("Open diff", "↗", "Enter", false, ContextMenuAction::SelectDiff {
        repo_id,
        target: DiffTarget::WorkingTree { path: path.clone(), area },
    }));
    match area {
        DiffArea::Unstaged => push_item(&mut items, item_entry("Stage", "+", "S", false, ContextMenuAction::StagePath {
            repo_id,
            path: path.clone(),
        })),
        DiffArea::Staged => push_item(&mut items, item_entry("Unstage", "−", "U", false, ContextMenuAction::UnstagePath {
            repo_id,
            path: path.clone(),
        })),
    }
    push_item(&mut items, ContextMenuItem::Separator);
    push_item(&mut items, item_entry("Copy path", "⧉", "C", false, ContextMenuAction::CopyText { text: path.clone() }));
    assert(items_v(items@) =~= status_file_menu(repo_id, area, path@, header@));
    items
}

fn branch_menu_items(repo_id: u64, section: BranchSection, name: &String) -> (items: Vec<
    ContextMenuItem<ContextMenuAction>,
>)
    ensures
        items_v(items@) == branch_menu(repo_id, section, name@),
{
    let head = match section {
        BranchSection::Local => lit("Local branch"),
        BranchSection::Remote => lit("Remote branch"),
    };
    let mut items: Vec<ContextMenuItem<ContextMenuAction>> = Vec::new();
    push_item(&mut items, ContextMenuItem::Header(head));
    push_item(&mut items, ContextMenuItem::Label(name.clone()));
    push_item(&mut items, ContextMenuItem::Separator);
    push_item(&mut items, item_entry("Checkout", "⎇", "Enter", false, ContextMenuAction::CheckoutBranch {
        repo_id,
        name: name.clone(),
    }));
    push_item(&mut items, item_entry("Copy name", "⧉", "C", false, ContextMenuAction::CopyText { text: name.clone() }));
    let ghost base = items_v(items@);
    if section == BranchSection::Remote {
        push_item(&mut items, ContextMenuItem::Separator);
        let ghost with_sep = items_v(items@);
        match split_remote_exec(name.as_str()) {
            Some((remote, branch)) => {
                push_item(&mut items, item_entry("Pull into current", "↓", "P", false, ContextMenuAction::PullBranch {
                    repo_id,
                    remote,
                    branch,
                }));
                push_item(&mut items, item_entry("Merge into current", "⇄", "M", false, ContextMenuAction::MergeRef {
                    repo_id,
                    reference: name.clone(),
                }));
                push_item(&mut items, ContextMenuItem::Separator);
            },
            None => {},
        }
        let ghost mid = items_v(items@);
        push_item(&mut items, item_entry("Fetch all", "↓", "F", false, ContextMenuAction::FetchAll { repo_id }));
        proof {
            match split_remote(name@) {
                Some((r, b)) => {
                    assert(mid =~= with_sep + seq![
                        entry("Pull into current"@, "↓"@, "P"@, ActionV::PullBranch(repo_id, r, b)),
                        entry("Merge into current"@, "⇄"@, "M"@, ActionV::MergeRef(repo_id, name@)),
                        ItemV::Separator,
                    ]);
                },
                None => {
                    assert(mid =~= with_sep + Seq::<ItemV>::empty());
                },
            }
            assert(items_v(items@) =~= branch_menu(repo_id, section, name@));
        }
    } else {
        assert(items_v(items@) =~= branch_menu(repo_id, section, name@));
    }
    items
}

fn branch_section_menu_items(repo_id: u64, section: BranchSection) -> (items: Vec<
    ContextMenuItem<ContextMenuAction>,
>)
    ensures
        items_v(items@) == branch_section_menu(repo_id, section),
{
    let head = match section {
        BranchSection::Local => lit("Local"),
        BranchSection::Remote => lit("Remote"),
    };
    let mut items: Vec<ContextMenuItem<ContextMenuAction>> = Vec::new();
    push_item(&mut items, ContextMenuItem::Header(head));
    push_item(&mut items, ContextMenuItem::Separator);
    push_item(&mut items, item_entry("Switch branch…", "⎇", "Enter", false, ContextMenuAction::OpenBranchPicker));
    if section == BranchSection::Remote {
        push_item(&mut items, item_entry("Fetch all", "↓", "F", false, ContextMenuAction::FetchAll { repo_id }));
    }
    assert(items_v(items@) =~= branch_section_menu(repo_id, section));
    items
}

fn commit_file_menu_items(repo_id: u64, commit_id: &String, path: &String, header: String) -> (items: Vec<
    ContextMenuItem<ContextMenuAction>,
>)
    ensures
        items_v(items@) == commit_file_menu(repo_id, commit_id@, path@, header@),
{
    let mut items: Vec<ContextMenuItem<ContextMenuAction>> = Vec::new();
    push_item(&mut items, ContextMenuItem::Header(header));
    push_item(&mut items, ContextMenuItem::Label(path.clone()));
    push_item(&mut items, ContextMenuItem::Separator);
    push_item(&mut items, item_entry("Open diff", "↗", "Enter", false, ContextMenuAction::SelectDiff {
        repo_id,
        target: DiffTarget::Commit { commit_id: commit_id.clone(), path: Some(path.clone()) },
    }));
    push_item(&mut items, item_entry("Copy path", "⧉", "C", false, ContextMenuAction::CopyText { text: path.clone() }));
    assert(items_v(items@) =~= commit_file_menu(repo_id, commit_id@, path@, header@));
    items
}

fn history_filter_menu_items(repo_id: u64) -> (items: Vec<ContextMenuItem<ContextMenuAction>>)
    ensures
        items_v(items@) == history_filter_menu(repo_id),
{
    let mut items: Vec<ContextMenuItem<ContextMenuAction>> = Vec::new();
    push_item(&mut items, ContextMenuItem::Header(lit("History scope")));
    push_item(&mut items, ContextMenuItem::Separator);
    push_item(&mut items, item_entry("Current branch", "⎇", "C", false, ContextMenuAction::SetHistoryScope {
        repo_id,
        scope: LogScope::CurrentBranch,
    }));
    push_item(&mut items, item_entry("All branches", "∞", "A", false, ContextMenuAction::SetHistoryScope {
        repo_id,
        scope: LogScope::AllBranches,
    }));
    assert(items_v(items@) =~= history_filter_menu(repo_id));
    items
}

/// The context menu opened on `target` (see `menu_items`): `active_repo_id` is the active
/// repository, `log` its loaded history, and `file_name` the file name of a file target's
/// path, if it has one.
pub fn context_menu_model(
    target: &MenuTarget,
    active_repo_id: Option<u64>,
    log: Option<&[LogCommit]>,
    file_name: Option<String>,
) -> (m: ContextMenuModel<ContextMenuAction>)
    ensures
        items_v(m.items@) == menu_items(
            *target,
            active_repo_id,
            match log {
                Some(l) => Some(l@),
                None => None,
            },
            match file_name {
                Some(f) => Some(f@),
                None => None,
            },
        ),
{
    let items = match target {
        MenuTarget::PullPicker => pull_menu_items(active_repo_id),
        MenuTarget::CommitMenu { repo_id, commit_id } => commit_menu_items(*repo_id, commit_id, log),
        MenuTarget::StatusFileMenu { repo_id, area, path } => {
            let header = match file_name {
                Some(f) => f,
                None => path.clone(),
            };
            status_file_menu_items(*repo_id, *area, path, header)
        },
        MenuTarget::BranchMenu { repo_id, section, name } => branch_menu_items(*repo_id, *section, name),
        MenuTarget::BranchSectionMenu { repo_id, section } => branch_section_menu_items(*repo_id, *section),
        MenuTarget::CommitFileMenu { repo_id, commit_id, path } => {
            let header = match file_name {
                Some(f) => f,
                None => path.clone(),
            };
            commit_file_menu_items(*repo_id, commit_id, path, header)
        },
        MenuTarget::HistoryBranchFilter { repo_id } => history_filter_menu_items(*repo_id),
    };
    ContextMenuModel::new(items)
}

/// A message to the application store, as a chosen menu entry sends it.
#[derive(Clone, Debug, PartialEq, Eq)]
pub enum StoreMsg {
    SelectDiff { repo_id: u64, target: DiffTarget },
    CheckoutCommit { repo_id: u64, commit_id: String },
    CherryPickCommit { repo_id: u64, commit_id: String },
    RevertCommit { repo_id: u64, commit_id: String },
    CheckoutBranch { repo_id: u64, name: String },
    SetHistoryScope { repo_id: u64, scope: LogScope },
    StagePath { repo_id: u64, path: String },
    UnstagePath { repo_id: u64, path: String },
    FetchAll { repo_id: u64 },
    Pull { repo_id: u64, mode: PullMode },
    PullBranch { repo_id: u64, remote: String, branch: String },
    MergeRef { repo_id: u64, reference: String },
}

/// What choosing a menu entry does: the messages sent to the store in order, whether the
/// diff cache is rebuilt, the text put on the clipboard, and whether the branch picker
/// opens (the menu closes otherwise).
#[derive(Clone, Debug, PartialEq, Eq)]
pub struct MenuActivation {
    pub messages: Vec<StoreMsg>,
    pub rebuild_diff_cache: bool,
    pub copy_text: Option<String>,
    pub open_branch_picker: bool,
}

/// The value of a store message: the action of the same name with the same fields.
pub open spec fn msg_v(m: StoreMsg) -> ActionV {
    match m {
        StoreMsg::SelectDiff { repo_id, target } => ActionV::SelectDiff(repo_id, target_v(target)),
        StoreMsg::CheckoutCommit { repo_id, commit_id } => ActionV::CheckoutCommit(repo_id, commit_id@),
        StoreMsg::CherryPickCommit { repo_id, commit_id } => ActionV::CherryPickCommit(repo_id, commit_id@),
        StoreMsg::RevertCommit { repo_id, commit_id } => ActionV::RevertCommit(repo_id, commit_id@),
        StoreMsg::CheckoutBranch { repo_id, name } => ActionV::CheckoutBranch(repo_id, name@),
        StoreMsg::SetHistoryScope { repo_id, scope } => ActionV::SetHistoryScope(repo_id, scope),
        StoreMsg::StagePath { repo_id, path } => ActionV::StagePath(repo_id, path@),
        StoreMsg::UnstagePath { repo_id, path } => ActionV::UnstagePath(repo_id, path@),
        StoreMsg::FetchAll { repo_id } => ActionV::FetchAll(repo_id),
        StoreMsg::Pull { repo_id, mode } => ActionV::Pull(repo_id, mode),
        StoreMsg::PullBranch { repo_id, remote, branch } => ActionV::PullBranch(repo_id, remote@, branch@),
        StoreMsg::MergeRef { repo_id, reference } => ActionV::MergeRef(repo_id, reference@),
    }
}

/// The messages an action sends: staging or unstaging a file first shows its diff on the
/// side it comes from; opening the branch picker and copying send none; any other action
/// sends its own message.
pub open spec fn action_messages(a: ActionV) -> Seq<ActionV> {
    match a {
        ActionV::StagePath(r, p) => seq![
            ActionV::SelectDiff(r, DiffTargetV::WorkingTree { path: p, area: DiffArea::Unstaged }),
            a,
        ],
        ActionV::UnstagePath(r, p) => seq![
            ActionV::SelectDiff(r, DiffTargetV::WorkingTree { path: p, area: DiffArea::Staged }),
            a,
        ],
        ActionV::OpenBranchPicker => Seq::empty(),
        ActionV::CopyText(_) => Seq::empty(),
        _ => seq![a],
    }
}

/// Choosing an entry with action `a` rebuilds the diff cache: showing a diff, checking out
/// a branch, staging or unstaging.
pub open spec fn action_rebuilds(a: ActionV) -> bool {
    a is SelectDiff || a is CheckoutBranch || a is StagePath || a is UnstagePath
}

/// What choosing an entry with action `action` does (see `action_messages` and
/// `action_rebuilds`); copying puts its text on the clipboard.
pub fn context_menu_activate_action(action: ContextMenuAction) -> (r: MenuActivation)
    ensures
        r.messages@.map_values(|m: StoreMsg| msg_v(m)) == action_messages(action_v(action)),
        r.rebuild_diff_cache == action_rebuilds(action_v(action)),
        match action {
            ContextMenuAction::CopyText { text } => r.copy_text matches Some(t) && t@ == text@,
            _ => r.copy_text is None,
        },
        r.open_branch_picker == (action is OpenBranchPicker),
{
    let ghost av = action_v(action);
    let mut messages: Vec<StoreMsg> = Vec::new();
    let mut rebuild = false;
    let mut copy_text: Option<String> = None;
    let mut open = false;
    match action {
        ContextMenuAction::SelectDiff { repo_id, target } => {
            messages.push(StoreMsg::SelectDiff { repo_id, target });
            rebuild = true;
        },
        ContextMenuAction::CheckoutCommit { repo_id, commit_id } => {
            messages.push(StoreMsg::CheckoutCommit { repo_id, commit_id });
        },
        ContextMenuAction::CherryPickCommit { repo_id, commit_id } => {
            messages.push(StoreMsg::CherryPickCommit { repo_id, commit_id });
        },
        ContextMenuAction::RevertCommit { repo_id, commit_id } => {
            messages.push(StoreMsg::RevertCommit { repo_id, commit_id });
        },
        ContextMenuAction::CheckoutBranch { repo_id, name } => {
            messages.push(StoreMsg::CheckoutBranch { repo_id, name });
            rebuild = true;
        },
        ContextMenuAction::SetHistoryScope { repo_id, scope } => {
            messages.push(StoreMsg::SetHistoryScope { repo_id, scope });
        },
        ContextMenuAction::StagePath { repo_id, path } => {
            messages.push(StoreMsg::SelectDiff {
                repo_id,
                target: DiffTarget::WorkingTree { path: path.clone(), area: DiffArea::Unstaged },
            });
            messages.push(StoreMsg::StagePath { repo_id, path });
            rebuild = true;
        },
        ContextMenuAction::UnstagePath { repo_id, path } => {
            messages.push(StoreMsg::SelectDiff {
                repo_id,
                target: DiffTarget::WorkingTree { path: path.clone(), area: DiffArea::Staged },
            });
            messages.push(StoreMsg::UnstagePath { repo_id, path });
            rebuild = true;
        },
        ContextMenuAction::FetchAll { repo_id } => {
            messages.push(StoreMsg::FetchAll { repo_id });
        },
        ContextMenuAction::Pull { repo_id, mode } => {
            messages.push(StoreMsg::Pull { repo_id, mode });
        },
        ContextMenuAction::PullBranch { repo_id, remote, branch } => {
            messages.push(StoreMsg::PullBranch { repo_id, remote, branch });
        },
        ContextMenuAction::MergeRef { repo_id, reference } => {
            messages.push(StoreMsg::MergeRef { repo_id, reference });
        },
        ContextMenuAction::OpenBranchPicker => {
            open = true;
        },
        ContextMenuAction::CopyText { text } => {
            copy_text = Some(text);
        },
    }
    assert(messages@.map_values(|m: StoreMsg| msg_v(m)) =~= action_messages(av));
    MenuActivation { messages, rebuild_diff_cache: rebuild, copy_text, open_branch_picker: open }
}

/// The repository an action acts on, if any.
pub open spec fn action_repo(a: ActionV) -> Option<u64> {
    match a {
        ActionV::SelectDiff(r, _) => Some(r),
        ActionV::CheckoutCommit(r, _) => Some(r),
        ActionV::CherryPickCommit(r, _) => Some(r),
        ActionV::RevertCommit(r, _) => Some(r),
        ActionV::CheckoutBranch(r, _) => Some(r),
        ActionV::SetHistoryScope(r, _) => Some(r),
        ActionV::StagePath(r, _) => Some(r),
        ActionV::UnstagePath(r, _) => Some(r),
        ActionV::FetchAll(r) => Some(r),
        ActionV::Pull(r, _) => Some(r),
        ActionV::PullBranch(r, _, _) => Some(r),
        ActionV::MergeRef(r, _) => Some(r),
        ActionV::OpenBranchPicker => None,
        ActionV::CopyText(_) => None,
    }
}

/// The repository a menu is opened for: the target's own, or for the pull menu the active
/// one (0 without one).
pub open spec fn menu_repo(t: MenuTarget, active: Option<u64>) -> u64 {
    match t {
        MenuTarget::PullPicker => match active {
            Some(i) => i,
            None => 0,
        },
        MenuTarget::CommitMenu { repo_id, .. } => repo_id,
        MenuTarget::StatusFileMenu { repo_id, .. } => repo_id,
        MenuTarget::BranchMenu { repo_id, .. } => repo_id,
        MenuTarget::BranchSectionMenu { repo_id, .. } => repo_id,
        MenuTarget::CommitFileMenu { repo_id, .. } => repo_id,
        MenuTarget::HistoryBranchFilter { repo_id } => repo_id,
    }
}

/// Every entry of a menu acts on `repo` when it acts on a repository at all.
pub open spec fn acts_on(items: Seq<ItemV>, repo: u64) -> bool {
    forall|i: int|
        0 <= i < items.len() ==> match #[trigger] items[i] {
            ItemV::Entry { action, .. } => action_repo(action) is None || action_repo(action) == Some(repo),
            _ => true,
        }
}

proof fn lemma_acts_on_concat(a: Seq<ItemV>, b: Seq<ItemV>, repo: u64)
    requires
        acts_on(a, repo),
        acts_on(b, repo),
    ensures
        acts_on(a + b, repo),
{
    assert forall|i: int| 0 <= i < (a + b).len() implies match #[trigger] (a + b)[i] {
        ItemV::Entry { action, .. } => action_repo(action) is None || action_repo(action) == Some(repo),
        _ => true,
    } by {
        if i < a.len() {
            assert((a + b)[i] == a[i]);
        } else {
            assert((a + b)[i] == b[i - a.len()]);
        }
    }
}

/// Every entry of a context menu acts on the repository the menu is opened for (when it
/// acts on one at all).
pub proof fn law_menu_entries_act_on_its_repository(
    target: MenuTarget,
    active: Option<u64>,
    log: Option<Seq<LogCommit>>,
    file_name: Option<Seq<char>>,
)
    ensures
        acts_on(menu_items(target, active, log, file_name), menu_repo(target, active)),
{
    let items = menu_items(target, active, log, file_name);
    let repo = menu_repo(target, active);
    match target {
        MenuTarget::CommitMenu { repo_id, commit_id } => {
            let id = commit_id@;
            let summary = commit_summary(log, id);
            let head = seq![ItemV::Header("Commit "@ + short_sha(id))];
            let mid = if summary.len() > 0 {
                seq![ItemV::Label(summary)]
            } else {
                Seq::empty()
            };
            let tail = seq![
                ItemV::Separator,
                entry("Open diff"@, "↗"@, "Enter"@, ActionV::SelectDiff(repo_id, DiffTargetV::Commit { commit_id: id, path: None })),
                entry("Checkout (detached)"@, "⎇"@, "D"@, ActionV::CheckoutCommit(repo_id, id)),
                entry("Cherry-pick"@, "⇡"@, "P"@, ActionV::CherryPickCommit(repo_id, id)),
                entry("Revert"@, "↶"@, "R"@, ActionV::RevertCommit(repo_id, id)),
            ];
            assert(acts_on(head, repo));
            assert(acts_on(mid, repo));
            assert(acts_on(tail, repo));
            lemma_acts_on_concat(head, mid, repo);
            lemma_acts_on_concat(head + mid, tail, repo);
        },
        MenuTarget::BranchMenu { repo_id, section, name } => {
            let n = name@;
            let head = match section {
                BranchSection::Local => "Local branch"@,
                BranchSection::Remote => "Remote branch"@,
            };
            let base = seq![
                ItemV::Header(head),
                ItemV::Label(n),
                ItemV::Separator,
                entry("Checkout"@, "⎇"@, "Enter"@, ActionV::CheckoutBranch(repo_id, n)),
                entry("Copy name"@, "⧉"@, "C"@, ActionV::CopyText(n)),
            ];
            assert(acts_on(base, repo));
            if section == BranchSection::Remote {
                let sep = seq![ItemV::Separator];
                let split = match split_remote(n) {
                    Some((remote, branch)) => seq![
                        entry("Pull into current"@, "↓"@, "P"@, ActionV::PullBranch(repo_id, remote, branch)),
                        entry("Merge into current"@, "⇄"@, "M"@, ActionV::MergeRef(repo_id, n)),
                        ItemV::Separator,
                    ],
                    None => Seq::empty(),
                };
                let fetch = seq![entry("Fetch all"@, "↓"@, "F"@, ActionV::FetchAll(repo_id))];
                assert(acts_on(sep, repo));
                assert(acts_on(split, repo));
                assert(acts_on(fetch, repo));
                lemma_acts_on_concat(base, sep, repo);
                lemma_acts_on_concat(base + sep, split, repo);
                lemma_acts_on_concat(base + sep + split, fetch, repo);
            }
        },
        MenuTarget::BranchSectionMenu { repo_id, section } => {
            let head = match section {
                BranchSection::Local => "Local"@,
                BranchSection::Remote => "Remote"@,
            };
            let a = seq![
                ItemV::Header(head),
                ItemV::Separator,
                entry("Switch branch…"@, "⎇"@, "Enter"@, ActionV::OpenBranchPicker),
            ];
            let b = if section == BranchSection::Remote {
                seq![entry("Fetch all"@, "↓"@, "F"@, ActionV::FetchAll(repo_id))]
            } else {
                Seq::empty()
            };
            assert(acts_on(a, repo));
            assert(acts_on(b, repo));
            lemma_acts_on_concat(a, b, repo);
        },
        _ => {
            assert(acts_on(items, repo));
        },
    }
}

} // verus!
