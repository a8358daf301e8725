use vstd::prelude::*;
use crate::slash_tree::{
    find_child, slash_parts, text_lt, tree_insert, tree_view, SlashTree, TreeV, empty_tree,
};
use crate::text::{chars_eq, chars_to_string, str_to_chars};

verus! {

/// A point in time, carried through unchanged.
#[verifier::external_type_specification]
#[verifier::external_body]
pub struct ExSystemTime(std::time::SystemTime);

/// A value that is loaded in the background.
#[derive(Clone, Debug, PartialEq, Eq)]
pub enum Loadable<T> {
    NotLoaded,
    Loading,
    Ready(T),
    Error(String),
}

/// How far a branch is ahead of and behind its upstream.
#[derive(Clone, Copy, Debug, PartialEq, Eq, Structural)]
pub struct UpstreamDivergence {
    pub ahead: usize,
    pub behind: usize,
}

/// The remote branch that a local branch tracks.
#[derive(Clone, Debug, PartialEq, Eq)]
pub struct Upstream {
    pub remote: String,
    pub branch: String,
}

/// A local branch.
#[derive(Clone, Debug, PartialEq, Eq)]
pub struct Branch {
    pub name: String,
    pub upstream: Option<Upstream>,
    pub divergence: Option<UpstreamDivergence>,
}

/// A branch of a remote.
#[derive(Clone, Debug, PartialEq, Eq)]
pub struct RemoteBranch {
    pub remote: String,
    pub name: String,
}

/// A stash entry.
#[derive(Clone, Debug)]
pub struct Stash {
    pub index: usize,
    pub message: String,
    pub created_at: Option<std::time::SystemTime>,
}

/// What the branch sidebar shows of a repository: its id, the revision counters that
/// change whenever one of the lists below changes, and the lists.
#[derive(Clone, Debug)]
pub struct SidebarRepo {
    pub id: u64,
    pub head_branch_rev: u64,
    pub branches_rev: u64,
    pub remotes_rev: u64,
    pub remote_branches_rev: u64,
    pub stashes_rev: u64,
    pub head_branch: Loadable<String>,
    pub branches: Loadable<Vec<Branch>>,
    pub remote_branches: Loadable<Vec<RemoteBranch>>,
    pub remotes: Loadable<Vec<String>>,
    pub stashes: Loadable<Vec<Stash>>,
}

/// The part of the sidebar a row belongs to.
#[derive(Clone, Copy, Debug, PartialEq, Eq, Structural)]
pub enum BranchSection {
    Local,
    Remote,
}

/// A row of the branch sidebar.
#[derive(Clone, Debug)]
pub enum BranchSidebarRow {
    SectionHeader { section: BranchSection, top_border: bool },
    SectionSpacer,
    Placeholder { section: BranchSection, message: String },
    RemoteHeader { name: String },
    GroupHeader { label: String, depth: usize },
    Branch {
        label: String,
        name: String,
        section: BranchSection,
        depth: usize,
        muted: bool,
        divergence: Option<UpstreamDivergence>,
        is_head: bool,
        is_upstream: bool,
    },
    StashHeader { top_border: bool },
    StashPlaceholder { message: String },
    StashItem { index: usize, message: String, created_at: Option<std::time::SystemTime> },
}

/// The value of a sidebar row.
pub enum RowV {
    SectionHeader(BranchSection, bool),
    SectionSpacer,
    Placeholder(BranchSection, Seq<char>),
    RemoteHeader(Seq<char>),
    GroupHeader(Seq<char>, nat),
    Branch {
        label: Seq<char>,
        name: Seq<char>,
        section: BranchSection,
        depth: nat,
        muted: bool,
        divergence: Option<UpstreamDivergence>,
        is_head: bool,
        is_upstream: bool,
    },
    StashHeader(bool),
    StashPlaceholder(Seq<char>),
    StashItem(usize, Seq<char>, Option<std::time::SystemTime>),
}

/// The value of a sidebar row.
pub open spec fn row_view(r: BranchSidebarRow) -> RowV {
    match r {
        BranchSidebarRow::SectionHeader { section, top_border } => RowV::SectionHeader(
            section,
            top_border,
        ),
        BranchSidebarRow::SectionSpacer => RowV::SectionSpacer,
        BranchSidebarRow::Placeholder { section, message } => RowV::Placeholder(section, message@),
        BranchSidebarRow::RemoteHeader { name } => RowV::RemoteHeader(name@),
        BranchSidebarRow::GroupHeader { label, depth } => RowV::GroupHeader(label@, depth as nat),
        BranchSidebarRow::Branch {
            label,
            name,
            section,
            depth,
            muted,
            divergence,
            is_head,
            is_upstream,
        } => RowV::Branch {
            label: label@,
            name: name@,
            section,
            depth: depth as nat,
            muted,
            divergence,
            is_head,
            is_upstream,
        },
        BranchSidebarRow::StashHeader { top_border } => RowV::StashHeader(top_border),
        BranchSidebarRow::StashPlaceholder { message } => RowV::StashPlaceholder(message@),
        BranchSidebarRow::StashItem { index, message, created_at } => RowV::StashItem(
            index,
            message@,
            created_at,
        ),
    }
}

/// The values of sidebar rows.
pub open spec fn rows_view(rs: Seq<BranchSidebarRow>) -> Seq<RowV> {
    rs.map_values(|r: BranchSidebarRow| row_view(r))
}

/// What the rows of one tree need besides the tree: the local branches and the head
/// branch when the tree holds local branches, the upstream of the head branch, whether the
/// rows are muted, and their section.
pub struct TreeCtx {
    pub local: Option<Seq<Branch>>,
    pub head: Option<Seq<char>>,
    pub upstream: Option<Seq<char>>,
    pub muted: bool,
    pub section: BranchSection,
}

/// The last local branch named `full`.
pub open spec fn last_branch_named(bs: Seq<Branch>, full: Seq<char>, n: int) -> Option<Branch>
    decreases n,
{
    if n <= 0 || n > bs.len() {
        None
    } else if bs[n - 1].name@ == full {
        Some(bs[n - 1])
    } else {
        last_branch_named(bs, full, n - 1)
    }
}

/// The divergence and head flag shown for the branch named `full`: those of the last local
/// branch of that name; remote branches have none.
pub open spec fn branch_meta(ctx: TreeCtx, full: Seq<char>) -> (Option<UpstreamDivergence>, bool) {
    match ctx.local {
        None => (None, false),
        Some(bs) => match last_branch_named(bs, full, bs.len() as int) {
            None => (None, false),
            Some(b) => (b.divergence, ctx.head == Some(b.name@)),
        },
    }
}

/// The row of the branch named `prefix + label`.
pub open spec fn branch_row(ctx: TreeCtx, label: Seq<char>, prefix: Seq<char>, depth: nat) -> RowV {
    let full = prefix + label;
    RowV::Branch {
        label,
        name: full,
        section: ctx.section,
        depth,
        muted: ctx.muted,
        divergence: branch_meta(ctx, full).0,
        is_head: branch_meta(ctx, full).1,
        is_upstream: ctx.upstream == Some(full),
    }
}

/// The rows of a tree whose children sit at `depth` and whose names start with `prefix`:
/// for each child in key order, a leaf child is one branch row; a child with children is a
/// group header, then its own branch row one level deeper when a name ends there, then the
/// rows of its children.
pub open spec fn tree_rows(t: TreeV, ctx: TreeCtx, depth: nat, prefix: Seq<char>) -> Seq<RowV>
    decreases t, 0int,
{
    children_rows(t.children, ctx, depth, prefix, t.children.len() as int)
}

/// The rows of the first `n` children.
pub open spec fn children_rows(
    cs: Seq<(Seq<char>, TreeV)>,
    ctx: TreeCtx,
    depth: nat,
    prefix: Seq<char>,
    n: int,
) -> Seq<RowV>
    decreases cs, n,
{
    if n <= 0 || n > cs.len() {
        Seq::empty()
    } else {
        let label = cs[n - 1].0;
        let node = cs[n - 1].1;
        children_rows(cs, ctx, depth, prefix, n - 1) + if node.children.len() == 0 {
            if node.is_leaf {
                seq![branch_row(ctx, label, prefix, depth)]
            } else {
                Seq::empty()
            }
        } else {
            seq![RowV::GroupHeader(label.push('/'), depth)] + (if node.is_leaf {
                seq![branch_row(ctx, label, prefix, depth + 1)]
            } else {
                Seq::empty()
            }) + tree_rows(node, ctx, depth + 1, prefix + label.push('/'))
        }
    }
}

/// How many levels of children lie below the top of `t`.
pub open spec fn tree_height(t: TreeV) -> nat
    decreases t, 0int,
{
    children_height(t.children, t.children.len() as int)
}

/// The greatest height, plus one, over the first `n` children.
pub open spec fn children_height(cs: Seq<(Seq<char>, TreeV)>, n: int) -> nat
    decreases cs, n,
{
    if n <= 0 || n > cs.len() {
        0
    } else {
        let h = 1 + tree_height(cs[n - 1].1);
        let rest = children_height(cs, n - 1);
        if h > rest {
            h
        } else {
            rest
        }
    }
}

proof fn lemma_child_height(cs: Seq<(Seq<char>, TreeV)>, n: int, i: int)
    requires
        0 <= i < n <= cs.len(),
    ensures
        1 + tree_height(cs[i].1) <= children_height(cs, n),
    decreases n,
{
    if i < n - 1 {
        lemma_child_height(cs, n - 1, i);
    }
}

} // verus!

verus! {

/// The tree context for the given lookups.
pub open spec fn ctx_of(
    local: Option<&[Branch]>,
    head: Option<&String>,
    upstream: Option<&Vec<char>>,
    muted: bool,
    section: BranchSection,
) -> TreeCtx {
    TreeCtx {
        local: match local {
            None => None,
            Some(bs) => Some(bs@),
        },
        head: match head {
            Some(h) => Some(h@),
            None => None,
        },
        upstream: match upstream {
            Some(u) => Some(u@),
            None => None,
        },
        muted,
        section,
    }
}

fn lookup_meta(local: Option<&[Branch]>, head: Option<&String>, full: &[char]) -> (r: (
    Option<UpstreamDivergence>,
    bool,
))
    ensures
        r == branch_meta(ctx_of(local, head, None, false, BranchSection::Local), full@),
{
    match local {
        None => (None, false),
        Some(bs) => {
            let mut i: usize = bs.len();
            while i > 0
                invariant
                    i <= bs@.len(),
                    local == Some(bs),
                    last_branch_named(bs@, full@, bs@.len() as int) == last_branch_named(
                        bs@,
                        full@,
                        i as int,
                    ),
                decreases i,
            {
                let name = str_to_chars(bs[i - 1].name.as_str());
                if chars_eq(&name, full) {
                    assert(last_branch_named(bs@, full@, i as int) == Some(bs@[i - 1]));
                    let is_head = match head {
                        Some(h) => {
                            let hc = str_to_chars(h.as_str());
                            chars_eq(&hc, &name)
                        },
                        None => false,
                    };
                    return (bs[i - 1].divergence, is_head);
                }
                i = i - 1;
            }
            (None, false)
        },
    }
}

fn make_branch_row(
    local: Option<&[Branch]>,
    head: Option<&String>,
    upstream_full: Option<&Vec<char>>,
    muted: bool,
    section: BranchSection,
    label: &[char],
    prefix: &[char],
    depth: usize,
) -> (row: BranchSidebarRow)
    ensures
        row_view(row) == branch_row(
            ctx_of(local, head, upstream_full, muted, section),
            label@,
            prefix@,
            depth as nat,
        ),
{
    let mut full: Vec<char> = Vec::new();
    crate::text::extend_chars(&mut full, prefix);
    crate::text::extend_chars(&mut full, label);
    let (divergence, is_head) = lookup_meta(local, head, &full);
    let is_upstream = match upstream_full {
        Some(u) => chars_eq(u, &full),
        None => false,
    };
    BranchSidebarRow::Branch {
        label: chars_to_string(label),
        name: chars_to_string(&full),
        section,
        depth,
        muted,
        divergence,
        is_head,
        is_upstream,
    }
}

fn push_row(out: &mut Vec<BranchSidebarRow>, row: BranchSidebarRow)
    ensures
        rows_view(final(out)@) == rows_view(old(out)@).push(row_view(row)),
{
    out.push(row);
    assert(rows_view(out@) =~= rows_view(old(out)@).push(row_view(row)));
}

/// Appends the rows of `tree`, whose children sit at `depth` and whose branch names start
/// with `name_prefix`.
fn push_slash_tree_rows(
    tree: &SlashTree,
    out: &mut Vec<BranchSidebarRow>,
    local: Option<&[Branch]>,
    head: Option<&String>,
    upstream_full: Option<&Vec<char>>,
    depth: usize,
    muted: bool,
    section: BranchSection,
    name_prefix: &[char],
)
    requires
        depth + tree_height(tree_view(*tree)) < usize::MAX,
    ensures
        rows_view(final(out)@) == rows_view(old(out)@) + tree_rows(
            tree_view(*tree),
            ctx_of(local, head, upstream_full, muted, section),
            depth as nat,
            name_prefix@,
        ),
    decreases tree,
{
    let ghost t = tree_view(*tree);
    let ghost ctx = ctx_of(local, head, upstream_full, muted, section);
    let ghost o0 = rows_view(out@);
    let mut i: usize = 0;
    while i < tree.children.len()
        invariant
            i <= tree.children@.len(),
            t == tree_view(*tree),
            t.children.len() == tree.children@.len(),
            ctx == ctx_of(local, head, upstream_full, muted, section),
            depth + tree_height(t) < usize::MAX,
            rows_view(out@) == o0 + children_rows(t.children, ctx, depth as nat, name_prefix@, i as int),
        decreases tree.children@.len() - i,
    {
        proof {
            crate::slash_tree::lemma_tree_view_child(*tree, i as int);
            lemma_child_height(t.children, t.children.len() as int, i as int);
        }
        let label = str_to_chars(tree.children[i].0.as_str());
        let node = &tree.children[i].1;
        let ghost before = rows_view(out@);
        if node.children.len() == 0 {
            if node.is_leaf {
                let row = make_branch_row(local, head, upstream_full, muted, section, &label, name_prefix, depth);
                push_row(out, row);
            }
            proof {
                assert(tree_view(*node).children.len() == 0);
            }
        } else {
            let mut group: Vec<char> = label.clone();
            group.push('/');
            assert(group@ =~= label@.push('/'));
            push_row(out, BranchSidebarRow::GroupHeader { label: chars_to_string(&group), depth });
            if node.is_leaf {
                let row = make_branch_row(local, head, upstream_full, muted, section, &label, name_prefix, depth + 1);
                push_row(out, row);
            }
            let mut next_prefix: Vec<char> = Vec::new();
            crate::text::extend_chars(&mut next_prefix, name_prefix);
            crate::text::extend_chars(&mut next_prefix, &group);
            push_slash_tree_rows(node, out, local, head, upstream_full, depth + 1, muted, section, &next_prefix);
            proof {
                assert(next_prefix@ =~= name_prefix@ + label@.push('/'));
            }
        }
        proof {
            let step = if t.children[i as int].1.children.len() == 0 {
                if t.children[i as int].1.is_leaf {
                    seq![branch_row(ctx, label@, name_prefix@, depth as nat)]
                } else {
                    Seq::empty()
                }
            } else {
                seq![RowV::GroupHeader(label@.push('/'), depth as nat)] + (if t.children[i as int].1.is_leaf {
                    seq![branch_row(ctx, label@, name_prefix@, depth as nat + 1)]
                } else {
                    Seq::empty()
                }) + tree_rows(t.children[i as int].1, ctx, depth as nat + 1, name_prefix@ + label@.push('/'))
            };
            assert(rows_view(out@) =~= before + step);
            assert(children_rows(t.children, ctx, depth as nat, name_prefix@, i + 1) == children_rows(
                t.children,
                ctx,
                depth as nat,
                name_prefix@,
                i as int,
            ) + step);
        }
        i = i + 1;
    }
}

} // verus!

verus! {

proof fn lemma_children_height_bound(cs: Seq<(Seq<char>, TreeV)>, n: int, b: nat)
    requires
        forall|j: int| 0 <= j < n && j < cs.len() ==> 1 + tree_height(#[trigger] cs[j].1) <= b,
    ensures
        children_height(cs, n) <= b,
    decreases n,
{
    if n > 0 && n <= cs.len() {
        lemma_children_height_bound(cs, n - 1, b);
    }
}

proof fn lemma_parts_len(s: Seq<char>)
    ensures
        parts_acc_weight(s) <= s.len(),
        crate::slash_tree::slash_parts(s).len() <= s.len(),
    decreases s.len(),
{
    if s.len() > 0 {
        lemma_parts_len(s.drop_last());
    }
}

/// The number of pieces that `parts_acc` has found so far, the unfinished one included.
spec fn parts_acc_weight(s: Seq<char>) -> nat {
    let (done, cur) = crate::slash_tree::parts_acc(s);
    done.len() + if cur.len() > 0 {
        1nat
    } else {
        0nat
    }
}

proof fn lemma_insert_height(t: TreeV, parts: Seq<Seq<char>>)
    ensures
        tree_height(tree_insert(t, parts)) <= if tree_height(t) >= parts.len() {
            tree_height(t)
        } else {
            parts.len()
        },
    decreases parts.len(),
{
    let bound = if tree_height(t) >= parts.len() {
        tree_height(t)
    } else {
        parts.len()
    };
    if parts.len() == 0 {
        let r = tree_insert(t, parts);
        assert(r.children == t.children);
    } else {
        let p = parts[0];
        let rest = parts.drop_first();
        let r = tree_insert(t, parts);
        match find_child(t.children, p, 0) {
            Some(i) => {
                crate::slash_tree::lemma_find_child_found(t.children, p, 0, i);
                lemma_child_height(t.children, t.children.len() as int, i);
                lemma_insert_height(t.children[i].1, rest);
                assert forall|j: int| 0 <= j < r.children.len() && j < r.children.len() implies 1
                    + tree_height(#[trigger] r.children[j].1) <= bound by {
                    if j != i {
                        lemma_child_height(t.children, t.children.len() as int, j);
                    }
                }
                lemma_children_height_bound(r.children, r.children.len() as int, bound);
            },
            None => {
                let pos = crate::slash_tree::insert_pos(t.children, p, 0);
                crate::slash_tree::lemma_insert_pos_range(t.children, p, 0);
                lemma_insert_height(empty_tree(), rest);
                assert(tree_height(empty_tree()) == 0);
                assert forall|j: int| 0 <= j < r.children.len() && j < r.children.len() implies 1
                    + tree_height(#[trigger] r.children[j].1) <= bound by {
                    if j < pos {
                        lemma_child_height(t.children, t.children.len() as int, j);
                    } else if j > pos {
                        lemma_child_height(t.children, t.children.len() as int, j - 1);
                    }
                }
                lemma_children_height_bound(r.children, r.children.len() as int, bound);
            },
        }
    }
}

/// The tree of the first `n` names.
pub open spec fn names_tree(names: Seq<Seq<char>>, n: int) -> TreeV
    decreases n,
{
    if n <= 0 {
        empty_tree()
    } else {
        tree_insert(names_tree(names, n - 1), slash_parts(names[n - 1]))
    }
}

proof fn lemma_names_tree_height(names: Seq<Seq<char>>, n: int, b: nat)
    requires
        forall|k: int| 0 <= k < names.len() ==> (#[trigger] names[k]).len() <= b,
        n <= names.len(),
    ensures
        tree_height(names_tree(names, n)) <= b,
    decreases n,
{
    if n > 0 {
        lemma_names_tree_height(names, n - 1, b);
        lemma_parts_len(names[n - 1]);
        lemma_insert_height(names_tree(names, n - 1), slash_parts(names[n - 1]));
    } else {
        assert(tree_height(empty_tree()) == 0);
    }
}

/// The tree of the names of a list of local branches.
fn branch_tree(bs: &[Branch]) -> (t: SlashTree)
    ensures
        tree_view(t) == names_tree(bs@.map_values(|b: Branch| b.name@), bs@.len() as int),
{
    let ghost names = bs@.map_values(|b: Branch| b.name@);
    let mut t = SlashTree::new();
    let mut i: usize = 0;
    while i < bs.len()
        invariant
            i <= bs@.len(),
            names == bs@.map_values(|b: Branch| b.name@),
            tree_view(t) == names_tree(names, i as int),
        decreases bs@.len() - i,
    {
        t.insert(bs[i].name.as_str());
        i = i + 1;
    }
    t
}

/// The tree of a list of names.
fn strings_tree(names: &Vec<String>) -> (t: SlashTree)
    ensures
        tree_view(t) == names_tree(names@.map_values(|s: String| s@), names@.len() as int),
{
    let ghost ns = names@.map_values(|s: String| s@);
    let mut t = SlashTree::new();
    let mut i: usize = 0;
    while i < names.len()
        invariant
            i <= names@.len(),
            ns == names@.map_values(|s: String| s@),
            tree_view(t) == names_tree(ns, i as int),
        decreases names@.len() - i,
    {
        t.insert(names[i].as_str());
        i = i + 1;
    }
    t
}

} // verus!

verus! {

/// The first position at or after `i` of the key `p`.
pub open spec fn find_key(ks: Seq<Seq<char>>, p: Seq<char>, i: int) -> Option<int>
    decreases ks.len() - i,
{
    if i < 0 || i >= ks.len() {
        None
    } else if ks[i] == p {
        Some(i)
    } else {
        find_key(ks, p, i + 1)
    }
}

/// The first position at or after `i` whose key sorts after `p`, or the end.
pub open spec fn key_pos(ks: Seq<Seq<char>>, p: Seq<char>, i: int) -> int
    decreases ks.len() - i,
{
    if i < 0 || i >= ks.len() {
        ks.len() as int
    } else if text_lt(p, ks[i]) {
        i
    } else {
        key_pos(ks, p, i + 1)
    }
}

/// Branch names grouped by remote, in remote order.
pub type GroupsV = Seq<(Seq<char>, Seq<Seq<char>>)>;

/// The remote names of the groups.
pub open spec fn group_keys(gs: GroupsV) -> Seq<Seq<char>> {
    gs.map_values(|g: (Seq<char>, Seq<Seq<char>>)| g.0)
}

/// The groups with `name` (if any) added under `remote`; a missing remote gets a group in
/// remote order.
pub open spec fn group_add(gs: GroupsV, remote: Seq<char>, name: Option<Seq<char>>) -> GroupsV {
    match find_key(group_keys(gs), remote, 0) {
        Some(i) => match name {
            Some(n) => gs.update(i, (gs[i].0, gs[i].1.push(n))),
            None => gs,
        },
        None => gs.insert(
            key_pos(group_keys(gs), remote, 0),
            (
                remote,
                match name {
                    Some(n) => seq![n],
                    None => Seq::empty(),
                },
            ),
        ),
    }
}

/// The first `n` remote branches grouped by remote.
pub open spec fn branch_groups(rbs: Seq<RemoteBranch>, n: int) -> GroupsV
    decreases n,
{
    if n <= 0 {
        Seq::empty()
    } else {
        group_add(branch_groups(rbs, n - 1), rbs[n - 1].remote@, Some(rbs[n - 1].name@))
    }
}

/// An empty group for each of the first `n` remotes.
pub open spec fn remote_groups(rs: Seq<String>, n: int) -> GroupsV
    decreases n,
{
    if n <= 0 {
        Seq::empty()
    } else {
        group_add(remote_groups(rs, n - 1), rs[n - 1]@, None)
    }
}

/// The value of exec groups.
pub open spec fn groups_view(gs: Seq<(String, Vec<String>)>) -> GroupsV {
    gs.map_values(|g: (String, Vec<String>)| (g.0@, g.1@.map_values(|s: String| s@)))
}

fn find_group(gs: &Vec<(String, Vec<String>)>, remote: &[char]) -> (r: Option<usize>)
    ensures
        match r {
            Some(i) => find_key(group_keys(groups_view(gs@)), remote@, 0) == Some(i as int) && i
                < gs@.len(),
            None => find_key(group_keys(groups_view(gs@)), remote@, 0) is None,
        },
{
    let ghost ks = group_keys(groups_view(gs@));
    let mut i: usize = 0;
    while i < gs.len()
        invariant
            i <= gs@.len(),
            ks == group_keys(groups_view(gs@)),
            ks.len() == gs@.len(),
            find_key(ks, remote@, 0) == find_key(ks, remote@, i as int),
        decreases gs@.len() - i,
    {
        let key = str_to_chars(gs[i].0.as_str());
        assert(ks[i as int] == gs@[i as int].0@);
        if chars_eq(&key, remote) {
            return Some(i);
        }
        i = i + 1;
    }
    None
}

fn group_pos(gs: &Vec<(String, Vec<String>)>, remote: &[char]) -> (r: usize)
    ensures
        r as int == key_pos(group_keys(groups_view(gs@)), remote@, 0),
        r <= gs@.len(),
{
    let ghost ks = group_keys(groups_view(gs@));
    let mut i: usize = 0;
    while i < gs.len()
        invariant
            i <= gs@.len(),
            ks == group_keys(groups_view(gs@)),
            ks.len() == gs@.len(),
            key_pos(ks, remote@, 0) == key_pos(ks, remote@, i as int),
        decreases gs@.len() - i,
    {
        let key = str_to_chars(gs[i].0.as_str());
        assert(ks[i as int] == gs@[i as int].0@);
        if crate::slash_tree::chars_lt(remote, &key) {
            return i;
        }
        i = i + 1;
    }
    i
}

fn add_to_group(gs: &mut Vec<(String, Vec<String>)>, remote: &String, name: Option<&String>)
    ensures
        groups_view(final(gs)@) == group_add(
            groups_view(old(gs)@),
            remote@,
            match name {
                Some(n) => Some(n@),
                None => None,
            },
        ),
{
    let rc = str_to_chars(remote.as_str());
    let ghost g0 = groups_view(gs@);
    match find_group(gs, &rc) {
        Some(i) => {
            if let Some(n) = name {
                let (key, mut list) = gs.remove(i);
                let ghost l0 = list@;
                list.push(n.clone());
                gs.insert(i, (key, list));
                proof {
                    assert(list@.map_values(|s: String| s@) =~= l0.map_values(|s: String| s@).push(
                        n@,
                    ));
                    assert(groups_view(gs@) =~= g0.update(
                        i as int,
                        (g0[i as int].0, g0[i as int].1.push(n@)),
                    ));
                }
            }
        },
        None => {
            let pos = group_pos(gs, &rc);
            let mut list: Vec<String> = Vec::new();
            if let Some(n) = name {
                list.push(n.clone());
            }
            gs.insert(pos, (remote.clone(), list));
            proof {
                let want = g0.insert(
                    pos as int,
                    (
                        remote@,
                        match name {
                            Some(n) => seq![n@],
                            None => Seq::<Seq<char>>::empty(),
                        },
                    ),
                );
                assert(list@.map_values(|s: String| s@) =~= want[pos as int].1);
                assert(groups_view(gs@) =~= want);
            }
        },
    }
}

/// The remote branches grouped by remote, in remote order.
fn group_remote_branches(rbs: &Vec<RemoteBranch>) -> (gs: Vec<(String, Vec<String>)>)
    ensures
        groups_view(gs@) == branch_groups(rbs@, rbs@.len() as int),
{
    let mut gs: Vec<(String, Vec<String>)> = Vec::new();
    assert(groups_view(gs@) =~= Seq::<(Seq<char>, Seq<Seq<char>>)>::empty());
    let mut i: usize = 0;
    while i < rbs.len()
        invariant
            i <= rbs@.len(),
            groups_view(gs@) == branch_groups(rbs@, i as int),
        decreases rbs@.len() - i,
    {
        add_to_group(&mut gs, &rbs[i].remote, Some(&rbs[i].name));
        i = i + 1;
    }
    gs
}

/// An empty group for each remote, in remote order.
fn group_remotes(rs: &Vec<String>) -> (gs: Vec<(String, Vec<String>)>)
    ensures
        groups_view(gs@) == remote_groups(rs@, rs@.len() as int),
{
    let mut gs: Vec<(String, Vec<String>)> = Vec::new();
    assert(groups_view(gs@) =~= Seq::<(Seq<char>, Seq<Seq<char>>)>::empty());
    let mut i: usize = 0;
    while i < rs.len()
        invariant
            i <= rs@.len(),
            groups_view(gs@) == remote_groups(rs@, i as int),
        decreases rs@.len() - i,
    {
        add_to_group(&mut gs, &rs[i], None);
        i = i + 1;
    }
    gs
}

} // verus!

verus! {

/// The first local branch named `name`.
pub open spec fn first_branch_named(bs: Seq<Branch>, name: Seq<char>, i: int) -> Option<Branch>
    decreases bs.len() - i,
{
    if i < 0 || i >= bs.len() {
        None
    } else if bs[i].name@ == name {
        Some(bs[i])
    } else {
        first_branch_named(bs, name, i + 1)
    }
}

/// The remote branch, as `remote/branch`, that the head branch tracks.
pub open spec fn head_upstream(repo: SidebarRepo) -> Option<Seq<char>> {
    match (repo.branches, repo.head_branch) {
        (Loadable::Ready(bs), Loadable::Ready(h)) => match first_branch_named(bs@, h@, 0) {
            Some(b) => match b.upstream {
                Some(u) => Some(u.remote@ + seq!['/'] + u.branch@),
                None => None,
            },
            None => None,
        },
        _ => None,
    }
}

/// The head branch's name, once loaded.
pub open spec fn head_name(repo: SidebarRepo) -> Option<Seq<char>> {
    match repo.head_branch {
        Loadable::Ready(h) => Some(h@),
        _ => None,
    }
}

/// The rows of the local section below its header.
pub open spec fn local_rows(repo: SidebarRepo) -> Seq<RowV> {
    match repo.branches {
        Loadable::Ready(bs) => if bs@.len() == 0 {
            seq![RowV::Placeholder(BranchSection::Local, "No branches"@)]
        } else {
            tree_rows(
                names_tree(bs@.map_values(|b: Branch| b.name@), bs@.len() as int),
                TreeCtx {
                    local: Some(bs@),
                    head: head_name(repo),
                    upstream: head_upstream(repo),
                    muted: false,
                    section: BranchSection::Local,
                },
                0,
                Seq::empty(),
            )
        },
        Loadable::Loading => seq![RowV::Placeholder(BranchSection::Local, "Loading"@)],
        Loadable::NotLoaded => seq![RowV::Placeholder(BranchSection::Local, "Not loaded"@)],
        Loadable::Error(e) => seq![RowV::Placeholder(BranchSection::Local, e@)],
    }
}

/// The rows of the first `n` remote groups: each remote's header, then the rows of its
/// branch tree one level in, muted.
pub open spec fn group_rows(gs: GroupsV, up: Option<Seq<char>>, n: int) -> Seq<RowV>
    decreases n,
{
    if n <= 0 || n > gs.len() {
        Seq::empty()
    } else {
        let (remote, names) = gs[n - 1];
        group_rows(gs, up, n - 1) + seq![RowV::RemoteHeader(remote)] + if names.len() == 0 {
            Seq::empty()
        } else {
            tree_rows(
                names_tree(names, names.len() as int),
                TreeCtx {
                    local: None,
                    head: None,
                    upstream: up,
                    muted: true,
                    section: BranchSection::Remote,
                },
                1,
                remote.push('/'),
            )
        }
    }
}

/// The groups of the remote section: the remote branches by remote, or, before they are
/// loaded, an empty group for each known remote.
pub open spec fn sidebar_groups(repo: SidebarRepo) -> GroupsV {
    match repo.remote_branches {
        Loadable::Ready(rbs) => branch_groups(rbs@, rbs@.len() as int),
        _ => match repo.remotes {
            Loadable::Ready(rs) => remote_groups(rs@, rs@.len() as int),
            _ => Seq::empty(),
        },
    }
}

/// The rows of the remote section below its header, and whether the stash section follows.
pub open spec fn remote_section(repo: SidebarRepo) -> (Seq<RowV>, bool) {
    match repo.remote_branches {
        Loadable::Loading => (seq![RowV::Placeholder(BranchSection::Remote, "Loading"@)], false),
        Loadable::Error(e) => (seq![RowV::Placeholder(BranchSection::Remote, e@)], false),
        _ => {
            let gs = sidebar_groups(repo);
            if gs.len() == 0 {
                (seq![RowV::Placeholder(BranchSection::Remote, "No remotes"@)], false)
            } else {
                (group_rows(gs, head_upstream(repo), gs.len() as int), true)
            }
        },
    }
}

/// The row of a stash entry.
pub open spec fn stash_row(s: Stash) -> RowV {
    RowV::StashItem(s.index, s.message@, s.created_at)
}

/// The stash section.
pub open spec fn stash_rows(repo: SidebarRepo) -> Seq<RowV> {
    seq![RowV::SectionSpacer, RowV::StashHeader(true)] + match repo.stashes {
        Loadable::Ready(ss) => if ss@.len() == 0 {
            seq![RowV::StashPlaceholder("No stashes"@)]
        } else {
            ss@.map_values(|s: Stash| stash_row(s))
        },
        Loadable::Loading => seq![RowV::StashPlaceholder("Loading"@)],
        Loadable::NotLoaded => seq![RowV::StashPlaceholder("Not loaded"@)],
        Loadable::Error(e) => seq![RowV::StashPlaceholder(e@)],
    }
}

/// The rows of the branch sidebar: the local branches as a tree split at `/`, the remote
/// branches grouped by remote, and the stashes.
pub open spec fn sidebar_rows(repo: SidebarRepo) -> Seq<RowV> {
    let (remote, go_on) = remote_section(repo);
    seq![RowV::SectionHeader(BranchSection::Local, false)] + local_rows(repo) + seq![
        RowV::SectionSpacer,
        RowV::SectionHeader(BranchSection::Remote, true),
    ] + remote + if go_on {
        stash_rows(repo)
    } else {
        Seq::empty()
    }
}

/// Every branch name is short enough for the tree depths to be counted.
pub open spec fn names_fit(repo: SidebarRepo) -> bool {
    &&& (repo.branches matches Loadable::Ready(bs) ==> forall|k: int|
        0 <= k < bs@.len() ==> (#[trigger] bs@[k]).name@.len() < usize::MAX - 1)
    &&& (repo.remote_branches matches Loadable::Ready(rbs) ==> forall|k: int|
        0 <= k < rbs@.len() ==> (#[trigger] rbs@[k]).name@.len() < usize::MAX - 2)
}

fn head_upstream_exec(repo: &SidebarRepo) -> (r: Option<Vec<char>>)
    ensures
        match r {
            Some(v) => head_upstream(*repo) == Some(v@),
            None => head_upstream(*repo) is None,
        },
{
    match (&repo.branches, &repo.head_branch) {
        (Loadable::Ready(bs), Loadable::Ready(h)) => {
            let hc = str_to_chars(h.as_str());
            let mut i: usize = 0;
            while i < bs.len()
                invariant
                    i <= bs@.len(),
                    hc@ == h@,
                    repo.branches == Loadable::Ready(*bs),
                    repo.head_branch == Loadable::Ready(*h),
                    first_branch_named(bs@, h@, 0) == first_branch_named(bs@, h@, i as int),
                decreases bs@.len() - i,
            {
                let name = str_to_chars(bs[i].name.as_str());
                if chars_eq(&name, &hc) {
                    assert(first_branch_named(bs@, h@, i as int) == Some(bs@[i as int]));
                    return match &bs[i].upstream {
                        Some(u) => {
                            let mut v = str_to_chars(u.remote.as_str());
                            v.push('/');
                            let b = str_to_chars(u.branch.as_str());
                            crate::text::extend_chars(&mut v, &b);
                            assert(v@ =~= u.remote@ + seq!['/'] + u.branch@);
                            Some(v)
                        },
                        None => None,
                    };
                }
                i = i + 1;
            }
            None
        },
        _ => None,
    }
}

fn push_placeholder(out: &mut Vec<BranchSidebarRow>, section: BranchSection, message: String)
    ensures
        rows_view(final(out)@) == rows_view(old(out)@).push(RowV::Placeholder(section, message@)),
{
    push_row(out, BranchSidebarRow::Placeholder { section, message });
}

} // verus!

verus! {

proof fn lemma_group_name_lengths(rbs: Seq<RemoteBranch>, n: int, b: nat)
    requires
        forall|k: int| 0 <= k < rbs.len() ==> (#[trigger] rbs[k]).name@.len() <= b,
        n <= rbs.len(),
    ensures
        forall|i: int, j: int|
            0 <= i < branch_groups(rbs, n).len() && 0 <= j < branch_groups(rbs, n)[i].1.len()
                ==> (#[trigger] branch_groups(rbs, n)[i].1[j]).len() <= b,
    decreases n,
{
    if n > 0 {
        lemma_group_name_lengths(rbs, n - 1, b);
        let g0 = branch_groups(rbs, n - 1);
        let g = branch_groups(rbs, n);
        match find_key(group_keys(g0), rbs[n - 1].remote@, 0) {
            Some(i) => {
                lemma_find_key_found(group_keys(g0), rbs[n - 1].remote@, 0, i);
                assert forall|a: int, c: int| 0 <= a < g.len() && 0 <= c < g[a].1.len() implies (
                #[trigger] g[a].1[c]).len() <= b by {
                    if a == i && c == g0[i].1.len() {
                    } else if a == i {
                        assert(g[a].1[c] == g0[a].1[c]);
                    }
                }
            },
            None => {
                let pos = key_pos(group_keys(g0), rbs[n - 1].remote@, 0);
                lemma_key_pos_range(group_keys(g0), rbs[n - 1].remote@, 0);
                assert forall|a: int, c: int| 0 <= a < g.len() && 0 <= c < g[a].1.len() implies (
                #[trigger] g[a].1[c]).len() <= b by {
                    if a < pos {
                        assert(g[a] == g0[a]);
                    } else if a > pos {
                        assert(g[a] == g0[a - 1]);
                    }
                }
            },
        }
    }
}

proof fn lemma_remote_groups_empty(rs: Seq<String>, n: int)
    ensures
        forall|i: int| 0 <= i < remote_groups(rs, n).len() ==> (#[trigger] remote_groups(rs, n)[i]).1.len() == 0,
    decreases n,
{
    if n > 0 {
        lemma_remote_groups_empty(rs, n - 1);
        let g0 = remote_groups(rs, n - 1);
        match find_key(group_keys(g0), rs[n - 1]@, 0) {
            Some(i) => {},
            None => {
                let pos = key_pos(group_keys(g0), rs[n - 1]@, 0);
                lemma_key_pos_range(group_keys(g0), rs[n - 1]@, 0);
                let g = remote_groups(rs, n);
                assert forall|a: int| 0 <= a < g.len() implies (#[trigger] g[a]).1.len() == 0 by {
                    if a < pos {
                        assert(g[a] == g0[a]);
                    } else if a > pos {
                        assert(g[a] == g0[a - 1]);
                    }
                }
            },
        }
    }
}

proof fn lemma_find_key_found(ks: Seq<Seq<char>>, p: Seq<char>, i: int, j: int)
    requires
        find_key(ks, p, i) == Some(j),
    ensures
        0 <= j < ks.len(),
    decreases ks.len() - i,
{
    if 0 <= i < ks.len() && ks[i] != p {
        lemma_find_key_found(ks, p, i + 1, j);
    }
}

pub(crate) proof fn lemma_key_pos_range(ks: Seq<Seq<char>>, p: Seq<char>, i: int)
    requires
        0 <= i,
    ensures
        0 <= key_pos(ks, p, i) <= ks.len(),
    decreases ks.len() - i,
{
    if 0 <= i < ks.len() && !text_lt(p, ks[i]) {
        lemma_key_pos_range(ks, p, i + 1);
    }
}

fn push_local_rows(repo: &SidebarRepo, up: Option<&Vec<char>>, out: &mut Vec<BranchSidebarRow>)
    requires
        names_fit(*repo),
        match up {
            Some(u) => head_upstream(*repo) == Some(u@),
            None => head_upstream(*repo) is None,
        },
    ensures
        rows_view(final(out)@) == rows_view(old(out)@) + local_rows(*repo),
{
    let ghost o0 = rows_view(out@);
    match &repo.branches {
        Loadable::Ready(bs) => {
            if bs.len() == 0 {
                push_placeholder(out, BranchSection::Local, "No branches".to_owned());
            } else {
                let head: Option<&String> = match &repo.head_branch {
                    Loadable::Ready(h) => Some(h),
                    _ => None,
                };
                let tree = branch_tree(bs.as_slice());
                proof {
                    let names = bs@.map_values(|b: Branch| b.name@);
                    assert forall|k: int| 0 <= k < names.len() implies (#[trigger] names[k]).len()
                        <= usize::MAX - 2 by {
                        assert(names[k] == bs@[k].name@);
                    }
                    lemma_names_tree_height(names, bs@.len() as int, (usize::MAX - 2) as nat);
                }
                let empty: Vec<char> = Vec::new();
                push_slash_tree_rows(
                    &tree,
                    out,
                    Some(bs.as_slice()),
                    head,
                    up,
                    0,
                    false,
                    BranchSection::Local,
                    &empty,
                );
                assert(empty@ =~= Seq::<char>::empty());
            }
        },
        Loadable::Loading => push_placeholder(out, BranchSection::Local, "Loading".to_owned()),
        Loadable::NotLoaded => push_placeholder(
            out,
            BranchSection::Local,
            "Not loaded".to_owned(),
        ),
        Loadable::Error(e) => push_placeholder(out, BranchSection::Local, e.clone()),
    }
}

fn push_group_rows(
    gs: &Vec<(String, Vec<String>)>,
    up: Option<&Vec<char>>,
    out: &mut Vec<BranchSidebarRow>,
)
    requires
        forall|i: int, j: int|
            0 <= i < groups_view(gs@).len() && 0 <= j < groups_view(gs@)[i].1.len() ==> (
            #[trigger] groups_view(gs@)[i].1[j]).len() <= usize::MAX - 3,
    ensures
        rows_view(final(out)@) == rows_view(old(out)@) + group_rows(
            groups_view(gs@),
            match up {
                Some(u) => Some(u@),
                None => None,
            },
            gs@.len() as int,
        ),
{
    let ghost o0 = rows_view(out@);
    let ghost upv = match up {
        Some(u) => Some(u@),
        None => None::<Seq<char>>,
    };
    let ghost g = groups_view(gs@);
    let mut i: usize = 0;
    while i < gs.len()
        invariant
            i <= gs@.len(),
            g == groups_view(gs@),
            g.len() == gs@.len(),
            upv == match up {
                Some(u) => Some(u@),
                None => None::<Seq<char>>,
            },
            forall|a: int, b: int|
                0 <= a < g.len() && 0 <= b < g[a].1.len() ==> (#[trigger] g[a].1[b]).len() <= usize::MAX
                    - 3,
            rows_view(out@) == o0 + group_rows(g, upv, i as int),
        decreases gs@.len() - i,
    {
        let ghost before = rows_view(out@);
        push_row(out, BranchSidebarRow::RemoteHeader { name: gs[i].0.clone() });
        let names = &gs[i].1;
        if names.len() > 0 {
            let tree = strings_tree(names);
            proof {
                let ns = names@.map_values(|s: String| s@);
                assert(ns == g[i as int].1);
                assert forall|k: int| 0 <= k < ns.len() implies (#[trigger] ns[k]).len() <= usize::MAX
                    - 3 by {
                    assert(g[i as int].1[k] == ns[k]);
                }
                lemma_names_tree_height(ns, ns.len() as int, (usize::MAX - 3) as nat);
            }
            let mut prefix = str_to_chars(gs[i].0.as_str());
            prefix.push('/');
            push_slash_tree_rows(
                &tree,
                out,
                None,
                None,
                up,
                1,
                true,
                BranchSection::Remote,
                &prefix,
            );
        }
        proof {
            assert(g[i as int].0 == gs@[i as int].0@);
        }
        assert(rows_view(out@) =~= o0 + group_rows(g, upv, i + 1));
        i = i + 1;
    }
}

fn push_stash_rows(repo: &SidebarRepo, out: &mut Vec<BranchSidebarRow>)
    ensures
        rows_view(final(out)@) == rows_view(old(out)@) + stash_rows(*repo),
{
    let ghost o0 = rows_view(out@);
    push_row(out, BranchSidebarRow::SectionSpacer);
    push_row(out, BranchSidebarRow::StashHeader { top_border: true });
    let ghost o1 = rows_view(out@);
    match &repo.stashes {
        Loadable::Ready(ss) => {
            if ss.len() == 0 {
                push_row(out, BranchSidebarRow::StashPlaceholder { message: "No stashes".to_owned() });
            } else {
                let mut i: usize = 0;
                while i < ss.len()
                    invariant
                        i <= ss@.len(),
                        rows_view(out@) == o1 + ss@.map_values(|s: Stash| stash_row(s)).take(i as int),
                    decreases ss@.len() - i,
                {
                    let s = &ss[i];
                    push_row(
                        out,
                        BranchSidebarRow::StashItem {
                            index: s.index,
                            message: s.message.clone(),
                            created_at: s.created_at,
                        },
                    );
                    assert(rows_view(out@) =~= o1 + ss@.map_values(|s: Stash| stash_row(s)).take(
                        i + 1,
                    ));
                    i = i + 1;
                }
                assert(ss@.map_values(|s: Stash| stash_row(s)).take(i as int) =~= ss@.map_values(
                    |s: Stash| stash_row(s),
                ));
            }
        },
        Loadable::Loading => push_row(out, BranchSidebarRow::StashPlaceholder { message: "Loading".to_owned() }),
        Loadable::NotLoaded => push_row(
            out,
            BranchSidebarRow::StashPlaceholder { message: "Not loaded".to_owned() },
        ),
        Loadable::Error(e) => push_row(out, BranchSidebarRow::StashPlaceholder { message: e.clone() }),
    }
    assert(rows_view(out@) =~= o0 + stash_rows(*repo));
}

/// The rows of the branch sidebar for a repository.
pub fn branch_sidebar_rows(repo: &SidebarRepo) -> (rows: Vec<BranchSidebarRow>)
    requires
        names_fit(*repo),
    ensures
        rows_view(rows@) == sidebar_rows(*repo),
{
    let mut rows: Vec<BranchSidebarRow> = Vec::new();
    let up = head_upstream_exec(repo);
    let upr: Option<&Vec<char>> = match &up {
        Some(u) => Some(u),
        None => None,
    };
    push_row(&mut rows, BranchSidebarRow::SectionHeader { section: BranchSection::Local, top_border: false });
    push_local_rows(repo, upr, &mut rows);
    push_row(&mut rows, BranchSidebarRow::SectionSpacer);
    push_row(&mut rows, BranchSidebarRow::SectionHeader { section: BranchSection::Remote, top_border: true });
    let ghost before_remote = rows_view(rows@);
    let groups = match &repo.remote_branches {
        Loadable::Ready(rbs) => {
            proof {
                lemma_group_name_lengths(rbs@, rbs@.len() as int, (usize::MAX - 3) as nat);
            }
            group_remote_branches(rbs)
        },
        Loadable::Loading => {
            push_placeholder(&mut rows, BranchSection::Remote, "Loading".to_owned());
            assert(rows_view(rows@) =~= sidebar_rows(*repo));
            return rows;
        },
        Loadable::Error(e) => {
            push_placeholder(&mut rows, BranchSection::Remote, e.clone());
            assert(rows_view(rows@) =~= sidebar_rows(*repo));
            return rows;
        },
        Loadable::NotLoaded => match &repo.remotes {
            Loadable::Ready(rs) => {
                proof {
                    lemma_remote_groups_empty(rs@, rs@.len() as int);
                }
                group_remotes(rs)
            },
            _ => {
                let gs: Vec<(String, Vec<String>)> = Vec::new();
                assert(groups_view(gs@) =~= Seq::<(Seq<char>, Seq<Seq<char>>)>::empty());
                gs
            },
        },
    };
    assert(groups_view(groups@) == sidebar_groups(*repo));
    if groups.len() == 0 {
        push_placeholder(&mut rows, BranchSection::Remote, "No remotes".to_owned());
        assert(rows_view(rows@) =~= sidebar_rows(*repo));
        return rows;
    }
    push_group_rows(&groups, upr, &mut rows);
    push_stash_rows(repo, &mut rows);
    assert(rows_view(rows@) =~= sidebar_rows(*repo));
    rows
}

} // verus!

verus! {

/// The revision counters of the parts of a repository that the branch sidebar shows.
#[derive(Clone, Copy, Debug, PartialEq, Eq, Structural)]
pub struct BranchSidebarFingerprint {
    pub head_branch_rev: u64,
    pub branches_rev: u64,
    pub remotes_rev: u64,
    pub remote_branches_rev: u64,
    pub stashes_rev: u64,
}

/// The fingerprint of a repository.
pub open spec fn fingerprint_of(repo: SidebarRepo) -> BranchSidebarFingerprint {
    BranchSidebarFingerprint {
        head_branch_rev: repo.head_branch_rev,
        branches_rev: repo.branches_rev,
        remotes_rev: repo.remotes_rev,
        remote_branches_rev: repo.remote_branches_rev,
        stashes_rev: repo.stashes_rev,
    }
}

impl BranchSidebarFingerprint {
    /// The revision counters of `repo`.
    pub fn from_repo(repo: &SidebarRepo) -> (f: Self)
        ensures
            f == fingerprint_of(*repo),
    {
        BranchSidebarFingerprint {
            head_branch_rev: repo.head_branch_rev,
            branches_rev: repo.branches_rev,
            remotes_rev: repo.remotes_rev,
            remote_branches_rev: repo.remote_branches_rev,
            stashes_rev: repo.stashes_rev,
        }
    }
}

/// The sidebar rows last built, with the repository and fingerprint they were built for.
pub struct BranchSidebarCache {
    pub repo_id: u64,
    pub fingerprint: BranchSidebarFingerprint,
    pub rows: Vec<BranchSidebarRow>,
}

/// Whether `cache` holds the rows of `repo` as it is now.
pub open spec fn cache_hit(cache: Option<BranchSidebarCache>, repo: SidebarRepo) -> bool {
    match cache {
        Some(c) => c.repo_id == repo.id && c.fingerprint == fingerprint_of(repo),
        None => false,
    }
}

fn clone_row(r: &BranchSidebarRow) -> (c: BranchSidebarRow)
    ensures
        row_view(c) == row_view(*r),
{
    match r {
        BranchSidebarRow::SectionHeader { section, top_border } => BranchSidebarRow::SectionHeader {
            section: *section,
            top_border: *top_border,
        },
        BranchSidebarRow::SectionSpacer => BranchSidebarRow::SectionSpacer,
        BranchSidebarRow::Placeholder { section, message } => BranchSidebarRow::Placeholder {
            section: *section,
            message: message.clone(),
        },
        BranchSidebarRow::RemoteHeader { name } => BranchSidebarRow::RemoteHeader { name: name.clone() },
        BranchSidebarRow::GroupHeader { label, depth } => BranchSidebarRow::GroupHeader {
            label: label.clone(),
            depth: *depth,
        },
        BranchSidebarRow::Branch {
            label,
            name,
            section,
            depth,
            muted,
            divergence,
            is_head,
            is_upstream,
        } => BranchSidebarRow::Branch {
            label: label.clone(),
            name: name.clone(),
            section: *section,
            depth: *depth,
            muted: *muted,
            divergence: *divergence,
            is_head: *is_head,
            is_upstream: *is_upstream,
        },
        BranchSidebarRow::StashHeader { top_border } => BranchSidebarRow::StashHeader {
            top_border: *top_border,
        },
        BranchSidebarRow::StashPlaceholder { message } => BranchSidebarRow::StashPlaceholder {
            message: message.clone(),
        },
        BranchSidebarRow::StashItem { index, message, created_at } => BranchSidebarRow::StashItem {
            index: *index,
            message: message.clone(),
            created_at: *created_at,
        },
    }
}

fn clone_rows(rows: &Vec<BranchSidebarRow>) -> (c: Vec<BranchSidebarRow>)
    ensures
        rows_view(c@) == rows_view(rows@),
{
    let mut out: Vec<BranchSidebarRow> = Vec::new();
    let mut i: usize = 0;
    while i < rows.len()
        invariant
            i <= rows@.len(),
            rows_view(out@) == rows_view(rows@).take(i as int),
        decreases rows@.len() - i,
    {
        let ghost before = rows_view(out@);
        out.push(clone_row(&rows[i]));
        assert(rows_view(out@) =~= rows_view(rows@).take(i + 1)) by {
            assert(rows_view(out@) =~= before.push(row_view(rows@[i as int])));
        }
        i = i + 1;
    }
    assert(rows_view(rows@).take(i as int) =~= rows_view(rows@));
    out
}

/// The branch sidebar rows of the active repository, `None` when there is none. The rows
/// in `cache` are handed back when they were built for the same repository with the same
/// fingerprint; otherwise the rows are built anew and stored in `cache`. Without an active
/// repository the cache is cleared.
pub fn branch_sidebar_rows_cached(
    cache: &mut Option<BranchSidebarCache>,
    repo: Option<&SidebarRepo>,
) -> (rows: Option<Vec<BranchSidebarRow>>)
    requires
        match repo {
            Some(r) => names_fit(*r),
            None => true,
        },
    ensures
        match repo {
            None => rows is None && (*final(cache)) is None,
            Some(r) => {
                &&& rows is Some
                &&& (*final(cache)) is Some
                &&& (*final(cache)).unwrap().repo_id == r.id
                &&& (*final(cache)).unwrap().fingerprint == fingerprint_of(*r)
                &&& rows_view((*final(cache)).unwrap().rows@) == rows_view(rows.unwrap()@)
                &&& if cache_hit(*old(cache), *r) {
                    rows_view(rows.unwrap()@) == rows_view((*old(cache)).unwrap().rows@)
                } else {
                    rows_view(rows.unwrap()@) == sidebar_rows(*r)
                }
            },
        },
{
    match repo {
        None => {
            *cache = None;
            None
        },
        Some(r) => {
            let fingerprint = BranchSidebarFingerprint::from_repo(r);
            let hit = match cache {
                Some(c) => c.repo_id == r.id && c.fingerprint == fingerprint,
                None => false,
            };
            if hit {
                match cache {
                    Some(c) => Some(clone_rows(&c.rows)),
                    None => None,
                }
            } else {
                let rows = branch_sidebar_rows(r);
                let kept = clone_rows(&rows);
                *cache = Some(BranchSidebarCache { repo_id: r.id, fingerprint, rows: kept });
                Some(rows)
            }
        },
    }
}

/// Asking twice for the rows of an unchanged repository gives the same rows, and the
/// second time they come from the cache.
pub proof fn law_cached_rows_are_stable(
    c0: Option<BranchSidebarCache>,
    c1: Option<BranchSidebarCache>,
    c2: Option<BranchSidebarCache>,
    repo: SidebarRepo,
    first: Seq<RowV>,
    second: Seq<RowV>,
)
    requires
        c1 is Some,
        c1.unwrap().repo_id == repo.id,
        c1.unwrap().fingerprint == fingerprint_of(repo),
        rows_view(c1.unwrap().rows@) == first,
        cache_hit(c0, repo) ==> first == rows_view(c0.unwrap().rows@),
        !cache_hit(c0, repo) ==> first == sidebar_rows(repo),
        cache_hit(c1, repo) ==> second == rows_view(c1.unwrap().rows@),
        !cache_hit(c1, repo) ==> second == sidebar_rows(repo),
    ensures
        cache_hit(c1, repo),
        second == first,
{
}

} // verus!

verus! {

/// A row of the remote picker: a remote, or one of its branches.
#[derive(Clone, Debug, PartialEq, Eq)]
pub enum RemoteRow {
    Header(String),
    Branch { remote: String, name: String },
}

/// The value of a remote picker row.
pub open spec fn remote_row_view(r: RemoteRow) -> (Seq<char>, Option<Seq<char>>) {
    match r {
        RemoteRow::Header(h) => (h@, None),
        RemoteRow::Branch { remote, name } => (remote@, Some(name@)),
    }
}

/// `s` with `x` added in key order, unless it is there already.
pub open spec fn sorted_insert(s: Seq<Seq<char>>, x: Seq<char>) -> Seq<Seq<char>> {
    if s.contains(x) {
        s
    } else {
        s.insert(key_pos(s, x, 0), x)
    }
}

/// The first `n` names, in key order, each once.
pub open spec fn sorted_unique(names: Seq<Seq<char>>, n: int) -> Seq<Seq<char>>
    decreases n,
{
    if n <= 0 {
        Seq::empty()
    } else {
        sorted_insert(sorted_unique(names, n - 1), names[n - 1])
    }
}

/// The groups of the remote picker: the remote branches by remote, or, when there are none,
/// an empty group for each known remote.
pub open spec fn picker_groups(repo: SidebarRepo) -> GroupsV {
    let gs = match repo.remote_branches {
        Loadable::Ready(rbs) => branch_groups(rbs@, rbs@.len() as int),
        _ => Seq::empty(),
    };
    if gs.len() == 0 {
        match repo.remotes {
            Loadable::Ready(rs) => remote_groups(rs@, rs@.len() as int),
            _ => gs,
        }
    } else {
        gs
    }
}

/// The rows of the first `n` picker groups: each remote, then its branches in key order,
/// each once.
pub open spec fn picker_rows(gs: GroupsV, n: int) -> Seq<(Seq<char>, Option<Seq<char>>)>
    decreases n,
{
    if n <= 0 || n > gs.len() {
        Seq::empty()
    } else {
        let (remote, names) = gs[n - 1];
        picker_rows(gs, n - 1) + seq![(remote, None::<Seq<char>>)] + sorted_unique(
            names,
            names.len() as int,
        ).map_values(|nm: Seq<char>| (remote, Some(nm)))
    }
}

pub(crate) fn sorted_insert_exec(s: &mut Vec<String>, x: &String)
    ensures
        final(s)@.map_values(|t: String| t@) == sorted_insert(
            old(s)@.map_values(|t: String| t@),
            x@,
        ),
{
    let ghost v0 = s@.map_values(|t: String| t@);
    let xc = str_to_chars(x.as_str());
    let mut i: usize = 0;
    while i < s.len()
        invariant
            i <= s@.len(),
            v0 == s@.map_values(|t: String| t@),
            v0.len() == s@.len(),
            xc@ == x@,
            forall|k: int| 0 <= k < i ==> v0[k] != x@,
        decreases s@.len() - i,
    {
        let c = str_to_chars(s[i].as_str());
        assert(v0[i as int] == s@[i as int]@);
        if chars_eq(&c, &xc) {
            assert(v0.contains(x@));
            return;
        }
        i = i + 1;
    }
    assert(!v0.contains(x@));
    let mut pos: usize = 0;
    while pos < s.len()
        invariant
            pos <= s@.len(),
            v0 == s@.map_values(|t: String| t@),
            v0.len() == s@.len(),
            xc@ == x@,
            key_pos(v0, x@, 0) == key_pos(v0, x@, pos as int),
        ensures
            pos <= s@.len(),
            v0 == s@.map_values(|t: String| t@),
            key_pos(v0, x@, 0) == pos as int,
        decreases s@.len() - pos,
    {
        let c = str_to_chars(s[pos].as_str());
        assert(v0[pos as int] == s@[pos as int]@);
        if crate::slash_tree::chars_lt(&xc, &c) {
            break;
        }
        pos = pos + 1;
    }
    assert(key_pos(v0, x@, 0) == pos as int);
    s.insert(pos, x.clone());
    assert(s@.map_values(|t: String| t@) =~= v0.insert(pos as int, x@));
}

/// The rows of the remote picker: each remote in key order, followed by its branches in key
/// order, each once.
pub fn remote_rows(repo: &SidebarRepo) -> (rows: Vec<RemoteRow>)
    ensures
        rows@.map_values(|r: RemoteRow| remote_row_view(r)) == picker_rows(
            picker_groups(*repo),
            picker_groups(*repo).len() as int,
        ),
{
    let mut groups: Vec<(String, Vec<String>)> = match &repo.remote_branches {
        Loadable::Ready(rbs) => group_remote_branches(rbs),
        _ => {
            let gs: Vec<(String, Vec<String>)> = Vec::new();
            assert(groups_view(gs@) =~= Seq::<(Seq<char>, Seq<Seq<char>>)>::empty());
            gs
        },
    };
    if groups.len() == 0 {
        if let Loadable::Ready(rs) = &repo.remotes {
            groups = group_remotes(rs);
        }
    }
    let ghost g = groups_view(groups@);
    assert(g == picker_groups(*repo));
    let mut rows: Vec<RemoteRow> = Vec::new();
    let mut i: usize = 0;
    while i < groups.len()
        invariant
            i <= groups@.len(),
            g == groups_view(groups@),
            g.len() == groups@.len(),
            rows@.map_values(|r: RemoteRow| remote_row_view(r)) == picker_rows(g, i as int),
        decreases groups@.len() - i,
    {
        let remote = &groups[i].0;
        let names = &groups[i].1;
        let ghost ns = names@.map_values(|t: String| t@);
        let mut sorted: Vec<String> = Vec::new();
        let mut k: usize = 0;
        assert(sorted@.map_values(|t: String| t@) =~= sorted_unique(ns, 0));
        while k < names.len()
            invariant
                k <= names@.len(),
                ns == names@.map_values(|t: String| t@),
                sorted@.map_values(|t: String| t@) == sorted_unique(ns, k as int),
            decreases names@.len() - k,
        {
            sorted_insert_exec(&mut sorted, &names[k]);
            k = k + 1;
        }
        let ghost before = rows@.map_values(|r: RemoteRow| remote_row_view(r));
        rows.push(RemoteRow::Header(remote.clone()));
        let ghost su = sorted@.map_values(|t: String| t@);
        let mut j: usize = 0;
        while j < sorted.len()
            invariant
                j <= sorted@.len(),
                su == sorted@.map_values(|t: String| t@),
                rows@.map_values(|r: RemoteRow| remote_row_view(r)) == before + seq![
                    (remote@, None::<Seq<char>>),
                ] + su.map_values(|nm: Seq<char>| (remote@, Some(nm))).take(j as int),
            decreases sorted@.len() - j,
        {
            assert(su[j as int] == sorted@[j as int]@);
            let ghost prev = rows@.map_values(|r: RemoteRow| remote_row_view(r));
            let row = RemoteRow::Branch { remote: remote.clone(), name: sorted[j].clone() };
            assert(remote_row_view(row) == (remote@, Some(su[j as int])));
            rows.push(row);
            assert(rows@.map_values(|r: RemoteRow| remote_row_view(r)) =~= prev.push(
                remote_row_view(row),
            ));
            assert(su.map_values(|nm: Seq<char>| (remote@, Some(nm))).take(j + 1) =~= su.map_values(
                |nm: Seq<char>| (remote@, Some(nm)),
            ).take(j as int).push((remote@, Some(su[j as int]))));
            assert(rows@.map_values(|r: RemoteRow| remote_row_view(r)) =~= before + seq![
                (remote@, None::<Seq<char>>),
            ] + su.map_values(|nm: Seq<char>| (remote@, Some(nm))).take(j + 1));
            j = j + 1;
        }
        proof {
            assert(g[i as int] == (remote@, ns));
            assert(su.map_values(|nm: Seq<char>| (remote@, Some(nm))).take(j as int) =~= su.map_values(
                |nm: Seq<char>| (remote@, Some(nm)),
            ));
        }
        assert(rows@.map_values(|r: RemoteRow| remote_row_view(r)) =~= picker_rows(g, i + 1));
        i = i + 1;
    }
    rows
}

} // verus!
