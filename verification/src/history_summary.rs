use vstd::prelude::*;
use crate::branch_sidebar::{
    lemma_key_pos_range, sorted_insert_exec, sorted_unique, key_pos, Loadable,
};
use crate::text::strings_v;
use crate::worktree_preview::{FileStatus, FileStatusKind, RepoStatus};

verus! {

/// How many of the first `n` entries add a file (new or untracked), modify one (changed,
/// renamed or in conflict), and delete one.
pub open spec fn kind_counts(entries: Seq<FileStatus>, n: int) -> (nat, nat, nat)
    decreases n,
{
    if n <= 0 {
        (0, 0, 0)
    } else {
        let (a, m, d) = kind_counts(entries, n - 1);
        match entries[n - 1].kind {
            FileStatusKind::Untracked | FileStatusKind::Added => (a + 1, m, d),
            FileStatusKind::Deleted => (a, m, d + 1),
            FileStatusKind::Modified | FileStatusKind::Renamed | FileStatusKind::Conflicted => (
                a,
                m + 1,
                d,
            ),
        }
    }
}

proof fn lemma_kind_counts_bound(entries: Seq<FileStatus>, n: int)
    requires
        0 <= n,
    ensures
        kind_counts(entries, n).0 + kind_counts(entries, n).1 + kind_counts(entries, n).2 == n,
    decreases n,
{
    if n > 0 {
        lemma_kind_counts_bound(entries, n - 1);
    }
}

/// The summary of the working tree that the history shows: whether its row is shown (some
/// file changed, staged or not), and how many files are added, modified and deleted over
/// both lists.
pub open spec fn worktree_summary(s: RepoStatus) -> (bool, (nat, nat, nat)) {
    let u = kind_counts(s.unstaged@, s.unstaged@.len() as int);
    let st = kind_counts(s.staged@, s.staged@.len() as int);
    (s.unstaged@.len() > 0 || s.staged@.len() > 0, (u.0 + st.0, u.1 + st.1, u.2 + st.2))
}

/// What the working-tree summary needs of the active repository: its id, the status and a
/// number naming the loaded status (a new number for each status loaded).
#[derive(Clone, Debug)]
pub struct SummaryRepo {
    pub id: u64,
    pub status_id: u64,
    pub status: Loadable<RepoStatus>,
}

/// The working-tree summary as last computed: for which repository and status, and the
/// summary itself.
#[derive(Clone, Copy, Debug, PartialEq, Eq)]
pub struct WorktreeSummaryCache {
    pub repo_id: u64,
    pub status_id: u64,
    pub show_row: bool,
    pub counts: (usize, usize, usize),
}

fn count_kinds(entries: &Vec<FileStatus>) -> (r: (usize, usize, usize))
    ensures
        (r.0 as nat, r.1 as nat, r.2 as nat) == kind_counts(entries@, entries@.len() as int),
{
    let mut added: usize = 0;
    let mut modified: usize = 0;
    let mut deleted: usize = 0;
    let mut i: usize = 0;
    while i < entries.len()
        invariant
            i <= entries@.len(),
            (added as nat, modified as nat, deleted as nat) == kind_counts(entries@, i as int),
        decreases entries@.len() - i,
    {
        proof {
            lemma_kind_counts_bound(entries@, i as int);
        }
        match entries[i].kind {
            FileStatusKind::Untracked | FileStatusKind::Added => added = added + 1,
            FileStatusKind::Deleted => deleted = deleted + 1,
            FileStatusKind::Modified | FileStatusKind::Renamed | FileStatusKind::Conflicted => {
                modified = modified + 1
            },
        }
        i = i + 1;
    }
    (added, modified, deleted)
}

/// The summary of the working tree for the history (see `worktree_summary`), computed
/// once per loaded status: a cached summary for the same repository and status is returned
/// as it is; without a loaded status the cache is dropped and the row is hidden.
pub fn ensure_history_worktree_summary_cache(
    cache: &mut Option<WorktreeSummaryCache>,
    repo: Option<&SummaryRepo>,
) -> (r: (bool, (usize, usize, usize)))
    requires
        match repo {
            Some(rp) => match rp.status {
                Loadable::Ready(s) => s.staged@.len() + s.unstaged@.len() <= usize::MAX,
                _ => true,
            },
            None => true,
        },
    ensures
        match repo {
            Some(rp) => match rp.status {
                Loadable::Ready(s) => match *old(cache) {
                    Some(c) if c.repo_id == rp.id && c.status_id == rp.status_id => r == (
                        c.show_row,
                        c.counts,
                    ) && *final(cache) == *old(cache),
                    _ => (r.0, (r.1.0 as nat, r.1.1 as nat, r.1.2 as nat)) == worktree_summary(s)
                        && *final(cache) == Some(
                        WorktreeSummaryCache {
                            repo_id: rp.id,
                            status_id: rp.status_id,
                            show_row: r.0,
                            counts: r.1,
                        },
                    ),
                },
                _ => r == (false, (0usize, 0usize, 0usize)) && *final(cache) is None,
            },
            None => r == (false, (0usize, 0usize, 0usize)) && *final(cache) is None,
        },
{
    let rp = match repo {
        Some(rp) => rp,
        None => {
            *cache = None;
            return (false, (0, 0, 0));
        },
    };
    let status = match &rp.status {
        Loadable::Ready(s) => s,
        _ => {
            *cache = None;
            return (false, (0, 0, 0));
        },
    };
    match cache {
        Some(c) => {
            if c.repo_id == rp.id && c.status_id == rp.status_id {
                return (c.show_row, c.counts);
            }
        },
        None => {},
    }
    let u = count_kinds(&status.unstaged);
    let st = count_kinds(&status.staged);
    proof {
        lemma_kind_counts_bound(status.unstaged@, status.unstaged@.len() as int);
        lemma_kind_counts_bound(status.staged@, status.staged@.len() as int);
    }
    let show_row = status.unstaged.len() > 0 || status.staged.len() > 0;
    let counts = (u.0 + st.0, u.1 + st.1, u.2 + st.2);
    *cache = Some(
        WorktreeSummaryCache { repo_id: rp.id, status_id: rp.status_id, show_row, counts },
    );
    (show_row, counts)
}

/// What the stash marks of the history need of the active repository: its id, the
/// revision of its stash list, and the commit ids of its stashes once loaded.
#[derive(Clone, Debug)]
pub struct StashRepo {
    pub id: u64,
    pub stashes_rev: u64,
    pub stash_ids: Loadable<Vec<String>>,
}

/// The commit ids of the stashes, as last computed: for which repository and stash
/// revision, and the ids, sorted, each once.
#[derive(Clone, Debug)]
pub struct StashIdsCache {
    pub repo_id: u64,
    pub stashes_rev: u64,
    pub ids: Vec<String>,
}

/// The set of stash ids: the ids, sorted, each once.
pub open spec fn id_set(ids: Seq<String>) -> Seq<Seq<char>> {
    sorted_unique(strings_v(ids), ids.len() as int)
}

/// A text is among the sorted, deduplicated first `n` names exactly when it is among the
/// first `n` names.
pub proof fn lemma_sorted_unique_contains(names: Seq<Seq<char>>, n: int, x: Seq<char>)
    requires
        0 <= n <= names.len(),
    ensures
        sorted_unique(names, n).contains(x) <==> exists|i: int| 0 <= i < n && names[i] == x,
    decreases n,
{
    if n > 0 {
        lemma_sorted_unique_contains(names, n - 1, x);
        let s = sorted_unique(names, n - 1);
        let y = names[n - 1];
        if !s.contains(y) {
            let pos = key_pos(s, y, 0);
            lemma_key_pos_range(s, y, 0);
            let t = s.insert(pos, y);
            if t.contains(x) {
                let k = choose|k: int| 0 <= k < t.len() && t[k] == x;
                if k < pos {
                    assert(s[k] == x);
                } else if k > pos {
                    assert(s[k - 1] == x);
                }
            }
            if s.contains(x) {
                let k = choose|k: int| 0 <= k < s.len() && s[k] == x;
                if k < pos {
                    assert(t[k] == x);
                } else {
                    assert(t[k + 1] == x);
                }
            }
            if x == y {
                assert(t[pos] == x);
            }
        }
        if exists|i: int| 0 <= i < n && names[i] == x {
            let i = choose|i: int| 0 <= i < n && names[i] == x;
            if i < n - 1 {
                assert(exists|j: int| 0 <= j < n - 1 && names[j] == x);
            }
        }
        if exists|i: int| 0 <= i < n - 1 && names[i] == x {
            let i = choose|i: int| 0 <= i < n - 1 && names[i] == x;
            assert(0 <= i < n && names[i] == x);
        }
    }
}

/// The list handed out is `ids`, and the cache holds it for repository `repo_id` at stash
/// revision `rev`.
pub open spec fn gives_ids(
    r: Option<Vec<String>>,
    c: Option<StashIdsCache>,
    repo_id: u64,
    rev: u64,
    ids: Seq<Seq<char>>,
) -> bool {
    &&& r matches Some(v) && strings_v(v@) == ids
    &&& c matches Some(f) && f.repo_id == repo_id && f.stashes_rev == rev && strings_v(f.ids@) == ids
}

fn stash_id_set(ids: &Vec<String>) -> (out: Vec<String>)
    ensures
        strings_v(out@) == id_set(ids@),
{
    let mut out: Vec<String> = Vec::new();
    let mut i: usize = 0;
    while i < ids.len()
        invariant
            i <= ids@.len(),
            strings_v(out@) == sorted_unique(strings_v(ids@), i as int),
        decreases ids@.len() - i,
    {
        sorted_insert_exec(&mut out, &ids[i]);
        assert(strings_v(ids@)[i as int] == ids@[i as int]@);
        i = i + 1;
    }
    out
}

fn copy_ids(ids: &Vec<String>) -> (out: Vec<String>)
    ensures
        strings_v(out@) == strings_v(ids@),
{
    let mut out: Vec<String> = Vec::new();
    let mut i: usize = 0;
    while i < ids.len()
        invariant
            i <= ids@.len(),
            strings_v(out@) == strings_v(ids@).take(i as int),
        decreases ids@.len() - i,
    {
        let ghost before = strings_v(out@);
        out.push(ids[i].clone());
        assert(strings_v(out@) =~= before.push(ids@[i as int]@));
        assert(strings_v(ids@).take(i + 1) =~= strings_v(ids@).take(i as int).push(ids@[i as int]@));
        i = i + 1;
    }
    assert(strings_v(ids@).take(ids@.len() as int) =~= strings_v(ids@));
    out
}

/// The commit ids of the active repository's stashes, sorted, each once (see `id_set`),
/// computed once per stash revision: a cached list for the same repository and revision is
/// returned as it is; without loaded stashes, or with none, the cache is dropped and there
/// is no list.
pub fn ensure_history_stash_ids_cache(cache: &mut Option<StashIdsCache>, repo: Option<&StashRepo>) -> (r:
    Option<Vec<String>>)
    ensures
        match repo {
            Some(rp) => match rp.stash_ids {
                Loadable::Ready(ids) => if ids@.len() == 0 {
                    r is None && (*final(cache)) is None
                } else {
                    match *old(cache) {
                        Some(c) if c.repo_id == rp.id && c.stashes_rev == rp.stashes_rev => gives_ids(
                            r,
                            *final(cache),
                            c.repo_id,
                            c.stashes_rev,
                            strings_v(c.ids@),
                        ),
                        _ => gives_ids(r, *final(cache), rp.id, rp.stashes_rev, id_set(ids@)),
                    }
                },
                _ => r is None && (*final(cache)) is None,
            },
            None => r is None && (*final(cache)) is None,
        },
{
    let rp = match repo {
        Some(rp) => rp,
        None => {
            *cache = None;
            return None;
        },
    };
    let ids = match &rp.stash_ids {
        Loadable::Ready(ids) => ids,
        _ => {
            *cache = None;
            return None;
        },
    };
    if ids.len() == 0 {
        *cache = None;
        return None;
    }
    match cache {
        Some(c) => {
            if c.repo_id == rp.id && c.stashes_rev == rp.stashes_rev {
                return Some(copy_ids(&c.ids));
            }
        },
        None => {},
    }
    let set = stash_id_set(ids);
    let out = copy_ids(&set);
    *cache = Some(StashIdsCache { repo_id: rp.id, stashes_rev: rp.stashes_rev, ids: set });
    Some(out)
}

/// A commit id is in the stash id list of a repository exactly when one of its stashes
/// has that id.
pub proof fn law_stash_ids_are_the_stashes(ids: Seq<String>, x: Seq<char>)
    ensures
        id_set(ids).contains(x) <==> exists|i: int| 0 <= i < ids.len() && ids[i]@ == x,
{
    lemma_sorted_unique_contains(strings_v(ids), ids.len() as int, x);
    if exists|i: int| 0 <= i < ids.len() && ids[i]@ == x {
        let i = choose|i: int| 0 <= i < ids.len() && ids[i]@ == x;
        assert(strings_v(ids)[i] == x);
    }
    if exists|i: int| 0 <= i < ids.len() && strings_v(ids)[i] == x {
        let i = choose|i: int| 0 <= i < ids.len() && strings_v(ids)[i] == x;
        assert(ids[i]@ == x);
    }
}

} // verus!
