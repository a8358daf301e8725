use gitgpui_view::branch_sidebar::Loadable;
use gitgpui_view::history_summary::{
    ensure_history_stash_ids_cache, ensure_history_worktree_summary_cache, StashIdsCache, StashRepo,
    SummaryRepo, WorktreeSummaryCache,
};
use gitgpui_view::worktree_preview::{FileStatus, FileStatusKind, RepoStatus};

fn fs(kind: FileStatusKind) -> FileStatus {
    FileStatus { path: "p".to_string(), kind }
}

#[test]
fn worktree_summary_counts_added_modified_and_deleted_files() {
    let status = RepoStatus {
        staged: vec![fs(FileStatusKind::Added), fs(FileStatusKind::Renamed)],
        unstaged: vec![
            fs(FileStatusKind::Untracked),
            fs(FileStatusKind::Modified),
            fs(FileStatusKind::Conflicted),
            fs(FileStatusKind::Deleted),
        ],
    };
    let repo = SummaryRepo { id: 1, status_id: 10, status: Loadable::Ready(status) };
    let mut cache: Option<WorktreeSummaryCache> = None;
    assert_eq!(ensure_history_worktree_summary_cache(&mut cache, Some(&repo)), (true, (2, 3, 1)));
    assert_eq!(
        cache,
        Some(WorktreeSummaryCache { repo_id: 1, status_id: 10, show_row: true, counts: (2, 3, 1) })
    );
}

#[test]
fn worktree_summary_is_reused_for_the_same_status() {
    let repo = SummaryRepo {
        id: 1,
        status_id: 10,
        status: Loadable::Ready(RepoStatus { staged: vec![], unstaged: vec![fs(FileStatusKind::Added)] }),
    };
    // A cached summary for the same repository and status is returned as it is.
    let mut cache = Some(WorktreeSummaryCache { repo_id: 1, status_id: 10, show_row: false, counts: (9, 9, 9) });
    assert_eq!(ensure_history_worktree_summary_cache(&mut cache, Some(&repo)), (false, (9, 9, 9)));
    // A new status is counted again.
    let newer = SummaryRepo { status_id: 11, ..repo.clone() };
    assert_eq!(ensure_history_worktree_summary_cache(&mut cache, Some(&newer)), (true, (1, 0, 0)));
}

#[test]
fn worktree_summary_is_hidden_without_a_loaded_status() {
    let mut cache = Some(WorktreeSummaryCache { repo_id: 1, status_id: 1, show_row: true, counts: (1, 1, 1) });
    let loading = SummaryRepo { id: 1, status_id: 1, status: Loadable::Loading };
    assert_eq!(ensure_history_worktree_summary_cache(&mut cache, Some(&loading)), (false, (0, 0, 0)));
    assert_eq!(cache, None);
    let clean = SummaryRepo {
        id: 1,
        status_id: 2,
        status: Loadable::Ready(RepoStatus { staged: vec![], unstaged: vec![] }),
    };
    assert_eq!(ensure_history_worktree_summary_cache(&mut cache, Some(&clean)), (false, (0, 0, 0)));
    assert_eq!(ensure_history_worktree_summary_cache(&mut cache, None), (false, (0, 0, 0)));
    assert_eq!(cache, None);
}

#[test]
fn stash_ids_are_sorted_unique_and_cached_per_revision() {
    let repo = StashRepo {
        id: 3,
        stashes_rev: 5,
        stash_ids: Loadable::Ready(vec!["c".to_string(), "a".to_string(), "c".to_string(), "b".to_string()]),
    };
    let mut cache: Option<StashIdsCache> = None;
    let ids = ensure_history_stash_ids_cache(&mut cache, Some(&repo));
    assert_eq!(ids, Some(vec!["a".to_string(), "b".to_string(), "c".to_string()]));
    // The same revision gives the cached list back.
    cache.as_mut().unwrap().ids = vec!["z".to_string()];
    assert_eq!(ensure_history_stash_ids_cache(&mut cache, Some(&repo)), Some(vec!["z".to_string()]));
    let newer = StashRepo { stashes_rev: 6, ..repo.clone() };
    assert_eq!(
        ensure_history_stash_ids_cache(&mut cache, Some(&newer)),
        Some(vec!["a".to_string(), "b".to_string(), "c".to_string()])
    );
}

#[test]
fn stash_ids_are_dropped_without_stashes() {
    let mut cache = Some(StashIdsCache { repo_id: 3, stashes_rev: 5, ids: vec!["a".to_string()] });
    let none = StashRepo { id: 3, stashes_rev: 5, stash_ids: Loadable::Ready(vec![]) };
    assert_eq!(ensure_history_stash_ids_cache(&mut cache, Some(&none)), None);
    assert!(cache.is_none());
    let loading = StashRepo { id: 3, stashes_rev: 5, stash_ids: Loadable::Loading };
    assert_eq!(ensure_history_stash_ids_cache(&mut cache, Some(&loading)), None);
    assert_eq!(ensure_history_stash_ids_cache(&mut cache, None), None);
}
