use gitgpui_view::branch_sidebar::{Loadable, UpstreamDivergence};
use gitgpui_view::diff_target::{DiffArea, DiffTarget};
use gitgpui_view::view_labels::{
    action_bar_info, diff_body, diff_title, ActionBarRepo, DiffBody, DiffLoad, TitleTone,
};
use gitgpui_view::worktree_preview::{FileStatus, FileStatusKind, RepoStatus};

#[test]
fn action_bar_shows_branch_counts_and_stash() {
    let none = action_bar_info(None);
    assert_eq!(none.repo_title, "No repository");
    assert_eq!(none.branch, "—");
    assert_eq!((none.pull_count, none.push_count, none.can_stash), (0, 0, false));
    let repo = ActionBarRepo {
        workdir: "/w".to_string(),
        head_branch: Loadable::Ready("main".to_string()),
        upstream_divergence: Loadable::Ready(Some(UpstreamDivergence { ahead: 2, behind: 5 })),
        status: Loadable::Ready(RepoStatus {
            staged: vec![],
            unstaged: vec![FileStatus { path: "a".to_string(), kind: FileStatusKind::Modified }],
        }),
    };
    let i = action_bar_info(Some(&repo));
    assert_eq!((i.repo_title.as_str(), i.branch.as_str()), ("/w", "main"));
    assert_eq!((i.pull_count, i.push_count, i.can_stash), (5, 2, true));
    let loading = ActionBarRepo { head_branch: Loadable::Loading, upstream_divergence: Loadable::Loading, status: Loadable::Loading, ..repo.clone() };
    let i = action_bar_info(Some(&loading));
    assert_eq!(i.branch, "…");
    assert_eq!((i.pull_count, i.push_count, i.can_stash), (0, 0, false));
    let failed = ActionBarRepo { head_branch: Loadable::Error("x".to_string()), ..repo };
    assert_eq!(action_bar_info(Some(&failed)).branch, "error");
}

#[test]
fn diff_title_names_the_file_and_how_it_changed() {
    let status = Loadable::Ready(RepoStatus {
        staged: vec![FileStatus { path: "n".to_string(), kind: FileStatusKind::Added }],
        unstaged: vec![FileStatus { path: "d".to_string(), kind: FileStatusKind::Deleted }],
    });
    let staged = DiffTarget::WorkingTree { path: "n".to_string(), area: DiffArea::Staged };
    assert_eq!(diff_title(Some(&staged), &status), Some(("+".to_string(), TitleTone::Success, "n".to_string())));
    let gone = DiffTarget::WorkingTree { path: "d".to_string(), area: DiffArea::Unstaged };
    assert_eq!(diff_title(Some(&gone), &status), Some(("−".to_string(), TitleTone::Danger, "d".to_string())));
    let unknown = DiffTarget::WorkingTree { path: "zz".to_string(), area: DiffArea::Unstaged };
    assert_eq!(diff_title(Some(&unknown), &status).unwrap().1, TitleTone::Warning);
    let whole = DiffTarget::Commit { commit_id: "c".to_string(), path: None };
    assert_eq!(diff_title(Some(&whole), &status), Some(("✎".to_string(), TitleTone::Muted, "Full diff".to_string())));
    assert_eq!(diff_title(None, &status), None);
}

#[test]
fn diff_body_explains_why_nothing_is_listed() {
    let msg = |b: DiffBody| match b {
        DiffBody::Message(m) => m,
        other => panic!("{other:?}"),
    };
    assert_eq!(msg(diff_body(false, false, DiffLoad::Loading, 0, false, 0, 0)), "No repository.");
    assert_eq!(msg(diff_body(true, false, DiffLoad::NotLoaded, 0, false, 0, 0)), "Select a file.");
    assert_eq!(msg(diff_body(true, true, DiffLoad::Loading, 0, false, 0, 0)), "Loading…");
    assert_eq!(diff_body(true, false, DiffLoad::Error("bad".to_string()), 0, false, 0, 0), DiffBody::Error("bad".to_string()));
    assert_eq!(msg(diff_body(true, true, DiffLoad::Ready { has_file: false }, 3, false, 0, 3)), "No file contents available.");
    assert_eq!(msg(diff_body(true, true, DiffLoad::Ready { has_file: true }, 0, false, 0, 0)), "Empty file.");
    assert_eq!(msg(diff_body(true, false, DiffLoad::Ready { has_file: true }, 0, false, 0, 0)), "No differences.");
    assert_eq!(msg(diff_body(true, false, DiffLoad::Ready { has_file: true }, 4, true, 0, 4)), "No matches.");
    assert_eq!(msg(diff_body(true, false, DiffLoad::Ready { has_file: true }, 4, false, 0, 0)), "Nothing to render.");
    assert_eq!(diff_body(true, false, DiffLoad::Ready { has_file: true }, 4, false, 0, 4), DiffBody::Rows);
}

#[test]
fn diff_title_finds_the_status_of_the_same_path_spelled_otherwise() {
    let status = Loadable::Ready(RepoStatus {
        staged: vec![],
        unstaged: vec![FileStatus { path: "dir//n.rs".to_string(), kind: FileStatusKind::Deleted }],
    });
    let target = DiffTarget::WorkingTree { path: "dir/n.rs".to_string(), area: DiffArea::Unstaged };
    assert_eq!(
        diff_title(Some(&target), &status),
        Some(("−".to_string(), TitleTone::Danger, "dir/n.rs".to_string()))
    );
}
