use gitgpui_view::branch_sidebar::Loadable;
use gitgpui_view::conflict_rows::DiffLineKind;
use gitgpui_view::diff_patch::AnnotatedDiffLine;
use gitgpui_view::diff_target::{DiffArea, DiffTarget};
use gitgpui_view::file_diff_cache::FileDiffText;
use gitgpui_view::text::text_lines_of;
use gitgpui_view::worktree_preview::{
    added_file_preview_abs_path, build_new_file_preview_from_diff, ensure_preview_loading,
    ensure_worktree_preview_loaded, finish_worktree_preview_load, preview_too_large_message,
    try_populate_worktree_preview_from_diff_file, untracked_worktree_preview_path, CommitDetails,
    FileStatus, FileStatusKind, PreviewRepo, RepoStatus, WorktreePreview, MAX_PREVIEW_BYTES,
};

fn line(kind: DiffLineKind, text: &str) -> AnnotatedDiffLine {
    AnnotatedDiffLine { kind, text: text.to_string(), old_line: None, new_line: None }
}

fn status(staged: Vec<(&str, FileStatusKind)>, unstaged: Vec<(&str, FileStatusKind)>) -> RepoStatus {
    let conv = |v: Vec<(&str, FileStatusKind)>| {
        v.into_iter().map(|(p, k)| FileStatus { path: p.to_string(), kind: k }).collect::<Vec<_>>()
    };
    RepoStatus { staged: conv(staged), unstaged: conv(unstaged) }
}

fn repo(target: Option<DiffTarget>) -> PreviewRepo {
    PreviewRepo {
        diff_target: target,
        status: Loadable::NotLoaded,
        commit_details: Loadable::NotLoaded,
        diff_file: Loadable::NotLoaded,
        diff: Loadable::NotLoaded,
    }
}

fn wt(path: &str, area: DiffArea) -> Option<DiffTarget> {
    Some(DiffTarget::WorkingTree { path: path.to_string(), area })
}

fn new_file_diff() -> Vec<AnnotatedDiffLine> {
    vec![
        line(DiffLineKind::Header, "diff --git a/n.txt b/n.txt"),
        line(DiffLineKind::Header, "new file mode 100644"),
        line(DiffLineKind::Header, "--- /dev/null"),
        line(DiffLineKind::Header, "+++ b/n.txt"),
        line(DiffLineKind::Hunk, "@@ -0,0 +1,2 @@"),
        line(DiffLineKind::Add, "+one"),
        line(DiffLineKind::Add, "+two"),
    ]
}

fn empty_preview() -> WorktreePreview {
    WorktreePreview { path: None, lines: Loadable::NotLoaded }
}

#[test]
fn untracked_file_is_previewed_from_the_worktree() {
    let mut r = repo(wt("n.txt", DiffArea::Unstaged));
    assert_eq!(untracked_worktree_preview_path(Some(&r)), None);
    r.status = Loadable::Ready(status(vec![], vec![("n.txt", FileStatusKind::Untracked)]));
    assert_eq!(untracked_worktree_preview_path(Some(&r)), Some("n.txt".to_string()));
    r.status = Loadable::Ready(status(vec![], vec![("n.txt", FileStatusKind::Modified)]));
    assert_eq!(untracked_worktree_preview_path(Some(&r)), None);
    let mut staged = repo(wt("n.txt", DiffArea::Staged));
    staged.status = Loadable::Ready(status(vec![], vec![("n.txt", FileStatusKind::Untracked)]));
    assert_eq!(untracked_worktree_preview_path(Some(&staged)), None);
    assert_eq!(untracked_worktree_preview_path(None), None);
}

#[test]
fn added_files_are_previewed_when_staged_or_in_the_shown_commit() {
    let mut r = repo(wt("n.txt", DiffArea::Staged));
    r.status = Loadable::Ready(status(vec![("n.txt", FileStatusKind::Added)], vec![]));
    assert_eq!(added_file_preview_abs_path(Some(&r)), Some("n.txt".to_string()));
    r.diff_target = wt("n.txt", DiffArea::Unstaged);
    assert_eq!(added_file_preview_abs_path(Some(&r)), None);

    let mut c = repo(Some(DiffTarget::Commit { commit_id: "abc".to_string(), path: Some("n.txt".to_string()) }));
    c.commit_details = Loadable::Ready(CommitDetails {
        id: "abc".to_string(),
        files: vec![FileStatus { path: "n.txt".to_string(), kind: FileStatusKind::Added }],
    });
    assert_eq!(added_file_preview_abs_path(Some(&c)), Some("n.txt".to_string()));
    c.commit_details = Loadable::Ready(CommitDetails {
        id: "def".to_string(),
        files: vec![FileStatus { path: "n.txt".to_string(), kind: FileStatusKind::Added }],
    });
    assert_eq!(added_file_preview_abs_path(Some(&c)), None);
}

#[test]
fn new_file_preview_is_read_off_a_single_file_diff() {
    let t = wt("n.txt", DiffArea::Unstaged);
    let got = build_new_file_preview_from_diff(&new_file_diff(), t.as_ref());
    assert_eq!(got, Some(("n.txt".to_string(), vec!["one".to_string(), "two".to_string()])));
    // A removal, or a second file, rules it out.
    let mut d = new_file_diff();
    d.push(line(DiffLineKind::Remove, "-x"));
    assert_eq!(build_new_file_preview_from_diff(&d, t.as_ref()), None);
    let mut d2 = new_file_diff();
    d2.push(line(DiffLineKind::Header, "diff --git a/m b/m"));
    assert_eq!(build_new_file_preview_from_diff(&d2, t.as_ref()), None);
    // A diff that is not of a new file gives nothing.
    let modified = vec![line(DiffLineKind::Header, "diff --git a/n b/n"), line(DiffLineKind::Add, "+x")];
    assert_eq!(build_new_file_preview_from_diff(&modified, t.as_ref()), None);
    // Without a file target there is nothing to preview.
    let whole = Some(DiffTarget::Commit { commit_id: "abc".to_string(), path: None });
    assert_eq!(build_new_file_preview_from_diff(&new_file_diff(), whole.as_ref()), None);
}

#[test]
fn preview_is_filled_from_the_file_diff_text() {
    let mut r = repo(wt("n.txt", DiffArea::Unstaged));
    r.diff_file = Loadable::Ready(Some(FileDiffText {
        path: "n.txt".to_string(),
        old: None,
        new: Some("a\r\nb\n".to_string()),
    }));
    let mut p = empty_preview();
    assert!(try_populate_worktree_preview_from_diff_file(&mut p, Some(&r)));
    assert_eq!(p.path.as_deref(), Some("n.txt"));
    assert_eq!(p.lines, Loadable::Ready(vec!["a".to_string(), "b".to_string()]));
    // Already showing that file's lines: nothing changes.
    assert!(!try_populate_worktree_preview_from_diff_file(&mut p, Some(&r)));
}

#[test]
fn preview_falls_back_to_the_diff_then_to_errors() {
    let mut r = repo(wt("n.txt", DiffArea::Unstaged));
    r.diff_file = Loadable::Error("boom".to_string());
    r.diff = Loadable::Ready(new_file_diff());
    let mut p = empty_preview();
    assert!(try_populate_worktree_preview_from_diff_file(&mut p, Some(&r)));
    assert_eq!(p.lines, Loadable::Ready(vec!["one".to_string(), "two".to_string()]));

    let mut r2 = repo(wt("m.txt", DiffArea::Unstaged));
    r2.diff_file = Loadable::Error("boom".to_string());
    r2.diff = Loadable::Ready(vec![line(DiffLineKind::Header, "diff --git a/m b/m")]);
    let mut p2 = empty_preview();
    assert!(try_populate_worktree_preview_from_diff_file(&mut p2, Some(&r2)));
    assert_eq!(p2.lines, Loadable::Error("boom".to_string()));

    r2.diff_file = Loadable::Ready(None);
    let mut p3 = empty_preview();
    assert!(try_populate_worktree_preview_from_diff_file(&mut p3, Some(&r2)));
    assert_eq!(p3.lines, Loadable::Error("No text preview available for this file.".to_string()));
    // An error does not replace an error already shown for the same file.
    r2.diff = Loadable::Error("later".to_string());
    assert!(!try_populate_worktree_preview_from_diff_file(&mut p3, Some(&r2)));
    assert_eq!(p3.lines, Loadable::Error("No text preview available for this file.".to_string()));
    // Nothing loaded yet: nothing happens.
    let r4 = repo(wt("m.txt", DiffArea::Unstaged));
    let mut p4 = empty_preview();
    assert!(!try_populate_worktree_preview_from_diff_file(&mut p4, Some(&r4)));
    assert!(p4.path.is_none());
}

#[test]
fn preview_loading_restarts_only_for_another_file_or_after_a_failure() {
    let mut p = empty_preview();
    assert!(ensure_worktree_preview_loaded(&mut p, "a".to_string()));
    assert_eq!(p.lines, Loadable::Loading);
    assert!(!ensure_worktree_preview_loaded(&mut p, "a".to_string()));
    assert!(finish_worktree_preview_load(&mut p, "a", Ok(vec!["x".to_string()])));
    assert_eq!(p.lines, Loadable::Ready(vec!["x".to_string()]));
    assert!(!ensure_worktree_preview_loaded(&mut p, "a".to_string()));
    // A load for a file no longer shown is dropped.
    assert!(ensure_worktree_preview_loaded(&mut p, "b".to_string()));
    assert!(!finish_worktree_preview_load(&mut p, "a", Ok(vec![])));
    assert_eq!(p.lines, Loadable::Loading);
    assert!(finish_worktree_preview_load(&mut p, "b", Err("bad".to_string())));
    assert!(ensure_worktree_preview_loaded(&mut p, "b".to_string()));
}

#[test]
fn preview_loading_marks_other_files_and_failures_as_loading() {
    let mut p = WorktreePreview { path: Some("a".to_string()), lines: Loadable::Error("e".to_string()) };
    assert!(!ensure_preview_loading(&mut p, "a".to_string()));
    assert_eq!(p.lines, Loadable::Loading);
    p.lines = Loadable::Ready(vec![]);
    assert!(!ensure_preview_loading(&mut p, "a".to_string()));
    assert_eq!(p.lines, Loadable::Ready(vec![]));
    assert!(ensure_preview_loading(&mut p, "b".to_string()));
    assert_eq!(p.path.as_deref(), Some("b"));
    assert_eq!(p.lines, Loadable::Loading);
}

#[test]
fn too_large_message_names_the_size() {
    assert_eq!(preview_too_large_message(3_000_000), "File is too large to preview (3000000 bytes).");
    assert_eq!(MAX_PREVIEW_BYTES, 2 * 1024 * 1024);
}

#[test]
fn text_lines_split_like_str_lines() {
    let text = "foo\r\nbar\n\nbaz\r";
    let expected: Vec<String> = text.lines().map(|s| s.to_string()).collect();
    assert_eq!(text_lines_of(text), expected);
    assert_eq!(text_lines_of(""), Vec::<String>::new());
    assert_eq!(text_lines_of("a\n"), vec!["a".to_string()]);
}
