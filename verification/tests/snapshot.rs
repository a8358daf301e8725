use gitgpui_view::diff_target::{DiffArea, DiffTarget};
use gitgpui_view::row_nav::RowSelection;
use gitgpui_view::snapshot::{
    apply_state_snapshot, clone_progress_step, push_toasts, snapshot_event_toasts, AppSnapshot,
    CloneOp, CloneOpStatus, CloneProgress, CommandLogEntry, Diagnostic, DiffCacheKey, ScrollReset,
    SnapshotRepo, SnapshotView,
};
use gitgpui_view::toasts::{ToastKind, Toasts};

fn repo(id: u64, diags: Vec<(bool, &str)>, log: Vec<(bool, &str)>) -> SnapshotRepo {
    SnapshotRepo {
        id,
        diagnostics: diags.into_iter().map(|(e, m)| Diagnostic { is_error: e, message: m.to_string() }).collect(),
        command_log: log.into_iter().map(|(ok, s)| CommandLogEntry { ok, summary: s.to_string() }).collect(),
        diff_target: None,
        diff_rev: 0,
        selected_commit: None,
    }
}

fn messages(t: &Toasts) -> Vec<(u64, ToastKind, String)> {
    t.toasts.iter().map(|t| (t.id, t.kind, t.message.clone())).collect()
}

fn op(status: CloneOpStatus, seq: u64, tail: Vec<&str>) -> CloneOp {
    CloneOp {
        url: "https://x/r.git".to_string(),
        dest: "/tmp/r".to_string(),
        status,
        seq,
        output_tail: tail.into_iter().map(|s| s.to_string()).collect(),
    }
}

#[test]
fn new_errors_and_commands_become_toasts() {
    let prev = vec![repo(1, vec![(true, "old")], vec![(true, "fetched")])];
    let next = vec![
        repo(1, vec![(true, "old"), (false, "note"), (true, "broke")], vec![(true, "fetched"), (false, "push failed")]),
        repo(2, vec![(true, "fresh")], vec![(true, "cloned")]),
    ];
    let msgs = snapshot_event_toasts(&prev, &next);
    assert_eq!(
        msgs,
        vec![
            (ToastKind::Error, "broke".to_string()),
            (ToastKind::Error, "push failed".to_string()),
            (ToastKind::Error, "fresh".to_string()),
            (ToastKind::Success, "cloned".to_string()),
        ]
    );
    let mut t = Toasts { toasts: Vec::new() };
    let timers = push_toasts(&mut t, &msgs);
    assert_eq!(timers, vec![(1, 15), (2, 15), (3, 15), (4, 6)]);
    assert_eq!(t.toasts.len(), 4);
}

#[test]
fn shrunken_logs_toast_nothing() {
    let prev = vec![repo(1, vec![(true, "a"), (true, "b")], vec![])];
    let next = vec![repo(1, vec![(true, "a")], vec![])];
    assert!(snapshot_event_toasts(&prev, &next).is_empty());
}

#[test]
fn clone_toast_follows_the_clone() {
    let mut p = CloneProgress { toast_id: None, last_seq: 0, dest: None };
    let mut t = Toasts { toasts: Vec::new() };
    let running = op(CloneOpStatus::Running, 1, vec!["Receiving objects"]);
    assert!(clone_progress_step(&mut p, &mut t, Some(&running)).is_empty());
    assert_eq!(p.toast_id, Some(1));
    assert_eq!(p.last_seq, 1);
    assert_eq!(
        messages(&t),
        vec![(1, ToastKind::Success, "Cloning repository…\nhttps://x/r.git\n→ /tmp/r\n\nReceiving objects".to_string())]
    );
    let tail: Vec<String> = (0..15).map(|i| format!("l{i}")).collect();
    let mut running2 = op(CloneOpStatus::Running, 2, vec![]);
    running2.output_tail = tail;
    clone_progress_step(&mut p, &mut t, Some(&running2));
    let expected_tail: Vec<String> = (3..15).map(|i| format!("l{i}")).collect();
    assert_eq!(
        t.toasts[0].message,
        format!("Cloning repository…\nhttps://x/r.git\n→ /tmp/r\n\n{}", expected_tail.join("\n"))
    );
    let done = op(CloneOpStatus::FinishedOk, 3, vec![]);
    // The progress toast was the only one, so the new toast takes id 1 again.
    assert_eq!(clone_progress_step(&mut p, &mut t, Some(&done)), vec![(1, 6)]);
    assert_eq!(messages(&t), vec![(1, ToastKind::Success, "Clone finished: /tmp/r".to_string())]);
    assert_eq!(p.toast_id, None);
    assert_eq!(p.last_seq, 3);
    // The same finished update again changes nothing.
    assert!(clone_progress_step(&mut p, &mut t, Some(&done)).is_empty());
    assert_eq!(t.toasts.len(), 1);
}

#[test]
fn failed_clone_and_no_clone() {
    let mut p = CloneProgress { toast_id: Some(1), last_seq: 4, dest: Some("/tmp/r".to_string()) };
    let mut t = Toasts { toasts: Vec::new() };
    t.push_persistent_toast(ToastKind::Success, "Cloning".to_string());
    let failed = op(CloneOpStatus::FinishedErr("denied".to_string()), 5, vec![]);
    assert_eq!(clone_progress_step(&mut p, &mut t, Some(&failed)), vec![(1, 15)]);
    assert_eq!(messages(&t), vec![(1, ToastKind::Error, "Clone failed: denied".to_string())]);
    let mut p2 = CloneProgress { toast_id: Some(1), last_seq: 9, dest: Some("d".to_string()) };
    assert!(clone_progress_step(&mut p2, &mut t, None).is_empty());
    assert!(t.toasts.is_empty());
    assert_eq!(p2.toast_id, None);
    assert_eq!(p2.last_seq, 0);
    assert_eq!(p2.dest, None);
}

fn view(state: AppSnapshot) -> SnapshotView {
    SnapshotView {
        state,
        toasts: Toasts { toasts: Vec::new() },
        clone_progress: CloneProgress { toast_id: None, last_seq: 0, dest: None },
        selection: RowSelection { anchor: Some(1), range: Some((1, 2)) },
        autoscroll_pending: false,
    }
}

#[test]
fn new_state_resets_selection_scroll_and_diff_cache_as_needed() {
    let mut r1 = repo(1, vec![], vec![]);
    r1.diff_target = Some(DiffTarget::WorkingTree { path: "a".to_string(), area: DiffArea::Unstaged });
    r1.diff_rev = 2;
    r1.selected_commit = Some("c1".to_string());
    let mut v = view(AppSnapshot { active_repo: Some(1), repos: vec![r1.clone()], clone: None });
    let key = DiffCacheKey { repo_id: Some(1), rev: 2, target: r1.diff_target.clone() };
    // The same state: nothing moves, nothing is rebuilt.
    let same = AppSnapshot { active_repo: Some(1), repos: vec![r1.clone()], clone: None };
    let e = apply_state_snapshot(&mut v, same, &key);
    assert_eq!(e.scroll, ScrollReset::Keep);
    assert!(!e.rebuild_diff_cache);
    assert!(e.timers.is_empty());
    assert_eq!(v.selection, RowSelection { anchor: Some(1), range: Some((1, 2)) });
    // Another commit and another file: the details scroll, the selection goes.
    let mut r1b = r1.clone();
    r1b.selected_commit = Some("c2".to_string());
    r1b.diff_target = Some(DiffTarget::WorkingTree { path: "b".to_string(), area: DiffArea::Unstaged });
    let e = apply_state_snapshot(&mut v, AppSnapshot { active_repo: Some(1), repos: vec![r1b.clone()], clone: None }, &key);
    assert_eq!(e.scroll, ScrollReset::CommitDetails);
    assert!(e.rebuild_diff_cache);
    assert_eq!(v.selection, RowSelection { anchor: None, range: None });
    assert!(v.autoscroll_pending);
    // Another repository: everything scrolls.
    let r2 = repo(2, vec![(true, "bad")], vec![]);
    let e = apply_state_snapshot(&mut v, AppSnapshot { active_repo: Some(2), repos: vec![r1b, r2], clone: None }, &key);
    assert_eq!(e.scroll, ScrollReset::All);
    assert_eq!(e.timers, vec![(1, 15)]);
    assert!(!v.autoscroll_pending);
    assert_eq!(v.state.active_repo, Some(2));
}

#[test]
fn same_state_twice_toasts_once() {
    let repos = vec![repo(1, vec![(true, "bad")], vec![(true, "done")]), repo(2, vec![], vec![(false, "no")])];
    let first = snapshot_event_toasts(&[], &repos);
    assert_eq!(first.len(), 3);
    assert!(snapshot_event_toasts(&repos, &repos).is_empty());
}
