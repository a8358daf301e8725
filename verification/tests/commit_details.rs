use gitgpui_view::branch_sidebar::Loadable;
use gitgpui_view::commit_details::{
    commit_details_body, commit_details_delay_elapsed, update_commit_details_delay, CommitDetailsBody,
    CommitDetailsDelay, CommitDetailsDelayState, DetailsRepo,
};
use gitgpui_view::worktree_preview::CommitDetails;

fn repo(selected: Option<&str>, details: Loadable<CommitDetails>) -> DetailsRepo {
    DetailsRepo { id: 1, selected_commit: selected.map(|s| s.to_string()), commit_details: details }
}

fn details(id: &str) -> CommitDetails {
    CommitDetails { id: id.to_string(), files: vec![] }
}

#[test]
fn loading_note_shows_after_the_wait_for_the_same_commit() {
    let mut s = CommitDetailsDelayState { delay: None, seq: 0 };
    let r = repo(Some("abc"), Loadable::Loading);
    assert_eq!(update_commit_details_delay(&mut s, Some(&r)), Some(1));
    // Asking again for the same commit starts no second wait.
    assert_eq!(update_commit_details_delay(&mut s, Some(&r)), None);
    assert!(commit_details_delay_elapsed(&mut s, 1, 1, Some(&r)));
    assert!(s.delay.as_ref().unwrap().show_loading);
    assert!(!commit_details_delay_elapsed(&mut s, 1, 1, Some(&r)));
}

#[test]
fn stale_or_settled_waits_show_nothing() {
    let mut s = CommitDetailsDelayState { delay: None, seq: 0 };
    let r = repo(Some("abc"), Loadable::Loading);
    assert_eq!(update_commit_details_delay(&mut s, Some(&r)), Some(1));
    let other = repo(Some("def"), Loadable::Loading);
    assert_eq!(update_commit_details_delay(&mut s, Some(&other)), Some(2));
    assert!(!commit_details_delay_elapsed(&mut s, 1, 1, Some(&other)));
    let loaded = repo(Some("def"), Loadable::Ready(details("def")));
    assert!(!commit_details_delay_elapsed(&mut s, 2, 1, Some(&loaded)));
    assert_eq!(update_commit_details_delay(&mut s, Some(&loaded)), None);
    assert!(s.delay.is_none());
    let failed = repo(Some("x"), Loadable::Error("e".to_string()));
    assert_eq!(update_commit_details_delay(&mut s, Some(&failed)), None);
    assert_eq!(update_commit_details_delay(&mut s, Some(&repo(None, Loadable::Loading))), None);
    assert_eq!(update_commit_details_delay(&mut s, None), None);
    assert_eq!(s.seq, 2);
}

#[test]
fn commit_details_body_waits_then_notes_loading() {
    let idle = CommitDetailsDelayState { delay: None, seq: 0 };
    let shown = CommitDetailsDelayState {
        delay: Some(CommitDetailsDelay { repo_id: 1, commit_id: "b".to_string(), show_loading: true }),
        seq: 1,
    };
    let other = CommitDetailsDelayState {
        delay: Some(CommitDetailsDelay { repo_id: 1, commit_id: "c".to_string(), show_loading: true }),
        seq: 1,
    };
    assert_eq!(commit_details_body(&idle, &repo(None, Loadable::Loading)), None);
    assert_eq!(commit_details_body(&idle, &repo(Some("b"), Loadable::Loading)), Some(CommitDetailsBody::Blank));
    assert_eq!(commit_details_body(&shown, &repo(Some("b"), Loadable::Loading)), Some(CommitDetailsBody::Loading));
    assert_eq!(commit_details_body(&shown, &repo(Some("b"), Loadable::NotLoaded)), Some(CommitDetailsBody::Loading));
    assert_eq!(commit_details_body(&other, &repo(Some("b"), Loadable::Loading)), Some(CommitDetailsBody::Blank));
    assert_eq!(
        commit_details_body(&shown, &repo(Some("b"), Loadable::Error("boom".to_string()))),
        Some(CommitDetailsBody::Error)
    );
    assert_eq!(
        commit_details_body(&shown, &repo(Some("b"), Loadable::Ready(details("a")))),
        Some(CommitDetailsBody::Loading)
    );
    assert_eq!(
        commit_details_body(&idle, &repo(Some("b"), Loadable::Ready(details("a")))),
        Some(CommitDetailsBody::Details)
    );
    assert_eq!(
        commit_details_body(&shown, &repo(Some("b"), Loadable::Ready(details("b")))),
        Some(CommitDetailsBody::Details)
    );
}
