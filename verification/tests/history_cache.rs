use gitgpui_view::date_time::DateTimeFormat;
use gitgpui_view::history_cache::{
    accept_history_cache, ensure_history_cache, history_commit_row_vms, HistoryCacheRequest,
    HistoryCacheState, HistoryCommit, RefTarget,
};

fn request(repo_id: u64, log_fingerprint: u64) -> HistoryCacheRequest {
    HistoryCacheRequest {
        repo_id,
        log_fingerprint,
        head_branch_rev: 0,
        branches_rev: 0,
        tags_rev: 0,
        date_time_format: DateTimeFormat::YmdHm,
    }
}

fn empty_state() -> HistoryCacheState {
    HistoryCacheState { cached: None, inflight: None, seq: 0 }
}

fn r(name: &str, target: &str) -> RefTarget {
    RefTarget { name: name.to_string(), target: target.to_string() }
}

#[test]
fn history_build_starts_once_and_is_taken_when_current() {
    let mut s = empty_state();
    let req = request(1, 10);
    assert_eq!(ensure_history_cache(&mut s, Some(req)), Some(1));
    assert_eq!(s.inflight, Some(req));
    // A second ask while the build runs starts nothing.
    assert_eq!(ensure_history_cache(&mut s, Some(req)), None);
    assert_eq!(s.seq, 1);
    assert!(accept_history_cache(&mut s, 1, req, Some(1)));
    assert_eq!(s.cached, Some(req));
    assert_eq!(s.inflight, None);
    // Once built, nothing more is needed.
    assert_eq!(ensure_history_cache(&mut s, Some(req)), None);
    assert_eq!(s.seq, 1);
}

#[test]
fn stale_history_builds_are_dropped() {
    let mut s = empty_state();
    let old_req = request(1, 10);
    let new_req = request(1, 11);
    assert_eq!(ensure_history_cache(&mut s, Some(old_req)), Some(1));
    assert_eq!(ensure_history_cache(&mut s, Some(new_req)), Some(2));
    let before = s;
    assert!(!accept_history_cache(&mut s, 1, old_req, Some(1)));
    assert_eq!(s, before);
    // The right build for another repository is refused too.
    assert!(!accept_history_cache(&mut s, 2, new_req, Some(7)));
    assert_eq!(s, before);
    assert!(accept_history_cache(&mut s, 2, new_req, Some(1)));
    assert_eq!(s.cached, Some(new_req));
}

#[test]
fn history_view_is_dropped_without_a_log() {
    let mut s = HistoryCacheState { cached: Some(request(1, 1)), inflight: Some(request(1, 2)), seq: 5 };
    assert_eq!(ensure_history_cache(&mut s, None), None);
    assert_eq!(s, HistoryCacheState { cached: None, inflight: None, seq: 5 });
}

#[test]
fn history_build_numbers_wrap_around() {
    let mut s = HistoryCacheState { cached: None, inflight: None, seq: u64::MAX };
    assert_eq!(ensure_history_cache(&mut s, Some(request(3, 3))), Some(0));
    assert_eq!(s.seq, 0);
}

#[test]
fn history_rows_show_branches_tags_date_and_short_id() {
    let commits = vec![
        HistoryCommit { id: "0123456789abcdef".to_string(), time: 0 },
        HistoryCommit { id: "abc".to_string(), time: 86_400 + 3_600 + 60 },
    ];
    let branches = vec![
        r("main", "0123456789abcdef"),
        r("zeta", "0123456789abcdef"),
        r("alpha", "0123456789abcdef"),
        r("alpha", "0123456789abcdef"),
        r("other", "abc"),
    ];
    let tags = vec![r("v2", "abc"), r("v1", "abc"), r("v1", "abc")];
    let rows = history_commit_row_vms(
        &commits,
        &Some("main".to_string()),
        &branches,
        &tags,
        DateTimeFormat::YmdHm,
    );
    assert_eq!(rows.len(), 2);
    assert_eq!(rows[0].branches_text, "HEAD → main, alpha, zeta");
    assert_eq!(rows[0].tag_names, Vec::<String>::new());
    assert_eq!(rows[0].when, "1970-01-01 00:00");
    assert_eq!(rows[0].short_sha, "01234567");
    assert_eq!(rows[1].branches_text, "other");
    assert_eq!(rows[1].tag_names, vec!["v1".to_string(), "v2".to_string()]);
    assert_eq!(rows[1].when, "1970-01-02 01:01");
    assert_eq!(rows[1].short_sha, "abc");
}

#[test]
fn history_rows_without_head_list_every_branch() {
    let commits = vec![HistoryCommit { id: "c1".to_string(), time: 0 }];
    let branches = vec![r("main", "c1"), r("dev", "c1")];
    let rows = history_commit_row_vms(&commits, &None, &branches, &[], DateTimeFormat::DmyHm);
    assert_eq!(rows[0].branches_text, "dev, main");
    assert_eq!(rows[0].when, "01.01.1970 00:00");
    assert_eq!(rows[0].short_sha, "c1");
}

#[test]
fn short_id_keeps_whole_id_when_eight_bytes_split_a_character() {
    // Seven ASCII bytes, then a two-byte character: byte 8 falls inside it.
    let commits = vec![HistoryCommit { id: "abcdefgéxyz".to_string(), time: 0 }];
    let rows = history_commit_row_vms(&commits, &None, &[], &[], DateTimeFormat::YmdHm);
    assert_eq!(rows[0].short_sha, "abcdefgéxyz");
    assert_eq!(rows[0].branches_text, "");
}

#[test]
fn fingerprint_takes_first_and_last_three_ids() {
    let ids: Vec<String> = (0..7).map(|i| format!("c{i}")).collect();
    let (n, parts) = gitgpui_view::history_cache::log_fingerprint_parts(&ids);
    assert_eq!(n, 7);
    assert_eq!(parts, vec!["c0", "c1", "c2", "c6", "c5", "c4"]);
    let short: Vec<String> = vec!["a".to_string(), "b".to_string()];
    assert_eq!(gitgpui_view::history_cache::log_fingerprint_parts(&short).1, vec!["a", "b", "b", "a"]);
}
