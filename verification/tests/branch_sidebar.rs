use gitgpui_view::branch_sidebar::{
    branch_sidebar_rows, branch_sidebar_rows_cached, BranchSidebarCache, BranchSidebarFingerprint, remote_rows, Branch, BranchSection, BranchSidebarRow, Loadable,
    RemoteBranch, RemoteRow, SidebarRepo, Stash, Upstream, UpstreamDivergence,
};
use gitgpui_view::slash_tree::SlashTree;

fn repo() -> SidebarRepo {
    SidebarRepo {
        id: 1,
        head_branch_rev: 0,
        branches_rev: 0,
        remotes_rev: 0,
        remote_branches_rev: 0,
        stashes_rev: 0,
        head_branch: Loadable::NotLoaded,
        branches: Loadable::NotLoaded,
        remote_branches: Loadable::NotLoaded,
        remotes: Loadable::NotLoaded,
        stashes: Loadable::NotLoaded,
    }
}

fn branch(name: &str) -> Branch {
    Branch { name: name.to_string(), upstream: None, divergence: None }
}

fn rb(remote: &str, name: &str) -> RemoteBranch {
    RemoteBranch { remote: remote.to_string(), name: name.to_string() }
}

#[test]
fn remote_rows_groups_and_sorts() {
    let mut repo = repo();
    repo.remote_branches = Loadable::Ready(vec![rb("origin", "b"), rb("origin", "a"), rb("upstream", "main")]);

    let rows = remote_rows(&repo);
    assert_eq!(
        rows,
        vec![
            RemoteRow::Header("origin".to_string()),
            RemoteRow::Branch { remote: "origin".to_string(), name: "a".to_string() },
            RemoteRow::Branch { remote: "origin".to_string(), name: "b".to_string() },
            RemoteRow::Header("upstream".to_string()),
            RemoteRow::Branch { remote: "upstream".to_string(), name: "main".to_string() },
        ]
    );
}

#[test]
fn remote_upstream_branch_is_marked() {
    let mut repo = repo();
    repo.head_branch = Loadable::Ready("main".to_string());
    repo.branches = Loadable::Ready(vec![Branch {
        name: "main".to_string(),
        upstream: Some(Upstream { remote: "origin".to_string(), branch: "main".to_string() }),
        divergence: None,
    }]);
    repo.remote_branches = Loadable::Ready(vec![rb("origin", "main")]);

    let rows = branch_sidebar_rows(&repo);
    let upstream_row = rows.iter().find(|r| {
        matches!(
            r,
            BranchSidebarRow::Branch {
                section: BranchSection::Remote,
                name,
                is_upstream: true,
                ..
            } if name.as_str() == "origin/main"
        )
    });
    assert!(upstream_row.is_some(), "expected origin/main to be marked as upstream");
}

fn describe(rows: &[BranchSidebarRow]) -> Vec<String> {
    rows.iter()
        .map(|r| match r {
            BranchSidebarRow::SectionHeader { section, top_border } => format!("section {section:?} {top_border}"),
            BranchSidebarRow::SectionSpacer => "spacer".to_string(),
            BranchSidebarRow::Placeholder { section, message } => format!("placeholder {section:?} {message}"),
            BranchSidebarRow::RemoteHeader { name } => format!("remote {name}"),
            BranchSidebarRow::GroupHeader { label, depth } => format!("group {label} {depth}"),
            BranchSidebarRow::Branch { name, depth, is_head, muted, .. } => {
                format!("branch {name} {depth} head={is_head} muted={muted}")
            }
            BranchSidebarRow::StashHeader { .. } => "stashes".to_string(),
            BranchSidebarRow::StashPlaceholder { message } => format!("stash placeholder {message}"),
            BranchSidebarRow::StashItem { index, message, .. } => format!("stash {index} {message}"),
        })
        .collect()
}

#[test]
fn local_branches_form_a_sorted_slash_tree() {
    let mut repo = repo();
    repo.head_branch = Loadable::Ready("feature/b".to_string());
    repo.branches = Loadable::Ready(vec![
        branch("main"),
        branch("feature/b"),
        branch("feature"),
        Branch {
            name: "feature/a".to_string(),
            upstream: None,
            divergence: Some(UpstreamDivergence { ahead: 1, behind: 2 }),
        },
    ]);
    repo.remotes = Loadable::Ready(vec!["origin".to_string()]);
    repo.stashes = Loadable::Ready(vec![Stash { index: 0, message: "wip".to_string(), created_at: None }]);
    let rows = branch_sidebar_rows(&repo);
    assert_eq!(
        describe(&rows),
        vec![
            "section Local false",
            "group feature/ 0",
            "branch feature 1 head=false muted=false",
            "branch feature/a 1 head=false muted=false",
            "branch feature/b 1 head=true muted=false",
            "branch main 0 head=false muted=false",
            "spacer",
            "section Remote true",
            "remote origin",
            "spacer",
            "stashes",
            "stash 0 wip",
        ]
    );
    match &rows[3] {
        BranchSidebarRow::Branch { divergence, label, .. } => {
            assert_eq!(*divergence, Some(UpstreamDivergence { ahead: 1, behind: 2 }));
            assert_eq!(label, "a");
        }
        _ => panic!("expected a branch row"),
    }
}

#[test]
fn sidebar_placeholders_and_early_stop() {
    let mut repo = repo();
    repo.branches = Loadable::Ready(vec![]);
    repo.remote_branches = Loadable::Loading;
    assert_eq!(
        describe(&branch_sidebar_rows(&repo)),
        vec!["section Local false", "placeholder Local No branches", "spacer", "section Remote true", "placeholder Remote Loading"]
    );
    let mut repo2 = self::repo();
    repo2.remote_branches = Loadable::Ready(vec![]);
    assert_eq!(
        describe(&branch_sidebar_rows(&repo2)),
        vec!["section Local false", "placeholder Local Not loaded", "spacer", "section Remote true", "placeholder Remote No remotes"]
    );
}

#[test]
fn remote_branches_nest_one_level_in_and_muted() {
    let mut repo = repo();
    repo.remote_branches = Loadable::Ready(vec![rb("origin", "x/y"), rb("origin", "main"), rb("origin", "main")]);
    repo.stashes = Loadable::Loading;
    assert_eq!(
        describe(&branch_sidebar_rows(&repo)),
        vec![
            "section Local false",
            "placeholder Local Not loaded",
            "spacer",
            "section Remote true",
            "remote origin",
            "branch origin/main 1 head=false muted=true",
            "group x/ 1",
            "branch origin/x/y 2 head=false muted=true",
            "spacer",
            "stashes",
            "stash placeholder Loading",
        ]
    );
}

#[test]
fn slash_tree_ignores_empty_pieces() {
    let mut t = SlashTree::new();
    t.insert("a//b/");
    t.insert("a/b");
    assert_eq!(t.children.len(), 1);
    assert_eq!(t.children[0].0, "a");
    assert_eq!(t.children[0].1.children.len(), 1);
    assert!(t.children[0].1.children[0].1.is_leaf);
    assert!(!t.children[0].1.is_leaf);
}

fn names(rows: &[BranchSidebarRow]) -> Vec<String> {
    rows.iter()
        .filter_map(|r| match r {
            BranchSidebarRow::Branch { name, .. } => Some(name.clone()),
            _ => None,
        })
        .collect()
}

#[test]
fn cached_rows_are_reused_until_a_revision_changes() {
    let mut cache: Option<BranchSidebarCache> = None;
    let mut repo = repo();
    repo.branches = Loadable::Ready(vec![branch("main")]);
    let first = branch_sidebar_rows_cached(&mut cache, Some(&repo)).unwrap();
    assert_eq!(names(&first), vec!["main".to_string()]);
    assert_eq!(cache.as_ref().unwrap().fingerprint, BranchSidebarFingerprint::from_repo(&repo));

    // Same revisions: the cached rows come back even though the list changed.
    repo.branches = Loadable::Ready(vec![branch("main"), branch("dev")]);
    let second = branch_sidebar_rows_cached(&mut cache, Some(&repo)).unwrap();
    assert_eq!(names(&second), vec!["main".to_string()]);

    // A new revision rebuilds them.
    repo.branches_rev = 1;
    let third = branch_sidebar_rows_cached(&mut cache, Some(&repo)).unwrap();
    assert_eq!(names(&third), vec!["dev".to_string(), "main".to_string()]);

    // Another repository rebuilds them as well.
    let mut other = repo.clone();
    other.id = 2;
    other.branches = Loadable::Ready(vec![branch("x")]);
    let fourth = branch_sidebar_rows_cached(&mut cache, Some(&other)).unwrap();
    assert_eq!(names(&fourth), vec!["x".to_string()]);
    assert_eq!(cache.as_ref().unwrap().repo_id, 2);

    assert!(branch_sidebar_rows_cached(&mut cache, None).is_none());
    assert!(cache.is_none());
}
