use gitgpui_view::branch_sidebar::BranchSection;
use gitgpui_view::context_menu::{
    context_menu_activate_action, context_menu_model, ContextMenuAction, LogCommit, LogScope,
    MenuTarget, PullMode, StoreMsg,
};
use gitgpui_view::diff_target::{DiffArea, DiffTarget};
use gitgpui_view::menu::ContextMenuItem;

fn labels(items: &[ContextMenuItem<ContextMenuAction>]) -> Vec<String> {
    items
        .iter()
        .map(|i| match i {
            ContextMenuItem::Separator => "---".to_string(),
            ContextMenuItem::Header(t) => format!("# {t}"),
            ContextMenuItem::Label(t) => format!("({t})"),
            ContextMenuItem::Entry { label, shortcut, disabled, .. } => {
                format!("{label} [{}]{}", shortcut.clone().unwrap_or_default(), if *disabled { " off" } else { "" })
            }
        })
        .collect()
}

fn action(item: &ContextMenuItem<ContextMenuAction>) -> ContextMenuAction {
    match item {
        ContextMenuItem::Entry { action, .. } => action.clone(),
        _ => panic!("not an entry"),
    }
}

#[test]
fn pull_menu_is_disabled_without_a_repository() {
    let m = context_menu_model(&MenuTarget::PullPicker, None, None, None);
    assert_eq!(
        labels(&m.items),
        vec![
            "# Pull",
            "---",
            "Pull (default) [Enter] off",
            "Pull (fast-forward if possible) [F] off",
            "Pull (fast-forward only) [O] off",
            "Pull (rebase) [R] off",
            "---",
            "Fetch all [A] off",
        ]
    );
    assert_eq!(action(&m.items[2]), ContextMenuAction::Pull { repo_id: 0, mode: PullMode::Default });
    let m = context_menu_model(&MenuTarget::PullPicker, Some(5), None, None);
    assert_eq!(action(&m.items[5]), ContextMenuAction::Pull { repo_id: 5, mode: PullMode::Rebase });
    assert_eq!(labels(&m.items)[7], "Fetch all [A]");
}

#[test]
fn commit_menu_shows_short_id_and_summary() {
    let log = vec![LogCommit {
        id: "0123456789abcdef".to_string(),
        author: "Ann".to_string(),
        summary: "Fix it".to_string(),
    }];
    let t = MenuTarget::CommitMenu { repo_id: 2, commit_id: "0123456789abcdef".to_string() };
    let m = context_menu_model(&t, Some(2), Some(&log), None);
    assert_eq!(
        labels(&m.items),
        vec![
            "# Commit 01234567",
            "(Ann — Fix it)",
            "---",
            "Open diff [Enter]",
            "Checkout (detached) [D]",
            "Cherry-pick [P]",
            "Revert [R]",
        ]
    );
    assert_eq!(
        action(&m.items[3]),
        ContextMenuAction::SelectDiff {
            repo_id: 2,
            target: DiffTarget::Commit { commit_id: "0123456789abcdef".to_string(), path: None },
        }
    );
    // Unknown commit: no summary line.
    let m = context_menu_model(&MenuTarget::CommitMenu { repo_id: 2, commit_id: "ff".to_string() }, Some(2), Some(&log), None);
    assert_eq!(labels(&m.items)[0], "# Commit ff");
    assert_eq!(labels(&m.items)[1], "---");
}

#[test]
fn status_file_menu_stages_or_unstages() {
    let t = MenuTarget::StatusFileMenu { repo_id: 1, area: DiffArea::Unstaged, path: "src/a.rs".to_string() };
    let m = context_menu_model(&t, Some(1), None, Some("a.rs".to_string()));
    assert_eq!(
        labels(&m.items),
        vec!["# a.rs", "(src/a.rs)", "---", "Open diff [Enter]", "Stage [S]", "---", "Copy path [C]"]
    );
    let t = MenuTarget::StatusFileMenu { repo_id: 1, area: DiffArea::Staged, path: "src/a.rs".to_string() };
    let m = context_menu_model(&t, Some(1), None, None);
    assert_eq!(labels(&m.items)[0], "# src/a.rs");
    assert_eq!(labels(&m.items)[4], "Unstage [U]");
    assert_eq!(action(&m.items[6]), ContextMenuAction::CopyText { text: "src/a.rs".to_string() });
}

#[test]
fn remote_branch_menu_offers_pull_and_merge() {
    let t = MenuTarget::BranchMenu { repo_id: 3, section: BranchSection::Remote, name: "origin/feature/x".to_string() };
    let m = context_menu_model(&t, Some(3), None, None);
    assert_eq!(
        labels(&m.items),
        vec![
            "# Remote branch",
            "(origin/feature/x)",
            "---",
            "Checkout [Enter]",
            "Copy name [C]",
            "---",
            "Pull into current [P]",
            "Merge into current [M]",
            "---",
            "Fetch all [F]",
        ]
    );
    assert_eq!(
        action(&m.items[6]),
        ContextMenuAction::PullBranch { repo_id: 3, remote: "origin".to_string(), branch: "feature/x".to_string() }
    );
    let local = MenuTarget::BranchMenu { repo_id: 3, section: BranchSection::Local, name: "main".to_string() };
    assert_eq!(labels(&context_menu_model(&local, Some(3), None, None).items).len(), 5);
    let odd = MenuTarget::BranchMenu { repo_id: 3, section: BranchSection::Remote, name: "lonely".to_string() };
    assert_eq!(
        labels(&context_menu_model(&odd, Some(3), None, None).items)[5..].to_vec(),
        vec!["---", "Fetch all [F]"]
    );
}

#[test]
fn section_file_and_filter_menus() {
    let m = context_menu_model(&MenuTarget::BranchSectionMenu { repo_id: 1, section: BranchSection::Local }, None, None, None);
    assert_eq!(labels(&m.items), vec!["# Local", "---", "Switch branch… [Enter]"]);
    let m = context_menu_model(&MenuTarget::BranchSectionMenu { repo_id: 1, section: BranchSection::Remote }, None, None, None);
    assert_eq!(labels(&m.items).len(), 4);
    let t = MenuTarget::CommitFileMenu { repo_id: 1, commit_id: "c".to_string(), path: "d/f".to_string() };
    let m = context_menu_model(&t, None, None, Some("f".to_string()));
    assert_eq!(labels(&m.items), vec!["# f", "(d/f)", "---", "Open diff [Enter]", "Copy path [C]"]);
    let m = context_menu_model(&MenuTarget::HistoryBranchFilter { repo_id: 9 }, None, None, None);
    assert_eq!(action(&m.items[3]), ContextMenuAction::SetHistoryScope { repo_id: 9, scope: LogScope::AllBranches });
}

#[test]
fn activating_entries_sends_their_messages() {
    let r = context_menu_activate_action(ContextMenuAction::StagePath { repo_id: 1, path: "a".to_string() });
    assert_eq!(
        r.messages,
        vec![
            StoreMsg::SelectDiff {
                repo_id: 1,
                target: DiffTarget::WorkingTree { path: "a".to_string(), area: DiffArea::Unstaged },
            },
            StoreMsg::StagePath { repo_id: 1, path: "a".to_string() },
        ]
    );
    assert!(r.rebuild_diff_cache);
    let r = context_menu_activate_action(ContextMenuAction::FetchAll { repo_id: 2 });
    assert_eq!(r.messages, vec![StoreMsg::FetchAll { repo_id: 2 }]);
    assert!(!r.rebuild_diff_cache);
    let r = context_menu_activate_action(ContextMenuAction::CopyText { text: "t".to_string() });
    assert!(r.messages.is_empty());
    assert_eq!(r.copy_text.as_deref(), Some("t"));
    let r = context_menu_activate_action(ContextMenuAction::OpenBranchPicker);
    assert!(r.open_branch_picker);
}

fn action_repo(a: &ContextMenuAction) -> Option<u64> {
    match a {
        ContextMenuAction::SelectDiff { repo_id, .. }
        | ContextMenuAction::CheckoutCommit { repo_id, .. }
        | ContextMenuAction::CherryPickCommit { repo_id, .. }
        | ContextMenuAction::RevertCommit { repo_id, .. }
        | ContextMenuAction::CheckoutBranch { repo_id, .. }
        | ContextMenuAction::SetHistoryScope { repo_id, .. }
        | ContextMenuAction::StagePath { repo_id, .. }
        | ContextMenuAction::UnstagePath { repo_id, .. }
        | ContextMenuAction::FetchAll { repo_id }
        | ContextMenuAction::Pull { repo_id, .. }
        | ContextMenuAction::PullBranch { repo_id, .. }
        | ContextMenuAction::MergeRef { repo_id, .. } => Some(*repo_id),
        ContextMenuAction::OpenBranchPicker | ContextMenuAction::CopyText { .. } => None,
    }
}

#[test]
fn menu_entries_act_on_the_menu_repository() {
    let targets = vec![
        MenuTarget::BranchMenu { repo_id: 4, section: BranchSection::Remote, name: "o/b".to_string() },
        MenuTarget::CommitMenu { repo_id: 4, commit_id: "c".to_string() },
        MenuTarget::StatusFileMenu { repo_id: 4, area: DiffArea::Staged, path: "p".to_string() },
        MenuTarget::HistoryBranchFilter { repo_id: 4 },
    ];
    for t in targets {
        // The active repository differs on purpose: these menus use their own.
        let m = context_menu_model(&t, Some(9), None, None);
        for item in &m.items {
            if let ContextMenuItem::Entry { action, .. } = item {
                assert!(matches!(action_repo(action), None | Some(4)));
            }
        }
    }
}
