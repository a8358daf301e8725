use gitgpui_view::conflict_rows::DiffLineKind as K;
use gitgpui_view::diff_patch::{
    build_unified_patch_for_hunk, build_unified_patch_for_hunk_selection,
    build_unified_patch_for_hunk_selection_for_worktree_discard, build_unified_patch_for_hunks,
    build_unified_patch_for_selected_lines_across_hunks,
    build_unified_patch_for_selected_lines_across_hunks_for_worktree_discard,
    compute_diff_file_for_src_ix, compute_diff_file_stats, diff_content_text,
    enclosing_hunk_src_ix, parse_diff_git_header_path, parse_unified_hunk_header_for_display,
    should_hide_unified_diff_header_line, AnnotatedDiffLine,
};
use gitgpui_view::diff_view::{
    context_menu_selection_range_from_diff_text, DiffTextPos, DiffTextRegion, DiffViewMode,
};
use std::collections::HashSet;

fn dl(kind: K, text: &str) -> AnnotatedDiffLine {
    AnnotatedDiffLine { kind, text: text.into(), old_line: None, new_line: None }
}

fn example_two_hunk_diff() -> Vec<AnnotatedDiffLine> {
    vec![
        dl(K::Header, "diff --git a/file.txt b/file.txt"),
        dl(K::Header, "index 1111111..2222222 100644"),
        dl(K::Header, "--- a/file.txt"),
        dl(K::Header, "+++ b/file.txt"),
        dl(K::Hunk, "@@ -1,3 +1,3 @@"),
        dl(K::Context, " line1"),
        dl(K::Remove, "-line2"),
        dl(K::Add, "+line2_mod"),
        dl(K::Context, " line3"),
        dl(K::Hunk, "@@ -5,3 +5,4 @@"),
        dl(K::Context, " line5"),
        dl(K::Context, " line6"),
        dl(K::Add, "+line6_5"),
        dl(K::Context, " line7"),
    ]
}

fn example_two_file_diff() -> Vec<AnnotatedDiffLine> {
    vec![
        dl(K::Header, "diff --git a/a.txt b/a.txt"),
        dl(K::Header, "--- a/a.txt"),
        dl(K::Header, "+++ b/a.txt"),
        dl(K::Hunk, "@@ -1,0 +1,1 @@"),
        dl(K::Add, "+a"),
        dl(K::Header, "diff --git a/b.txt b/b.txt"),
        dl(K::Header, "--- a/b.txt"),
        dl(K::Header, "+++ b/b.txt"),
        dl(K::Hunk, "@@ -1,0 +1,1 @@"),
        dl(K::Add, "+b"),
    ]
}

fn example_two_mods_one_hunk_diff() -> Vec<AnnotatedDiffLine> {
    vec![
        dl(K::Header, "diff --git a/file.txt b/file.txt"),
        dl(K::Header, "index 1111111..2222222 100644"),
        dl(K::Header, "--- a/file.txt"),
        dl(K::Header, "+++ b/file.txt"),
        dl(K::Hunk, "@@ -1,4 +1,4 @@"),
        dl(K::Context, " line1"),
        dl(K::Remove, "-line2"),
        dl(K::Add, "+line2_mod"),
        dl(K::Remove, "-line3"),
        dl(K::Add, "+line3_mod"),
        dl(K::Context, " line4"),
    ]
}

#[test]
fn build_unified_patch_for_hunks_includes_multiple_hunks() {
    let diff = example_two_hunk_diff();
    let patch = build_unified_patch_for_hunks(&diff, &[4, 9]).expect("patch");
    assert!(patch.contains("@@ -1,3 +1,3 @@"));
    assert!(patch.contains("@@ -5,3 +5,4 @@"));
}

#[test]
fn build_unified_patch_for_selected_lines_across_hunks_includes_all_selected_lines() {
    let diff = example_two_hunk_diff();
    let selected: HashSet<usize> = [6, 7, 12].into_iter().collect();

    let patch =
        build_unified_patch_for_selected_lines_across_hunks(&diff, &selected).expect("patch");
    assert!(patch.contains("@@ -1,3 +1,3 @@"));
    assert!(patch.contains("@@ -5,3 +5,4 @@"));
    assert!(patch.contains("-line2"));
    assert!(patch.contains("+line2_mod"));
    assert!(patch.contains("+line6_5"));
}

#[test]
fn build_unified_patch_for_selected_lines_across_hunks_ignores_context_only_selection() {
    let diff = example_two_hunk_diff();
    let selected: HashSet<usize> = [5, 8, 10].into_iter().collect();

    assert!(build_unified_patch_for_selected_lines_across_hunks(&diff, &selected).is_none());
}

#[test]
fn build_unified_patch_for_selected_lines_across_hunks_supports_multiple_files() {
    let diff = example_two_file_diff();
    let selected: HashSet<usize> = [4, 9].into_iter().collect();

    let patch =
        build_unified_patch_for_selected_lines_across_hunks(&diff, &selected).expect("patch");
    assert!(patch.contains("diff --git a/a.txt b/a.txt"));
    assert!(patch.contains("diff --git a/b.txt b/b.txt"));
    assert!(patch.contains("+a"));
    assert!(patch.contains("+b"));
}

#[test]
fn build_unified_patch_for_selected_lines_across_hunks_for_worktree_discard_keeps_unselected_changes_as_worktree_context()
{
    let diff = example_two_mods_one_hunk_diff();
    let selected: HashSet<usize> = [6, 7].into_iter().collect();

    let patch = build_unified_patch_for_selected_lines_across_hunks_for_worktree_discard(
        &diff, &selected,
    )
    .expect("patch");

    assert!(patch.contains("-line2"));
    assert!(patch.contains("+line2_mod"));
    assert!(!patch.contains("-line3"));
    assert!(!patch.contains("+line3_mod"));
    assert!(patch.contains(" line3_mod"));
}

#[test]
fn context_menu_selection_range_from_diff_text_requires_click_in_selection() {
    let selection = Some((
        DiffTextPos { visible_ix: 2, region: DiffTextRegion::Inline, offset: 0 },
        DiffTextPos { visible_ix: 5, region: DiffTextRegion::Inline, offset: 3 },
    ));
    assert_eq!(
        context_menu_selection_range_from_diff_text(
            selection,
            DiffViewMode::Inline,
            4,
            DiffTextRegion::Inline
        ),
        Some((2, 5))
    );
    assert_eq!(
        context_menu_selection_range_from_diff_text(
            selection,
            DiffViewMode::Inline,
            1,
            DiffTextRegion::Inline
        ),
        None
    );
}

#[test]
fn context_menu_selection_range_from_diff_text_restricts_split_region() {
    let selection = Some((
        DiffTextPos { visible_ix: 1, region: DiffTextRegion::SplitLeft, offset: 0 },
        DiffTextPos { visible_ix: 3, region: DiffTextRegion::SplitLeft, offset: 2 },
    ));
    assert_eq!(
        context_menu_selection_range_from_diff_text(
            selection,
            DiffViewMode::Split,
            2,
            DiffTextRegion::SplitLeft
        ),
        Some((1, 3))
    );
    assert_eq!(
        context_menu_selection_range_from_diff_text(
            selection,
            DiffViewMode::Split,
            2,
            DiffTextRegion::SplitRight
        ),
        None
    );
}

#[test]
fn context_menu_empty_selection_gives_nothing() {
    let p = DiffTextPos { visible_ix: 3, region: DiffTextRegion::Inline, offset: 1 };
    assert_eq!(
        context_menu_selection_range_from_diff_text(Some((p, p)), DiffViewMode::Inline, 3, DiffTextRegion::Inline),
        None
    );
    assert_eq!(
        context_menu_selection_range_from_diff_text(None, DiffViewMode::Inline, 3, DiffTextRegion::Inline),
        None
    );
}

#[test]
fn diff_text_pos_cmp_key_orders_columns() {
    let left = DiffTextPos { visible_ix: 4, region: DiffTextRegion::SplitLeft, offset: 9 };
    let right = DiffTextPos { visible_ix: 4, region: DiffTextRegion::SplitRight, offset: 0 };
    assert_eq!(left.cmp_key(), (4, 0, 9));
    assert_eq!(right.cmp_key(), (4, 1, 0));
    assert!(left.cmp_key() < right.cmp_key());
}

#[test]
fn single_hunk_patch_is_exact() {
    let diff = example_two_hunk_diff();
    let patch = build_unified_patch_for_hunk(&diff, 9).expect("patch");
    assert_eq!(
        patch,
        "diff --git a/file.txt b/file.txt\nindex 1111111..2222222 100644\n--- a/file.txt\n+++ b/file.txt\n@@ -5,3 +5,4 @@\n line5\n line6\n+line6_5\n line7\n"
    );
    assert_eq!(build_unified_patch_for_hunk(&diff, 5), None);
    assert_eq!(build_unified_patch_for_hunk(&diff, 100), None);
}

#[test]
fn hunk_list_is_sorted_and_deduplicated() {
    let diff = example_two_hunk_diff();
    let forward = build_unified_patch_for_hunks(&diff, &[4, 9]).expect("patch");
    let shuffled = build_unified_patch_for_hunks(&diff, &[9, 4, 9, 4]).expect("patch");
    assert_eq!(forward, shuffled);
    assert_eq!(build_unified_patch_for_hunks(&diff, &[]), None);
    assert_eq!(build_unified_patch_for_hunks(&diff, &[1, 2]), None);
}

#[test]
fn hunk_selection_turns_unselected_removal_into_context() {
    let diff = example_two_mods_one_hunk_diff();
    let selected: HashSet<usize> = [7].into_iter().collect();
    let patch = build_unified_patch_for_hunk_selection(&diff, 4, &selected).expect("patch");
    assert_eq!(
        patch,
        "diff --git a/file.txt b/file.txt\nindex 1111111..2222222 100644\n--- a/file.txt\n+++ b/file.txt\n@@ -1,4 +1,4 @@\n line1\n line2\n+line2_mod\n line3\n line4\n"
    );
    let discard =
        build_unified_patch_for_hunk_selection_for_worktree_discard(&diff, 4, &selected).expect("patch");
    assert_eq!(
        discard,
        "diff --git a/file.txt b/file.txt\nindex 1111111..2222222 100644\n--- a/file.txt\n+++ b/file.txt\n@@ -1,4 +1,4 @@\n line1\n+line2_mod\n line3_mod\n line4\n"
    );
    let none: HashSet<usize> = HashSet::new();
    assert_eq!(build_unified_patch_for_hunk_selection(&diff, 4, &none), None);
}

#[test]
fn no_newline_marker_follows_the_kept_line() {
    let diff = vec![
        dl(K::Header, "diff --git a/f b/f"),
        dl(K::Hunk, "@@ -1 +1 @@"),
        dl(K::Remove, "-old"),
        dl(K::Context, "\\ No newline at end of file"),
        dl(K::Add, "+new"),
        dl(K::Context, "\\ No newline at end of file"),
    ];
    let selected: HashSet<usize> = [4].into_iter().collect();
    let patch = build_unified_patch_for_hunk_selection(&diff, 1, &selected).expect("patch");
    assert_eq!(
        patch,
        "diff --git a/f b/f\n@@ -1 +1 @@\n old\n\\ No newline at end of file\n+new\n\\ No newline at end of file\n"
    );
}

#[test]
fn file_stats_and_paths_follow_file_headers() {
    let diff = example_two_file_diff();
    let stats = compute_diff_file_stats(&diff);
    assert_eq!(stats[0], Some((1, 0)));
    assert_eq!(stats[5], Some((1, 0)));
    assert_eq!(stats[4], None);

    let files = compute_diff_file_for_src_ix(&diff);
    assert_eq!(files[0].as_deref(), Some("a.txt"));
    assert_eq!(files[4].as_deref(), Some("a.txt"));
    assert_eq!(files[5].as_deref(), Some("b.txt"));
    assert_eq!(files[9].as_deref(), Some("b.txt"));

    let mods = example_two_mods_one_hunk_diff();
    assert_eq!(compute_diff_file_stats(&mods)[0], Some((2, 2)));
}

#[test]
fn enclosing_hunk_stops_at_file_header() {
    let diff = example_two_file_diff();
    assert_eq!(enclosing_hunk_src_ix(&diff, 4), Some(3));
    assert_eq!(enclosing_hunk_src_ix(&diff, 9), Some(8));
    assert_eq!(enclosing_hunk_src_ix(&diff, 6), None);
    assert_eq!(enclosing_hunk_src_ix(&diff, 1000), Some(8));
    assert_eq!(enclosing_hunk_src_ix(&[], 0), None);
}

#[test]
fn header_paths_and_hunk_headers_parse() {
    assert_eq!(parse_diff_git_header_path("diff --git a/x.rs b/y.rs").as_deref(), Some("y.rs"));
    assert_eq!(parse_diff_git_header_path("diff --git a/only").as_deref(), Some("a/only"));
    assert_eq!(parse_diff_git_header_path("diff --git "), None);
    assert_eq!(parse_diff_git_header_path("index 123"), None);

    let h = parse_unified_hunk_header_for_display("@@ -1,3 +1,4 @@ fn main() ").expect("hunk");
    assert_eq!(h.old, "-1,3");
    assert_eq!(h.new, "+1,4");
    assert_eq!(h.heading.as_deref(), Some("fn main()"));
    let h = parse_unified_hunk_header_for_display("@@ -1 +1 @@").expect("hunk");
    assert_eq!(h.heading, None);
    assert!(parse_unified_hunk_header_for_display("@@ -1 @@").is_none());
    assert!(parse_unified_hunk_header_for_display("-1 +1").is_none());
}

#[test]
fn content_text_strips_markers() {
    assert_eq!(diff_content_text(&dl(K::Add, "+x")), "x");
    assert_eq!(diff_content_text(&dl(K::Remove, "-y")), "y");
    assert_eq!(diff_content_text(&dl(K::Context, " z")), "z");
    assert_eq!(diff_content_text(&dl(K::Hunk, "@@ -1 +1 @@")), "@@ -1 +1 @@");
    assert_eq!(diff_content_text(&dl(K::Add, "x")), "x");

    assert!(should_hide_unified_diff_header_line(&dl(K::Header, "index 1..2")));
    assert!(should_hide_unified_diff_header_line(&dl(K::Header, "--- a/f")));
    assert!(!should_hide_unified_diff_header_line(&dl(K::Header, "diff --git a/f b/f")));
    assert!(!should_hide_unified_diff_header_line(&dl(K::Remove, "--- a/f")));
}

use gitgpui_view::diff_view::{
    scrollbar_markers_for_flags, scrollbar_markers_from_flags, ScrollbarBucketMarker,
    ScrollbarMarkerKind,
};

#[test]
fn scrollbar_markers_merge_equal_neighbours() {
    let flags = [0u8, 1, 1, 0, 2, 3, 3];
    let r = scrollbar_markers_for_flags(&flags);
    assert_eq!(r.bucket_count, 7);
    assert_eq!(
        r.markers,
        vec![
            ScrollbarBucketMarker { start: 1, end: 3, kind: ScrollbarMarkerKind::Add },
            ScrollbarBucketMarker { start: 4, end: 5, kind: ScrollbarMarkerKind::Remove },
            ScrollbarBucketMarker { start: 5, end: 7, kind: ScrollbarMarkerKind::Modify },
        ]
    );
    assert_eq!(scrollbar_markers_for_flags(&[]).markers, vec![]);
}

#[test]
fn scrollbar_markers_bucket_long_inputs() {
    // 480 lines in 240 buckets: lines 2k and 2k+1 share bucket k.
    let r = scrollbar_markers_from_flags(480, |ix| if ix == 10 { 1 } else if ix == 11 { 2 } else { 0 });
    assert_eq!(r.bucket_count, 240);
    assert_eq!(r.markers, vec![ScrollbarBucketMarker { start: 5, end: 6, kind: ScrollbarMarkerKind::Modify }]);
}
