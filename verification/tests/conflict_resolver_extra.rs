use gitgpui_view::conflict::{
    apply_choice_to_unresolved_segments, auto_resolve_segments,
    auto_resolve_segments_with_options, resolved_conflict_count,
    conflict_count, generate_resolved_text, parse_conflict_markers, AutosolveTraceMode,
    ConflictBlock, ConflictChoice, ConflictPickSide, ConflictSegment,
};
use gitgpui_view::conflict_rows::{
    build_inline_rows, build_two_way_visible_indices, map_two_way_rows_to_conflicts,
    DiffLineKind, FileDiffRow, FileDiffRowKind as RK,
};
use gitgpui_view::conflict_text::{
    format_autosolve_trace_summary, text_contains_conflict_markers, ConflictAutosolveStats,
};

fn row(kind: RK, old_line: Option<u32>, new_line: Option<u32>, old: Option<&str>, new: Option<&str>) -> FileDiffRow {
    FileDiffRow {
        kind,
        old_line,
        new_line,
        old: old.map(|s| s.to_string()),
        new: new.map(|s| s.to_string()),
    }
}

#[test]
fn inline_rows_expand_modify_into_remove_and_add() {
    let rows = vec![
        row(RK::Context, Some(1), Some(1), Some("a"), Some("a")),
        row(RK::Modify, Some(2), Some(2), Some("b"), Some("b2")),
    ];
    let inline = build_inline_rows(&rows);
    assert_eq!(inline.len(), 3);
    assert_eq!(inline[0].content, "a");
    assert_eq!(inline[1].kind, DiffLineKind::Remove);
    assert_eq!(inline[2].kind, DiffLineKind::Add);
}

#[test]
fn detects_conflict_markers_in_text() {
    assert!(text_contains_conflict_markers(
        "a\n<<<<<<< HEAD\nours\n=======\ntheirs\n>>>>>>> branch\nb\n"
    ));
    assert!(text_contains_conflict_markers("<<<<<<< HEAD\n"));
    assert!(text_contains_conflict_markers("=======\n"));
    assert!(text_contains_conflict_markers(">>>>>>> branch\n"));
    assert!(text_contains_conflict_markers("||||||| base\n"));
}

#[test]
fn no_false_positives_for_clean_text() {
    assert!(!text_contains_conflict_markers("a\nb\nc\n"));
    assert!(!text_contains_conflict_markers(""));
    assert!(!text_contains_conflict_markers(
        "some text with < and > arrows"
    ));
    assert!(!text_contains_conflict_markers("====== not quite seven"));
}

#[test]
fn autosolve_trace_summary_safe_mode() {
    let stats = ConflictAutosolveStats {
        pass1: 2,
        pass2_split: 1,
        pass1_after_split: 0,
        regex: 0,
        history: 0,
    };
    let summary = format_autosolve_trace_summary(AutosolveTraceMode::Safe, 5, 2, &stats);
    assert!(summary.contains("Last autosolve (safe)"));
    assert!(summary.contains("resolved 3 blocks"));
    assert!(summary.contains("unresolved 5 -> 2"));
    assert!(summary.contains("pass1 2"));
    assert!(summary.contains("split 1"));
}

#[test]
fn autosolve_trace_summary_history_mode_uses_history_stat() {
    let stats = ConflictAutosolveStats {
        pass1: 0,
        pass2_split: 0,
        pass1_after_split: 0,
        regex: 0,
        history: 3,
    };
    let summary = format_autosolve_trace_summary(AutosolveTraceMode::History, 4, 1, &stats);
    assert!(summary.contains("Last autosolve (history)"));
    assert!(summary.contains("resolved 3 blocks"));
    assert!(summary.contains("history 3"));
    assert!(!summary.contains("pass1"));
}

#[test]
fn autosolve_trace_summary_exact_text() {
    let stats = ConflictAutosolveStats {
        pass1: 1,
        pass2_split: 0,
        pass1_after_split: 0,
        regex: 12,
        history: 0,
    };
    assert_eq!(
        format_autosolve_trace_summary(AutosolveTraceMode::Regex, 10, 9, &stats),
        "Last autosolve (regex): resolved 1 block, unresolved 10 -> 9 (pass1 1, split 0, pass1-after-split 0, regex 12)."
    );
    assert_eq!(
        format_autosolve_trace_summary(AutosolveTraceMode::Safe, 1, 3, &stats),
        "Last autosolve (safe): resolved 0 blocks, unresolved 1 -> 3 (pass1 1, split 0, pass1-after-split 0)."
    );
}

// Side-by-side rows for "a\nb\nmid\nc\nz\n" against "a\nB\nmid\nC\nz\n".
fn rows_abc() -> Vec<FileDiffRow> {
    vec![
        row(RK::Context, Some(1), Some(1), Some("a"), Some("a")),
        row(RK::Modify, Some(2), Some(2), Some("b"), Some("B")),
        row(RK::Context, Some(3), Some(3), Some("mid"), Some("mid")),
        row(RK::Modify, Some(4), Some(4), Some("c"), Some("C")),
        row(RK::Context, Some(5), Some(5), Some("z"), Some("z")),
    ]
}

#[test]
fn map_two_way_rows_to_conflicts_tracks_conflict_indices() {
    let markers = "a\n<<<<<<< HEAD\nb\n=======\nB\n>>>>>>> other\nmid\n<<<<<<< HEAD\nc\n=======\nC\n>>>>>>> other\nz\n";
    let segments = parse_conflict_markers(markers);
    let diff_rows = rows_abc();
    let inline_rows = build_inline_rows(&diff_rows);
    let (split_map, inline_map) = map_two_way_rows_to_conflicts(&segments, &diff_rows, &inline_rows);

    let split_conflicts: Vec<usize> = split_map.iter().flatten().copied().collect();
    let inline_conflicts: Vec<usize> = inline_map.iter().flatten().copied().collect();

    assert_eq!(split_conflicts, vec![0, 1]);
    assert_eq!(inline_conflicts, vec![0, 0, 1, 1]);
}

#[test]
fn map_two_way_rows_to_conflicts_maps_single_sided_rows() {
    let markers = "<<<<<<< HEAD\n=======\nadd\n>>>>>>> other\n";
    let segments = parse_conflict_markers(markers);
    // Side-by-side rows for "" against "add\n".
    let diff_rows = vec![row(RK::Add, None, Some(1), None, Some("add"))];
    let inline_rows = build_inline_rows(&diff_rows);
    let (split_map, inline_map) = map_two_way_rows_to_conflicts(&segments, &diff_rows, &inline_rows);

    assert_eq!(split_map, vec![Some(0)]);
    assert_eq!(inline_map, vec![Some(0)]);
}

#[test]
fn split_and_inline_views_have_consistent_conflict_counts() {
    let markers = "ctx\n<<<<<<< HEAD\nalpha\nbeta\n=======\nALPHA\nBETA\n>>>>>>> other\nmid\n<<<<<<< HEAD\ngamma\n=======\nGAMMA\nDELTA\n>>>>>>> other\nend\n";
    let segments = parse_conflict_markers(markers);
    assert_eq!(conflict_count(&segments), 2);

    // Side-by-side rows for "ctx\nalpha\nbeta\nmid\ngamma\nend\n" against
    // "ctx\nALPHA\nBETA\nmid\nGAMMA\nDELTA\nend\n".
    let diff_rows = vec![
        row(RK::Context, Some(1), Some(1), Some("ctx"), Some("ctx")),
        row(RK::Modify, Some(2), Some(2), Some("alpha"), Some("ALPHA")),
        row(RK::Modify, Some(3), Some(3), Some("beta"), Some("BETA")),
        row(RK::Context, Some(4), Some(4), Some("mid"), Some("mid")),
        row(RK::Modify, Some(5), Some(5), Some("gamma"), Some("GAMMA")),
        row(RK::Add, None, Some(6), None, Some("DELTA")),
        row(RK::Context, Some(6), Some(7), Some("end"), Some("end")),
    ];
    let inline_rows = build_inline_rows(&diff_rows);

    let (split_map, inline_map) = map_two_way_rows_to_conflicts(&segments, &diff_rows, &inline_rows);

    let split_indices: std::collections::BTreeSet<usize> = split_map.iter().flatten().copied().collect();
    let inline_indices: std::collections::BTreeSet<usize> = inline_map.iter().flatten().copied().collect();
    assert_eq!(split_indices, inline_indices);

    assert_eq!(split_indices.len(), 2);
    assert!(split_indices.contains(&0));
    assert!(split_indices.contains(&1));
}

#[test]
fn split_and_inline_hide_resolved_filter_same_conflicts() {
    let segments = vec![
        ConflictSegment::Text("ctx\n".into()),
        ConflictSegment::Block(ConflictBlock {
            base: None,
            ours: "A\nB\n".into(),
            theirs: "a\nb\n".into(),
            choice: ConflictChoice::Ours,
            resolved: true,
        }),
        ConflictSegment::Text("mid\n".into()),
        ConflictSegment::Block(ConflictBlock {
            base: None,
            ours: "C\n".into(),
            theirs: "c\n".into(),
            choice: ConflictChoice::Ours,
            resolved: false,
        }),
        ConflictSegment::Text("end\n".into()),
    ];

    // Side-by-side rows for "ctx\nA\nB\nmid\nC\nend\n" against "ctx\na\nb\nmid\nc\nend\n".
    let diff_rows = vec![
        row(RK::Context, Some(1), Some(1), Some("ctx"), Some("ctx")),
        row(RK::Modify, Some(2), Some(2), Some("A"), Some("a")),
        row(RK::Modify, Some(3), Some(3), Some("B"), Some("b")),
        row(RK::Context, Some(4), Some(4), Some("mid"), Some("mid")),
        row(RK::Modify, Some(5), Some(5), Some("C"), Some("c")),
        row(RK::Context, Some(6), Some(6), Some("end"), Some("end")),
    ];
    let inline_rows = build_inline_rows(&diff_rows);
    let (split_map, inline_map) = map_two_way_rows_to_conflicts(&segments, &diff_rows, &inline_rows);

    let split_visible = build_two_way_visible_indices(&split_map, &segments, true);
    let inline_visible = build_two_way_visible_indices(&inline_map, &segments, true);

    for &ix in &split_visible {
        if let Some(ci) = split_map[ix] {
            assert_ne!(ci, 0, "split view should hide resolved conflict 0 rows");
        }
    }
    for &ix in &inline_visible {
        if let Some(ci) = inline_map[ix] {
            assert_ne!(ci, 0, "inline view should hide resolved conflict 0 rows");
        }
    }

    let split_has_conflict_1 = split_visible.iter().any(|&ix| split_map[ix] == Some(1));
    let inline_has_conflict_1 = inline_visible.iter().any(|&ix| inline_map[ix] == Some(1));
    assert!(split_has_conflict_1, "split should show unresolved conflict 1");
    assert!(inline_has_conflict_1, "inline should show unresolved conflict 1");
}

#[test]
fn malformed_block_without_end_marker_keeps_text() {
    let input = "a\n<<<<<<< HEAD\none\n======= x\ntwo\n";
    let segments = parse_conflict_markers(input);
    assert_eq!(conflict_count(&segments), 0);
    assert_eq!(generate_resolved_text(&segments), input);
}

#[test]
fn unfinished_diff3_block_keeps_its_ancestor_section() {
    let input = "<<<<<<< ours\none\n||||||| base\norig\n=======\nuno\n";
    let segments = parse_conflict_markers(input);
    assert_eq!(conflict_count(&segments), 0);
    assert_eq!(generate_resolved_text(&segments), input);
}

#[test]
fn inline_rows_pick_sides() {
    let rows = vec![
        row(RK::Remove, Some(1), None, Some("x"), None),
        row(RK::Add, None, Some(1), None, Some("y")),
    ];
    let inline = build_inline_rows(&rows);
    assert_eq!(inline.len(), 2);
    assert_eq!(inline[0].side, ConflictPickSide::Ours);
    assert_eq!(inline[0].new_line, None);
    assert_eq!(inline[1].side, ConflictPickSide::Theirs);
    assert_eq!(inline[1].content, "y");
}

#[test]
fn second_bulk_pick_changes_nothing() {
    let input = "<<<<<<< ours\na\n=======\nb\n>>>>>>> theirs\nmid\n<<<<<<< ours\nc\n=======\nd\n>>>>>>> theirs\n";
    let mut segments = parse_conflict_markers(input);
    assert_eq!(apply_choice_to_unresolved_segments(&mut segments, ConflictChoice::Theirs), 2);
    let once = segments.clone();
    assert_eq!(apply_choice_to_unresolved_segments(&mut segments, ConflictChoice::Theirs), 0);
    assert_eq!(segments, once);
    assert_eq!(apply_choice_to_unresolved_segments(&mut segments, ConflictChoice::Ours), 0);
    assert_eq!(segments, once);
    assert_eq!(generate_resolved_text(&segments), "b\nmid\nd\n");
}

#[test]
fn autosolve_raises_resolved_count_by_its_result() {
    let input = "<<<<<<< ours\nsame\n=======\nsame\n>>>>>>> theirs\n<<<<<<< ours\nx\n=======\ny\n>>>>>>> theirs\n<<<<<<< ours\nk\n||||||| base\nk\n=======\nz\n>>>>>>> theirs\n";
    let mut segments = parse_conflict_markers(input);
    let before = resolved_conflict_count(&segments);
    let n = auto_resolve_segments(&mut segments);
    assert_eq!(n, 2);
    assert_eq!(conflict_count(&segments), 3);
    assert_eq!(resolved_conflict_count(&segments), before + n);
}

#[test]
fn whitespace_option_resolves_at_least_the_plain_rules() {
    let input = "<<<<<<< ours\nsame\n=======\nsame\n>>>>>>> theirs\n<<<<<<< ours\nf(a, b)\n=======\nf(a,b)\n>>>>>>> theirs\n<<<<<<< ours\nx\n=======\ny\n>>>>>>> theirs\n";
    let mut plain = parse_conflict_markers(input);
    let mut norm = plain.clone();
    let p = auto_resolve_segments_with_options(&mut plain, false);
    let q = auto_resolve_segments_with_options(&mut norm, true);
    assert_eq!(p, 1);
    assert_eq!(q, 2);
    let blocks = |segs: &Vec<ConflictSegment>| -> Vec<ConflictBlock> {
        segs.iter()
            .filter_map(|s| match s {
                ConflictSegment::Block(b) => Some(b.clone()),
                ConflictSegment::Text(_) => None,
            })
            .collect()
    };
    let (pb, nb) = (blocks(&plain), blocks(&norm));
    assert_eq!(pb.len(), 3);
    assert_eq!(nb[0], pb[0]);
    assert!(!pb[1].resolved);
    assert!(nb[1].resolved);
    assert_eq!(nb[1].choice, ConflictChoice::Ours);
    assert_eq!(nb[2], pb[2]);
    assert!(!nb[2].resolved);
}
