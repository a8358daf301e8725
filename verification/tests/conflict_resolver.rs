use gitgpui_view::conflict::{
    apply_choice_to_unresolved_segments, auto_resolve_segments, conflict_count,
    generate_resolved_text, next_unresolved_conflict_index, parse_conflict_markers,
    prev_unresolved_conflict_index, resolved_conflict_count, ConflictBlock, ConflictChoice,
    ConflictSegment,
};
use gitgpui_view::conflict_rows::{
    build_three_way_visible_map, build_two_way_visible_indices, visible_index_for_conflict,
    ThreeWayVisibleItem,
};
use gitgpui_view::conflict_text::{
    append_lines_to_output, conflict_stage_safety_check, populate_block_bases_from_ancestor,
};

#[test]
fn parses_and_generates_conflicts() {
    let input = "a\n<<<<<<< HEAD\none\ntwo\n=======\nuno\ndos\n>>>>>>> other\nb\n";
    let mut segments = parse_conflict_markers(input);
    assert_eq!(conflict_count(&segments), 1);

    let ours = generate_resolved_text(&segments);
    assert_eq!(ours, "a\none\ntwo\nb\n");

    {
        let ConflictSegment::Block(block) = segments
            .iter_mut()
            .find(|s| matches!(s, ConflictSegment::Block(_)))
            .unwrap()
        else {
            panic!("expected a conflict block");
        };
        block.choice = ConflictChoice::Theirs;
    }

    let theirs = generate_resolved_text(&segments);
    assert_eq!(theirs, "a\nuno\ndos\nb\n");

    {
        let ConflictSegment::Block(block) = segments
            .iter_mut()
            .find(|s| matches!(s, ConflictSegment::Block(_)))
            .unwrap()
        else {
            panic!("expected a conflict block");
        };
        block.choice = ConflictChoice::Both;
    }
    let both = generate_resolved_text(&segments);
    assert_eq!(both, "a\none\ntwo\nuno\ndos\nb\n");
}

#[test]
fn parses_diff3_style_markers() {
    let input = "a\n<<<<<<< ours\none\n||||||| base\norig\n=======\nuno\n>>>>>>> theirs\nb\n";
    let segments = parse_conflict_markers(input);
    assert_eq!(conflict_count(&segments), 1);

    let ConflictSegment::Block(block) = segments
        .iter()
        .find(|s| matches!(s, ConflictSegment::Block(_)))
        .unwrap()
    else {
        panic!("expected a conflict block");
    };

    assert_eq!(block.ours, "one\n");
    assert_eq!(block.base.as_deref(), Some("orig\n"));
    assert_eq!(block.theirs, "uno\n");
}

#[test]
fn malformed_markers_are_preserved() {
    let input = "a\n<<<<<<< HEAD\none\n";
    let segments = parse_conflict_markers(input);
    assert_eq!(conflict_count(&segments), 0);
    assert_eq!(generate_resolved_text(&segments), input);
}

#[test]
fn append_lines_adds_newlines_safely() {
    let out = append_lines_to_output("a\n", &["b".into(), "c".into()]);
    assert_eq!(out, "a\nb\nc\n");
    let out = append_lines_to_output("a", &["b".into()]);
    assert_eq!(out, "a\nb\n");
}

#[test]
fn populate_block_bases_from_ancestor_fills_missing_base() {
    // 2-way conflict markers (no base section)
    let input = "a\n<<<<<<< HEAD\none\ntwo\n=======\nuno\ndos\n>>>>>>> other\nb\n";
    let mut segments = parse_conflict_markers(input);
    assert_eq!(conflict_count(&segments), 1);

    // The block has no base initially (2-way markers)
    let block = segments
        .iter()
        .find_map(|s| match s {
            ConflictSegment::Block(b) => Some(b),
            _ => None,
        })
        .unwrap();
    assert!(block.base.is_none());

    // Populate base from ancestor file
    let ancestor = "a\norig\nb\n";
    populate_block_bases_from_ancestor(&mut segments, ancestor);

    // Now the block should have base content extracted from the ancestor
    let block = segments
        .iter()
        .find_map(|s| match s {
            ConflictSegment::Block(b) => Some(b),
            _ => None,
        })
        .unwrap();
    assert_eq!(block.base.as_deref(), Some("orig\n"));
}

#[test]
fn populate_block_bases_preserves_existing_base() {
    // 3-way conflict markers (with base section)
    let input = "a\n<<<<<<< ours\none\n||||||| base\norig\n=======\nuno\n>>>>>>> theirs\nb\n";
    let mut segments = parse_conflict_markers(input);

    // Block already has base from markers
    let block = segments
        .iter()
        .find_map(|s| match s {
            ConflictSegment::Block(b) => Some(b),
            _ => None,
        })
        .unwrap();
    assert_eq!(block.base.as_deref(), Some("orig\n"));

    // populate should not overwrite existing base
    populate_block_bases_from_ancestor(&mut segments, "a\nDIFFERENT\nb\n");
    let block = segments
        .iter()
        .find_map(|s| match s {
            ConflictSegment::Block(b) => Some(b),
            _ => None,
        })
        .unwrap();
    assert_eq!(block.base.as_deref(), Some("orig\n")); // unchanged
}

#[test]
fn populate_block_bases_multiple_conflicts() {
    let input = "a\n<<<<<<< HEAD\nfoo\n=======\nbar\n>>>>>>> other\nb\n<<<<<<< HEAD\nx\n=======\ny\n>>>>>>> other\nc\n";
    let mut segments = parse_conflict_markers(input);
    assert_eq!(conflict_count(&segments), 2);

    let ancestor = "a\norig_foo\nb\norig_x\nc\n";
    populate_block_bases_from_ancestor(&mut segments, ancestor);

    let blocks: Vec<_> = segments
        .iter()
        .filter_map(|s| match s {
            ConflictSegment::Block(b) => Some(b),
            _ => None,
        })
        .collect();
    assert_eq!(blocks.len(), 2);
    assert_eq!(blocks[0].base.as_deref(), Some("orig_foo\n"));
    assert_eq!(blocks[1].base.as_deref(), Some("orig_x\n"));
}

#[test]
fn populate_block_bases_generates_correct_resolved_text() {
    let input = "a\n<<<<<<< HEAD\none\n=======\nuno\n>>>>>>> other\nb\n";
    let mut segments = parse_conflict_markers(input);

    let ancestor = "a\norig\nb\n";
    populate_block_bases_from_ancestor(&mut segments, ancestor);

    // Pick Base and generate resolved text
    if let Some(ConflictSegment::Block(block)) = segments
        .iter_mut()
        .find(|s| matches!(s, ConflictSegment::Block(_)))
    {
        block.choice = ConflictChoice::Base;
    }
    let resolved = generate_resolved_text(&segments);
    assert_eq!(resolved, "a\norig\nb\n");
}

#[test]
fn stage_safety_requires_confirmation_for_unresolved_blocks_without_markers() {
    let input = "a\n<<<<<<< HEAD\nours\n=======\ntheirs\n>>>>>>> branch\nb\n";
    let segments = parse_conflict_markers(input);
    let output_text = generate_resolved_text(&segments);

    let safety = conflict_stage_safety_check(&output_text, &segments);
    assert!(!safety.has_conflict_markers);
    assert_eq!(safety.unresolved_blocks, 1);
    assert!(safety.requires_confirmation());
}

#[test]
fn stage_safety_does_not_require_confirmation_when_fully_resolved_and_clean() {
    let input = "a\n<<<<<<< HEAD\nours\n=======\ntheirs\n>>>>>>> branch\nb\n";
    let mut segments = parse_conflict_markers(input);
    if let Some(ConflictSegment::Block(block)) = segments
        .iter_mut()
        .find(|s| matches!(s, ConflictSegment::Block(_)))
    {
        block.choice = ConflictChoice::Theirs;
        block.resolved = true;
    }
    let output_text = generate_resolved_text(&segments);

    let safety = conflict_stage_safety_check(&output_text, &segments);
    assert!(!safety.has_conflict_markers);
    assert_eq!(safety.unresolved_blocks, 0);
    assert!(!safety.requires_confirmation());
}

#[test]
fn stage_safety_requires_confirmation_when_markers_remain() {
    let safety = conflict_stage_safety_check("<<<<<<< HEAD\nours\n", &[]);
    assert!(safety.has_conflict_markers);
    assert_eq!(safety.unresolved_blocks, 0);
    assert!(safety.requires_confirmation());
}

#[test]
fn resolved_count_starts_at_zero() {
    let input = "a\n<<<<<<< HEAD\none\n=======\nuno\n>>>>>>> other\nb\n";
    let segments = parse_conflict_markers(input);
    assert_eq!(conflict_count(&segments), 1);
    assert_eq!(resolved_conflict_count(&segments), 0);
}

#[test]
fn resolved_count_tracks_picks() {
    let input = "<<<<<<< HEAD\none\n=======\nuno\n>>>>>>> other\n<<<<<<< HEAD\ntwo\n=======\ndos\n>>>>>>> other\n";
    let mut segments = parse_conflict_markers(input);
    assert_eq!(conflict_count(&segments), 2);
    assert_eq!(resolved_conflict_count(&segments), 0);

    // Resolve first block.
    if let ConflictSegment::Block(block) = &mut segments[0] {
        block.choice = ConflictChoice::Theirs;
        block.resolved = true;
    }
    assert_eq!(resolved_conflict_count(&segments), 1);
}

fn mark_block_resolved(segments: &mut [ConflictSegment], target: usize) {
    let mut seen = 0usize;
    for seg in segments {
        let ConflictSegment::Block(block) = seg else {
            continue;
        };
        if seen == target {
            block.resolved = true;
            return;
        }
        seen += 1;
    }
    panic!("missing block index {target}");
}

#[test]
fn next_unresolved_wraps_to_first() {
    let input = "<<<<<<< HEAD\none\n=======\nuno\n>>>>>>> other\n<<<<<<< HEAD\ntwo\n=======\ndos\n>>>>>>> other\n<<<<<<< HEAD\nthree\n=======\ntres\n>>>>>>> other\n";
    let mut segments = parse_conflict_markers(input);
    mark_block_resolved(&mut segments, 1);

    assert_eq!(next_unresolved_conflict_index(&segments, 2), Some(0));
    assert_eq!(next_unresolved_conflict_index(&segments, 0), Some(2));
}

#[test]
fn prev_unresolved_wraps_to_last() {
    let input = "<<<<<<< HEAD\none\n=======\nuno\n>>>>>>> other\n<<<<<<< HEAD\ntwo\n=======\ndos\n>>>>>>> other\n<<<<<<< HEAD\nthree\n=======\ntres\n>>>>>>> other\n";
    let mut segments = parse_conflict_markers(input);
    mark_block_resolved(&mut segments, 1);

    assert_eq!(prev_unresolved_conflict_index(&segments, 0), Some(2));
    assert_eq!(prev_unresolved_conflict_index(&segments, 2), Some(0));
}

#[test]
fn unresolved_navigation_returns_none_when_fully_resolved() {
    let input = "<<<<<<< HEAD\none\n=======\nuno\n>>>>>>> other\n<<<<<<< HEAD\ntwo\n=======\ndos\n>>>>>>> other\n";
    let mut segments = parse_conflict_markers(input);
    mark_block_resolved(&mut segments, 0);
    mark_block_resolved(&mut segments, 1);

    assert_eq!(next_unresolved_conflict_index(&segments, 0), None);
    assert_eq!(prev_unresolved_conflict_index(&segments, 0), None);
}

#[test]
fn unresolved_navigation_can_jump_from_resolved_active_conflict() {
    let input = "<<<<<<< HEAD\none\n=======\nuno\n>>>>>>> other\n<<<<<<< HEAD\ntwo\n=======\ndos\n>>>>>>> other\n";
    let mut segments = parse_conflict_markers(input);
    mark_block_resolved(&mut segments, 0);

    assert_eq!(next_unresolved_conflict_index(&segments, 0), Some(1));
    assert_eq!(prev_unresolved_conflict_index(&segments, 0), Some(1));
}

#[test]
fn bulk_pick_updates_only_unresolved_blocks() {
    let input = "<<<<<<< HEAD\none\n=======\nuno\n>>>>>>> other\n<<<<<<< HEAD\ntwo\n=======\ndos\n>>>>>>> other\n";
    let mut segments = parse_conflict_markers(input);

    if let Some(ConflictSegment::Block(block)) = segments
        .iter_mut()
        .find(|s| matches!(s, ConflictSegment::Block(_)))
    {
        block.choice = ConflictChoice::Theirs;
        block.resolved = true;
    }

    let updated = apply_choice_to_unresolved_segments(&mut segments, ConflictChoice::Ours);
    assert_eq!(updated, 1);
    assert_eq!(resolved_conflict_count(&segments), 2);

    let mut blocks = segments.iter().filter_map(|s| match s {
        ConflictSegment::Block(block) => Some(block),
        ConflictSegment::Text(_) => None,
    });
    let first = blocks.next().expect("missing first block");
    let second = blocks.next().expect("missing second block");
    assert_eq!(first.choice, ConflictChoice::Theirs);
    assert!(first.resolved);
    assert_eq!(second.choice, ConflictChoice::Ours);
    assert!(second.resolved);
}

#[test]
fn bulk_pick_both_concatenates_for_unresolved_blocks() {
    let input = "<<<<<<< HEAD\none\n=======\nuno\n>>>>>>> other\n<<<<<<< HEAD\ntwo\n=======\ndos\n>>>>>>> other\n";
    let mut segments = parse_conflict_markers(input);
    let updated = apply_choice_to_unresolved_segments(&mut segments, ConflictChoice::Both);
    assert_eq!(updated, 2);
    assert_eq!(resolved_conflict_count(&segments), 2);
    let resolved = generate_resolved_text(&segments);
    assert_eq!(resolved, "one\nuno\ntwo\ndos\n");
}

#[test]
fn bulk_pick_base_skips_unresolved_blocks_without_base() {
    let input = "<<<<<<< HEAD\none\n=======\nuno\n>>>>>>> other\n<<<<<<< HEAD\ntwo\n||||||| base\ntwo\n=======\ndos\n>>>>>>> other\n";
    let mut segments = parse_conflict_markers(input);
    let updated = apply_choice_to_unresolved_segments(&mut segments, ConflictChoice::Base);
    assert_eq!(updated, 1);
    assert_eq!(resolved_conflict_count(&segments), 1);

    let mut blocks = segments.iter().filter_map(|s| match s {
        ConflictSegment::Block(block) => Some(block),
        ConflictSegment::Text(_) => None,
    });
    let first = blocks.next().expect("missing first block");
    let second = blocks.next().expect("missing second block");

    assert_eq!(first.choice, ConflictChoice::Ours);
    assert!(!first.resolved);
    assert_eq!(second.choice, ConflictChoice::Base);
    assert!(second.resolved);
}

#[test]
fn auto_resolve_identical_sides() {
    let input = "a\n<<<<<<< HEAD\nsame\n||||||| base\norig\n=======\nsame\n>>>>>>> other\nb\n";
    let mut segments = parse_conflict_markers(input);
    assert_eq!(auto_resolve_segments(&mut segments), 1);
    assert_eq!(resolved_conflict_count(&segments), 1);

    let block = segments
        .iter()
        .find_map(|s| match s {
            ConflictSegment::Block(b) => Some(b),
            _ => None,
        })
        .unwrap();
    assert_eq!(block.choice, ConflictChoice::Ours);
    assert!(block.resolved);
}

#[test]
fn auto_resolve_only_theirs_changed() {
    let input =
        "a\n<<<<<<< HEAD\norig\n||||||| base\norig\n=======\nchanged\n>>>>>>> other\nb\n";
    let mut segments = parse_conflict_markers(input);
    assert_eq!(auto_resolve_segments(&mut segments), 1);

    let block = segments
        .iter()
        .find_map(|s| match s {
            ConflictSegment::Block(b) => Some(b),
            _ => None,
        })
        .unwrap();
    assert_eq!(block.choice, ConflictChoice::Theirs);
    assert!(block.resolved);
}

#[test]
fn auto_resolve_only_ours_changed() {
    let input =
        "a\n<<<<<<< HEAD\nchanged\n||||||| base\norig\n=======\norig\n>>>>>>> other\nb\n";
    let mut segments = parse_conflict_markers(input);
    assert_eq!(auto_resolve_segments(&mut segments), 1);

    let block = segments
        .iter()
        .find_map(|s| match s {
            ConflictSegment::Block(b) => Some(b),
            _ => None,
        })
        .unwrap();
    assert_eq!(block.choice, ConflictChoice::Ours);
    assert!(block.resolved);
}

#[test]
fn auto_resolve_both_changed_differently_not_resolved() {
    let input =
        "a\n<<<<<<< HEAD\nours\n||||||| base\norig\n=======\ntheirs\n>>>>>>> other\nb\n";
    let mut segments = parse_conflict_markers(input);
    assert_eq!(auto_resolve_segments(&mut segments), 0);
    assert_eq!(resolved_conflict_count(&segments), 0);
}

#[test]
fn auto_resolve_no_base_identical_sides() {
    // 2-way markers (no base section) — identical sides should still resolve.
    let input = "a\n<<<<<<< HEAD\nsame\n=======\nsame\n>>>>>>> other\nb\n";
    let mut segments = parse_conflict_markers(input);
    assert_eq!(auto_resolve_segments(&mut segments), 1);
    assert_eq!(resolved_conflict_count(&segments), 1);
}

#[test]
fn auto_resolve_no_base_different_sides_not_resolved() {
    let input = "a\n<<<<<<< HEAD\nours\n=======\ntheirs\n>>>>>>> other\nb\n";
    let mut segments = parse_conflict_markers(input);
    assert_eq!(auto_resolve_segments(&mut segments), 0);
}

#[test]
fn auto_resolve_skips_already_resolved() {
    let input = "a\n<<<<<<< HEAD\nsame\n||||||| base\norig\n=======\nsame\n>>>>>>> other\nb\n";
    let mut segments = parse_conflict_markers(input);

    // Manually resolve first.
    if let Some(ConflictSegment::Block(block)) = segments
        .iter_mut()
        .find(|s| matches!(s, ConflictSegment::Block(_)))
    {
        block.choice = ConflictChoice::Theirs;
        block.resolved = true;
    }

    // Auto-resolve should skip it.
    assert_eq!(auto_resolve_segments(&mut segments), 0);
    // Choice should remain Theirs (not overwritten).
    let block = segments
        .iter()
        .find_map(|s| match s {
            ConflictSegment::Block(b) => Some(b),
            _ => None,
        })
        .unwrap();
    assert_eq!(block.choice, ConflictChoice::Theirs);
}

#[test]
fn auto_resolve_multiple_blocks_mixed() {
    let input = "<<<<<<< HEAD\nsame\n||||||| base\norig\n=======\nsame\n>>>>>>> other\n<<<<<<< HEAD\nours\n||||||| base\norig\n=======\ntheirs\n>>>>>>> other\n<<<<<<< HEAD\norig\n||||||| base\norig\n=======\nchanged\n>>>>>>> other\n";
    let mut segments = parse_conflict_markers(input);
    assert_eq!(conflict_count(&segments), 3);

    let resolved = auto_resolve_segments(&mut segments);
    assert_eq!(resolved, 2); // blocks 0 (identical) and 2 (only theirs changed)
    assert_eq!(resolved_conflict_count(&segments), 2);
}

#[test]
fn auto_resolve_generates_correct_text() {
    let input =
        "a\n<<<<<<< HEAD\norig\n||||||| base\norig\n=======\nchanged\n>>>>>>> other\nb\n";
    let mut segments = parse_conflict_markers(input);
    auto_resolve_segments(&mut segments);
    let text = generate_resolved_text(&segments);
    assert_eq!(text, "a\nchanged\nb\n");
}

#[test]
fn two_way_visible_indices_hide_only_resolved_conflict_rows() {
    let segments = vec![
        ConflictSegment::Text("a\n".into()),
        ConflictSegment::Block(ConflictBlock {
            base: None,
            ours: "b\n".into(),
            theirs: "B\n".into(),
            choice: ConflictChoice::Ours,
            resolved: true,
        }),
        ConflictSegment::Text("mid\n".into()),
        ConflictSegment::Block(ConflictBlock {
            base: None,
            ours: "c\n".into(),
            theirs: "C\n".into(),
            choice: ConflictChoice::Ours,
            resolved: false,
        }),
    ];
    let row_conflict_map = vec![None, Some(0), Some(0), None, Some(1), Some(1)];

    assert_eq!(
        build_two_way_visible_indices(&row_conflict_map, &segments, false),
        vec![0, 1, 2, 3, 4, 5]
    );
    assert_eq!(
        build_two_way_visible_indices(&row_conflict_map, &segments, true),
        vec![0, 3, 4, 5]
    );
}

#[test]
fn visible_map_identity_when_not_hiding() {
    // 3 lines of text, 1 conflict with 2 lines = 5 total lines
    // conflict range: 1..3
    let segments = vec![
        ConflictSegment::Text("a\n".into()),
        ConflictSegment::Block(ConflictBlock {
            base: None,
            ours: "b\nc\n".into(),
            theirs: "x\ny\n".into(),
            choice: ConflictChoice::Ours,
            resolved: false,
        }),
        ConflictSegment::Text("d\ne\n".into()),
    ];
    let ranges = [1..3];
    let map = build_three_way_visible_map(5, &ranges, &segments, false);
    assert_eq!(map.len(), 5);
    for (i, item) in map.iter().enumerate() {
        assert_eq!(*item, ThreeWayVisibleItem::Line(i));
    }
}

#[test]
fn visible_map_collapses_resolved_block() {
    let segments = vec![
        ConflictSegment::Text("a\n".into()),
        ConflictSegment::Block(ConflictBlock {
            base: None,
            ours: "b\nc\n".into(),
            theirs: "x\ny\n".into(),
            choice: ConflictChoice::Ours,
            resolved: true, // resolved
        }),
        ConflictSegment::Text("d\ne\n".into()),
    ];
    let ranges = [1..3];
    let map = build_three_way_visible_map(5, &ranges, &segments, true);
    // Should be: Line(0), CollapsedBlock(0), Line(3), Line(4)
    assert_eq!(map.len(), 4);
    assert_eq!(map[0], ThreeWayVisibleItem::Line(0));
    assert_eq!(map[1], ThreeWayVisibleItem::CollapsedBlock(0));
    assert_eq!(map[2], ThreeWayVisibleItem::Line(3));
    assert_eq!(map[3], ThreeWayVisibleItem::Line(4));
}

#[test]
fn visible_map_keeps_unresolved_blocks_expanded() {
    let segments = vec![
        ConflictSegment::Block(ConflictBlock {
            base: None,
            ours: "a\nb\n".into(),
            theirs: "x\ny\n".into(),
            choice: ConflictChoice::Ours,
            resolved: false, // unresolved — keep expanded
        }),
        ConflictSegment::Text("c\n".into()),
        ConflictSegment::Block(ConflictBlock {
            base: None,
            ours: "d\n".into(),
            theirs: "z\n".into(),
            choice: ConflictChoice::Theirs,
            resolved: true, // resolved — collapse
        }),
    ];
    let ranges = vec![0..2, 3..4];
    let map = build_three_way_visible_map(4, &ranges, &segments, true);
    // Unresolved block: Line(0), Line(1)
    // Text: Line(2)
    // Resolved block: CollapsedBlock(1)
    assert_eq!(map.len(), 4);
    assert_eq!(map[0], ThreeWayVisibleItem::Line(0));
    assert_eq!(map[1], ThreeWayVisibleItem::Line(1));
    assert_eq!(map[2], ThreeWayVisibleItem::Line(2));
    assert_eq!(map[3], ThreeWayVisibleItem::CollapsedBlock(1));
}

#[test]
fn visible_index_for_conflict_finds_collapsed() {
    let segments = vec![
        ConflictSegment::Text("a\n".into()),
        ConflictSegment::Block(ConflictBlock {
            base: None,
            ours: "b\nc\n".into(),
            theirs: "x\ny\n".into(),
            choice: ConflictChoice::Ours,
            resolved: true,
        }),
        ConflictSegment::Text("d\n".into()),
    ];
    let ranges = [1..3];
    let map = build_three_way_visible_map(4, &ranges, &segments, true);
    // map: Line(0), CollapsedBlock(0), Line(3)
    let vi = visible_index_for_conflict(&map, &ranges, 0);
    assert_eq!(vi, Some(1)); // CollapsedBlock is at visible index 1
}

#[test]
fn visible_index_for_conflict_finds_expanded() {
    let segments = vec![
        ConflictSegment::Text("a\n".into()),
        ConflictSegment::Block(ConflictBlock {
            base: None,
            ours: "b\nc\n".into(),
            theirs: "x\ny\n".into(),
            choice: ConflictChoice::Ours,
            resolved: false,
        }),
    ];
    let ranges = [1..3];
    let map = build_three_way_visible_map(3, &ranges, &segments, false);
    // map: Line(0), Line(1), Line(2)
    let vi = visible_index_for_conflict(&map, &ranges, 0);
    assert_eq!(vi, Some(1)); // First line of conflict at visible index 1
}

#[test]
fn bulk_pick_then_three_way_visible_map_collapses_all_resolved() {
    // Scenario: 3 conflicts with context. Resolve block 0 manually, then bulk-pick
    // remaining. The three-way visible map should collapse all 3 blocks.
    let input = "ctx\n<<<<<<< HEAD\nA\n=======\na\n>>>>>>> o\nmid\n<<<<<<< HEAD\nB\n=======\nb\n>>>>>>> o\nmid2\n<<<<<<< HEAD\nC\n=======\nc\n>>>>>>> o\nend\n";
    let mut segments = parse_conflict_markers(input);
    assert_eq!(conflict_count(&segments), 3);

    // Manually resolve block 0
    mark_block_resolved(&mut segments, 0);

    // Bulk-pick remaining → blocks 1 and 2 become resolved
    let updated = apply_choice_to_unresolved_segments(&mut segments, ConflictChoice::Ours);
    assert_eq!(updated, 2);
    assert_eq!(resolved_conflict_count(&segments), 3);

    // Now rebuild the three-way visible map with hide_resolved=true.
    // Each conflict block is 2 lines (ours side), ranges are:
    //   block 0: 1..3, block 1: 4..6, block 2: 7..9
    // Total lines in the three-way view: 10
    let conflict_ranges = [1..3, 4..6, 7..9];
    let map = build_three_way_visible_map(10, &conflict_ranges, &segments, true);

    // Expect: Line(0), Collapsed(0), Line(3), Collapsed(1), Line(6), Collapsed(2), Line(9)
    assert_eq!(map.len(), 7);
    assert_eq!(map[0], ThreeWayVisibleItem::Line(0));
    assert_eq!(map[1], ThreeWayVisibleItem::CollapsedBlock(0));
    assert_eq!(map[2], ThreeWayVisibleItem::Line(3));
    assert_eq!(map[3], ThreeWayVisibleItem::CollapsedBlock(1));
    assert_eq!(map[4], ThreeWayVisibleItem::Line(6));
    assert_eq!(map[5], ThreeWayVisibleItem::CollapsedBlock(2));
    assert_eq!(map[6], ThreeWayVisibleItem::Line(9));
}

#[test]
fn bulk_pick_then_two_way_visible_indices_hides_all_resolved() {
    // Two-way variant: after bulk pick, all conflict rows should be hidden.
    let mut segments = vec![
        ConflictSegment::Text("ctx\n".into()),
        ConflictSegment::Block(ConflictBlock {
            base: None,
            ours: "A\n".into(),
            theirs: "a\n".into(),
            choice: ConflictChoice::Ours,
            resolved: false,
        }),
        ConflictSegment::Text("mid\n".into()),
        ConflictSegment::Block(ConflictBlock {
            base: None,
            ours: "B\n".into(),
            theirs: "b\n".into(),
            choice: ConflictChoice::Ours,
            resolved: false,
        }),
        ConflictSegment::Text("end\n".into()),
    ];
    // row indices: 0=ctx, 1,2=block0(ours+theirs), 3=mid, 4,5=block1, 6=end
    let row_conflict_map: Vec<Option<usize>> =
        vec![None, Some(0), Some(0), None, Some(1), Some(1), None];

    // Before bulk pick: all rows visible
    assert_eq!(
        build_two_way_visible_indices(&row_conflict_map, &segments, true).len(),
        7
    );

    // Bulk pick resolves both blocks
    let updated = apply_choice_to_unresolved_segments(&mut segments, ConflictChoice::Theirs);
    assert_eq!(updated, 2);

    // After bulk pick with hide_resolved=true: conflict rows hidden
    let visible = build_two_way_visible_indices(&row_conflict_map, &segments, true);
    assert_eq!(visible, vec![0, 3, 6]); // only context rows
}

#[test]
fn autosolve_then_three_way_visible_map_collapses_autoresolved() {
    // Auto-resolve should cause the same collapse behavior as manual picks
    // when hide_resolved is active.
    let input = "ctx\n<<<<<<< HEAD\nsame\n||||||| base\norig\n=======\nsame\n>>>>>>> o\nmid\n<<<<<<< HEAD\nX\n||||||| base\norig2\n=======\nY\n>>>>>>> o\nend\n";
    let mut segments = parse_conflict_markers(input);
    assert_eq!(conflict_count(&segments), 2);

    // Block 0: ours==theirs → autosolve resolves it
    // Block 1: both changed differently → stays unresolved
    let resolved = auto_resolve_segments(&mut segments);
    assert_eq!(resolved, 1);
    assert_eq!(resolved_conflict_count(&segments), 1);

    // Three-way: ctx(0), block0(1), mid(2), block1(3), end(4) → total 5
    let conflict_ranges = [1..2, 3..4];
    let map = build_three_way_visible_map(5, &conflict_ranges, &segments, true);
    assert_eq!(map[0], ThreeWayVisibleItem::Line(0));
    assert_eq!(map[1], ThreeWayVisibleItem::CollapsedBlock(0)); // autoresolved
    assert_eq!(map[2], ThreeWayVisibleItem::Line(2)); // mid
    assert_eq!(map[3], ThreeWayVisibleItem::Line(3)); // unresolved block stays expanded
    assert_eq!(map[4], ThreeWayVisibleItem::Line(4)); // end
}

#[test]
fn navigation_updates_correctly_after_sequential_picks() {
    // Start with 3 unresolved blocks, resolve them one-by-one,
    // verify navigation at each step.
    let input = "<<<<<<< HEAD\nA\n=======\na\n>>>>>>> o\n<<<<<<< HEAD\nB\n=======\nb\n>>>>>>> o\n<<<<<<< HEAD\nC\n=======\nc\n>>>>>>> o\n";
    let mut segments = parse_conflict_markers(input);
    assert_eq!(conflict_count(&segments), 3);

    // All unresolved: next from 0 → 1, prev from 0 → 2 (wrap)
    assert_eq!(next_unresolved_conflict_index(&segments, 0), Some(1));
    assert_eq!(prev_unresolved_conflict_index(&segments, 0), Some(2));

    // Resolve block 1 (middle)
    mark_block_resolved(&mut segments, 1);
    assert_eq!(resolved_conflict_count(&segments), 1);
    // Next from 0 should skip block 1, go to 2
    assert_eq!(next_unresolved_conflict_index(&segments, 0), Some(2));
    // Prev from 2 should skip block 1, go to 0
    assert_eq!(prev_unresolved_conflict_index(&segments, 2), Some(0));

    // Resolve block 0 (first)
    mark_block_resolved(&mut segments, 0);
    assert_eq!(resolved_conflict_count(&segments), 2);
    // Only block 2 is unresolved
    assert_eq!(next_unresolved_conflict_index(&segments, 0), Some(2));
    assert_eq!(next_unresolved_conflict_index(&segments, 1), Some(2));
    assert_eq!(next_unresolved_conflict_index(&segments, 2), Some(2));
    assert_eq!(prev_unresolved_conflict_index(&segments, 0), Some(2));

    // Resolve last block
    mark_block_resolved(&mut segments, 2);
    assert_eq!(resolved_conflict_count(&segments), 3);
    assert_eq!(next_unresolved_conflict_index(&segments, 0), None);
    assert_eq!(prev_unresolved_conflict_index(&segments, 0), None);
}

#[test]
fn resolved_counter_consistent_with_visible_map_after_incremental_picks() {
    // Ensure the resolved count and visible map stay in sync as
    // conflicts are resolved one by one. Uses multi-line conflicts so
    // collapsing them visibly reduces the visible row count.
    let mut segments = vec![
        ConflictSegment::Text("pre\n".into()),
        ConflictSegment::Block(ConflictBlock {
            base: Some("orig1\norig1b\n".into()),
            ours: "A\nA2\n".into(),
            theirs: "a\na2\n".into(),
            choice: ConflictChoice::Ours,
            resolved: false,
        }),
        ConflictSegment::Text("mid\n".into()),
        ConflictSegment::Block(ConflictBlock {
            base: Some("orig2\norig2b\norig2c\n".into()),
            ours: "B\nB2\nB3\n".into(),
            theirs: "b\nb2\nb3\n".into(),
            choice: ConflictChoice::Ours,
            resolved: false,
        }),
        ConflictSegment::Text("post\n".into()),
    ];
    // Layout: pre(0), block0(1..3), mid(3), block1(4..7), post(7) → total 8
    let conflict_ranges = [1..3, 4..7];
    let total_lines = 8;

    // Step 0: nothing resolved — all lines visible
    assert_eq!(resolved_conflict_count(&segments), 0);
    let map = build_three_way_visible_map(total_lines, &conflict_ranges, &segments, true);
    assert_eq!(map.len(), 8);
    assert!(
        map.iter()
            .all(|item| matches!(item, ThreeWayVisibleItem::Line(_)))
    );

    // Step 1: resolve block 0 (2 lines → 1 collapsed row)
    mark_block_resolved(&mut segments, 0);
    assert_eq!(resolved_conflict_count(&segments), 1);
    let map = build_three_way_visible_map(total_lines, &conflict_ranges, &segments, true);
    // pre(0), [collapsed0], mid(3), block1-lines(4,5,6), post(7) = 7 items
    assert_eq!(map.len(), 7);
    assert_eq!(map[0], ThreeWayVisibleItem::Line(0));
    assert_eq!(map[1], ThreeWayVisibleItem::CollapsedBlock(0));
    assert_eq!(map[2], ThreeWayVisibleItem::Line(3));

    // Step 2: resolve block 1 (3 lines → 1 collapsed row)
    mark_block_resolved(&mut segments, 1);
    assert_eq!(resolved_conflict_count(&segments), 2);
    let map = build_three_way_visible_map(total_lines, &conflict_ranges, &segments, true);
    // pre(0), [collapsed0], mid(3), [collapsed1], post(7) = 5 items
    assert_eq!(map.len(), 5);
    assert_eq!(map[1], ThreeWayVisibleItem::CollapsedBlock(0));
    assert_eq!(map[3], ThreeWayVisibleItem::CollapsedBlock(1));
}

