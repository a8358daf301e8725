use gitgpui_view::conflict::{
    conflict_count, generate_resolved_text, parse_conflict_markers, ConflictChoice,
    ConflictPickSide, ConflictSegment,
};
use gitgpui_view::conflict_passes::{
    apply_history_merges, apply_regex_autosolve_picks, apply_subchunk_splits, Subchunk,
};

#[test]
fn subchunk_split_merges_agreed_text_into_preceding_text() {
    let input = "ctx\n<<<<<<< HEAD\nAAA\nbbb\nccc\n||||||| base\naaa\nbbb\nccc\n=======\naaa\nbbb\nCCC\n>>>>>>> other\nend\n";
    let mut segments = parse_conflict_markers(input);
    let splits = vec![Some(vec![Subchunk::Resolved("AAA\nbbb\nCCC\n".to_string())])];
    assert_eq!(apply_subchunk_splits(&mut segments, &splits), 1);
    assert_eq!(conflict_count(&segments), 0);
    assert_eq!(segments.len(), 2);
    assert_eq!(generate_resolved_text(&segments), "ctx\nAAA\nbbb\nCCC\nend\n");
}

#[test]
fn history_merge_replaces_block_with_text() {
    let input = "# README\n<<<<<<< HEAD\n- a\n=======\n- b\n>>>>>>> other\n# Footer\n";
    let mut segments = parse_conflict_markers(input);
    let merged = vec![Some("- a\n- b\n".to_string())];
    assert_eq!(apply_history_merges(&mut segments, &merged), 1);
    assert_eq!(conflict_count(&segments), 0);
    assert_eq!(generate_resolved_text(&segments), "# README\n- a\n- b\n# Footer\n");

    let mut untouched = parse_conflict_markers(input);
    assert_eq!(apply_history_merges(&mut untouched, &[None]), 0);
    assert_eq!(conflict_count(&untouched), 1);
}

#[test]
fn regex_picks_resolve_only_unresolved_blocks() {
    let input = "<<<<<<< HEAD\na\n=======\nb\n>>>>>>> o\n<<<<<<< HEAD\nc\n=======\nd\n>>>>>>> o\n";
    let mut segments = parse_conflict_markers(input);
    let picks = vec![Some(ConflictPickSide::Theirs), None];
    assert_eq!(apply_regex_autosolve_picks(&mut segments, &picks), 1);
    match &segments[0] {
        ConflictSegment::Block(b) => {
            assert_eq!(b.choice, ConflictChoice::Theirs);
            assert!(b.resolved);
        }
        _ => panic!("expected a block"),
    }
    // A second run leaves the resolved block alone.
    let again = vec![Some(ConflictPickSide::Ours), None];
    assert_eq!(apply_regex_autosolve_picks(&mut segments, &again), 0);
    assert_eq!(generate_resolved_text(&segments), "b\nc\n");
}

fn first_block(segments: &[ConflictSegment]) -> &gitgpui_view::conflict::ConflictBlock {
    segments
        .iter()
        .find_map(|s| match s {
            ConflictSegment::Block(b) => Some(b),
            _ => None,
        })
        .unwrap()
}

// The regex-assisted picks below are those the whitespace-insensitive options give for
// these blocks: equal sides keep ours; a side equal to the normalized base takes the other.

#[test]
fn auto_resolve_regex_equivalent_sides() {
    let input = "a\n<<<<<<< HEAD\nlet  answer = 42;\n||||||| base\nlet answer = 42;\n=======\nlet answer\t=\t42;\n>>>>>>> other\nb\n";
    let mut segments = parse_conflict_markers(input);
    assert_eq!(apply_regex_autosolve_picks(&mut segments, &[Some(ConflictPickSide::Ours)]), 1);
    let block = first_block(&segments);
    assert_eq!(block.choice, ConflictChoice::Ours);
    assert!(block.resolved);
}

#[test]
fn auto_resolve_regex_only_theirs_changed_from_normalized_base() {
    let input = "a\n<<<<<<< HEAD\nlet answer=42;\n||||||| base\nlet answer = 42;\n=======\nlet answer = 43;\n>>>>>>> other\nb\n";
    let mut segments = parse_conflict_markers(input);
    assert_eq!(apply_regex_autosolve_picks(&mut segments, &[Some(ConflictPickSide::Theirs)]), 1);
    let block = first_block(&segments);
    assert_eq!(block.choice, ConflictChoice::Theirs);
    assert!(block.resolved);
}

#[test]
fn auto_resolve_regex_invalid_pattern_noops() {
    // An invalid pattern gives no pick.
    let input = "a\n<<<<<<< HEAD\nlet answer=42;\n||||||| base\nlet answer = 42;\n=======\nlet answer = 43;\n>>>>>>> other\nb\n";
    let mut segments = parse_conflict_markers(input);
    assert_eq!(apply_regex_autosolve_picks(&mut segments, &[None]), 0);
    assert_eq!(gitgpui_view::conflict::resolved_conflict_count(&segments), 0);
}

// The splits below are those the line-level splitter gives for these blocks.

#[test]
fn pass2_splits_block_with_nonoverlapping_changes() {
    let input = "ctx\n<<<<<<< HEAD\nAAA\nbbb\nccc\n||||||| base\naaa\nbbb\nccc\n=======\naaa\nbbb\nCCC\n>>>>>>> other\nend\n";
    let mut segments = parse_conflict_markers(input);
    assert_eq!(conflict_count(&segments), 1);
    assert_eq!(gitgpui_view::conflict::auto_resolve_segments(&mut segments), 0);
    let splits = vec![Some(vec![
        Subchunk::Resolved("AAA\n".to_string()),
        Subchunk::Resolved("bbb\n".to_string()),
        Subchunk::Resolved("CCC\n".to_string()),
    ])];
    assert_eq!(apply_subchunk_splits(&mut segments, &splits), 1);
    assert_eq!(conflict_count(&segments), 0);
    assert_eq!(generate_resolved_text(&segments), "ctx\nAAA\nbbb\nCCC\nend\n");
}

#[test]
fn pass2_splits_block_with_partial_conflict() {
    let input = "<<<<<<< HEAD\nAAA\nBBB\nccc\n||||||| base\naaa\nbbb\nccc\n=======\naaa\nYYY\nCCC\n>>>>>>> other\n";
    let mut segments = parse_conflict_markers(input);
    assert_eq!(conflict_count(&segments), 1);
    let splits = vec![Some(vec![
        Subchunk::Resolved("AAA\n".to_string()),
        Subchunk::Conflict { base: "bbb\n".to_string(), ours: "BBB\n".to_string(), theirs: "YYY\n".to_string() },
        Subchunk::Resolved("CCC\n".to_string()),
    ])];
    assert_eq!(apply_subchunk_splits(&mut segments, &splits), 1);
    let blocks: Vec<_> = segments
        .iter()
        .filter_map(|s| match s {
            ConflictSegment::Block(b) => Some(b),
            _ => None,
        })
        .collect();
    assert_eq!(blocks.len(), 1, "should have 1 remaining conflict");
    assert_eq!(blocks[0].ours, "BBB\n");
    assert_eq!(blocks[0].theirs, "YYY\n");
    assert_eq!(blocks[0].base.as_deref(), Some("bbb\n"));
}

#[test]
fn pass2_no_base_skips_block() {
    let input = "<<<<<<< HEAD\nours\n=======\ntheirs\n>>>>>>> other\n";
    let mut segments = parse_conflict_markers(input);
    // Without a base no split is sought; one given anyway is not applied.
    let split = apply_subchunk_splits(&mut segments, &[Some(vec![Subchunk::Resolved("x\n".to_string())])]);
    assert_eq!(split, 0);
    assert_eq!(conflict_count(&segments), 1);
}

#[test]
fn pass2_skips_already_resolved() {
    let input = "<<<<<<< HEAD\nAAA\nbbb\nccc\n||||||| base\naaa\nbbb\nccc\n=======\naaa\nbbb\nCCC\n>>>>>>> other\n";
    let mut segments = parse_conflict_markers(input);
    if let Some(ConflictSegment::Block(block)) =
        segments.iter_mut().find(|s| matches!(s, ConflictSegment::Block(_)))
    {
        block.resolved = true;
    }
    let split = apply_subchunk_splits(&mut segments, &[Some(vec![Subchunk::Resolved("AAA\nbbb\nCCC\n".to_string())])]);
    assert_eq!(split, 0);
}

#[test]
fn pass2_merges_adjacent_text_segments() {
    let input = "before\n<<<<<<< HEAD\nAAA\nbbb\n||||||| base\naaa\nbbb\n=======\naaa\nBBB\n>>>>>>> other\nafter\n";
    let mut segments = parse_conflict_markers(input);
    let splits = vec![Some(vec![
        Subchunk::Resolved("AAA\n".to_string()),
        Subchunk::Resolved("BBB\n".to_string()),
    ])];
    apply_subchunk_splits(&mut segments, &splits);
    assert_eq!(conflict_count(&segments), 0);
    let text_count = segments.iter().filter(|s| matches!(s, ConflictSegment::Text(_))).count();
    assert!(text_count <= 3, "should have at most 3 text segments");
}

// The merged texts below are those the history-aware merge with bullet-list options gives.

#[test]
fn history_auto_resolve_merges_changelog_block() {
    let input = "# README\n<<<<<<< HEAD\n# Changes\n- Added feature A\n- Existing entry\n||||||| base\n# Changes\n- Existing entry\n=======\n# Changes\n- Fixed bug B\n- Existing entry\n>>>>>>> other\n# Footer\n";
    let mut segments = parse_conflict_markers(input);
    assert_eq!(conflict_count(&segments), 1);
    let merged = vec![Some("# Changes\n- Added feature A\n- Fixed bug B\n- Existing entry\n".to_string())];
    assert_eq!(apply_history_merges(&mut segments, &merged), 1);
    assert_eq!(conflict_count(&segments), 0);
    let text = generate_resolved_text(&segments);
    assert!(text.contains("- Added feature A"), "ours' new entry");
    assert!(text.contains("- Fixed bug B"), "theirs' new entry");
    assert!(text.contains("- Existing entry"), "common entry");
    assert_eq!(text.matches("- Existing entry").count(), 1, "deduped common entry");
}

#[test]
fn history_auto_resolve_skips_non_changelog_blocks() {
    let input = "<<<<<<< HEAD\nlet x = 1;\n=======\nlet x = 2;\n>>>>>>> other\n";
    let mut segments = parse_conflict_markers(input);
    assert_eq!(apply_history_merges(&mut segments, &[None]), 0);
    assert_eq!(conflict_count(&segments), 1);
}

#[test]
fn history_auto_resolve_skips_already_resolved() {
    let input = "<<<<<<< HEAD\n# Changes\n- New\n=======\n# Changes\n- Other\n>>>>>>> other\n";
    let mut segments = parse_conflict_markers(input);
    if let Some(ConflictSegment::Block(block)) =
        segments.iter_mut().find(|s| matches!(s, ConflictSegment::Block(_)))
    {
        block.resolved = true;
    }
    let merged = vec![Some("# Changes\n- New\n- Other\n".to_string())];
    assert_eq!(apply_history_merges(&mut segments, &merged), 0);
}

#[test]
fn history_merges_drop_exactly_the_merged_blocks() {
    let input = "<<<<<<< HEAD\na\n=======\nb\n>>>>>>> o\nmid\n<<<<<<< HEAD\nc\n=======\nd\n>>>>>>> o\n";
    let mut segments = parse_conflict_markers(input);
    let before = conflict_count(&segments);
    let count = apply_history_merges(&mut segments, &[None, Some("cd\n".to_string())]);
    assert_eq!(count, 1);
    assert_eq!(conflict_count(&segments), before - count);
    assert_eq!(generate_resolved_text(&segments), "a\nmid\ncd\n");
}
