use gitgpui_view::word_diff::{
    coalesce_ranges, fallback_affix_diff_ranges, merge_ranges, tokenize_for_word_diff,
    word_diff_ranges, TokenKind,
};

fn slices<'a>(s: &'a str, ranges: &[std::ops::Range<usize>]) -> Vec<&'a str> {
    ranges.iter().map(|r| &s[r.clone()]).collect::<Vec<_>>()
}

#[test]
fn word_diff_ranges_highlights_changed_tokens() {
    let (old, new) = ("let x = 1;", "let x = 2;");
    let (old_ranges, new_ranges) = word_diff_ranges(old, new);
    assert_eq!(
        old_ranges
            .iter()
            .map(|r| &old[r.clone()])
            .collect::<Vec<_>>(),
        vec!["1"]
    );
    assert_eq!(
        new_ranges
            .iter()
            .map(|r| &new[r.clone()])
            .collect::<Vec<_>>(),
        vec!["2"]
    );
}

#[test]
fn word_diff_ranges_handles_unicode_safely() {
    let (old, new) = ("aé", "aê");
    let (old_ranges, new_ranges) = word_diff_ranges(old, new);
    assert_eq!(
        old_ranges
            .iter()
            .map(|r| &old[r.clone()])
            .collect::<Vec<_>>(),
        vec!["aé"]
    );
    assert_eq!(
        new_ranges
            .iter()
            .map(|r| &new[r.clone()])
            .collect::<Vec<_>>(),
        vec!["aê"]
    );
}

#[test]
fn word_diff_ranges_falls_back_for_large_inputs() {
    let old = "a".repeat(2048);
    let new = format!("{old}x");
    let (old_ranges, new_ranges) = word_diff_ranges(&old, &new);
    assert!(old_ranges.len() <= 1);
    assert!(new_ranges.len() <= 1);
}

#[test]
fn word_diff_ranges_outputs_are_ordered_and_utf8_safe() {
    let (old, new) = ("aé b", "aê  b");
    let (old_ranges, new_ranges) = word_diff_ranges(old, new);

    for r in &old_ranges {
        assert!(r.start <= r.end);
        assert!(r.end <= old.len());
        assert!(old.is_char_boundary(r.start));
        assert!(old.is_char_boundary(r.end));
    }
    for w in old_ranges.windows(2) {
        assert!(w[0].end <= w[1].start);
    }

    for r in &new_ranges {
        assert!(r.start <= r.end);
        assert!(r.end <= new.len());
        assert!(new.is_char_boundary(r.start));
        assert!(new.is_char_boundary(r.end));
    }
    for w in new_ranges.windows(2) {
        assert!(w[0].end <= w[1].start);
    }
}

#[test]
fn word_diff_ranges_empty_inputs_do_not_panic() {
    let (old_ranges, new_ranges) = word_diff_ranges("", "");
    assert!(old_ranges.is_empty());
    assert!(new_ranges.is_empty());
}

#[test]
fn tokenize_splits_words_whitespace_and_punctuation() {
    let toks = tokenize_for_word_diff("foo_1  +=bär");
    let got: Vec<(usize, usize, TokenKind)> =
        toks.iter().map(|t| (t.range.start, t.range.end, t.kind)).collect();
    assert_eq!(
        got,
        vec![
            (0, 5, TokenKind::Other),
            (5, 7, TokenKind::Whitespace),
            (7, 9, TokenKind::Other),
            (9, 13, TokenKind::Other),
        ]
    );
    assert!(tokenize_for_word_diff("").is_empty());
}

#[test]
fn tokenize_treats_unicode_letters_as_word_characters() {
    let toks = tokenize_for_word_diff("héllo wörld");
    assert_eq!(toks.len(), 3);
    assert_eq!(toks[0].range, 0..6);
    assert_eq!(toks[2].range, 7..13);
}

#[test]
fn coalesce_sorts_and_merges_overlapping_and_touching_ranges() {
    assert_eq!(coalesce_ranges(vec![5..7, 0..2, 1..3, 7..9]), vec![0..3, 5..9]);
    assert_eq!(coalesce_ranges(vec![4..6]), vec![4..6]);
    assert_eq!(coalesce_ranges(Vec::new()), Vec::<std::ops::Range<usize>>::new());
    assert_eq!(coalesce_ranges(vec![0..10, 2..3]), vec![0..10]);
}

#[test]
fn merge_ranges_unions_two_lists() {
    assert_eq!(merge_ranges(&[0..2, 6..8], &[1..4, 10..12]), vec![0..4, 6..8, 10..12]);
    assert_eq!(merge_ranges(&[], &[3..1]), vec![3..1]);
    assert_eq!(merge_ranges(&[2..5], &[]), vec![2..5]);
}

#[test]
fn fallback_highlights_between_common_prefix_and_suffix() {
    let (o, n) = fallback_affix_diff_ranges("abcXdef", "abcYYdef");
    assert_eq!(o, vec![3..4]);
    assert_eq!(n, vec![3..5]);
    let (o, n) = fallback_affix_diff_ranges("same", "same");
    assert!(o.is_empty() && n.is_empty());
    let (o, n) = fallback_affix_diff_ranges("ab", "abab");
    assert!(o.is_empty());
    assert_eq!(n, vec![2..4]);
}

#[test]
fn word_diff_ranges_skips_whitespace_only_changes() {
    let (old, new) = ("a  b", "a b");
    let (o, n) = word_diff_ranges(old, new);
    assert!(o.is_empty());
    assert!(n.is_empty());
}

#[test]
fn word_diff_ranges_marks_inserted_and_removed_tokens() {
    let (old, new) = ("foo(a, b)", "foo(a, c, b)");
    let (o, n) = word_diff_ranges(old, new);
    assert!(o.is_empty());
    assert_eq!(slices(new, &n), vec!["c,"]);
    let (o, n) = word_diff_ranges("x + y", "");
    assert_eq!(slices("x + y", &o), vec!["x + y"]);
    assert!(n.is_empty());
}

use gitgpui_view::conflict::ConflictPickSide;
use gitgpui_view::conflict_rows::{
    collect_inline_selection, collect_split_selection, ConflictInlineRow, DiffLineKind,
    FileDiffRow, FileDiffRowKind,
};
use gitgpui_view::word_diff::{compute_three_way_word_highlights, compute_two_way_word_highlights};

#[test]
fn word_diff_ranges_follows_myers_when_alignments_tie() {
    // Each of "a", " " and "b" alone is a longest common subsequence; Myers' diff keeps "b".
    let (o, n) = word_diff_ranges("a b", "b a");
    assert_eq!(o, vec![0..1]);
    assert_eq!(n, vec![2..3]);
}

fn row(kind: FileDiffRowKind, old: Option<&str>, new: Option<&str>) -> FileDiffRow {
    FileDiffRow {
        kind,
        old_line: old.map(|_| 1),
        new_line: new.map(|_| 1),
        old: old.map(|s| s.to_string()),
        new: new.map(|s| s.to_string()),
    }
}

#[test]
fn two_way_highlights_only_modified_rows_with_changes() {
    let rows = vec![
        row(FileDiffRowKind::Context, Some("a b"), Some("a b")),
        row(FileDiffRowKind::Modify, Some("let x = 1;"), Some("let x = 2;")),
        row(FileDiffRowKind::Modify, Some("same  words"), Some("same words")),
        row(FileDiffRowKind::Add, None, Some("new")),
    ];
    let h = compute_two_way_word_highlights(&rows);
    assert_eq!(h.len(), 4);
    assert!(h[0].is_none());
    assert_eq!(h[1], Some((vec![8..9], vec![8..9])));
    assert!(h[2].is_none());
    assert!(h[3].is_none());
}

#[test]
fn three_way_highlights_merge_base_ranges_inside_conflicts() {
    let base = vec!["a b c".to_string(), "keep".to_string()];
    let ours = vec!["a X c".to_string(), "keep".to_string()];
    let theirs = vec!["a b Y".to_string()];
    let (wb, wo, wt) = compute_three_way_word_highlights(&base, &ours, &theirs, &[0..1]);
    assert_eq!(wb.len(), 2);
    assert_eq!(wb[0], Some(vec![2..3, 4..5]));
    assert_eq!(wo[0], Some(vec![2..3]));
    assert_eq!(wt[0], Some(vec![4..5]));
    assert!(wb[1].is_none() && wo[1].is_none() && wt[1].is_none());

    // Past the end of a side the line counts as empty: the whole base line differs from it.
    let (wb, wo, wt) = compute_three_way_word_highlights(&base, &ours, &theirs, &[0..5]);
    assert_eq!(wb[1], Some(vec![0..4]));
    assert!(wo[1].is_none());
    assert!(wt[1].is_none());
}

#[test]
fn split_selection_collects_the_chosen_sides_in_order() {
    let rows = vec![
        row(FileDiffRowKind::Modify, Some("o1"), Some("t1")),
        row(FileDiffRowKind::Add, None, Some("t2")),
    ];
    let picked = collect_split_selection(
        &rows,
        &[(1, ConflictPickSide::Theirs), (0, ConflictPickSide::Ours), (1, ConflictPickSide::Ours), (9, ConflictPickSide::Ours)],
    );
    assert_eq!(picked, vec!["t2".to_string(), "o1".to_string()]);
}

#[test]
fn inline_selection_follows_row_order() {
    let rows: Vec<ConflictInlineRow> = ["a", "b", "c"]
        .iter()
        .map(|c| ConflictInlineRow {
            side: ConflictPickSide::Ours,
            kind: DiffLineKind::Context,
            old_line: None,
            new_line: None,
            content: c.to_string(),
        })
        .collect();
    let selected: std::collections::BTreeSet<usize> = [2usize, 0, 7].into_iter().collect();
    assert_eq!(collect_inline_selection(&rows, &selected), vec!["a".to_string(), "c".to_string()]);
}
