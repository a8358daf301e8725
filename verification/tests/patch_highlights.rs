use gitgpui_view::conflict_rows::DiffLineKind;
use gitgpui_view::diff_patch::AnnotatedDiffLine;
use gitgpui_view::patch_highlights::rebuild_diff_word_highlights;

fn line(kind: DiffLineKind, text: &str) -> AnnotatedDiffLine {
    AnnotatedDiffLine { kind, text: text.to_string(), old_line: None, new_line: None }
}

#[test]
fn removed_and_added_runs_are_compared_line_by_line() {
    let diff = vec![
        line(DiffLineKind::Hunk, "@@ -1,3 +1,3 @@"),
        line(DiffLineKind::Remove, "-let x = 1;"),
        line(DiffLineKind::Remove, "-old line"),
        line(DiffLineKind::Add, "+let x = 2;"),
        line(DiffLineKind::Context, " ctx"),
        line(DiffLineKind::Add, "+lonely add"),
        line(DiffLineKind::Remove, "-gone"),
        line(DiffLineKind::Context, " c"),
        line(DiffLineKind::Remove, "-"),
    ];
    let h = rebuild_diff_word_highlights(&diff);
    assert_eq!(h.len(), diff.len());
    assert_eq!(h[0], None);
    assert_eq!(h[1], Some(vec![8..9]));
    assert_eq!(h[2], Some(vec![0..8]));
    assert_eq!(h[3], Some(vec![8..9]));
    assert_eq!(h[4], None);
    assert_eq!(h[5], None);
    assert_eq!(h[6], Some(vec![0..4]));
    assert_eq!(h[7], None);
    assert_eq!(h[8], None);
}

#[test]
fn unchanged_pairs_and_extra_added_lines() {
    let diff = vec![
        line(DiffLineKind::Remove, "-same"),
        line(DiffLineKind::Add, "+same"),
        line(DiffLineKind::Add, "+extra é"),
    ];
    let h = rebuild_diff_word_highlights(&diff);
    assert_eq!(h, vec![None, None, Some(vec![0..8])]);
}
