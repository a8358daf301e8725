use gitgpui_view::conflict_rows::{DiffLineKind as K, FileDiffRowKind as RK};
use gitgpui_view::diff_patch::{new_file_preview_lines, AnnotatedDiffLine};
use gitgpui_view::patch_rows::{build_patch_split_rows, DiffClickKind, PatchSplitRow};

fn dl(kind: K, text: &str, old_line: Option<u32>, new_line: Option<u32>) -> AnnotatedDiffLine {
    AnnotatedDiffLine { kind, text: text.into(), old_line, new_line }
}

fn raw(row: &PatchSplitRow) -> Option<(usize, DiffClickKind)> {
    match row {
        PatchSplitRow::Raw { src_ix, click_kind } => Some((*src_ix, *click_kind)),
        _ => None,
    }
}

fn aligned(row: &PatchSplitRow) -> Option<(RK, Option<String>, Option<String>, Option<usize>, Option<usize>)> {
    match row {
        PatchSplitRow::Aligned { row, old_src_ix, new_src_ix } => {
            Some((row.kind, row.old.clone(), row.new.clone(), *old_src_ix, *new_src_ix))
        }
        _ => None,
    }
}

#[test]
fn split_rows_pair_removes_with_adds() {
    let diff = vec![
        dl(K::Header, "diff --git a/f b/f", None, None),
        dl(K::Header, "--- a/f", None, None),
        dl(K::Hunk, "@@ -1,3 +1,3 @@", None, None),
        dl(K::Context, " a", Some(1), Some(1)),
        dl(K::Remove, "-b", Some(2), None),
        dl(K::Remove, "-c", Some(3), None),
        dl(K::Add, "+B", None, Some(2)),
        dl(K::Context, " d", Some(4), Some(3)),
        dl(K::Add, "+e", None, Some(4)),
    ];
    let rows = build_patch_split_rows(&diff);
    assert_eq!(rows.len(), 8);
    assert_eq!(raw(&rows[0]), Some((0, DiffClickKind::FileHeader)));
    assert_eq!(raw(&rows[1]), Some((1, DiffClickKind::Line)));
    assert_eq!(raw(&rows[2]), Some((2, DiffClickKind::HunkHeader)));
    assert_eq!(aligned(&rows[3]), Some((RK::Context, Some("a".into()), Some("a".into()), Some(3), Some(3))));
    assert_eq!(aligned(&rows[4]), Some((RK::Modify, Some("b".into()), Some("B".into()), Some(4), Some(6))));
    assert_eq!(aligned(&rows[5]), Some((RK::Remove, Some("c".into()), None, Some(5), None)));
    assert_eq!(aligned(&rows[6]), Some((RK::Context, Some("d".into()), Some("d".into()), Some(7), Some(7))));
    assert_eq!(aligned(&rows[7]), Some((RK::Add, None, Some("e".into()), None, Some(8))));
    match &rows[4] {
        PatchSplitRow::Aligned { row, .. } => {
            assert_eq!(row.old_line, Some(2));
            assert_eq!(row.new_line, Some(2));
        }
        _ => panic!("expected an aligned row"),
    }
}

#[test]
fn split_rows_flush_at_next_file() {
    let diff = vec![
        dl(K::Header, "diff --git a/f b/f", None, None),
        dl(K::Hunk, "@@ -1 +1 @@", None, None),
        dl(K::Remove, "-x", Some(1), None),
        dl(K::Header, "diff --git a/g b/g", None, None),
        dl(K::Add, "+outside", None, None),
    ];
    let rows = build_patch_split_rows(&diff);
    assert_eq!(rows.len(), 5);
    assert_eq!(aligned(&rows[2]), Some((RK::Remove, Some("x".into()), None, Some(2), None)));
    assert_eq!(raw(&rows[3]), Some((3, DiffClickKind::FileHeader)));
    assert_eq!(raw(&rows[4]), Some((4, DiffClickKind::Line)));
}

#[test]
fn new_file_preview_takes_added_lines() {
    let diff = vec![
        dl(K::Header, "diff --git a/n.txt b/n.txt", None, None),
        dl(K::Header, "new file mode 100644", None, None),
        dl(K::Header, "--- /dev/null", None, None),
        dl(K::Header, "+++ b/n.txt", None, None),
        dl(K::Hunk, "@@ -0,0 +1,2 @@", None, None),
        dl(K::Add, "+one", None, Some(1)),
        dl(K::Add, "+two", None, Some(2)),
    ];
    assert_eq!(new_file_preview_lines(&diff), Some(vec!["one".to_string(), "two".to_string()]));

    let mut with_remove = diff.clone();
    with_remove.push(dl(K::Remove, "-gone", Some(1), None));
    assert_eq!(new_file_preview_lines(&with_remove), None);

    let not_new = vec![
        dl(K::Header, "diff --git a/n.txt b/n.txt", None, None),
        dl(K::Hunk, "@@ -1 +1,2 @@", None, None),
        dl(K::Add, "+two", None, Some(2)),
    ];
    assert_eq!(new_file_preview_lines(&not_new), None);
}
