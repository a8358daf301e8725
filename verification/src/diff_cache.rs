use vstd::prelude::*;
use std::ops::Range;
use crate::branch_sidebar::Loadable;
use crate::diff_patch::{
    compute_diff_file_for_src_ix, compute_diff_file_stats, content_text, file_of_line, file_stat,
    opt_chars, AnnotatedDiffLine,
};
use crate::diff_target::{clone_opt_target, opt_target_v, DiffTarget};
use crate::patch_highlights::{line_highlight_ok, rebuild_diff_word_highlights};
use crate::row_nav::RowSelection;
use crate::word_diff::fits;
use crate::worktree_preview::{
    build_new_file_preview_from_diff, new_file_preview, preview_v, PreviewLinesV, WorktreePreview,
};

verus! {

/// What the diff cache needs of the active repository: its id, the revision of its diff,
/// what its diff view shows, and the diff's annotated lines once loaded.
#[derive(Clone, Debug)]
pub struct DiffRepo {
    pub id: u64,
    pub diff_rev: u64,
    pub diff_target: Option<DiffTarget>,
    pub diff: Loadable<Vec<AnnotatedDiffLine>>,
}

/// The diff as the view shows it: which repository, revision and target it was built for,
/// its lines, the file each line belongs to, each file's counts of added and removed lines,
/// the lines' word highlights, and whether the diff is of one new file.
#[derive(Clone, Debug)]
pub struct DiffCache {
    pub repo_id: Option<u64>,
    pub rev: u64,
    pub target: Option<DiffTarget>,
    pub lines: Vec<AnnotatedDiffLine>,
    pub file_for_src_ix: Vec<Option<String>>,
    pub file_stats: Vec<Option<(usize, usize)>>,
    pub word_highlights: Vec<Option<Vec<Range<usize>>>>,
    pub is_new_file: bool,
}

/// The cache holds the lines `d` and what follows from them.
pub open spec fn holds_diff(c: DiffCache, d: Seq<AnnotatedDiffLine>) -> bool {
    &&& c.lines@ == d
    &&& c.file_for_src_ix@.len() == d.len()
    &&& forall|ix: int| 0 <= ix < d.len() ==> #[trigger] opt_chars(c.file_for_src_ix@[ix]) == file_of_line(d, ix)
    &&& c.file_stats@.len() == d.len()
    &&& forall|ix: int| 0 <= ix < d.len() ==> #[trigger] c.file_stats@[ix] == file_stat(d, ix)
    &&& c.word_highlights@.len() == d.len()
    &&& forall|i: int| 0 <= i < d.len() ==> #[trigger] line_highlight_ok(d, c.word_highlights@, i)
}

/// Every diff line's content is small enough for its byte offsets to fit in `usize`.
pub open spec fn diff_fits(repo: Option<DiffRepo>) -> bool {
    match repo {
        Some(r) => match r.diff {
            Loadable::Ready(d) => forall|i: int| 0 <= i < d@.len() ==> fits(#[trigger] content_text(d@[i])),
            _ => true,
        },
        None => true,
    }
}

/// Builds the diff cache anew for the active repository `repo`: empty without one; marked
/// for its id, diff revision and target, holding its loaded diff and what follows from it
/// (see `holds_diff`). The row selection is dropped. When the diff is of one new file
/// (see `new_file_preview`), the preview shows that file's added lines.
pub fn rebuild_diff_cache(
    repo: Option<DiffRepo>,
    selection: &mut RowSelection,
    preview: &mut WorktreePreview,
) -> (c: DiffCache)
    requires
        diff_fits(repo),
    ensures
        final(selection).anchor is None,
        final(selection).range is None,
        match repo {
            None => c.repo_id is None && c.rev == 0 && c.target is None && holds_diff(c, Seq::empty())
                && !c.is_new_file && preview_v(*final(preview)) == preview_v(*old(preview)),
            Some(r) => {
                &&& c.repo_id == Some(r.id)
                &&& c.rev == r.diff_rev
                &&& opt_target_v(c.target) == opt_target_v(r.diff_target)
                &&& match r.diff {
                    Loadable::Ready(d) => {
                        &&& holds_diff(c, d@)
                        &&& c.is_new_file == (new_file_preview(d@, r.diff_target) is Some)
                        &&& match new_file_preview(d@, r.diff_target) {
                            Some((p, ls)) => preview_v(*final(preview)) == (Some(p), PreviewLinesV::Ready(ls)),
                            None => preview_v(*final(preview)) == preview_v(*old(preview)),
                        }
                    },
                    _ => holds_diff(c, Seq::empty()) && !c.is_new_file && preview_v(*final(preview))
                        == preview_v(*old(preview)),
                }
            },
        },
{
    selection.anchor = None;
    selection.range = None;
    let mut c = DiffCache {
        repo_id: None,
        rev: 0,
        target: None,
        lines: Vec::new(),
        file_for_src_ix: Vec::new(),
        file_stats: Vec::new(),
        word_highlights: Vec::new(),
        is_new_file: false,
    };
    let r = match repo {
        Some(r) => r,
        None => return c,
    };
    c.repo_id = Some(r.id);
    c.rev = r.diff_rev;
    c.target = clone_opt_target(&r.diff_target);
    let d = match r.diff {
        Loadable::Ready(d) => d,
        _ => return c,
    };
    c.file_for_src_ix = compute_diff_file_for_src_ix(d.as_slice());
    c.file_stats = compute_diff_file_stats(d.as_slice());
    c.word_highlights = rebuild_diff_word_highlights(d.as_slice());
    match build_new_file_preview_from_diff(d.as_slice(), r.diff_target.as_ref()) {
        Some((path, lines)) => {
            c.is_new_file = true;
            preview.path = Some(path);
            preview.lines = Loadable::Ready(lines);
        },
        None => {},
    }
    c.lines = d;
    c
}

} // verus!
