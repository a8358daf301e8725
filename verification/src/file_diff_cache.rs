use vstd::prelude::*;
use std::ops::Range;
use crate::branch_sidebar::Loadable;
use crate::conflict_rows::{opt_text, DiffLineKind, FileDiffRow, FileDiffRowKind};
use crate::diff_patch::AnnotatedDiffLine;
use crate::diff_target::{
    clone_opt_target, is_file_diff_target, is_file_target, opt_diff_target_eq, opt_target_v, same_opt_target,
    DiffTarget,
};
use crate::text::{chars_to_string, extend_chars, str_to_chars};
use crate::word_diff::{
    copy_ranges, fits, nonempty, opt_ranges, ranges_v, word_diff, word_diff_ranges,
};

verus! {

/// The old and new text of a file whose diff is shown whole.
#[derive(Clone, Debug, PartialEq, Eq)]
pub struct FileDiffText {
    pub path: String,
    pub old: Option<String>,
    pub new: Option<String>,
}

/// What the whole-file diff needs of the active repository: its id, the revision of its
/// file diff, what the diff view shows, and the file's texts once loaded.
#[derive(Clone, Debug)]
pub struct FileDiffRepo {
    pub id: u64,
    pub diff_file_rev: u64,
    pub diff_target: Option<DiffTarget>,
    pub diff_file: Loadable<Option<FileDiffText>>,
}

/// The whole-file diff as the view shows it: which repository, revision and target it was
/// built for, the file's path, its side-by-side rows, the inline rows they expand to, and
/// the word highlights of both.
#[derive(Clone, Debug)]
pub struct FileDiffCache {
    pub repo_id: Option<u64>,
    pub rev: u64,
    pub target: Option<DiffTarget>,
    pub path: Option<String>,
    pub rows: Vec<FileDiffRow>,
    pub inline_rows: Vec<AnnotatedDiffLine>,
    pub inline_word_highlights: Vec<Option<Vec<Range<usize>>>>,
    pub split_word_highlights_old: Vec<Option<Vec<Range<usize>>>>,
    pub split_word_highlights_new: Vec<Option<Vec<Range<usize>>>>,
}

/// What bringing the whole-file diff up to date needs.
#[derive(Clone, Copy, Debug, PartialEq, Eq, Structural)]
pub enum FileDiffCacheNext {
    /// No file is shown: drop everything.
    Clear,
    /// The cache is for the shown file already.
    Noop,
    /// The file is not loaded yet: remember what is shown, with no rows.
    Reset,
    /// The file is loaded: build its rows.
    Rebuild,
}

/// The value of a list of inline rows: kind, text and line numbers.
pub open spec fn lines_v(ls: Seq<AnnotatedDiffLine>) -> Seq<(DiffLineKind, Seq<char>, Option<u32>, Option<u32>)> {
    ls.map_values(|l: AnnotatedDiffLine| (l.kind, l.text@, l.old_line, l.new_line))
}

/// The values of a list of optional highlight lists.
pub open spec fn highlights_v(h: Seq<Option<Vec<Range<usize>>>>) -> Seq<Option<Seq<(usize, usize)>>> {
    h.map_values(|o: Option<Vec<Range<usize>>>| opt_ranges(o))
}

/// The inline rows of a side-by-side row: a context row once with a space before it, an
/// added row with `+`, a removed one with `-`, and a modified row as its removal followed
/// by its addition.
pub open spec fn inline_of(r: FileDiffRow) -> Seq<(DiffLineKind, Seq<char>, Option<u32>, Option<u32>)> {
    match r.kind {
        FileDiffRowKind::Context => seq![
            (DiffLineKind::Context, seq![' '] + opt_text(r.old), r.old_line, r.new_line),
        ],
        FileDiffRowKind::Add => seq![(DiffLineKind::Add, seq!['+'] + opt_text(r.new), None, r.new_line)],
        FileDiffRowKind::Remove => seq![
            (DiffLineKind::Remove, seq!['-'] + opt_text(r.old), r.old_line, None),
        ],
        FileDiffRowKind::Modify => seq![
            (DiffLineKind::Remove, seq!['-'] + opt_text(r.old), r.old_line, None),
            (DiffLineKind::Add, seq!['+'] + opt_text(r.new), None, r.new_line),
        ],
    }
}

/// The inline rows of a list of side-by-side rows, in order.
pub open spec fn file_inline_rows(rows: Seq<FileDiffRow>) -> Seq<(DiffLineKind, Seq<char>, Option<u32>, Option<u32>)>
    decreases rows.len(),
{
    if rows.len() == 0 {
        Seq::empty()
    } else {
        file_inline_rows(rows.drop_last()) + inline_of(rows.last())
    }
}

/// The highlights of the inline rows: a modified row's two inline rows take its old and its
/// new highlights; every other inline row has none.
pub open spec fn file_inline_highlights(
    rows: Seq<FileDiffRow>,
    old_h: Seq<Option<Seq<(usize, usize)>>>,
    new_h: Seq<Option<Seq<(usize, usize)>>>,
) -> Seq<Option<Seq<(usize, usize)>>>
    decreases rows.len(),
{
    if rows.len() == 0 {
        Seq::empty()
    } else {
        let i = rows.len() - 1;
        file_inline_highlights(rows.drop_last(), old_h, new_h) + if rows[i].kind
            == FileDiffRowKind::Modify {
            seq![old_h[i], new_h[i]]
        } else {
            seq![None]
        }
    }
}

/// The word highlights of a side-by-side row: for a modified row, the changed ranges of its
/// old and its new text (each `None` when empty); none for any other row.
pub open spec fn row_highlights(
    r: FileDiffRow,
    old_h: Option<Seq<(usize, usize)>>,
    new_h: Option<Seq<(usize, usize)>>,
) -> bool {
    if r.kind == FileDiffRowKind::Modify {
        exists|o: Seq<(usize, usize)>, n: Seq<(usize, usize)>|
            word_diff(opt_text(r.old), opt_text(r.new), o, n) && old_h == nonempty(o) && new_h
                == nonempty(n)
    } else {
        old_h is None && new_h is None
    }
}

/// Every text of the rows is small enough for its byte offsets to fit in `usize`.
pub open spec fn rows_fit(rows: Seq<FileDiffRow>) -> bool {
    forall|i: int|
        0 <= i < rows.len() ==> fits(opt_text((#[trigger] rows[i]).old)) && fits(opt_text(rows[i].new))
}

/// The whole-file diff of `rows`: `old_h` and `new_h` hold the row highlights, and the
/// inline rows and their highlights follow from the rows and those.
pub open spec fn built_from(
    rows: Seq<FileDiffRow>,
    inline: Seq<AnnotatedDiffLine>,
    inline_h: Seq<Option<Vec<Range<usize>>>>,
    old_h: Seq<Option<Vec<Range<usize>>>>,
    new_h: Seq<Option<Vec<Range<usize>>>>,
) -> bool {
    &&& old_h.len() == rows.len()
    &&& new_h.len() == rows.len()
    &&& forall|i: int|
        0 <= i < rows.len() ==> row_highlights(
            #[trigger] rows[i],
            opt_ranges(old_h[i]),
            opt_ranges(new_h[i]),
        )
    &&& lines_v(inline) == file_inline_rows(rows)
    &&& highlights_v(inline_h) == file_inline_highlights(
        rows,
        highlights_v(old_h),
        highlights_v(new_h),
    )
}

/// What the whole-file diff needs for `repo` (none: no active repository).
pub open spec fn file_diff_next(c: FileDiffCache, repo: Option<FileDiffRepo>) -> FileDiffCacheNext {
    match repo {
        None => FileDiffCacheNext::Clear,
        Some(r) => if !is_file_target(r.diff_target) {
            FileDiffCacheNext::Clear
        } else if c.repo_id == Some(r.id) && c.rev == r.diff_file_rev && same_opt_target(
            opt_target_v(c.target),
            opt_target_v(r.diff_target),
        ) {
            FileDiffCacheNext::Noop
        } else {
            match r.diff_file {
                Loadable::Ready(Some(_)) => FileDiffCacheNext::Rebuild,
                _ => FileDiffCacheNext::Reset,
            }
        },
    }
}

/// The cache holds no rows, path or highlights.
pub open spec fn holds_nothing(c: FileDiffCache) -> bool {
    &&& c.path is None
    &&& c.rows@.len() == 0
    &&& c.inline_rows@.len() == 0
    &&& c.inline_word_highlights@.len() == 0
    &&& c.split_word_highlights_old@.len() == 0
    &&& c.split_word_highlights_new@.len() == 0
}

fn highlight_entry(v: Vec<Range<usize>>) -> (r: Option<Vec<Range<usize>>>)
    ensures
        opt_ranges(r) == nonempty(ranges_v(v@)),
{
    if v.len() == 0 {
        None
    } else {
        Some(v)
    }
}

fn copy_entry(o: &Option<Vec<Range<usize>>>) -> (r: Option<Vec<Range<usize>>>)
    ensures
        opt_ranges(r) == opt_ranges(*o),
{
    match o {
        Some(v) => {
            let mut out: Vec<Range<usize>> = Vec::new();
            copy_ranges(v.as_slice(), &mut out);
            assert(ranges_v(out@) =~= ranges_v(v@));
            Some(out)
        },
        None => None,
    }
}

fn prefixed(c: char, text: &Option<String>) -> (s: String)
    ensures
        s@ == seq![c] + opt_text(*text),
{
    let mut cs: Vec<char> = vec![c];
    match text {
        Some(t) => {
            let tc = str_to_chars(t.as_str());
            extend_chars(&mut cs, tc.as_slice());
        },
        None => {},
    }
    assert(cs@ =~= seq![c] + opt_text(*text));
    chars_to_string(cs.as_slice())
}

fn opt_str(text: &Option<String>) -> (s: &str)
    ensures
        s@ == opt_text(*text),
{
    match text {
        Some(t) => t.as_str(),
        None => {
            proof {
                reveal_strlit("");
            }
            ""
        },
    }
}

proof fn lemma_inline_step(
    rows: Seq<FileDiffRow>,
    old_h: Seq<Option<Seq<(usize, usize)>>>,
    new_h: Seq<Option<Seq<(usize, usize)>>>,
    i: int,
)
    requires
        0 <= i < rows.len(),
    ensures
        file_inline_rows(rows.take(i + 1)) == file_inline_rows(rows.take(i)) + inline_of(rows[i]),
        file_inline_highlights(rows.take(i + 1), old_h, new_h) == file_inline_highlights(
            rows.take(i),
            old_h,
            new_h,
        ) + if rows[i].kind == FileDiffRowKind::Modify {
            seq![old_h[i], new_h[i]]
        } else {
            seq![None]
        },
{
    assert(rows.take(i + 1).drop_last() =~= rows.take(i));
}

/// The inline rows and word highlights of a whole-file diff built from its side-by-side
/// rows: `(inline rows, inline highlights, old highlights, new highlights)` (see `built_from`).
pub fn build_file_diff_rows(rows: &[FileDiffRow]) -> (r: (
    Vec<AnnotatedDiffLine>,
    Vec<Option<Vec<Range<usize>>>>,
    Vec<Option<Vec<Range<usize>>>>,
    Vec<Option<Vec<Range<usize>>>>,
))
    requires
        rows_fit(rows@),
    ensures
        built_from(rows@, r.0@, r.1@, r.2@, r.3@),
{
    let mut inline: Vec<AnnotatedDiffLine> = Vec::new();
    let mut inline_h: Vec<Option<Vec<Range<usize>>>> = Vec::new();
    let mut old_h: Vec<Option<Vec<Range<usize>>>> = Vec::new();
    let mut new_h: Vec<Option<Vec<Range<usize>>>> = Vec::new();
    let mut i: usize = 0;
    while i < rows.len()
        invariant
            i <= rows@.len(),
            rows_fit(rows@),
            old_h@.len() == i,
            new_h@.len() == i,
            forall|q: int|
                0 <= q < i ==> row_highlights(
                    #[trigger] rows@[q],
                    opt_ranges(old_h@[q]),
                    opt_ranges(new_h@[q]),
                ),
            lines_v(inline@) == file_inline_rows(rows@.take(i as int)),
            highlights_v(inline_h@) == file_inline_highlights(
                rows@.take(i as int),
                highlights_v(old_h@),
                highlights_v(new_h@),
            ),
        decreases rows@.len() - i,
    {
        let row = &rows[i];
        let ghost lv0 = lines_v(inline@);
        let ghost hv0 = highlights_v(inline_h@);
        let ghost oh0 = highlights_v(old_h@);
        let ghost nh0 = highlights_v(new_h@);
        proof {
            assert(fits(opt_text(rows@[i as int].old)));
        }
        match row.kind {
            FileDiffRowKind::Context => {
                inline.push(AnnotatedDiffLine {
                    kind: DiffLineKind::Context,
                    text: prefixed(' ', &row.old),
                    old_line: row.old_line,
                    new_line: row.new_line,
                });
                inline_h.push(None);
                old_h.push(None);
                new_h.push(None);
            },
            FileDiffRowKind::Add => {
                inline.push(AnnotatedDiffLine {
                    kind: DiffLineKind::Add,
                    text: prefixed('+', &row.new),
                    old_line: None,
                    new_line: row.new_line,
                });
                inline_h.push(None);
                old_h.push(None);
                new_h.push(None);
            },
            FileDiffRowKind::Remove => {
                inline.push(AnnotatedDiffLine {
                    kind: DiffLineKind::Remove,
                    text: prefixed('-', &row.old),
                    old_line: row.old_line,
                    new_line: None,
                });
                inline_h.push(None);
                old_h.push(None);
                new_h.push(None);
            },
            FileDiffRowKind::Modify => {
                let (o, n) = word_diff_ranges(opt_str(&row.old), opt_str(&row.new));
                let oe = highlight_entry(o);
                let ne = highlight_entry(n);
                inline.push(AnnotatedDiffLine {
                    kind: DiffLineKind::Remove,
                    text: prefixed('-', &row.old),
                    old_line: row.old_line,
                    new_line: None,
                });
                inline.push(AnnotatedDiffLine {
                    kind: DiffLineKind::Add,
                    text: prefixed('+', &row.new),
                    old_line: None,
                    new_line: row.new_line,
                });
                inline_h.push(copy_entry(&oe));
                inline_h.push(copy_entry(&ne));
                old_h.push(oe);
                new_h.push(ne);
            },
        }
        proof {
            lemma_inline_step(rows@, highlights_v(old_h@), highlights_v(new_h@), i as int);
            assert(highlights_v(old_h@) =~= oh0.push(opt_ranges(old_h@[i as int])));
            assert(highlights_v(new_h@) =~= nh0.push(opt_ranges(new_h@[i as int])));
            assert(file_inline_highlights(rows@.take(i as int), highlights_v(old_h@), highlights_v(new_h@))
                == file_inline_highlights(rows@.take(i as int), oh0, nh0)) by {
                lemma_highlights_prefix(rows@.take(i as int), oh0, nh0, highlights_v(old_h@), highlights_v(new_h@));
            }
            if rows@[i as int].kind == FileDiffRowKind::Modify {
                assert(lines_v(inline@) =~= lv0 + inline_of(rows@[i as int]));
                assert(highlights_v(inline_h@) =~= hv0 + seq![
                    highlights_v(old_h@)[i as int],
                    highlights_v(new_h@)[i as int],
                ]);
            } else {
                assert(lines_v(inline@) =~= lv0 + inline_of(rows@[i as int]));
                assert(highlights_v(inline_h@) =~= hv0 + seq![None]);
            }
        }
        i = i + 1;
    }
    proof {
        assert(rows@.take(rows@.len() as int) =~= rows@);
    }
    (inline, inline_h, old_h, new_h)
}

proof fn lemma_highlights_prefix(
    rows: Seq<FileDiffRow>,
    o1: Seq<Option<Seq<(usize, usize)>>>,
    n1: Seq<Option<Seq<(usize, usize)>>>,
    o2: Seq<Option<Seq<(usize, usize)>>>,
    n2: Seq<Option<Seq<(usize, usize)>>>,
)
    requires
        o1.len() >= rows.len(),
        n1.len() >= rows.len(),
        o2.len() >= rows.len(),
        n2.len() >= rows.len(),
        forall|k: int| 0 <= k < rows.len() ==> o1[k] == o2[k] && n1[k] == n2[k],
    ensures
        file_inline_highlights(rows, o2, n2) == file_inline_highlights(rows, o1, n1),
    decreases rows.len(),
{
    if rows.len() > 0 {
        lemma_highlights_prefix(rows.drop_last(), o1, n1, o2, n2);
    }
}


/// The cache emptied: no repository, revision 0, no target, nothing held.
pub open spec fn cleared(c: FileDiffCache) -> bool {
    c.repo_id is None && c.rev == 0 && c.target is None && holds_nothing(c)
}

/// The cache emptied and marked as built for `r`, whose file is not loaded.
pub open spec fn reset_for(c: FileDiffCache, r: FileDiffRepo) -> bool {
    &&& c.repo_id == Some(r.id)
    &&& c.rev == r.diff_file_rev
    &&& opt_target_v(c.target) == opt_target_v(r.diff_target)
    &&& holds_nothing(c)
}

fn empty_parts(c: &mut FileDiffCache)
    ensures
        holds_nothing(*final(c)),
        final(c).repo_id == old(c).repo_id,
        final(c).rev == old(c).rev,
        final(c).target == old(c).target,
{
    c.path = None;
    c.rows = Vec::new();
    c.inline_rows = Vec::new();
    c.inline_word_highlights = Vec::new();
    c.split_word_highlights_old = Vec::new();
    c.split_word_highlights_new = Vec::new();
}


/// Brings the whole-file diff up to date with the active repository `repo` (see
/// `file_diff_next`): clears it when no file is shown, leaves it when it is current, and
/// marks it as built for `repo` with no rows while the file loads. Returns whether the
/// file is loaded and its rows are to be built: the caller then computes the side-by-side
/// rows of the file's texts and hands them to `rebuild_file_diff_cache`.
pub fn ensure_file_diff_cache(cache: &mut FileDiffCache, repo: Option<&FileDiffRepo>) -> (needs_rows: bool)
    ensures
        ({
            let r = match repo {
                Some(r) => Some(*r),
                None => None,
            };
            match file_diff_next(*old(cache), r) {
                FileDiffCacheNext::Clear => !needs_rows && cleared(*final(cache)),
                FileDiffCacheNext::Noop => !needs_rows && *final(cache) == *old(cache),
                FileDiffCacheNext::Reset => !needs_rows && reset_for(*final(cache), r.unwrap()),
                FileDiffCacheNext::Rebuild => needs_rows && *final(cache) == *old(cache),
            }
        }),
{
    let r = match repo {
        None => {
            cache.repo_id = None;
            cache.target = None;
            cache.rev = 0;
            empty_parts(cache);
            return false;
        },
        Some(r) => r,
    };
    if !is_file_diff_target(r.diff_target.as_ref()) {
        cache.repo_id = None;
        cache.target = None;
        cache.rev = 0;
        empty_parts(cache);
        return false;
    }
    if cache.repo_id == Some(r.id) && cache.rev == r.diff_file_rev && opt_diff_target_eq(
        &cache.target,
        &r.diff_target,
    ) {
        return false;
    }
    match &r.diff_file {
        Loadable::Ready(Some(_)) => true,
        _ => {
            cache.repo_id = Some(r.id);
            cache.rev = r.diff_file_rev;
            cache.target = clone_opt_target(&r.diff_target);
            empty_parts(cache);
            false
        },
    }
}

/// Fills the whole-file diff from `rows`, the side-by-side rows of the loaded file of
/// `repo`: marks it as built for `repo`, keeps the file's path and the rows, and builds the
/// inline rows and word highlights (see `built_from`).
pub fn rebuild_file_diff_cache(cache: &mut FileDiffCache, repo: &FileDiffRepo, rows: Vec<FileDiffRow>)
    requires
        rows_fit(rows@),
        repo.diff_file matches Loadable::Ready(Some(_)),
    ensures
        final(cache).repo_id == Some(repo.id),
        final(cache).rev == repo.diff_file_rev,
        opt_target_v(final(cache).target) == opt_target_v(repo.diff_target),
        final(cache).path matches Some(p) && repo.diff_file matches Loadable::Ready(Some(f)) && p@
            == f.path@,
        final(cache).rows@ == rows@,
        built_from(
            rows@,
            final(cache).inline_rows@,
            final(cache).inline_word_highlights@,
            final(cache).split_word_highlights_old@,
            final(cache).split_word_highlights_new@,
        ),
{
    let (inline, inline_h, old_h, new_h) = build_file_diff_rows(rows.as_slice());
    let path = match &repo.diff_file {
        Loadable::Ready(Some(f)) => f.path.clone(),
        _ => String::new(),
    };
    cache.repo_id = Some(repo.id);
    cache.rev = repo.diff_file_rev;
    cache.target = clone_opt_target(&repo.diff_target);
    cache.path = Some(path);
    cache.rows = rows;
    cache.inline_rows = inline;
    cache.inline_word_highlights = inline_h;
    cache.split_word_highlights_old = old_h;
    cache.split_word_highlights_new = new_h;
}

/// The whole-file diff is shown: it was built for the active repository's current file
/// diff and target, and holds a file.
pub open spec fn file_view_active(c: FileDiffCache, repo: Option<FileDiffRepo>) -> bool {
    match repo {
        None => false,
        Some(r) => c.repo_id == Some(r.id) && c.rev == r.diff_file_rev && same_opt_target(
            opt_target_v(c.target),
            opt_target_v(r.diff_target),
        ) && c.path is Some,
    }
}

/// Whether the whole-file diff is shown (see `file_view_active`).
pub fn is_file_diff_view_active(cache: &FileDiffCache, repo: Option<&FileDiffRepo>) -> (r: bool)
    ensures
        r == file_view_active(*cache, match repo {
            Some(r) => Some(*r),
            None => None,
        }),
{
    match repo {
        None => false,
        Some(r) => cache.repo_id == Some(r.id) && cache.rev == r.diff_file_rev && opt_diff_target_eq(
            &cache.target,
            &r.diff_target,
        ) && cache.path.is_some(),
    }
}

/// A whole-file diff built or reset for a repository that shows a file is current for it:
/// asking again needs nothing; and once built it is the one shown.
pub proof fn law_built_file_diff_is_current(c: FileDiffCache, r: FileDiffRepo)
    requires
        is_file_target(r.diff_target),
        c.repo_id == Some(r.id),
        c.rev == r.diff_file_rev,
        same_opt_target(opt_target_v(c.target), opt_target_v(r.diff_target)),
    ensures
        file_diff_next(c, Some(r)) == FileDiffCacheNext::Noop,
        c.path is Some ==> file_view_active(c, Some(r)),
{
}

} // verus!
