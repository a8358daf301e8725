use vstd::prelude::*;
use crate::branch_sidebar::Loadable;
use crate::conflict_rows::DiffLineKind;
use crate::diff_patch::{content_text, diff_content_text, has_prefix, AnnotatedDiffLine, chars_start_with};
use crate::diff_target::{path_eq, same_path, str_eq, target_path, DiffArea, DiffTarget};
use crate::file_diff_cache::FileDiffText;
use crate::text::{
    chars_eq, decimal, push_decimal, push_str, str_to_chars, strings_v, text_lines, text_lines_of,
};

verus! {

/// How a file differs from its previous version.
#[derive(Clone, Copy, Debug, PartialEq, Eq, Structural)]
pub enum FileStatusKind {
    Untracked,
    Modified,
    Added,
    Deleted,
    Renamed,
    Conflicted,
}

/// A changed file and how it changed.
#[derive(Clone, Debug, PartialEq, Eq)]
pub struct FileStatus {
    pub path: String,
    pub kind: FileStatusKind,
}

/// The changed files of the working tree: those in the index and those not yet in it.
#[derive(Clone, Debug, PartialEq, Eq)]
pub struct RepoStatus {
    pub staged: Vec<FileStatus>,
    pub unstaged: Vec<FileStatus>,
}

/// A commit's id and the files it changes.
#[derive(Clone, Debug, PartialEq, Eq)]
pub struct CommitDetails {
    pub id: String,
    pub files: Vec<FileStatus>,
}

/// What the file preview needs of the active repository: what the diff view shows, the
/// working tree's status, the selected commit's details, the shown file's texts and the
/// lines of its diff, each once loaded.
#[derive(Clone, Debug)]
pub struct PreviewRepo {
    pub diff_target: Option<DiffTarget>,
    pub status: Loadable<RepoStatus>,
    pub commit_details: Loadable<CommitDetails>,
    pub diff_file: Loadable<Option<FileDiffText>>,
    pub diff: Loadable<Vec<AnnotatedDiffLine>>,
}

/// The preview of a whole file: which file (as the diff target names it; the caller
/// resolves it against the work dir to read it) and its lines once loaded.
#[derive(Clone, Debug)]
pub struct WorktreePreview {
    pub path: Option<String>,
    pub lines: Loadable<Vec<String>>,
}

/// The value of a preview's lines.
pub enum PreviewLinesV {
    NotLoaded,
    Loading,
    Ready(Seq<Seq<char>>),
    Error(Seq<char>),
}

/// The value of a preview's lines.
pub open spec fn lines_v(l: Loadable<Vec<String>>) -> PreviewLinesV {
    match l {
        Loadable::NotLoaded => PreviewLinesV::NotLoaded,
        Loadable::Loading => PreviewLinesV::Loading,
        Loadable::Ready(v) => PreviewLinesV::Ready(strings_v(v@)),
        Loadable::Error(e) => PreviewLinesV::Error(e@),
    }
}

/// The value of a preview: the path's text and the lines' value.
pub open spec fn preview_v(p: WorktreePreview) -> (Option<Seq<char>>, PreviewLinesV) {
    (
        match p.path {
            Some(s) => Some(s@),
            None => None,
        },
        lines_v(p.lines),
    )
}

/// Some entry of `entries` changed the file `path` in the way `kind` says.
pub open spec fn has_entry(entries: Seq<FileStatus>, kind: FileStatusKind, path: Seq<char>) -> bool {
    exists|i: int| 0 <= i < entries.len() && (#[trigger] entries[i]).kind == kind && same_path(
        entries[i].path@,
        path,
    )
}

fn has_entry_exec(entries: &Vec<FileStatus>, kind: FileStatusKind, path: &str) -> (r: bool)
    ensures
        r == has_entry(entries@, kind, path@),
{
    let mut i: usize = 0;
    while i < entries.len()
        invariant
            i <= entries@.len(),
            forall|q: int| 0 <= q < i ==> !((#[trigger] entries@[q]).kind == kind && same_path(entries@[q].path@, path@)),
        decreases entries@.len() - i,
    {
        if entries[i].kind == kind && path_eq(entries[i].path.as_str(), path) {
            return true;
        }
        i = i + 1;
    }
    false
}

/// The file to preview when the diff view shows an untracked file of the working tree:
/// its path, when the status is loaded and lists it as untracked.
pub open spec fn untracked_path(r: PreviewRepo) -> Option<Seq<char>> {
    match (r.status, r.diff_target) {
        (Loadable::Ready(s), Some(DiffTarget::WorkingTree { path, area: DiffArea::Unstaged })) => if has_entry(
            s.unstaged@,
            FileStatusKind::Untracked,
            path@,
        ) {
            Some(path@)
        } else {
            None
        },
        _ => None,
    }
}

/// The path of the untracked file the diff view shows, if it shows one (see
/// `untracked_path`; the path as the target names it).
pub fn untracked_worktree_preview_path(repo: Option<&PreviewRepo>) -> (r: Option<String>)
    ensures
        match repo {
            None => r is None,
            Some(rp) => match r {
                Some(p) => untracked_path(*rp) == Some(p@),
                None => untracked_path(*rp) is None,
            },
        },
{
    let repo = match repo {
        Some(r) => r,
        None => return None,
    };
    let status = match &repo.status {
        Loadable::Ready(s) => s,
        _ => return None,
    };
    match &repo.diff_target {
        Some(DiffTarget::WorkingTree { path, area: DiffArea::Unstaged }) => {
            if has_entry_exec(&status.unstaged, FileStatusKind::Untracked, path.as_str()) {
                Some(path.clone())
            } else {
                None
            }
        },
        _ => None,
    }
}

/// The file to preview when the diff view shows an added file: a staged working-tree file
/// the status lists as added, or a file that the loaded details of the shown commit list
/// as added.
pub open spec fn added_path(r: PreviewRepo) -> Option<Seq<char>> {
    match r.diff_target {
        Some(DiffTarget::WorkingTree { path, area }) => match r.status {
            Loadable::Ready(s) => if area == DiffArea::Staged && has_entry(
                s.staged@,
                FileStatusKind::Added,
                path@,
            ) {
                Some(path@)
            } else {
                None
            },
            _ => None,
        },
        Some(DiffTarget::Commit { commit_id, path: Some(p) }) => match r.commit_details {
            Loadable::Ready(d) => if d.id@ == commit_id@ && has_entry(
                d.files@,
                FileStatusKind::Added,
                p@,
            ) {
                Some(p@)
            } else {
                None
            },
            _ => None,
        },
        _ => None,
    }
}

/// The path of the added file the diff view shows, if it shows one (see `added_path`; the
/// path as the target names it).
pub fn added_file_preview_abs_path(repo: Option<&PreviewRepo>) -> (r: Option<String>)
    ensures
        match repo {
            None => r is None,
            Some(rp) => match r {
                Some(p) => added_path(*rp) == Some(p@),
                None => added_path(*rp) is None,
            },
        },
{
    let repo = match repo {
        Some(r) => r,
        None => return None,
    };
    match &repo.diff_target {
        Some(DiffTarget::WorkingTree { path, area }) => {
            if *area != DiffArea::Staged {
                return None;
            }
            let status = match &repo.status {
                Loadable::Ready(s) => s,
                _ => return None,
            };
            if has_entry_exec(&status.staged, FileStatusKind::Added, path.as_str()) {
                Some(path.clone())
            } else {
                None
            }
        },
        Some(DiffTarget::Commit { commit_id, path: Some(p) }) => {
            let details = match &repo.commit_details {
                Loadable::Ready(d) => d,
                _ => return None,
            };
            if !str_eq(details.id.as_str(), commit_id.as_str()) {
                return None;
            }
            if has_entry_exec(&details.files, FileStatusKind::Added, p.as_str()) {
                Some(p.clone())
            } else {
                None
            }
        },
        _ => None,
    }
}

/// `diff --git `, which opens each file of a diff.
pub open spec fn git_header_text() -> Seq<char> {
    seq!['d', 'i', 'f', 'f', ' ', '-', '-', 'g', 'i', 't', ' ']
}

/// `new file mode `, which marks a file the diff adds.
pub open spec fn new_file_mode_text() -> Seq<char> {
    seq!['n', 'e', 'w', ' ', 'f', 'i', 'l', 'e', ' ', 'm', 'o', 'd', 'e', ' ']
}

/// `--- /dev/null`, the old side of a file the diff adds.
pub open spec fn dev_null_text() -> Seq<char> {
    seq!['-', '-', '-', ' ', '/', 'd', 'e', 'v', '/', 'n', 'u', 'l', 'l']
}

/// Over the first `n` lines of a diff: how many file headers it has, whether a header
/// marks a new file, and whether a line is removed.
pub open spec fn diff_scan(d: Seq<AnnotatedDiffLine>, n: int) -> (nat, bool, bool)
    decreases n,
{
    if n <= 0 {
        (0, false, false)
    } else {
        let (c, is_new, removes) = diff_scan(d, n - 1);
        let l = d[n - 1];
        let header = l.kind == DiffLineKind::Header;
        (
            if header && has_prefix(l.text@, git_header_text()) {
                c + 1
            } else {
                c
            },
            is_new || (header && (has_prefix(l.text@, new_file_mode_text()) || l.text@
                == dev_null_text())),
            removes || l.kind == DiffLineKind::Remove,
        )
    }
}

/// The added lines among the first `n` lines of a diff, each without its `+`.
pub open spec fn added_lines(d: Seq<AnnotatedDiffLine>, n: int) -> Seq<Seq<char>>
    decreases n,
{
    if n <= 0 {
        Seq::empty()
    } else {
        added_lines(d, n - 1) + if d[n - 1].kind == DiffLineKind::Add {
            seq![content_text(d[n - 1])]
        } else {
            Seq::empty()
        }
    }
}

/// A preview of a new file read off its diff: when the diff is of one file only, marks
/// it as new and removes nothing, and the target names a file, that file's path and the
/// diff's added lines.
pub open spec fn new_file_preview(d: Seq<AnnotatedDiffLine>, target: Option<DiffTarget>) -> Option<
    (Seq<char>, Seq<Seq<char>>),
> {
    let (c, is_new, removes) = diff_scan(d, d.len() as int);
    if c != 1 || !is_new || removes {
        None
    } else {
        match target_path(target) {
            Some(p) => Some((p, added_lines(d, d.len() as int))),
            None => None,
        }
    }
}

fn seq_exec(v: Vec<char>, Ghost(s): Ghost<Seq<char>>) -> (r: Vec<char>)
    requires
        v@ == s,
    ensures
        r@ == s,
{
    v
}

/// The preview of a new file read off its diff (see `new_file_preview`; the path as the
/// target names it).
pub fn build_new_file_preview_from_diff(diff: &[AnnotatedDiffLine], target: Option<&DiffTarget>) -> (r:
    Option<(String, Vec<String>)>)
    ensures
        ({
            let t = match target {
                Some(t) => Some(*t),
                None => None,
            };
            match r {
                Some((p, ls)) => new_file_preview(diff@, t) == Some((p@, strings_v(ls@))),
                None => new_file_preview(diff@, t) is None,
            }
        }),
{
    let git = seq_exec(vec!['d', 'i', 'f', 'f', ' ', '-', '-', 'g', 'i', 't', ' '], Ghost(git_header_text()));
    let new_mode = seq_exec(
        vec!['n', 'e', 'w', ' ', 'f', 'i', 'l', 'e', ' ', 'm', 'o', 'd', 'e', ' '],
        Ghost(new_file_mode_text()),
    );
    let dev_null = seq_exec(
        vec!['-', '-', '-', ' ', '/', 'd', 'e', 'v', '/', 'n', 'u', 'l', 'l'],
        Ghost(dev_null_text()),
    );
    let mut headers: usize = 0;
    let mut is_new = false;
    let mut removes = false;
    let mut lines: Vec<String> = Vec::new();
    let mut i: usize = 0;
    while i < diff.len()
        invariant
            i <= diff@.len(),
            git@ == git_header_text(),
            new_mode@ == new_file_mode_text(),
            dev_null@ == dev_null_text(),
            headers <= i,
            diff_scan(diff@, i as int) == (headers as nat, is_new, removes),
            strings_v(lines@) == added_lines(diff@, i as int),
        decreases diff@.len() - i,
    {
        let line = &diff[i];
        if line.kind == DiffLineKind::Header {
            let t = str_to_chars(line.text.as_str());
            if chars_start_with(&t, &git) {
                headers = headers + 1;
            }
            if chars_start_with(&t, &new_mode) || chars_eq(&t, &dev_null) {
                is_new = true;
            }
        }
        if line.kind == DiffLineKind::Remove {
            removes = true;
        }
        let ghost before = strings_v(lines@);
        if line.kind == DiffLineKind::Add {
            lines.push(diff_content_text(line));
            assert(strings_v(lines@) =~= before.push(content_text(diff@[i as int])));
        } else {
            assert(strings_v(lines@) =~= before + Seq::<Seq<char>>::empty());
        }
        i = i + 1;
    }
    if headers != 1 || !is_new || removes {
        return None;
    }
    let path = match target {
        Some(DiffTarget::WorkingTree { path, .. }) => path.clone(),
        Some(DiffTarget::Commit { path: Some(p), .. }) => p.clone(),
        _ => return None,
    };
    Some((path, lines))
}


/// The message shown when neither the file nor its diff gives a preview.
pub open spec fn no_preview_message() -> Seq<char> {
    "No text preview available for this file."@
}

/// What the loaded file diff or the diff offers as a preview of the shown file: the lines
/// of the file's new text when the file diff has one; else, once the diff has loaded, the
/// new-file preview it gives, the file diff's error, or `no_preview_message`; the diff's
/// own error; nothing while neither has loaded.
pub open spec fn populate_result(r: PreviewRepo) -> Option<Result<Seq<Seq<char>>, Seq<char>>> {
    let from_file: Option<Result<Seq<Seq<char>>, Seq<char>>> = match r.diff_file {
        Loadable::Ready(Some(f)) => match f.new {
            Some(t) => Some(Ok(text_lines(t@))),
            None => None,
        },
        _ => None,
    };
    if from_file is Some {
        from_file
    } else {
        match r.diff {
            Loadable::Ready(d) => match new_file_preview(d@, r.diff_target) {
                Some((_, lines)) => Some(Ok(lines)),
                None => match r.diff_file {
                    Loadable::Error(e) => Some(Err(e@)),
                    _ => Some(Err(no_preview_message())),
                },
            },
            Loadable::Error(e) => Some(Err(e@)),
            _ => None,
        }
    }
}

/// The preview shows `path` (the same path, compared by components).
pub open spec fn at_path(p: Option<Seq<char>>, path: Seq<char>) -> bool {
    match p {
        Some(s) => same_path(s, path),
        None => false,
    }
}

/// The preview after offering it `result` for the file `path`: kept while it shows that
/// file's loaded lines or nothing is offered; set to offered lines; set to an offered error
/// only when it shows another file or nothing has loaded yet. The flag says whether it was set.
pub open spec fn offered(
    p: (Option<Seq<char>>, PreviewLinesV),
    path: Seq<char>,
    result: Option<Result<Seq<Seq<char>>, Seq<char>>>,
) -> ((Option<Seq<char>>, PreviewLinesV), bool) {
    if p.1 is Ready && at_path(p.0, path) {
        (p, false)
    } else {
        match result {
            None => (p, false),
            Some(Ok(lines)) => ((Some(path), PreviewLinesV::Ready(lines)), true),
            Some(Err(e)) => if !at_path(p.0, path) || p.1 is NotLoaded || p.1 is Loading {
                ((Some(path), PreviewLinesV::Error(e)), true)
            } else {
                (p, false)
            },
        }
    }
}

fn opt_path_is(p: &Option<String>, path: &str) -> (r: bool)
    ensures
        r == at_path(
            match p {
                Some(s) => Some(s@),
                None => None,
            },
            path@,
        ),
{
    match p {
        Some(s) => path_eq(s.as_str(), path),
        None => false,
    }
}

fn populate_result_exec(r: &PreviewRepo) -> (out: Option<Result<Vec<String>, String>>)
    ensures
        match out {
            None => populate_result(*r) is None,
            Some(Ok(ls)) => populate_result(*r) == Some(Ok::<Seq<Seq<char>>, Seq<char>>(strings_v(ls@))),
            Some(Err(e)) => populate_result(*r) == Some(Err::<Seq<Seq<char>>, Seq<char>>(e@)),
        },
{
    match &r.diff_file {
        Loadable::Ready(Some(f)) => match &f.new {
            Some(t) => return Some(Ok(text_lines_of(t.as_str()))),
            None => {},
        },
        _ => {},
    }
    match &r.diff {
        Loadable::Ready(d) => match build_new_file_preview_from_diff(d.as_slice(), r.diff_target.as_ref()) {
            Some((_, lines)) => Some(Ok(lines)),
            None => match &r.diff_file {
                Loadable::Error(e) => Some(Err(e.clone())),
                _ => Some(Err(String::from_str("No text preview available for this file."))),
            },
        },
        Loadable::Error(e) => Some(Err(e.clone())),
        _ => None,
    }
}

/// Shows the file the diff view shows in the preview when its file diff or diff offers
/// lines or an error for it (see `populate_result` and `offered`). Does nothing without an
/// active repository or a target naming a file. Returns whether the preview was set; the
/// caller then scrolls it to the top and drops its styled lines.
pub fn try_populate_worktree_preview_from_diff_file(
    preview: &mut WorktreePreview,
    repo: Option<&PreviewRepo>,
) -> (set: bool)
    ensures
        match repo {
            Some(r) => match target_path(r.diff_target) {
                Some(path) => (preview_v(*final(preview)), set) == offered(
                    preview_v(*old(preview)),
                    path,
                    populate_result(*r),
                ),
                None => !set && preview_v(*final(preview)) == preview_v(*old(preview)),
            },
            None => !set && preview_v(*final(preview)) == preview_v(*old(preview)),
        },
{
    let repo = match repo {
        Some(r) => r,
        None => return false,
    };
    let path = match crate::diff_target::diff_target_path(&repo.diff_target) {
        Some(p) => p,
        None => return false,
    };
    let result = populate_result_exec(repo);
    let same_path = opt_path_is(&preview.path, path.as_str());
    let ready = match &preview.lines {
        Loadable::Ready(_) => true,
        _ => false,
    };
    if ready && same_path {
        return false;
    }
    match result {
        None => false,
        Some(Ok(lines)) => {
            preview.path = Some(path);
            preview.lines = Loadable::Ready(lines);
            true
        },
        Some(Err(e)) => {
            let waiting = match &preview.lines {
                Loadable::NotLoaded | Loadable::Loading => true,
                _ => false,
            };
            if !same_path || waiting {
                preview.path = Some(path);
                preview.lines = Loadable::Error(e);
                true
            } else {
                false
            }
        },
    }
}

/// Points the preview at `path` and marks it loading when it shows another file; else
/// marks it loading again when nothing or an error has loaded. Returns whether it was
/// pointed at `path` anew (the caller then scrolls it to the top and drops its styled lines).
pub fn ensure_preview_loading(preview: &mut WorktreePreview, path: String) -> (moved: bool)
    ensures
        ({
            let (p0, l0) = preview_v(*old(preview));
            if !at_path(p0, path@) {
                moved && preview_v(*final(preview)) == (Some(path@), PreviewLinesV::Loading)
            } else if l0 is NotLoaded || l0 is Error {
                !moved && preview_v(*final(preview)) == (p0, PreviewLinesV::Loading)
            } else {
                !moved && preview_v(*final(preview)) == preview_v(*old(preview))
            }
        }),
{
    if !opt_path_is(&preview.path, path.as_str()) {
        preview.path = Some(path);
        preview.lines = Loadable::Loading;
        return true;
    }
    let reload = match &preview.lines {
        Loadable::NotLoaded | Loadable::Error(_) => true,
        _ => false,
    };
    if reload {
        preview.lines = Loadable::Loading;
    }
    false
}

/// Starts loading the file `path` into the preview unless it shows that file already and
/// its lines are loading or loaded. Returns whether a load starts: the preview then shows
/// `path` as loading, and the caller reads the file (see `finish_worktree_preview_load`),
/// scrolls the preview to the top and drops its styled lines.
pub fn ensure_worktree_preview_loaded(preview: &mut WorktreePreview, path: String) -> (start: bool)
    ensures
        ({
            let (p0, l0) = preview_v(*old(preview));
            &&& start == (!at_path(p0, path@) || l0 is Error || l0 is NotLoaded)
            &&& start ==> preview_v(*final(preview)) == (Some(path@), PreviewLinesV::Loading)
            &&& !start ==> preview_v(*final(preview)) == preview_v(*old(preview))
        }),
{
    let same = opt_path_is(&preview.path, path.as_str());
    let failed_or_idle = match &preview.lines {
        Loadable::Error(_) | Loadable::NotLoaded => true,
        _ => false,
    };
    if same && !failed_or_idle {
        return false;
    }
    preview.path = Some(path);
    preview.lines = Loadable::Loading;
    true
}

/// Takes the outcome of reading the file `path`: it becomes the preview's lines or error
/// when the preview still shows `path`; else it is dropped. Returns whether it was taken.
pub fn finish_worktree_preview_load(
    preview: &mut WorktreePreview,
    path: &str,
    result: Result<Vec<String>, String>,
) -> (taken: bool)
    ensures
        taken == at_path(preview_v(*old(preview)).0, path@),
        taken ==> preview_v(*final(preview)) == (preview_v(*old(preview)).0, match result {
            Ok(ls) => PreviewLinesV::Ready(strings_v(ls@)),
            Err(e) => PreviewLinesV::Error(e@),
        }),
        !taken ==> preview_v(*final(preview)) == preview_v(*old(preview)),
{
    if !opt_path_is(&preview.path, path) {
        return false;
    }
    preview.lines = match result {
        Ok(ls) => Loadable::Ready(ls),
        Err(e) => Loadable::Error(e),
    };
    true
}

/// The largest file the preview reads, in bytes.
pub const MAX_PREVIEW_BYTES: u64 = 2097152;

/// The message for a file too large to preview: `File is too large to preview (N bytes).`
pub open spec fn too_large_message(len: u64) -> Seq<char> {
    "File is too large to preview ("@ + decimal(len as nat) + " bytes)."@
}

/// The message for a file too large to preview (see `too_large_message`).
pub fn preview_too_large_message(len: u64) -> (s: String)
    ensures
        s@ == too_large_message(len),
{
    let mut s = String::from_str("File is too large to preview (");
    push_decimal(&mut s, len);
    push_str(&mut s, " bytes).");
    s
}


} // verus!
