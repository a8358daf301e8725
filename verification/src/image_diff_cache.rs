use vstd::prelude::*;
use crate::branch_sidebar::Loadable;
use crate::diff_target::{
    clone_opt_target, is_file_diff_target, is_file_target, opt_diff_target_eq, opt_target_v, same_opt_target,
    DiffTarget, ImageFormat,
};
use crate::file_diff_cache::FileDiffCacheNext;

verus! {

/// The old and new bytes of an image file whose diff is shown.
#[derive(Clone, Debug, PartialEq, Eq)]
pub struct FileDiffImage {
    pub path: String,
    pub old: Option<Vec<u8>>,
    pub new: Option<Vec<u8>>,
}

/// What the image diff needs of the active repository: its id, the revision of its file
/// diff, what the diff view shows, and the file's bytes once loaded.
#[derive(Clone, Debug)]
pub struct ImageDiffRepo {
    pub id: u64,
    pub diff_file_rev: u64,
    pub diff_target: Option<DiffTarget>,
    pub diff_file_image: Loadable<Option<FileDiffImage>>,
}

/// The image diff as the view shows it: which repository, revision and target it was built
/// for, the file's path, and its old and new image (`I`, decoded by the caller).
#[derive(Clone, Debug)]
pub struct ImageDiffCache<I> {
    pub repo_id: Option<u64>,
    pub rev: u64,
    pub target: Option<DiffTarget>,
    pub path: Option<String>,
    pub old: Option<I>,
    pub new: Option<I>,
}

/// What bringing the image diff up to date with `repo` needs (as for the whole-file diff).
pub open spec fn image_diff_next<I>(c: ImageDiffCache<I>, repo: Option<ImageDiffRepo>) -> FileDiffCacheNext {
    match repo {
        None => FileDiffCacheNext::Clear,
        Some(r) => if !is_file_target(r.diff_target) {
            FileDiffCacheNext::Clear
        } else if c.repo_id == Some(r.id) && c.rev == r.diff_file_rev && same_opt_target(
            opt_target_v(c.target),
            opt_target_v(r.diff_target),
        ) {
            FileDiffCacheNext::Noop
        } else {
            match r.diff_file_image {
                Loadable::Ready(Some(_)) => FileDiffCacheNext::Rebuild,
                _ => FileDiffCacheNext::Reset,
            }
        },
    }
}

/// The cache holds no path and no image.
pub open spec fn holds_no_image<I>(c: ImageDiffCache<I>) -> bool {
    c.path is None && c.old is None && c.new is None
}

/// The cache emptied: no repository, revision 0, no target, nothing held.
pub open spec fn image_cleared<I>(c: ImageDiffCache<I>) -> bool {
    c.repo_id is None && c.rev == 0 && c.target is None && holds_no_image(c)
}

/// The cache emptied and marked as built for `r`, whose file is not loaded.
pub open spec fn image_reset_for<I>(c: ImageDiffCache<I>, r: ImageDiffRepo) -> bool {
    &&& c.repo_id == Some(r.id)
    &&& c.rev == r.diff_file_rev
    &&& opt_target_v(c.target) == opt_target_v(r.diff_target)
    &&& holds_no_image(c)
}

/// Brings the image diff up to date with the active repository `repo` (see
/// `image_diff_next`): clears it when no file is shown, leaves it when current, and marks
/// it as built for `repo` with no image while the file loads. Returns whether the file is
/// loaded and its images are to be decoded: the caller then decodes the sides that
/// `image_sides_to_decode` names and hands them to `rebuild_image_diff_cache`.
pub fn ensure_file_image_diff_cache<I>(cache: &mut ImageDiffCache<I>, repo: Option<&ImageDiffRepo>) -> (needs_images: bool)
    ensures
        ({
            let r = match repo {
                Some(r) => Some(*r),
                None => None,
            };
            match image_diff_next(*old(cache), r) {
                FileDiffCacheNext::Clear => !needs_images && image_cleared(*final(cache)),
                FileDiffCacheNext::Noop => !needs_images && *final(cache) == *old(cache),
                FileDiffCacheNext::Reset => !needs_images && image_reset_for(*final(cache), r.unwrap()),
                FileDiffCacheNext::Rebuild => needs_images && *final(cache) == *old(cache),
            }
        }),
{
    let r = match repo {
        None => {
            cache.repo_id = None;
            cache.target = None;
            cache.rev = 0;
            cache.path = None;
            cache.old = None;
            cache.new = None;
            return false;
        },
        Some(r) => r,
    };
    if !is_file_diff_target(r.diff_target.as_ref()) {
        cache.repo_id = None;
        cache.target = None;
        cache.rev = 0;
        cache.path = None;
        cache.old = None;
        cache.new = None;
        return false;
    }
    if cache.repo_id == Some(r.id) && cache.rev == r.diff_file_rev && opt_diff_target_eq(
        &cache.target,
        &r.diff_target,
    ) {
        return false;
    }
    match &r.diff_file_image {
        Loadable::Ready(Some(_)) => true,
        _ => {
            cache.repo_id = Some(r.id);
            cache.rev = r.diff_file_rev;
            cache.target = clone_opt_target(&r.diff_target);
            cache.path = None;
            cache.old = None;
            cache.new = None;
            false
        },
    }
}

/// Which sides of an image file to decode, in `format` (the format its path names, if any):
/// a side that has bytes, when the path names a format.
pub fn image_sides_to_decode(file: &FileDiffImage, format: Option<ImageFormat>) -> (r: (bool, bool))
    ensures
        r == (file.old is Some && format is Some, file.new is Some && format is Some),
{
    (file.old.is_some() && format.is_some(), file.new.is_some() && format.is_some())
}

/// Fills the image diff for the loaded image file of `repo` with its decoded images: marks
/// it as built for `repo` and keeps the file's path.
pub fn rebuild_image_diff_cache<I>(cache: &mut ImageDiffCache<I>, repo: &ImageDiffRepo, old: Option<I>, new: Option<I>)
    requires
        repo.diff_file_image matches Loadable::Ready(Some(_)),
    ensures
        final(cache).repo_id == Some(repo.id),
        final(cache).rev == repo.diff_file_rev,
        opt_target_v(final(cache).target) == opt_target_v(repo.diff_target),
        final(cache).path matches Some(p) && repo.diff_file_image matches Loadable::Ready(Some(f)) && p@
            == f.path@,
        final(cache).old == old,
        final(cache).new == new,
{
    let path = match &repo.diff_file_image {
        Loadable::Ready(Some(f)) => f.path.clone(),
        _ => String::new(),
    };
    cache.repo_id = Some(repo.id);
    cache.rev = repo.diff_file_rev;
    cache.target = clone_opt_target(&repo.diff_target);
    cache.path = Some(path);
    cache.old = old;
    cache.new = new;
}

/// Whether the image diff is shown: it was built for the active repository's current file
/// diff and target, holds a file, and has an image on at least one side.
pub fn is_file_image_diff_view_active<I>(cache: &ImageDiffCache<I>, repo: Option<&ImageDiffRepo>) -> (r: bool)
    ensures
        r == match repo {
            None => false,
            Some(rp) => cache.repo_id == Some(rp.id) && cache.rev == rp.diff_file_rev
                && same_opt_target(opt_target_v(cache.target), opt_target_v(rp.diff_target))
                && cache.path is Some && (cache.old is Some
                || cache.new is Some),
        },
{
    match repo {
        None => false,
        Some(r) => cache.repo_id == Some(r.id) && cache.rev == r.diff_file_rev && opt_diff_target_eq(
            &cache.target,
            &r.diff_target,
        ) && cache.path.is_some() && (cache.old.is_some() || cache.new.is_some()),
    }
}

} // verus!
