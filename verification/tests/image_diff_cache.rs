use gitgpui_view::branch_sidebar::Loadable;
use gitgpui_view::diff_target::{DiffArea, DiffTarget, ImageFormat};
use gitgpui_view::image_diff_cache::{
    ensure_file_image_diff_cache, image_sides_to_decode, is_file_image_diff_view_active,
    rebuild_image_diff_cache, FileDiffImage, ImageDiffCache, ImageDiffRepo,
};

fn empty() -> ImageDiffCache<String> {
    ImageDiffCache { repo_id: None, rev: 0, target: None, path: None, old: None, new: None }
}

fn repo(img: Loadable<Option<FileDiffImage>>) -> ImageDiffRepo {
    ImageDiffRepo {
        id: 2,
        diff_file_rev: 1,
        diff_target: Some(DiffTarget::WorkingTree { path: "i.png".to_string(), area: DiffArea::Staged }),
        diff_file_image: img,
    }
}

fn file() -> FileDiffImage {
    FileDiffImage { path: "i.png".to_string(), old: None, new: Some(vec![1, 2, 3]) }
}

#[test]
fn image_diff_is_built_once_per_revision() {
    let mut c = empty();
    let r = repo(Loadable::Ready(Some(file())));
    assert!(ensure_file_image_diff_cache(&mut c, Some(&r)));
    assert_eq!(image_sides_to_decode(&file(), Some(ImageFormat::Png)), (false, true));
    assert_eq!(image_sides_to_decode(&file(), None), (false, false));
    rebuild_image_diff_cache(&mut c, &r, None, Some("decoded".to_string()));
    assert!(is_file_image_diff_view_active(&c, Some(&r)));
    assert!(!ensure_file_image_diff_cache(&mut c, Some(&r)));
    assert_eq!(c.new.as_deref(), Some("decoded"));
}

#[test]
fn image_diff_without_images_is_not_shown() {
    let mut c = empty();
    let r = repo(Loadable::Ready(Some(file())));
    rebuild_image_diff_cache(&mut c, &r, None, None);
    assert!(!is_file_image_diff_view_active(&c, Some(&r)));
    let waiting = repo(Loadable::Loading);
    let mut c2 = empty();
    assert!(!ensure_file_image_diff_cache(&mut c2, Some(&waiting)));
    assert_eq!(c2.repo_id, Some(2));
    assert!(c2.path.is_none());
    assert!(!ensure_file_image_diff_cache(&mut c2, None));
    assert_eq!(c2.repo_id, None);
}
