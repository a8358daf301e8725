use gitgpui_view::diff_target::{
    diff_target_eq, image_format_for_extension, is_file_diff_target, opt_diff_target_eq, path_eq,
    DiffArea,
    DiffTarget, ImageFormat,
};

#[test]
fn diff_targets_compare_by_value() {
    let a = DiffTarget::WorkingTree { path: "a".to_string(), area: DiffArea::Staged };
    let b = DiffTarget::WorkingTree { path: "a".to_string(), area: DiffArea::Unstaged };
    let c = DiffTarget::Commit { commit_id: "1".to_string(), path: Some("a".to_string()) };
    let d = DiffTarget::Commit { commit_id: "1".to_string(), path: None };
    assert!(diff_target_eq(&a, &a.clone()));
    assert!(!diff_target_eq(&a, &b));
    assert!(!diff_target_eq(&c, &d));
    assert!(diff_target_eq(&c, &c.clone()));
    assert!(opt_diff_target_eq(&None, &None));
    assert!(!opt_diff_target_eq(&Some(a), &None));
}

#[test]
fn file_targets_are_working_tree_files_and_commit_files() {
    let wt = DiffTarget::WorkingTree { path: "a".to_string(), area: DiffArea::Staged };
    let cf = DiffTarget::Commit { commit_id: "1".to_string(), path: Some("a".to_string()) };
    let whole = DiffTarget::Commit { commit_id: "1".to_string(), path: None };
    assert!(is_file_diff_target(Some(&wt)));
    assert!(is_file_diff_target(Some(&cf)));
    assert!(!is_file_diff_target(Some(&whole)));
    assert!(!is_file_diff_target(None));
}

#[test]
fn image_formats_follow_extensions_in_any_case() {
    assert_eq!(image_format_for_extension("png"), Some(ImageFormat::Png));
    assert_eq!(image_format_for_extension("JPG"), Some(ImageFormat::Jpeg));
    assert_eq!(image_format_for_extension("Jpeg"), Some(ImageFormat::Jpeg));
    assert_eq!(image_format_for_extension("gif"), Some(ImageFormat::Gif));
    assert_eq!(image_format_for_extension("WebP"), Some(ImageFormat::Webp));
    assert_eq!(image_format_for_extension("bmp"), Some(ImageFormat::Bmp));
    assert_eq!(image_format_for_extension("SVG"), Some(ImageFormat::Svg));
    assert_eq!(image_format_for_extension("tif"), Some(ImageFormat::Tiff));
    assert_eq!(image_format_for_extension("TIFF"), Some(ImageFormat::Tiff));
    assert_eq!(image_format_for_extension("rs"), None);
    assert_eq!(image_format_for_extension(""), None);
}

#[test]
fn paths_compare_by_components() {
    assert!(path_eq("src/a.rs", "src/a.rs"));
    assert!(path_eq("src//a.rs", "src/a.rs"));
    assert!(path_eq("src/a.rs/", "src/a.rs"));
    assert!(path_eq("src/./a.rs", "src/a.rs"));
    assert!(path_eq("./src", "./src/"));
    assert!(!path_eq("./src", "src"));
    assert!(!path_eq("/src", "src"));
    assert!(!path_eq("src/../a.rs", "a.rs"));
    assert!(!path_eq("src/a.rs", "src/b.rs"));
    assert!(path_eq("", ""));
}

#[test]
fn diff_targets_compare_paths_by_components() {
    let a = DiffTarget::WorkingTree { path: "src//a.rs".to_string(), area: DiffArea::Unstaged };
    let b = DiffTarget::WorkingTree { path: "src/a.rs".to_string(), area: DiffArea::Unstaged };
    assert!(diff_target_eq(&a, &b));
    let c = DiffTarget::Commit { commit_id: "1".to_string(), path: Some("src/a.rs/".to_string()) };
    let d = DiffTarget::Commit { commit_id: "1".to_string(), path: Some("src/a.rs".to_string()) };
    assert!(diff_target_eq(&c, &d));
    assert!(opt_diff_target_eq(&Some(c), &Some(d)));
}
