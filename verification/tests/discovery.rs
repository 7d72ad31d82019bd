use asset_catalog::config::{PreviewPattern, ScanConfig};
use asset_catalog::discovery::{
    entry_names, first_named, first_set_in_both, folder_name_pass, has_image_extension,
    image_extension_list, image_marks, pattern_marks, resolve_preview, stem_marks, DirEntry,
};
use asset_catalog::pattern::CompiledPattern;

fn listing(dir: &str, names: &[&str]) -> Vec<DirEntry> {
    names
        .iter()
        .map(|n| DirEntry { name: n.to_string(), path: format!("{}/{}", dir, n) })
        .collect()
}

fn with_names(names: &[&str]) -> ScanConfig {
    let mut config = ScanConfig::new();
    config.set_preview_file_names(&names.iter().map(|n| n.to_string()).collect());
    config
}

fn chars(s: &str) -> Vec<char> {
    s.chars().collect()
}

#[test]
fn preview_name_wins_over_folder_name() {
    let config = ScanConfig::new();
    let files = listing("/assets/Robot", &["Robot.png", "Preview.png"]);
    assert_eq!(
        resolve_preview(&files, "Robot", &config, false),
        Some("/assets/Robot/Preview.png".to_string())
    );
    let mut with_fallback = ScanConfig::new();
    with_fallback.set_use_first_image(true);
    assert_eq!(
        resolve_preview(&files, "Robot", &with_fallback, true),
        Some("/assets/Robot/Preview.png".to_string())
    );
}

#[test]
fn literal_name_is_the_whole_stem_up_to_case() {
    let mut config = ScanConfig::new();
    config.set_use_folder_name(false);
    let f = |names: &[&str]| resolve_preview(&listing("/d", names), "d", &config, false);
    assert_eq!(f(&["preview.JPG"]), Some("/d/preview.JPG".to_string()));
    assert_eq!(f(&["PREVIEW.webp"]), Some("/d/PREVIEW.webp".to_string()));
    assert_eq!(f(&["Preview1.png"]), None);
    assert_eq!(f(&["Preview.txt"]), None);
    assert_eq!(f(&["Preview"]), None);
    assert_eq!(f(&["Preview.old.png"]), None);
    assert_eq!(f(&["asset.svg"]), Some("/d/asset.svg".to_string()));
}

#[test]
fn first_pattern_that_hits_decides_and_then_listing_order() {
    let config = ScanConfig::new();
    assert_eq!(
        resolve_preview(&listing("/d", &["Asset.png", "Preview.png"]), "d", &config, false),
        Some("/d/Preview.png".to_string())
    );
    assert_eq!(
        resolve_preview(&listing("/d", &["preview.jpg", "Preview.png"]), "d", &config, false),
        Some("/d/preview.jpg".to_string())
    );
    assert_eq!(
        resolve_preview(&listing("/d", &["x.png", "Asset.bmp"]), "d", &config, false),
        Some("/d/Asset.bmp".to_string())
    );
}

#[test]
fn anchored_name_is_a_regular_expression_on_the_whole_file_name() {
    let mut config = with_names(&["^(?i)thumb.*"]);
    config.set_use_folder_name(false);
    let files = listing("/d", &["notes.txt", "thumb.txt", "Thumbnail.PNG", "thumb.png"]);
    assert_eq!(resolve_preview(&files, "d", &config, false), Some("/d/Thumbnail.PNG".to_string()));

    let mut strict = with_names(&["^thumb"]);
    strict.set_use_folder_name(false);
    assert_eq!(resolve_preview(&listing("/d", &["Thumb.png"]), "d", &strict, false), None);
    assert_eq!(
        resolve_preview(&listing("/d", &["Thumb.png", "thumb_2.tga"]), "d", &strict, false),
        Some("/d/thumb_2.tga".to_string())
    );

    let mut suffix = with_names(&["^.*_00\\.png$"]);
    suffix.set_use_folder_name(false);
    assert_eq!(
        resolve_preview(&listing("/d", &["a_01.png", "a_00.png", "b_00.png"]), "d", &suffix, false),
        Some("/d/a_00.png".to_string())
    );
}

#[test]
fn pattern_that_does_not_compile_is_passed_over() {
    let mut config = with_names(&["^(", "Asset"]);
    config.set_use_folder_name(false);
    let files = listing("/d", &["(.png", "Asset.png"]);
    assert_eq!(resolve_preview(&files, "d", &config, false), Some("/d/Asset.png".to_string()));
    let only_bad = with_names(&["^("]);
    assert_eq!(resolve_preview(&files, "x", &only_bad, false), None);
}

#[test]
fn folder_name_pass_tries_the_extensions_in_their_order() {
    let config = with_names(&[]);
    let files = listing("/a/MyAsset", &["myasset.JPG", "MyAsset.png", "other.png"]);
    assert_eq!(
        resolve_preview(&files, "MyAsset", &config, false),
        Some("/a/MyAsset/MyAsset.png".to_string())
    );
    let files = listing("/a/MyAsset", &["myasset.svg", "MYASSET.JPEG"]);
    assert_eq!(
        resolve_preview(&files, "MyAsset", &config, false),
        Some("/a/MyAsset/MYASSET.JPEG".to_string())
    );
    let mut off = with_names(&[]);
    off.set_use_folder_name(false);
    assert_eq!(resolve_preview(&files, "MyAsset", &off, false), None);
    assert_eq!(resolve_preview(&listing("/a/MyAsset", &["MyAsset.gif"]), "MyAsset", &config, false), None);
}

#[test]
fn first_image_is_the_last_resort() {
    let files = listing("/d", &["readme.md", "b.webp", "a.png"]);
    let config = ScanConfig::new();
    assert_eq!(resolve_preview(&files, "d", &config, false), None);
    assert_eq!(resolve_preview(&files, "d", &config, true), Some("/d/b.webp".to_string()));
    let mut on = ScanConfig::new();
    on.set_use_first_image(true);
    assert_eq!(resolve_preview(&files, "d", &on, false), Some("/d/b.webp".to_string()));
    assert_eq!(resolve_preview(&listing("/d", &["readme.md"]), "d", &on, true), None);
    assert_eq!(resolve_preview(&Vec::new(), "d", &on, true), None);
}

#[test]
fn supported_image_extensions() {
    let list: Vec<String> = image_extension_list().iter().map(|e| e.iter().collect()).collect();
    assert_eq!(list, vec!["png", "jpeg", "jpg", "bmp", "tga", "webp", "svg"]);
    for name in ["a.png", "a.jpeg", "a.jpg", "a.bmp", "a.tga", "a.webp", "a.svg", "a.PNG", "a.JpEg"] {
        assert!(has_image_extension(&chars(name)));
    }
    for name in ["a.gif", "a.pngx", "png", ".png", "a.png.txt", "a.", "a"] {
        assert!(!has_image_extension(&chars(name)));
    }
}

#[test]
fn first_position_set_in_both_lists() {
    assert_eq!(first_set_in_both(&vec![false, true, true], &vec![true, false, true]), Some(2));
    assert_eq!(first_set_in_both(&vec![true, true], &vec![true, true]), Some(0));
    assert_eq!(first_set_in_both(&vec![true, false], &vec![false, true]), None);
    assert_eq!(first_set_in_both(&Vec::new(), &Vec::new()), None);
    assert_eq!(first_set_in_both(&vec![false, true], &vec![false]), None);
    assert_eq!(first_set_in_both(&vec![true], &vec![true, true]), Some(0));
}

#[test]
fn passes_one_by_one() {
    let files = listing("/d", &["x.txt", "Cover.png", "d.jpg", "cover.bmp"]);
    let names = entry_names(&files);
    assert_eq!(names.len(), 4);
    assert_eq!(names[1], chars("Cover.png"));
    let images = image_marks(&names);
    assert_eq!(images, vec![false, true, true, true]);
    assert_eq!(stem_marks(&names, &chars("COVER")), vec![false, true, false, true]);
    assert_eq!(first_named(&names, &chars("D.JPG")), Some(2));
    assert_eq!(first_named(&names, &chars("d.png")), None);
    assert_eq!(first_set_in_both(&images, &images), Some(1));
    assert_eq!(folder_name_pass(&names, &chars("d")), Some(2));
    assert_eq!(folder_name_pass(&names, &chars("cover")), Some(1));
    assert_eq!(folder_name_pass(&names, &chars("x")), None);
}

#[test]
fn names_are_classified_when_they_are_set() {
    let kind = |name: &str| {
        let pattern = PreviewPattern::classify(name);
        (pattern.is_pattern(), pattern.source().clone())
    };
    assert_eq!(kind("Preview"), (false, "Preview".to_string()));
    assert_eq!(kind("^thumb"), (true, "^thumb".to_string()));
    assert_eq!(kind("x^"), (false, "x^".to_string()));
    assert_eq!(kind(""), (false, String::new()));
    assert_eq!(kind("^"), (true, "^".to_string()));
    assert_eq!(kind("^("), (true, "^(".to_string()));
}

#[test]
fn regular_expression_is_compiled_once_and_asked_of_each_name() {
    let thumb = CompiledPattern::new("^(?i)thumb.*\\.png$");
    assert_eq!(thumb.source(), "^(?i)thumb.*\\.png$");
    assert!(thumb.compiles());
    assert!(thumb.hits("Thumbnail.png"));
    assert!(thumb.hits("THUMB.png"));
    assert!(!thumb.hits("thumb.jpg"));
    assert!(!thumb.hits("a thumb.png"));
    assert!(!thumb.hits(""));
    let anywhere = CompiledPattern::new("b+");
    assert!(anywhere.hits("abba"));
    assert!(!anywhere.hits("aa"));
    let broken = CompiledPattern::new("^(");
    assert!(!broken.compiles());
    assert!(!broken.hits("^("));
    assert!(!broken.hits("("));
    let files = listing("/d", &["notes.txt", "Thumbnail.png", "thumb.png"]);
    assert_eq!(pattern_marks(&files, &thumb), vec![false, true, true]);
    assert_eq!(pattern_marks(&files, &broken), vec![false, false, false]);
    assert_eq!(pattern_marks(&Vec::new(), &thumb), Vec::<bool>::new());
}
