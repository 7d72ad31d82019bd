use asset_catalog::asset::{AssetData, AssetUpdate, CatalogError};
use asset_catalog::catalog::{Catalog, StoredRow};
use asset_catalog::config::{PreviewPattern, ScanConfig};
use asset_catalog::discovery::DirEntry;
use asset_catalog::manager::{cut_page, first_of_page, AssetManager};
use asset_catalog::scanner::{walk_error_aborts, Directory, Metadata};

fn kinds(patterns: &Vec<PreviewPattern>) -> Vec<(bool, &str)> {
    patterns.iter().map(|p| (p.is_pattern(), p.source().as_str())).collect()
}

fn add(manager: &mut AssetManager, name: &str, path: &str) -> Result<i64, CatalogError> {
    manager.add_asset(name.to_string(), path.to_string(), String::new(), Vec::new())
}

#[test]
fn configuration_starts_with_its_defaults() {
    let config = ScanConfig::new();
    assert_eq!(config.get_page_size(), 50);
    assert_eq!(config.use_first_image(), false);
    assert_eq!(config.use_folder_name(), true);
    assert_eq!(kinds(config.preview_names()), vec![(false, "Preview"), (false, "Asset")]);
    let manager = AssetManager::new();
    assert_eq!(manager.get_page_size(), 50);
    assert_eq!(manager.get_error(), None);
    assert_eq!(manager.get_asset_count(), 0);
    assert_eq!(manager.get_pages(), 0);
    assert_eq!(manager.config().use_folder_name(), true);
}

#[test]
fn page_size_is_at_least_one() {
    let mut manager = AssetManager::new();
    manager.set_page_size(0);
    assert_eq!(manager.get_page_size(), 1);
    manager.set_page_size(-20);
    assert_eq!(manager.get_page_size(), 1);
    manager.set_page_size(7);
    assert_eq!(manager.get_page_size(), 7);
    manager.set_page_size(i64::MAX);
    assert_eq!(manager.get_page_size(), i64::MAX);
    assert!(add(&mut manager, "a", "/a").is_ok());
    assert_eq!(manager.get_pages(), 1);
    manager.set_page_size(1);
    assert!(add(&mut manager, "b", "/b").is_ok());
    assert_eq!(manager.get_pages(), 2);
}

#[test]
fn setters_change_one_knob_each() {
    let mut manager = AssetManager::new();
    manager.set_use_first_image(true);
    manager.set_use_folder_name(false);
    manager.set_preview_file_names(&vec!["Cover".to_string(), "^(?i)thumb".to_string()]);
    let config = manager.config();
    assert_eq!(config.use_first_image(), true);
    assert_eq!(config.use_folder_name(), false);
    assert_eq!(config.get_page_size(), 50);
    assert_eq!(kinds(config.preview_names()), vec![(false, "Cover"), (true, "^(?i)thumb")]);
    let dir = Directory {
        path: "/d".to_string(),
        name: Some("d".to_string()),
        entries: vec![
            DirEntry { name: "d.png".to_string(), path: "/d/d.png".to_string() },
            DirEntry { name: "THUMB.png".to_string(), path: "/d/THUMB.png".to_string() },
        ],
        metadata: Metadata::Absent,
    };
    let outcome = manager.scan_directory(&dir);
    assert_eq!(outcome.indexed, Some(1));
    assert_eq!(
        manager.get_asset(1).ok().and_then(|a| a.image_path),
        Some("/d/THUMB.png".to_string())
    );
}

#[test]
fn added_asset_without_image_text_has_no_image() {
    let mut manager = AssetManager::new();
    assert_eq!(
        manager.add_asset(
            "Wizard".to_string(),
            "/w".to_string(),
            String::new(),
            vec!["fantasy".to_string()]
        ),
        Ok(1)
    );
    assert_eq!(
        manager.add_asset("Robot".to_string(), "/r".to_string(), "/r/p.png".to_string(), Vec::new()),
        Ok(2)
    );
    assert_eq!(
        manager.get_asset(1),
        Ok(AssetData {
            name: "Wizard".to_string(),
            path: "/w".to_string(),
            image_path: None,
            tags: vec!["fantasy".to_string()],
        })
    );
    assert_eq!(
        manager.get_asset(2).map(|a| a.image_path),
        Ok(Some("/r/p.png".to_string()))
    );
}

#[test]
fn failed_write_is_retained_as_the_last_error() {
    let mut manager = AssetManager::new();
    assert_eq!(add(&mut manager, "a", "/a"), Ok(1));
    assert_eq!(manager.get_error(), None);
    assert_eq!(add(&mut manager, "b", "/a"), Err(CatalogError::WriteFailed));
    assert_eq!(manager.get_error(), Some(CatalogError::WriteFailed));
    assert_eq!(manager.get_asset_count(), 1);
    assert_eq!(manager.get_pages(), 1);
    assert_eq!(manager.get_error(), Some(CatalogError::WriteFailed));
    assert_eq!(add(&mut manager, "b", "/b"), Ok(2));
    assert_eq!(manager.get_error(), None);
}

#[test]
fn unknown_identifier_is_not_found() {
    let mut manager = AssetManager::new();
    assert_eq!(add(&mut manager, "a", "/a"), Ok(1));
    assert_eq!(manager.get_asset(2), Err(CatalogError::NotFound));
    assert_eq!(manager.get_error(), Some(CatalogError::NotFound));
    assert!(manager.get_asset(1).is_ok());
    assert_eq!(manager.get_error(), None);
}

#[test]
fn update_through_the_handle() {
    let mut manager = AssetManager::new();
    assert_eq!(add(&mut manager, "a", "/a"), Ok(1));
    assert_eq!(add(&mut manager, "b", "/b"), Ok(2));
    assert_eq!(manager.update_asset(1, &AssetUpdate::new()), Err(CatalogError::InvalidInput));
    assert_eq!(manager.get_error(), Some(CatalogError::InvalidInput));
    let mut update = AssetUpdate::new();
    update.path = Some("/b".to_string());
    assert_eq!(manager.update_asset(1, &update), Err(CatalogError::WriteFailed));
    assert_eq!(manager.get_error(), Some(CatalogError::WriteFailed));
    assert_eq!(manager.update_asset(99, &update), Ok(()));
    assert_eq!(manager.get_error(), None);
    update.path = Some("/c".to_string());
    assert_eq!(manager.update_asset(1, &update), Ok(()));
    assert_eq!(manager.get_asset(1).map(|a| a.path), Ok("/c".to_string()));
}

#[test]
fn update_with_an_empty_image_clears_the_image_alone() {
    let mut manager = AssetManager::new();
    let id = manager
        .add_asset("A".to_string(), "/a".to_string(), "/a/p.png".to_string(), Vec::new())
        .unwrap();
    assert_eq!(manager.get_asset(id).map(|a| a.image_path), Ok(Some("/a/p.png".to_string())));
    let mut update = AssetUpdate::new();
    update.image_path = Some(None);
    assert_eq!(manager.update_asset(id, &update), Ok(()));
    assert_eq!(manager.get_error(), None);
    assert_eq!(
        manager.get_asset(id),
        Ok(AssetData {
            name: "A".to_string(),
            path: "/a".to_string(),
            image_path: None,
            tags: Vec::new(),
        })
    );
}

#[test]
fn unreadable_root_fails_the_scan_and_other_entries_are_passed_over() {
    assert!(walk_error_aborts(0));
    assert!(!walk_error_aborts(1));
    assert!(!walk_error_aborts(7));
    assert!(!walk_error_aborts(usize::MAX));
    let mut manager = AssetManager::new();
    assert!(!manager.walk_failed(3));
    assert_eq!(manager.get_error(), None);
    assert!(manager.walk_failed(0));
    assert_eq!(manager.get_error(), Some(CatalogError::ReadFailed));
    assert!(!manager.walk_failed(1));
    assert_eq!(manager.get_error(), Some(CatalogError::ReadFailed));
    assert_eq!(manager.get_asset_count(), 0);
}

#[test]
fn delete_through_the_handle() {
    let mut manager = AssetManager::new();
    assert_eq!(add(&mut manager, "a", "/a"), Ok(1));
    assert_eq!(manager.delete_asset(5, true), Ok(()));
    assert_eq!(manager.get_asset_count(), 1);
    assert_eq!(manager.delete_asset(1, true), Ok(()));
    assert_eq!(manager.get_asset_count(), 0);
    assert_eq!(manager.get_error(), None);
    assert!(manager.catalog().unwrap().is_tombstoned("/a"));
    assert!(manager.skips("/a"));
    assert!(!manager.skips("/b"));
    assert_eq!(add(&mut manager, "b", "/b"), Ok(2));
    assert!(manager.skips("/b"));
    assert!(manager.catalog().unwrap().skips("/b"));
    assert!(!manager.catalog().unwrap().skips("/b/c"));
    assert!(!AssetManager::unavailable().skips("/a"));
    assert_eq!(add(&mut manager, "a", "/a"), Ok(3));
}

#[test]
fn unreachable_store_degrades_to_safe_defaults() {
    let mut manager = AssetManager::unavailable();
    assert_eq!(manager.get_error(), Some(CatalogError::StoreUnavailable));
    assert!(manager.catalog().is_none());
    assert_eq!(manager.get_asset_count(), 0);
    assert_eq!(manager.get_pages(), 0);
    assert_eq!(add(&mut manager, "a", "/a"), Err(CatalogError::StoreUnavailable));
    assert_eq!(manager.get_asset(1), Err(CatalogError::StoreUnavailable));
    let mut update = AssetUpdate::new();
    update.name = Some("n".to_string());
    assert_eq!(manager.update_asset(1, &update), Err(CatalogError::StoreUnavailable));
    assert_eq!(manager.update_asset(1, &AssetUpdate::new()), Err(CatalogError::InvalidInput));
    assert_eq!(manager.delete_asset(1, true), Err(CatalogError::StoreUnavailable));
    let page = manager.get_assets(3);
    assert!(page.items.is_empty());
    assert_eq!((page.page_number, page.page_size, page.total_pages), (3, 50, 0));
    assert_eq!(manager.get_error(), Some(CatalogError::StoreUnavailable));
    let page = manager.search("a", 0);
    assert!(page.items.is_empty());
    assert_eq!((page.page_number, page.page_size, page.total_pages), (1, 50, 0));
}

#[test]
fn handle_on_a_catalog_that_was_read_back() {
    let rows = vec![StoredRow {
        id: 3,
        name: "kept".to_string(),
        path: "/kept".to_string(),
        image_path: Some("/kept/p.png".to_string()),
        tags: Some("[\"old\"]".to_string()),
    }];
    let catalog = Catalog::restore(&rows, vec!["/gone".to_string()], 3).ok().unwrap();
    let mut manager = AssetManager::with_catalog(catalog);
    assert_eq!(manager.get_asset_count(), 1);
    assert_eq!(manager.get_asset(3).map(|a| a.tags), Ok(vec!["old".to_string()]));
    assert_eq!(add(&mut manager, "new", "/new"), Ok(4));
    assert_eq!(manager.search("tag:old", 1).items.len(), 1);
    manager.record_failure(CatalogError::ReadFailed);
    assert_eq!(manager.get_error(), Some(CatalogError::ReadFailed));
    manager.set_page_size(9);
    manager.detach();
    assert!(manager.catalog().is_none());
    assert_eq!(manager.get_error(), Some(CatalogError::StoreUnavailable));
    assert_eq!(manager.get_asset_count(), 0);
    manager.attach(Catalog::restore(&rows, Vec::new(), 0).ok().unwrap());
    assert_eq!(manager.get_asset_count(), 1);
    assert_eq!(manager.get_page_size(), 9);
    assert_eq!(manager.get_error(), Some(CatalogError::StoreUnavailable));
    assert_eq!(add(&mut manager, "next", "/next"), Ok(4));
    assert_eq!(manager.get_error(), None);
    let broken = Catalog::restore(&vec![rows[0].clone(), rows[0].clone()], Vec::new(), 0);
    assert_eq!(broken.err(), Some(CatalogError::ReadFailed));
}

#[test]
fn page_requests_are_clamped_and_never_overflow() {
    assert_eq!(first_of_page(1, 50), 0);
    assert_eq!(first_of_page(0, 50), 0);
    assert_eq!(first_of_page(-7, 50), 0);
    assert_eq!(first_of_page(3, 50), 100);
    assert_eq!(first_of_page(2, 1), 1);
    assert_eq!(first_of_page(i64::MAX, 1), i64::MAX - 1);
    assert_eq!(first_of_page(i64::MAX, 2), i64::MAX);
    assert_eq!(first_of_page(i64::MAX, i64::MAX), i64::MAX);
    assert_eq!(first_of_page(2, i64::MAX), i64::MAX);

    let mut manager = AssetManager::new();
    for name in ["c", "a", "b"] {
        assert!(add(&mut manager, name, name).is_ok());
    }
    manager.set_page_size(2);
    let names = |m: &mut AssetManager, page: i64| -> Vec<String> {
        m.get_assets(page).items.iter().map(|e| e.data.name.clone()).collect()
    };
    assert_eq!(names(&mut manager, 1), vec!["a", "b"]);
    assert_eq!(names(&mut manager, 0), vec!["a", "b"]);
    assert_eq!(names(&mut manager, i64::MIN), vec!["a", "b"]);
    assert_eq!(names(&mut manager, 2), vec!["c"]);
    assert_eq!(names(&mut manager, i64::MAX), Vec::<String>::new());
    let page = manager.get_assets(-1);
    assert_eq!((page.page_number, page.page_size, page.total_pages), (1, 2, 2));
    manager.set_page_size(i64::MAX);
    assert_eq!(names(&mut manager, 1), vec!["a", "b", "c"]);
    assert_eq!(names(&mut manager, 2), Vec::<String>::new());
    let cut = cut_page(manager.catalog().unwrap().entries(), 2, 2);
    assert_eq!(cut.items.len(), 1);
    assert_eq!((cut.page_number, cut.page_size, cut.total_pages), (2, 2, 2));
}
