use asset_catalog::asset::{AssetData, CatalogError};
use asset_catalog::catalog::Catalog;
use asset_catalog::config::ScanConfig;
use asset_catalog::discovery::DirEntry;
use asset_catalog::manager::AssetManager;
use asset_catalog::scanner::{id_of, scan_walk, visit_directory, Directory, Metadata, Outcome, Visited};

fn directory(path: &str, files: &[&str], metadata: Metadata) -> Directory {
    Directory {
        path: path.to_string(),
        name: path.rsplit('/').next().filter(|n| !n.is_empty()).map(|n| n.to_string()),
        entries: files
            .iter()
            .map(|f| DirEntry { name: f.to_string(), path: format!("{}/{}", path, f) })
            .collect(),
        metadata,
    }
}

fn record(name: &str, path: &str, image: Option<&str>, tags: &[&str]) -> AssetData {
    AssetData {
        name: name.to_string(),
        path: path.to_string(),
        image_path: image.map(|i| i.to_string()),
        tags: tags.iter().map(|t| t.to_string()).collect(),
    }
}

fn skipped() -> Outcome {
    Outcome { pruned: true, indexed: None, removed: Vec::new(), rewrite: None }
}

fn at(depth: usize, dir: Directory) -> Visited {
    Visited { depth, dir }
}

fn tree() -> Vec<Visited> {
    vec![
        at(0, directory("/root", &["readme.md"], Metadata::Absent)),
        at(1, directory("/root/chars", &[], Metadata::Absent)),
        at(2, directory("/root/chars/Wizard", &["Preview.png", "mesh.obj"], Metadata::Absent)),
        at(3, directory("/root/chars/Wizard/textures", &["Preview.png"], Metadata::Absent)),
        at(2, directory("/root/chars/Robot", &["robot.JPG"], Metadata::Absent)),
        at(1, directory("/root/props", &["a.png"], Metadata::Unusable)),
        at(2, directory("/root/props/Crate", &["Crate.png"], Metadata::Absent)),
        at(1, directory("/root/empty", &["notes.txt"], Metadata::Absent)),
        at(2, directory("/root/empty/deep", &["asset.webp"], Metadata::Absent)),
    ]
}

#[test]
fn directory_with_a_preview_image_is_stored_and_pruned() {
    let mut catalog = Catalog::new();
    let config = ScanConfig::new();
    let dir = directory("/assets/Wizard", &["mesh.obj", "Preview.png"], Metadata::Absent);
    let outcome = visit_directory(&mut catalog, &config, &dir);
    assert_eq!(
        outcome,
        Outcome { pruned: true, indexed: Some(1), removed: Vec::new(), rewrite: None }
    );
    assert_eq!(
        catalog.get(1),
        Some(record("Wizard", "/assets/Wizard", Some("/assets/Wizard/Preview.png"), &[]))
    );
}

#[test]
fn directory_without_image_or_metadata_is_descended_into() {
    let mut catalog = Catalog::new();
    let config = ScanConfig::new();
    let dir = directory("/assets", &["notes.txt", "a.png"], Metadata::Absent);
    let outcome = visit_directory(&mut catalog, &config, &dir);
    assert_eq!(
        outcome,
        Outcome { pruned: false, indexed: None, removed: Vec::new(), rewrite: None }
    );
    assert_eq!(catalog.count(), 0);
}

#[test]
fn second_scan_of_the_same_tree_stores_nothing() {
    let mut catalog = Catalog::new();
    let config = ScanConfig::new();
    let walk = tree();
    let first = scan_walk(&mut catalog, &config, &walk);
    assert_eq!(catalog.count(), 4);
    let stored: Vec<Option<i64>> =
        first.iter().map(|o| o.as_ref().and_then(|o| o.indexed)).collect();
    assert_eq!(
        stored,
        vec![None, None, Some(1), None, Some(2), Some(3), None, None, Some(4)]
    );
    let passed: Vec<bool> = first.iter().map(|o| o.is_none()).collect();
    assert_eq!(passed, vec![false, false, false, true, false, false, true, false, false]);
    let paths: Vec<String> = catalog.entries().iter().map(|e| e.data.path.clone()).collect();
    assert_eq!(
        paths,
        vec!["/root/empty/deep", "/root/props", "/root/chars/Robot", "/root/chars/Wizard"]
    );
    let before = catalog.entries().clone();

    let second = scan_walk(&mut catalog, &config, &walk);
    assert_eq!(catalog.count(), 4);
    assert_eq!(catalog.entries(), &before);
    assert_eq!(catalog.next_id(), 5);
    assert!(second.iter().all(|o| match o {
        Some(o) => o.indexed.is_none() && o.removed.is_empty(),
        None => true,
    }));
    assert_eq!(second[2], Some(skipped()));
    assert_eq!(second[3], None);
    assert_eq!(second[5], Some(skipped()));
}

#[test]
fn tombstoned_path_is_not_stored_again() {
    let mut manager = AssetManager::new();
    let walk = tree();
    manager.find_assets(&walk);
    assert_eq!(manager.get_asset_count(), 4);
    assert_eq!(manager.delete_asset(1, true), Ok(()));
    assert_eq!(manager.delete_asset(2, false), Ok(()));
    assert_eq!(manager.get_asset_count(), 2);

    let outcomes = manager.find_assets(&walk);
    assert_eq!(manager.get_asset_count(), 3);
    assert_eq!(outcomes[2], Some(skipped()));
    assert_eq!(outcomes[3], None);
    assert_eq!(outcomes[4].as_ref().and_then(|o| o.indexed), Some(5));
    let catalog = manager.catalog().unwrap();
    assert!(!catalog.path_exists("/root/chars/Wizard"));
    assert!(!catalog.path_exists("/root/chars/Wizard/textures"));
    assert!(catalog.path_exists("/root/chars/Robot"));
    assert!(catalog.is_tombstoned("/root/chars/Wizard"));

    manager.find_assets(&walk);
    assert_eq!(manager.get_asset_count(), 3);
}

#[test]
fn usable_metadata_is_taken_as_it_stands() {
    let mut catalog = Catalog::new();
    let config = ScanConfig::new();
    let stated = record("The Wizard", "/assets/Wizard", Some("/elsewhere/wiz.tga"), &["fantasy", "npc"]);
    let dir = directory(
        "/assets/Wizard",
        &["Preview.png", "Wizard.png", "Asset.json"],
        Metadata::Record(stated.clone()),
    );
    let outcome = visit_directory(&mut catalog, &config, &dir);
    assert_eq!(
        outcome,
        Outcome { pruned: true, indexed: Some(1), removed: Vec::new(), rewrite: None }
    );
    assert_eq!(catalog.get(1), Some(stated));

    let mut catalog = Catalog::new();
    let no_image = record("W", "/assets/Wizard", None, &[]);
    let dir = directory("/assets/Wizard", &["Preview.png"], Metadata::Record(no_image.clone()));
    let outcome = visit_directory(&mut catalog, &config, &dir);
    assert_eq!(outcome.rewrite, None);
    assert_eq!(catalog.get(1), Some(no_image));
}

#[test]
fn incomplete_metadata_is_filled_in_and_the_next_scan_is_a_no_op() {
    let mut catalog = Catalog::new();
    let config = ScanConfig::new();
    let files = ["Asset.json", "notes.txt", "render.webp"];
    let dir = directory("/assets/Golem", &files, Metadata::Unusable);
    let outcome = visit_directory(&mut catalog, &config, &dir);
    let filled = record("Golem", "/assets/Golem", Some("/assets/Golem/render.webp"), &[]);
    assert_eq!(
        outcome,
        Outcome { pruned: true, indexed: Some(1), removed: Vec::new(), rewrite: Some(filled.clone()) }
    );
    assert_eq!(catalog.get(1), Some(filled.clone()));

    let rewritten = directory("/assets/Golem", &files, Metadata::Record(filled));
    let again = visit_directory(&mut catalog, &config, &rewritten);
    assert_eq!(again, skipped());
    assert_eq!(catalog.count(), 1);
    assert_eq!(catalog.next_id(), 2);

    for incomplete in [record("", "/assets/Golem", None, &[]), record("Golem", "", None, &["t"])] {
        let mut catalog = Catalog::new();
        let dir = directory("/assets/Golem2", &files, Metadata::Record(incomplete));
        let outcome = visit_directory(&mut catalog, &config, &dir);
        let filled = record("Golem2", "/assets/Golem2", Some("/assets/Golem2/render.webp"), &[]);
        assert_eq!(
            outcome,
            Outcome {
                pruned: true,
                indexed: Some(1),
                removed: Vec::new(),
                rewrite: Some(filled.clone()),
            }
        );
        assert_eq!(catalog.get(1), Some(filled));
    }
}

#[test]
fn metadata_without_any_image_prunes_and_stores_nothing() {
    let mut catalog = Catalog::new();
    let config = ScanConfig::new();
    let dir = directory("/assets/Empty", &["Asset.json", "notes.txt"], Metadata::Unusable);
    let outcome = visit_directory(&mut catalog, &config, &dir);
    assert_eq!(
        outcome,
        Outcome {
            pruned: true,
            indexed: None,
            removed: Vec::new(),
            rewrite: Some(record("Empty", "/assets/Empty", Some(""), &[])),
        }
    );
    assert_eq!(catalog.count(), 0);
}

#[test]
fn metadata_file_removes_what_was_stored_below_it() {
    let mut catalog = Catalog::new();
    let config = ScanConfig::new();
    for (name, path) in [("in", "/a/Pack/in"), ("deep", "/a/Pack/in/deep"), ("out", "/a/Packed"),
        ("up", "/a")]
    {
        assert!(catalog.insert(record(name, path, None, &[])).is_ok());
    }
    let stated = record("Pack", "/a/Pack", None, &[]);
    let dir = directory("/a/Pack", &[], Metadata::Record(stated.clone()));
    let outcome = visit_directory(&mut catalog, &config, &dir);
    assert_eq!(
        outcome,
        Outcome { pruned: true, indexed: Some(5), removed: vec![2, 1], rewrite: None }
    );
    let paths: Vec<String> = catalog.entries().iter().map(|e| e.data.path.clone()).collect();
    assert_eq!(paths, vec!["/a/Packed", "/a/Pack", "/a"]);

    let mut catalog = Catalog::new();
    assert!(catalog.insert(record("in", "/a/Pack/in", None, &[])).is_ok());
    let plain = directory("/a/Pack", &["Preview.png"], Metadata::Absent);
    let outcome = visit_directory(&mut catalog, &config, &plain);
    assert_eq!(outcome.removed, Vec::<i64>::new());
    assert_eq!(catalog.count(), 2);
}

#[test]
fn stored_directory_is_skipped_before_its_metadata_is_looked_at() {
    let mut catalog = Catalog::new();
    let config = ScanConfig::new();
    assert!(catalog.insert(record("Pack", "/a/Pack", None, &[])).is_ok());
    assert!(catalog.insert(record("in", "/a/Pack/in", None, &[])).is_ok());
    let dir = directory("/a/Pack", &["x.png"], Metadata::Unusable);
    assert_eq!(visit_directory(&mut catalog, &config, &dir), skipped());
    assert_eq!(catalog.count(), 2);
}

#[test]
fn write_that_the_catalog_rejects_is_passed_over() {
    let mut catalog = Catalog::new();
    let config = ScanConfig::new();
    assert!(catalog.insert(record("Other", "/elsewhere", None, &[])).is_ok());
    let stated = record("Dup", "/elsewhere", None, &[]);
    let dir = directory("/a/Dup", &["Preview.png"], Metadata::Record(stated));
    let outcome = visit_directory(&mut catalog, &config, &dir);
    assert_eq!(outcome, skipped());
    assert_eq!(catalog.count(), 1);
    assert_eq!(id_of(Ok(3)), Some(3));
    assert_eq!(id_of(Err(CatalogError::WriteFailed)), None);
}

#[test]
fn directory_without_a_name_is_called_unknown() {
    let mut catalog = Catalog::new();
    let mut config = ScanConfig::new();
    config.set_use_first_image(true);
    let dir = Directory {
        path: "/".to_string(),
        name: None,
        entries: vec![DirEntry { name: "Unknown.png".to_string(), path: "/Unknown.png".to_string() }],
        metadata: Metadata::Absent,
    };
    let outcome = visit_directory(&mut catalog, &config, &dir);
    assert_eq!(outcome.indexed, Some(1));
    assert_eq!(catalog.get(1), Some(record("Unknown", "/", Some("/Unknown.png"), &[])));
}

#[test]
fn pruned_subtree_ends_with_the_next_directory_that_is_not_deeper() {
    let mut catalog = Catalog::new();
    let config = ScanConfig::new();
    let walk = vec![
        at(0, directory("/r", &["Preview.png"], Metadata::Absent)),
        at(1, directory("/r/a", &["Preview.png"], Metadata::Absent)),
        at(0, directory("/s", &[], Metadata::Absent)),
        at(1, directory("/s/a", &["Preview.png"], Metadata::Absent)),
        at(2, directory("/s/a/b", &["Preview.png"], Metadata::Absent)),
        at(1, directory("/s/c", &["Preview.png"], Metadata::Absent)),
    ];
    let outcomes = scan_walk(&mut catalog, &config, &walk);
    let stored: Vec<Option<i64>> =
        outcomes.iter().map(|o| o.as_ref().and_then(|o| o.indexed)).collect();
    assert_eq!(stored, vec![Some(1), None, None, Some(2), None, Some(3)]);
    assert!(outcomes[1].is_none());
    assert!(outcomes[2].is_some());
    assert!(outcomes[4].is_none());
    assert_eq!(scan_walk(&mut catalog, &config, &Vec::new()), Vec::new());
}

#[test]
fn scan_with_an_unreachable_store_still_fills_metadata_in() {
    let mut manager = AssetManager::unavailable();
    let walk = vec![
        at(0, directory("/r", &[], Metadata::Absent)),
        at(1, directory("/r/Golem", &["g.png"], Metadata::Unusable)),
        at(2, directory("/r/Golem/in", &["Preview.png"], Metadata::Absent)),
        at(1, directory("/r/Wizard", &["Preview.png"], Metadata::Absent)),
    ];
    let outcomes = manager.find_assets(&walk);
    assert_eq!(manager.get_asset_count(), 0);
    assert_eq!(manager.get_error(), None);
    assert_eq!(
        outcomes,
        vec![
            Some(Outcome { pruned: false, indexed: None, removed: Vec::new(), rewrite: None }),
            Some(Outcome {
                pruned: true,
                indexed: None,
                removed: Vec::new(),
                rewrite: Some(record("Golem", "/r/Golem", Some("/r/Golem/g.png"), &[])),
            }),
            None,
            Some(skipped()),
        ]
    );
    let one = manager.scan_directory(&walk[3].dir);
    assert_eq!(one, skipped());
}

#[test]
fn scan_of_the_tree_read_again_after_auto_fill_changes_nothing() {
    let mut catalog = Catalog::new();
    let config = ScanConfig::new();
    let walk = tree();
    let outcomes = scan_walk(&mut catalog, &config, &walk);
    let before = catalog.entries().clone();
    assert_eq!(
        outcomes[5].as_ref().and_then(|o| o.rewrite.clone()),
        Some(record("props", "/root/props", Some("/root/props/a.png"), &[]))
    );

    let again: Vec<Visited> = walk
        .iter()
        .zip(outcomes.iter())
        .map(|(item, outcome)| {
            let mut dir = item.dir.clone();
            if let Some(record) = outcome.as_ref().and_then(|o| o.rewrite.clone()) {
                dir.metadata = Metadata::Record(record);
            }
            at(item.depth, dir)
        })
        .collect();
    assert_eq!(again[5].dir.metadata, Metadata::Record(before[1].data.clone()));
    let second = scan_walk(&mut catalog, &config, &again);
    assert_eq!(catalog.entries(), &before);
    assert_eq!(catalog.next_id(), 5);
    assert!(second.iter().all(|o| match o {
        Some(o) => o.indexed.is_none() && o.removed.is_empty() && o.rewrite.is_none(),
        None => true,
    }));
}

#[test]
fn record_that_names_an_unrelated_path_is_stored_once() {
    let mut catalog = Catalog::new();
    let config = ScanConfig::new();
    let stated = record("Shared", "/library/shared", Some("/library/shared/p.png"), &["kit"]);
    let walk = vec![
        at(0, directory("/root", &[], Metadata::Absent)),
        at(1, directory("/root/link", &["x.png"], Metadata::Record(stated.clone()))),
        at(2, directory("/root/link/in", &["Preview.png"], Metadata::Absent)),
        at(1, directory("/root/plain", &["Preview.png"], Metadata::Absent)),
    ];
    let first = scan_walk(&mut catalog, &config, &walk);
    assert_eq!(first[1].as_ref().and_then(|o| o.indexed), Some(1));
    assert!(first[2].is_none());
    assert_eq!(catalog.count(), 2);
    assert_eq!(catalog.get(1), Some(stated));
    let before = catalog.entries().clone();
    let second = scan_walk(&mut catalog, &config, &walk);
    assert_eq!(catalog.entries(), &before);
    assert_eq!(catalog.next_id(), 3);
    assert_eq!(second[1].as_ref().map(|o| (o.pruned, o.indexed, o.removed.clone())), Some((true, None, Vec::new())));
    assert_eq!(second[3], Some(skipped()));
}
