//! The scanner's decision for one directory of the walk: whether it is
//! skipped, what enters and leaves the catalog, what is written back to its
//! metadata file, and whether the walk descends into it.

use vstd::prelude::*;
use crate::asset::{AssetData, AssetView, optional_view};
use crate::catalog::{Catalog, id_values, optional_asset};
use crate::config::{ConfigView, ScanConfig};
use crate::discovery::{DirEntry, ListedView, listing_views, resolve_preview, resolved_image};
use crate::model::{CatalogView, ids_under};

verus! {

/// Mathematical value of a directory's metadata file.
pub enum MetadataView {
    Absent,
    Unusable,
    Record(AssetView),
}

/// What the walk found of a directory's metadata file.
#[derive(Clone, Debug, PartialEq, Eq)]
pub enum Metadata {
    /// The directory holds no metadata file.
    Absent,
    /// The file is there, but it could not be read or parsed.
    Unusable,
    /// The file was parsed to this record.
    Record(AssetData),
}

impl View for Metadata {
    type V = MetadataView;

    open spec fn view(&self) -> MetadataView {
        match self {
            Metadata::Absent => MetadataView::Absent,
            Metadata::Unusable => MetadataView::Unusable,
            Metadata::Record(r) => MetadataView::Record(r@),
        }
    }
}

/// Mathematical value of a visited directory.
pub struct DirectoryView {
    pub path: Seq<char>,
    pub name: Option<Seq<char>>,
    pub entries: Seq<ListedView>,
    pub metadata: MetadataView,
}

/// One directory of the walk, as it was read: its path, its base name where
/// it has one, its immediate listing and its metadata file.
#[derive(Clone, Debug, PartialEq, Eq)]
pub struct Directory {
    pub path: String,
    pub name: Option<String>,
    pub entries: Vec<DirEntry>,
    pub metadata: Metadata,
}

impl View for Directory {
    type V = DirectoryView;

    open spec fn view(&self) -> DirectoryView {
        DirectoryView {
            path: self.path@,
            name: optional_view(self.name),
            entries: listing_views(self.entries@),
            metadata: self.metadata@,
        }
    }
}

/// Mathematical value of a visit's outcome.
pub struct OutcomeView {
    pub pruned: bool,
    pub indexed: Option<int>,
    pub removed: Seq<int>,
    pub rewrite: Option<AssetView>,
}

/// What a visit did and what is left to do for the walk.
#[derive(Clone, Debug, PartialEq, Eq)]
pub struct Outcome {
    /// The walk does not descend into this directory.
    pub pruned: bool,
    /// The identifier of the asset that the visit stored.
    pub indexed: Option<i64>,
    /// The identifiers of the assets below this directory that the visit removed.
    pub removed: Vec<i64>,
    /// The record to write into the directory's metadata file.
    pub rewrite: Option<AssetData>,
}

impl View for Outcome {
    type V = OutcomeView;

    open spec fn view(&self) -> OutcomeView {
        OutcomeView {
            pruned: self.pruned,
            indexed: match self.indexed {
                Some(id) => Some(id as int),
                None => None,
            },
            removed: id_values(self.removed@),
            rewrite: optional_asset(self.rewrite),
        }
    }
}

/// The name under which a directory without a base name is catalogued.
pub open spec fn nameless() -> Seq<char> {
    seq!['U', 'n', 'k', 'n', 'o', 'w', 'n']
}

impl DirectoryView {
    /// Whether the directory holds a metadata file.
    pub open spec fn has_metadata(self) -> bool {
        !(self.metadata is Absent)
    }

    /// The record of the metadata file, where it can be used as it stands:
    /// it was parsed, and both its name and its path are filled.
    pub open spec fn usable_record(self) -> Option<AssetView> {
        match self.metadata {
            MetadataView::Record(r) => if r.name.len() > 0 && r.path.len() > 0 {
                Some(r)
            } else {
                None
            },
            _ => None,
        }
    }

    /// The path under which a visit stores an asset for this directory: the
    /// path that a usable record states, else the path of the directory.
    pub open spec fn stored_path(self) -> Seq<char> {
        match self.usable_record() {
            Some(record) => record.path,
            None => self.path,
        }
    }

    /// The name of the folder.
    pub open spec fn folder_name(self) -> Seq<char> {
        match self.name {
            Some(n) => n,
            None => nameless(),
        }
    }

    /// The preview image that discovery resolves for this directory.
    pub open spec fn preview(self, config: ConfigView) -> Option<Seq<char>> {
        resolved_image(self.entries, self.folder_name(), config, self.has_metadata())
    }

    /// The asset that discovery makes of this directory and an image.
    pub open spec fn discovered(self, image: Seq<char>) -> AssetView {
        AssetView {
            name: self.folder_name(),
            path: self.path,
            image_path: Some(image),
            tags: Seq::empty(),
        }
    }

    /// The record that is written back into an unusable metadata file: the
    /// folder's name and path, the resolved image or an empty text, no tags.
    pub open spec fn auto_filled(self, config: ConfigView) -> AssetView {
        self.discovered(
            match self.preview(config) {
                Some(image) => image,
                None => Seq::empty(),
            },
        )
    }
}

/// The identifier that a write returned, if it succeeded.
pub open spec fn stored_id(r: Result<int, crate::asset::CatalogError>) -> Option<int> {
    match r {
        Ok(id) => Some(id),
        Err(_) => None,
    }
}

/// The scanner's decision for one directory.
///
/// A directory whose path is tombstoned or already stored is skipped with
/// its subtree. Otherwise a metadata file, if there is one, first removes
/// the stored assets below the directory. A usable record is stored as it
/// stands. Else discovery resolves a preview image, an unusable metadata
/// file is rewritten with what was found, and the directory is stored where
/// an image was resolved. The walk descends only into a directory that has
/// neither a metadata file nor a preview image. A write that the catalog
/// rejects is passed over.
pub open spec fn visit(catalog: CatalogView, config: ConfigView, dir: DirectoryView) -> (
    CatalogView,
    OutcomeView,
) {
    if catalog.skips(dir.path) {
        (
            catalog,
            OutcomeView { pruned: true, indexed: None, removed: Seq::empty(), rewrite: None },
        )
    } else {
        let cleared = if dir.has_metadata() {
            catalog.delete_under(dir.path)
        } else {
            catalog
        };
        let removed = if dir.has_metadata() {
            ids_under(catalog.entries, dir.path)
        } else {
            Seq::empty()
        };
        match dir.usable_record() {
            Some(record) => {
                let (after, written) = cleared.insert(record);
                (
                    after,
                    OutcomeView {
                        pruned: true,
                        indexed: stored_id(written),
                        removed,
                        rewrite: None,
                    },
                )
            },
            None => {
                let rewrite = if dir.has_metadata() {
                    Some(dir.auto_filled(config))
                } else {
                    None
                };
                match dir.preview(config) {
                    Some(image) => {
                        let (after, written) = cleared.insert(dir.discovered(image));
                        (
                            after,
                            OutcomeView {
                                pruned: true,
                                indexed: stored_id(written),
                                removed,
                                rewrite,
                            },
                        )
                    },
                    None => (
                        cleared,
                        OutcomeView { pruned: dir.has_metadata(), indexed: None, removed, rewrite },
                    ),
                }
            },
        }
    }
}

/// The directory as a later scan reads it, once the record that a visit
/// asked for was written into its metadata file.
pub open spec fn after_rewrite(dir: DirectoryView, outcome: OutcomeView) -> DirectoryView {
    match outcome.rewrite {
        Some(record) => DirectoryView { metadata: MetadataView::Record(record), ..dir },
        None => dir,
    }
}

/// The identifier that a write returned, if it succeeded.
pub fn id_of(written: Result<i64, crate::asset::CatalogError>) -> (r: Option<i64>)
    ensures
        r == match written {
            Ok(id) => Some(id),
            Err(_) => None::<i64>,
        },
{
    match written {
        Ok(id) => Some(id),
        Err(_) => None,
    }
}

/// Visits one directory of the walk: decides whether it is skipped, removes
/// and stores assets, and returns what the walk has to do.
pub fn visit_directory(catalog: &mut Catalog, config: &ScanConfig, dir: &Directory) -> (r: Outcome)
    ensures
        final(catalog)@ == visit(old(catalog)@, config@, dir@).0,
        r@ == visit(old(catalog)@, config@, dir@).1,
        final(catalog)@.wf(),
{
    let path = dir.path.as_str();
    if catalog.skips(path) {
        let removed: Vec<i64> = Vec::new();
        assert(id_values(removed@) =~= Seq::empty());
        return Outcome { pruned: true, indexed: None, removed, rewrite: None };
    }
    let has_metadata = match &dir.metadata {
        Metadata::Absent => false,
        _ => true,
    };
    let removed: Vec<i64> = if has_metadata {
        catalog.delete_under(path)
    } else {
        let none: Vec<i64> = Vec::new();
        assert(id_values(none@) =~= Seq::empty());
        none
    };
    match &dir.metadata {
        Metadata::Record(record) => {
            if !record.name.as_str().is_empty() && !record.path.as_str().is_empty() {
                let written = catalog.insert(record.duplicate());
                return Outcome { pruned: true, indexed: id_of(written), removed, rewrite: None };
            }
        },
        _ => {},
    }
    let folder: String = match &dir.name {
        Some(n) => n.clone(),
        None => {
            proof {
                reveal_strlit("Unknown");
            }
            let n = "Unknown".to_owned();
            assert(n@ =~= nameless());
            n
        },
    };
    let image = resolve_preview(&dir.entries, folder.as_str(), config, has_metadata);
    let rewrite = if has_metadata {
        let no_tags: Vec<String> = Vec::new();
        assert(crate::asset::string_views(no_tags@) =~= Seq::empty());
        let shown = match &image {
            Some(i) => i.clone(),
            None => String::new(),
        };
        Some(
            AssetData {
                name: folder.clone(),
                path: dir.path.clone(),
                image_path: Some(shown),
                tags: no_tags,
            },
        )
    } else {
        None
    };
    match image {
        Some(i) => {
            let no_tags: Vec<String> = Vec::new();
            assert(crate::asset::string_views(no_tags@) =~= Seq::empty());
            let asset = AssetData {
                name: folder,
                path: dir.path.clone(),
                image_path: Some(i),
                tags: no_tags,
            };
            let written = catalog.insert(asset);
            Outcome { pruned: true, indexed: id_of(written), removed, rewrite }
        },
        None => Outcome { pruned: has_metadata, indexed: None, removed, rewrite },
    }
}

/// Mathematical value of a directory of a walk.
pub struct VisitedView {
    pub depth: int,
    pub dir: DirectoryView,
}

/// One directory of a depth-first walk, with its depth below the root. A
/// walk lists each directory before the directories below it.
#[derive(Clone, Debug, PartialEq, Eq)]
pub struct Visited {
    pub depth: usize,
    pub dir: Directory,
}

impl View for Visited {
    type V = VisitedView;

    open spec fn view(&self) -> VisitedView {
        VisitedView { depth: self.depth as int, dir: self.dir@ }
    }
}

/// The values of the directories of a walk.
pub open spec fn walk_views(v: Seq<Visited>) -> Seq<VisitedView> {
    Seq::new(v.len(), |i: int| v[i]@)
}

/// The values of the outcomes of a walk.
pub open spec fn outcome_views(v: Seq<Option<Outcome>>) -> Seq<Option<OutcomeView>> {
    Seq::new(
        v.len(),
        |i: int|
            match v[i] {
                Some(o) => Some(o@),
                None => None,
            },
    )
}

/// Whether a directory at depth `depth` lies in the subtree that the walk
/// does not descend into: `skip` holds the depth of the directory that was
/// pruned last.
pub open spec fn hidden(skip: Option<int>, depth: int) -> bool {
    match skip {
        Some(d) => depth > d,
        None => false,
    }
}

/// What the walk does not descend into after a visit.
pub open spec fn skip_after(outcome: OutcomeView, depth: int) -> Option<int> {
    if outcome.pruned {
        Some(depth)
    } else {
        None
    }
}

/// The catalog after the directories of a walk from position `from` on were
/// scanned in order: a directory in a pruned subtree is passed over, every
/// other is visited.
pub open spec fn scan_from(
    catalog: CatalogView,
    config: ConfigView,
    walk: Seq<VisitedView>,
    from: int,
    skip: Option<int>,
) -> CatalogView
    decreases walk.len() - from,
{
    if from < 0 || from >= walk.len() {
        catalog
    } else if hidden(skip, walk[from].depth) {
        scan_from(catalog, config, walk, from + 1, skip)
    } else {
        let (after, outcome) = visit(catalog, config, walk[from].dir);
        scan_from(after, config, walk, from + 1, skip_after(outcome, walk[from].depth))
    }
}

/// The outcomes of a scan from position `from` on, one for each directory:
/// `None` for a directory that was passed over.
pub open spec fn outcomes_from(
    catalog: CatalogView,
    config: ConfigView,
    walk: Seq<VisitedView>,
    from: int,
    skip: Option<int>,
) -> Seq<Option<OutcomeView>>
    decreases walk.len() - from,
{
    if from < 0 || from >= walk.len() {
        Seq::empty()
    } else if hidden(skip, walk[from].depth) {
        seq![None] + outcomes_from(catalog, config, walk, from + 1, skip)
    } else {
        let (after, outcome) = visit(catalog, config, walk[from].dir);
        seq![Some(outcome)] + outcomes_from(
            after,
            config,
            walk,
            from + 1,
            skip_after(outcome, walk[from].depth),
        )
    }
}

/// The catalog after a scan of a whole walk.
pub open spec fn scan(catalog: CatalogView, config: ConfigView, walk: Seq<VisitedView>)
    -> CatalogView {
    scan_from(catalog, config, walk, 0, None)
}

/// The outcomes of a scan of a whole walk.
pub open spec fn scan_outcomes(catalog: CatalogView, config: ConfigView, walk: Seq<VisitedView>)
    -> Seq<Option<OutcomeView>> {
    outcomes_from(catalog, config, walk, 0, None)
}

/// Scans the directories of a depth-first walk in order. A directory in a
/// subtree that an earlier visit pruned is passed over. Returns, for each
/// directory, the outcome of its visit, or `None` where it was passed over.
pub fn scan_walk(catalog: &mut Catalog, config: &ScanConfig, walk: &Vec<Visited>) -> (r: Vec<
    Option<Outcome>,
>)
    ensures
        final(catalog)@ == scan(old(catalog)@, config@, walk_views(walk@)),
        outcome_views(r@) == scan_outcomes(old(catalog)@, config@, walk_views(walk@)),
        r.len() == walk.len(),
{
    let ghost c0 = catalog@;
    let ghost items = walk_views(walk@);
    let mut out: Vec<Option<Outcome>> = Vec::new();
    let mut skip: Option<usize> = None;
    let mut i: usize = 0;
    assert(outcome_views(out@) =~= Seq::empty());
    while i < walk.len()
        invariant
            i <= walk.len(),
            out.len() == i,
            items == walk_views(walk@),
            scan(c0, config@, items) == scan_from(catalog@, config@, items, i as int, depth_of(skip)),
            scan_outcomes(c0, config@, items) == outcome_views(out@) + outcomes_from(
                catalog@,
                config@,
                items,
                i as int,
                depth_of(skip),
            ),
        decreases walk.len() - i,
    {
        let item = &walk[i];
        assert(items[i as int] == item@);
        let ghost before = outcome_views(out@);
        let ghost rest = outcomes_from(catalog@, config@, items, i as int, depth_of(skip));
        let pass = match skip {
            Some(d) => item.depth > d,
            None => false,
        };
        if pass {
            out.push(None);
            assert(outcome_views(out@) =~= before + seq![None]);
            assert(before + rest =~= (before + seq![None]) + outcomes_from(
                catalog@,
                config@,
                items,
                i + 1,
                depth_of(skip),
            ));
        } else {
            let outcome = visit_directory(catalog, config, &item.dir);
            let next = if outcome.pruned {
                Some(item.depth)
            } else {
                None
            };
            proof {
                assert(depth_of(next) == skip_after(outcome@, item.depth as int));
                assert(outcome_views(out@.push(Some(outcome))) =~= before + seq![Some(outcome@)]);
                assert(before + rest =~= (before + seq![Some(outcome@)]) + outcomes_from(
                    catalog@,
                    config@,
                    items,
                    i + 1,
                    depth_of(next),
                ));
            }
            skip = next;
            out.push(Some(outcome));
        }
        i += 1;
    }
    out
}

/// Whether an entry of the walk that could not be read ends the scan: the
/// root alone does.
pub open spec fn ends_scan(depth: int) -> bool {
    depth == 0
}

/// Decides what an entry of the walk that could not be read does to the
/// scan. An unreadable root fails the scan as a whole; any other entry is
/// passed over and the scan goes on.
pub fn walk_error_aborts(depth: usize) -> (r: bool)
    ensures
        r == ends_scan(depth as int),
{
    depth == 0
}

/// The depth that the walk does not descend below, as a number.
pub open spec fn depth_of(skip: Option<usize>) -> Option<int> {
    match skip {
        Some(d) => Some(d as int),
        None => None,
    }
}

} // verus!
