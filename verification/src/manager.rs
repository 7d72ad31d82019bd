//! The catalog handle: a store that may be unavailable, the scan
//! configuration, and the error of the last operation.

use vstd::prelude::*;
use crate::asset::{
    AssetData, AssetEntry, AssetUpdate, AssetView, CatalogError, EntryView, UpdateView,
    entry_views, string_views,
};
use crate::catalog::Catalog;
use crate::config::{ConfigView, ScanConfig, classified_all, default_config};
use crate::model::CatalogView;
use crate::paging::{page_count, total_pages, window};
use crate::query::{conditions_of, parse_query, search_entries};
use crate::scanner::{
    Directory, DirectoryView, Outcome, OutcomeView, Visited, VisitedView, ends_scan,
    outcome_views, scan, scan_outcomes, scan_walk, visit, visit_directory, walk_error_aborts,
    walk_views,
};

verus! {

/// Mathematical value of a page of assets.
pub struct PageView {
    pub items: Seq<EntryView>,
    pub page_number: int,
    pub page_size: int,
    pub total_pages: int,
}

/// One page of a listing or of a search.
#[derive(Clone, Debug, PartialEq, Eq)]
pub struct Page {
    pub items: Vec<AssetEntry>,
    pub page_number: i64,
    pub page_size: i64,
    pub total_pages: i64,
}

impl View for Page {
    type V = PageView;

    open spec fn view(&self) -> PageView {
        PageView {
            items: entry_views(self.items@),
            page_number: self.page_number as int,
            page_size: self.page_size as int,
            total_pages: self.total_pages as int,
        }
    }
}

/// The page number that a request stands for: at least 1.
pub open spec fn clamped_page(page: int) -> int {
    if page < 1 {
        1
    } else {
        page
    }
}

/// Position of the first item of a page.
pub open spec fn page_offset(page: int, page_size: int) -> int {
    (clamped_page(page) - 1) * page_size
}

/// The page `page` of a sequence of entries.
pub open spec fn page_of(entries: Seq<EntryView>, page: int, page_size: int) -> PageView {
    PageView {
        items: window(entries, page_offset(page, page_size), page_size),
        page_number: clamped_page(page),
        page_size,
        total_pages: page_count(entries.len() as int, page_size),
    }
}

/// The page that an unreachable store gives: nothing, of no pages.
pub open spec fn empty_page(page: int, page_size: int) -> PageView {
    PageView {
        items: Seq::empty(),
        page_number: clamped_page(page),
        page_size,
        total_pages: 0,
    }
}

/// The image of a manually added asset: an empty text stands for none.
pub open spec fn given_image(image: Seq<char>) -> Option<Seq<char>> {
    if image.len() == 0 {
        None
    } else {
        Some(image)
    }
}

/// Mathematical value of a catalog handle.
pub struct ManagerView {
    /// The store, or `None` while it cannot be reached.
    pub store: Option<CatalogView>,
    pub config: ConfigView,
    pub last_error: Option<CatalogError>,
}

impl ManagerView {
    /// Number of stored assets; zero while the store cannot be reached.
    pub open spec fn count(self) -> int {
        match self.store {
            Some(c) => c.count(),
            None => 0,
        }
    }

    /// Number of pages of the listing; zero while the store cannot be reached.
    pub open spec fn pages(self) -> int {
        page_count(self.count(), self.config.page_size)
    }

    /// Whether a scan passes over the directory with this path. While the
    /// store cannot be reached, no directory is passed over.
    pub open spec fn skips(self, path: Seq<char>) -> bool {
        match self.store {
            Some(c) => c.skips(path),
            None => false,
        }
    }

    /// Adding an asset by hand.
    pub open spec fn add_asset(self, asset: AssetView) -> (ManagerView, Result<int, CatalogError>) {
        match self.store {
            Some(c) => {
                let (after, written) = c.insert(asset);
                (
                    ManagerView {
                        store: Some(after),
                        last_error: match written {
                            Ok(_) => None,
                            Err(e) => Some(e),
                        },
                        ..self
                    },
                    written,
                )
            },
            None => (
                ManagerView { last_error: Some(CatalogError::StoreUnavailable), ..self },
                Err(CatalogError::StoreUnavailable),
            ),
        }
    }

    /// Looking an asset up by its identifier.
    pub open spec fn get_asset(self, id: int) -> (ManagerView, Result<AssetView, CatalogError>) {
        let r = match self.store {
            Some(c) => match c.get(id) {
                Some(a) => Ok(a),
                None => Err(CatalogError::NotFound),
            },
            None => Err(CatalogError::StoreUnavailable),
        };
        (
            ManagerView {
                last_error: match r {
                    Ok(_) => None,
                    Err(e) => Some(e),
                },
                ..self
            },
            r,
        )
    }

    /// One page of the listing; an empty page while the store cannot be reached.
    pub open spec fn get_assets(self, page: int) -> (ManagerView, PageView) {
        match self.store {
            Some(c) => (
                ManagerView { last_error: None, ..self },
                page_of(c.entries, page, self.config.page_size),
            ),
            None => (
                ManagerView { last_error: Some(CatalogError::StoreUnavailable), ..self },
                empty_page(page, self.config.page_size),
            ),
        }
    }

    /// One page of the assets that meet every term of a query; an empty
    /// page while the store cannot be reached.
    pub open spec fn search(self, query: Seq<char>, page: int) -> (ManagerView, PageView) {
        match self.store {
            Some(c) => (
                ManagerView { last_error: None, ..self },
                page_of(
                    crate::query::matching(c.entries, conditions_of(query)),
                    page,
                    self.config.page_size,
                ),
            ),
            None => (
                ManagerView { last_error: Some(CatalogError::StoreUnavailable), ..self },
                empty_page(page, self.config.page_size),
            ),
        }
    }

    /// Updating an asset.
    pub open spec fn update_asset(self, id: int, update: UpdateView) -> (
        ManagerView,
        Result<(), CatalogError>,
    ) {
        if update.is_empty() {
            (
                ManagerView { last_error: Some(CatalogError::InvalidInput), ..self },
                Err(CatalogError::InvalidInput),
            )
        } else {
            match self.store {
                Some(c) => {
                    let (after, r) = c.update(id, update);
                    (
                        ManagerView {
                            store: Some(after),
                            last_error: match r {
                                Ok(_) => None,
                                Err(e) => Some(e),
                            },
                            ..self
                        },
                        r,
                    )
                },
                None => (
                    ManagerView { last_error: Some(CatalogError::StoreUnavailable), ..self },
                    Err(CatalogError::StoreUnavailable),
                ),
            }
        }
    }

    /// Deleting an asset, with or without remembering its path.
    pub open spec fn delete_asset(self, id: int, remember: bool) -> (
        ManagerView,
        Result<(), CatalogError>,
    ) {
        match self.store {
            Some(c) => (
                ManagerView { store: Some(c.delete(id, remember)), last_error: None, ..self },
                Ok(()),
            ),
            None => (
                ManagerView { last_error: Some(CatalogError::StoreUnavailable), ..self },
                Err(CatalogError::StoreUnavailable),
            ),
        }
    }

    /// Visiting one directory of a scan. A store that cannot be reached
    /// counts as one that holds nothing and accepts nothing: nothing is
    /// skipped, nothing is stored, and metadata files are still filled in.
    pub open spec fn scan_directory(self, dir: DirectoryView) -> (ManagerView, OutcomeView) {
        match self.store {
            Some(c) => {
                let (after, outcome) = visit(c, self.config, dir);
                (ManagerView { store: Some(after), ..self }, outcome)
            },
            None => (self, visit(CatalogView::closed(), self.config, dir).1),
        }
    }

    /// Scanning the directories of a walk.
    pub open spec fn find_assets(self, walk: Seq<VisitedView>) -> (
        ManagerView,
        Seq<Option<OutcomeView>>,
    ) {
        match self.store {
            Some(c) => (
                ManagerView { store: Some(scan(c, self.config, walk)), last_error: None, ..self },
                scan_outcomes(c, self.config, walk),
            ),
            None => (
                ManagerView { last_error: None, ..self },
                scan_outcomes(CatalogView::closed(), self.config, walk),
            ),
        }
    }
}

/// The catalog handle.
pub struct AssetManager {
    store: Option<Catalog>,
    config: ScanConfig,
    last_error: Option<CatalogError>,
}

/// The value of an optional store.
pub open spec fn optional_catalog(c: Option<Catalog>) -> Option<CatalogView> {
    match c {
        Some(c) => Some(c@),
        None => None,
    }
}

impl View for AssetManager {
    type V = ManagerView;

    closed spec fn view(&self) -> ManagerView {
        ManagerView {
            store: optional_catalog(self.store),
            config: self.config@,
            last_error: self.last_error,
        }
    }
}

/// Computes the position of the first item of a page. A position beyond
/// every possible listing is given as the largest number.
pub fn first_of_page(page: i64, page_size: i64) -> (r: i64)
    requires
        page_size >= 1,
    ensures
        r >= 0,
        page_offset(page as int, page_size as int) <= i64::MAX ==> r == page_offset(
            page as int,
            page_size as int,
        ),
        page_offset(page as int, page_size as int) > i64::MAX ==> r == i64::MAX,
{
    let p: i64 = if page < 1 {
        1
    } else {
        page
    };
    let before: i128 = (p - 1) as i128;
    let size: i128 = page_size as i128;
    assert(0 <= before * size <= 0x7fff_ffff_ffff_ffff * 0x7fff_ffff_ffff_ffff) by (nonlinear_arith)
        requires
            0 <= before <= 0x7fff_ffff_ffff_ffff,
            1 <= size <= 0x7fff_ffff_ffff_ffff,
    ;
    let offset: i128 = before * size;
    if offset > i64::MAX as i128 {
        i64::MAX
    } else {
        offset as i64
    }
}

/// Cuts the page `page` out of a list of entries.
pub fn cut_page(entries: &Vec<AssetEntry>, page: i64, page_size: i64) -> (r: Page)
    requires
        page_size >= 1,
        entries.len() <= i64::MAX,
    ensures
        r@ == page_of(entry_views(entries@), page as int, page_size as int),
{
    let offset = first_of_page(page, page_size);
    let items = crate::catalog::copy_window(entries, offset, page_size);
    proof {
        let s = entry_views(entries@);
        assert(window(s, offset as int, page_size as int) =~= window(
            s,
            page_offset(page as int, page_size as int),
            page_size as int,
        ));
    }
    Page {
        items,
        page_number: if page < 1 {
            1
        } else {
            page
        },
        page_size,
        total_pages: total_pages(entries.len() as i64, page_size),
    }
}

impl AssetManager {
    /// A handle on an empty catalog, with the default configuration.
    pub fn new() -> (r: AssetManager)
        ensures
            r@ == (ManagerView {
                store: Some(CatalogView::empty()),
                config: default_config(),
                last_error: None,
            }),
    {
        AssetManager { store: Some(Catalog::new()), config: ScanConfig::new(), last_error: None }
    }

    /// A handle on the catalog that was read from the store.
    pub fn with_catalog(catalog: Catalog) -> (r: AssetManager)
        ensures
            r@ == (ManagerView {
                store: Some(catalog@),
                config: default_config(),
                last_error: None,
            }),
    {
        AssetManager { store: Some(catalog), config: ScanConfig::new(), last_error: None }
    }

    /// A handle whose store could not be opened or created.
    pub fn unavailable() -> (r: AssetManager)
        ensures
            r@ == (ManagerView {
                store: None,
                config: default_config(),
                last_error: Some(CatalogError::StoreUnavailable),
            }),
    {
        AssetManager {
            store: None,
            config: ScanConfig::new(),
            last_error: Some(CatalogError::StoreUnavailable),
        }
    }

    /// Puts the handle on the catalog that was read from the store. The
    /// configuration and the last error stay as they are.
    pub fn attach(&mut self, catalog: Catalog)
        ensures
            final(self)@ == (ManagerView { store: Some(catalog@), ..old(self)@ }),
    {
        self.store = Some(catalog);
    }

    /// Takes the store away from the handle, as it can no longer be reached.
    pub fn detach(&mut self)
        ensures
            final(self)@ == (ManagerView {
                store: None,
                last_error: Some(CatalogError::StoreUnavailable),
                ..old(self)@
            }),
    {
        self.store = None;
        self.last_error = Some(CatalogError::StoreUnavailable);
    }

    /// The store, while it can be reached.
    pub fn catalog(&self) -> (r: Option<&Catalog>)
        ensures
            match r {
                Some(c) => self@.store == Some(c@),
                None => self@.store is None,
            },
    {
        self.store.as_ref()
    }

    /// The configuration.
    pub fn config(&self) -> (r: &ScanConfig)
        ensures
            r@ == self@.config,
    {
        &self.config
    }

    /// Sets the page size; a size under 1 becomes 1.
    pub fn set_page_size(&mut self, size: i64)
        ensures
            final(self)@ == (ManagerView {
                config: ConfigView {
                    page_size: if size >= 1 {
                        size as int
                    } else {
                        1
                    },
                    ..old(self)@.config
                },
                ..old(self)@
            }),
    {
        self.config.set_page_size(size);
    }

    /// The page size.
    pub fn get_page_size(&self) -> (r: i64)
        ensures
            r == self@.config.page_size,
            r >= 1,
    {
        self.config.get_page_size()
    }

    /// Replaces the preview names.
    pub fn set_preview_file_names(&mut self, names: &Vec<String>)
        ensures
            final(self)@ == (ManagerView {
                config: ConfigView {
                    preview_names: classified_all(string_views(names@)),
                    ..old(self)@.config
                },
                ..old(self)@
            }),
    {
        self.config.set_preview_file_names(names);
    }

    /// Switches the first-image fallback on or off.
    pub fn set_use_first_image(&mut self, use_first: bool)
        ensures
            final(self)@ == (ManagerView {
                config: ConfigView { use_first_image: use_first, ..old(self)@.config },
                ..old(self)@
            }),
    {
        self.config.set_use_first_image(use_first);
    }

    /// Switches the folder-name pass on or off.
    pub fn set_use_folder_name(&mut self, use_folder: bool)
        ensures
            final(self)@ == (ManagerView {
                config: ConfigView { use_folder_name: use_folder, ..old(self)@.config },
                ..old(self)@
            }),
    {
        self.config.set_use_folder_name(use_folder);
    }

    /// Number of stored assets; zero while the store cannot be reached.
    pub fn get_asset_count(&self) -> (r: i64)
        ensures
            r == self@.count(),
            r >= 0,
    {
        match &self.store {
            Some(c) => c.count(),
            None => 0,
        }
    }

    /// Number of pages of the listing; zero while the store cannot be reached.
    pub fn get_pages(&self) -> (r: i64)
        ensures
            r == self@.pages(),
    {
        total_pages(self.get_asset_count(), self.config.get_page_size())
    }

    /// Whether a scan passes over the directory with this path, so that
    /// nothing of it needs to be read.
    pub fn skips(&self, path: &str) -> (r: bool)
        ensures
            r == self@.skips(path@),
    {
        match &self.store {
            Some(c) => c.skips(path),
            None => false,
        }
    }

    /// The error of the last operation, if it failed.
    pub fn get_error(&self) -> (r: Option<CatalogError>)
        ensures
            r == self@.last_error,
    {
        self.last_error
    }

    /// Takes note of an entry of a walk, at depth `depth`, that could not be
    /// read. An unreadable root fails the scan: the failure is retained as
    /// `ReadFailed` and the result is `true`. Any other entry is passed over.
    pub fn walk_failed(&mut self, depth: usize) -> (r: bool)
        ensures
            r == ends_scan(depth as int),
            final(self)@ == if ends_scan(depth as int) {
                ManagerView { last_error: Some(CatalogError::ReadFailed), ..old(self)@ }
            } else {
                old(self)@
            },
    {
        if walk_error_aborts(depth) {
            self.record_failure(CatalogError::ReadFailed);
            true
        } else {
            false
        }
    }

    /// Retains an error that the caller met outside the catalog.
    pub fn record_failure(&mut self, error: CatalogError)
        ensures
            final(self)@ == (ManagerView { last_error: Some(error), ..old(self)@ }),
    {
        self.last_error = Some(error);
    }

    /// Adds an asset by hand and returns its identifier. An empty image
    /// path stands for no image.
    pub fn add_asset(&mut self, name: String, path: String, image_path: String, tags: Vec<String>)
        -> (r: Result<i64, CatalogError>)
        ensures
            ({
                let asset = AssetView {
                    name: name@,
                    path: path@,
                    image_path: given_image(image_path@),
                    tags: string_views(tags@),
                };
                &&& final(self)@ == old(self)@.add_asset(asset).0
                &&& match r {
                    Ok(id) => old(self)@.add_asset(asset).1 == Ok::<int, CatalogError>(id as int),
                    Err(e) => old(self)@.add_asset(asset).1 == Err::<int, CatalogError>(e),
                }
            }),
    {
        let image = if image_path.as_str().is_empty() {
            None
        } else {
            Some(image_path)
        };
        let asset = AssetData { name, path, image_path: image, tags };
        let mut store: Option<Catalog> = None;
        core::mem::swap(&mut self.store, &mut store);
        match store {
            Some(mut c) => {
                let written = c.insert(asset);
                self.store = Some(c);
                self.last_error = match written {
                    Ok(_) => None,
                    Err(e) => Some(e),
                };
                written
            },
            None => {
                self.last_error = Some(CatalogError::StoreUnavailable);
                Err(CatalogError::StoreUnavailable)
            },
        }
    }

    /// Looks an asset up by its identifier.
    pub fn get_asset(&mut self, id: i64) -> (r: Result<AssetData, CatalogError>)
        ensures
            final(self)@ == old(self)@.get_asset(id as int).0,
            match r {
                Ok(a) => old(self)@.get_asset(id as int).1 == Ok::<AssetView, CatalogError>(a@),
                Err(e) => old(self)@.get_asset(id as int).1 == Err::<AssetView, CatalogError>(e),
            },
    {
        let r = match &self.store {
            Some(c) => match c.get(id) {
                Some(a) => Ok(a),
                None => Err(CatalogError::NotFound),
            },
            None => Err(CatalogError::StoreUnavailable),
        };
        self.last_error = match &r {
            Ok(_) => None,
            Err(e) => Some(*e),
        };
        r
    }

    /// Returns one page of the listing: the assets in listing order, from
    /// position `(page - 1) * page_size` on, at most `page_size` of them. A
    /// page number under 1 counts as 1. An unreachable store gives an empty
    /// page.
    pub fn get_assets(&mut self, page: i64) -> (r: Page)
        ensures
            final(self)@ == old(self)@.get_assets(page as int).0,
            r@ == old(self)@.get_assets(page as int).1,
    {
        let size = self.config.get_page_size();
        match &self.store {
            Some(c) => {
                let r = cut_page(c.entries(), page, size);
                self.last_error = None;
                r
            },
            None => {
                self.last_error = Some(CatalogError::StoreUnavailable);
                let items: Vec<AssetEntry> = Vec::new();
                assert(entry_views(items@) =~= Seq::empty());
                Page {
                    items,
                    page_number: if page < 1 {
                        1
                    } else {
                        page
                    },
                    page_size: size,
                    total_pages: 0,
                }
            },
        }
    }

    /// Returns one page of the assets that meet every term of the query, in
    /// listing order. A query without a term finds nothing. An unreachable
    /// store gives an empty page.
    pub fn search(&mut self, query: &str, page: i64) -> (r: Page)
        ensures
            final(self)@ == old(self)@.search(query@, page as int).0,
            r@ == old(self)@.search(query@, page as int).1,
    {
        let size = self.config.get_page_size();
        match &self.store {
            Some(c) => {
                let conditions = parse_query(query);
                let offset = first_of_page(page, size);
                let entries = c.entries();
                let (items, total) = search_entries(entries, &conditions, offset, size);
                proof {
                    let all = crate::query::matching(entry_views(entries@), conditions_of(query@));
                    crate::query::lemma_matching_len(entry_views(entries@), conditions_of(query@));
                    assert(window(all, offset as int, size as int) =~= window(
                        all,
                        page_offset(page as int, size as int),
                        size as int,
                    ));
                }
                self.last_error = None;
                Page {
                    items,
                    page_number: if page < 1 {
                        1
                    } else {
                        page
                    },
                    page_size: size,
                    total_pages: total_pages(total as i64, size),
                }
            },
            None => {
                self.last_error = Some(CatalogError::StoreUnavailable);
                let items: Vec<AssetEntry> = Vec::new();
                assert(entry_views(items@) =~= Seq::empty());
                Page {
                    items,
                    page_number: if page < 1 {
                        1
                    } else {
                        page
                    },
                    page_size: size,
                    total_pages: 0,
                }
            },
        }
    }

    /// Updates the fields of an asset for which the update has a filled slot.
    pub fn update_asset(&mut self, id: i64, update: &AssetUpdate) -> (r: Result<(), CatalogError>)
        ensures
            final(self)@ == old(self)@.update_asset(id as int, update@).0,
            r == old(self)@.update_asset(id as int, update@).1,
    {
        if update.is_empty() {
            self.last_error = Some(CatalogError::InvalidInput);
            return Err(CatalogError::InvalidInput);
        }
        let mut store: Option<Catalog> = None;
        core::mem::swap(&mut self.store, &mut store);
        match store {
            Some(mut c) => {
                let r = c.update(id, update);
                self.store = Some(c);
                self.last_error = match r {
                    Ok(_) => None,
                    Err(e) => Some(e),
                };
                r
            },
            None => {
                self.last_error = Some(CatalogError::StoreUnavailable);
                Err(CatalogError::StoreUnavailable)
            },
        }
    }

    /// Deletes an asset. With `remember`, its path is tombstoned, so that
    /// no scan stores it again. An unknown identifier succeeds.
    pub fn delete_asset(&mut self, id: i64, remember: bool) -> (r: Result<(), CatalogError>)
        ensures
            final(self)@ == old(self)@.delete_asset(id as int, remember).0,
            r == old(self)@.delete_asset(id as int, remember).1,
    {
        let mut store: Option<Catalog> = None;
        core::mem::swap(&mut self.store, &mut store);
        match store {
            Some(mut c) => {
                c.delete(id, remember);
                self.store = Some(c);
                self.last_error = None;
                Ok(())
            },
            None => {
                self.last_error = Some(CatalogError::StoreUnavailable);
                Err(CatalogError::StoreUnavailable)
            },
        }
    }

    /// Visits one directory of a scan with the handle's configuration.
    pub fn scan_directory(&mut self, dir: &Directory) -> (r: Outcome)
        ensures
            final(self)@ == old(self)@.scan_directory(dir@).0,
            r@ == old(self)@.scan_directory(dir@).1,
    {
        let mut store: Option<Catalog> = None;
        core::mem::swap(&mut self.store, &mut store);
        match store {
            Some(mut c) => {
                let r = visit_directory(&mut c, &self.config, dir);
                self.store = Some(c);
                r
            },
            None => {
                let mut c = Catalog::closed();
                visit_directory(&mut c, &self.config, dir)
            },
        }
    }

    /// Scans the directories of a depth-first walk in order and returns, for
    /// each, the outcome of its visit, or `None` where it lies in a pruned
    /// subtree.
    pub fn find_assets(&mut self, walk: &Vec<Visited>) -> (r: Vec<Option<Outcome>>)
        ensures
            final(self)@ == old(self)@.find_assets(walk_views(walk@)).0,
            outcome_views(r@) == old(self)@.find_assets(walk_views(walk@)).1,
            r.len() == walk.len(),
    {
        self.last_error = None;
        let mut store: Option<Catalog> = None;
        core::mem::swap(&mut self.store, &mut store);
        match store {
            Some(mut c) => {
                let r = scan_walk(&mut c, &self.config, walk);
                self.store = Some(c);
                r
            },
            None => {
                let mut c = Catalog::closed();
                scan_walk(&mut c, &self.config, walk)
            },
        }
    }
}

} // verus!
