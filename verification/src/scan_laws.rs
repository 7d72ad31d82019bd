//! What holds of whole scans: a scan stores no tombstoned path, and a scan
//! that is repeated changes nothing, over the same walk and over the tree
//! read again after its metadata files were filled in.

use vstd::prelude::*;
use crate::asset::{AssetView, EntryView};
use crate::config::ConfigView;
use crate::manager::ManagerView;
use crate::model::{
    CatalogView, is_under, lemma_outside_fixed, lemma_outside_paths, lemma_placed_paths,
};
use crate::scanner::{
    DirectoryView, MetadataView, OutcomeView, VisitedView, after_rewrite, hidden, outcomes_from,
    scan, scan_from, scan_outcomes, skip_after, visit,
};

verus! {

/// Directory `below` of a walk lies in the subtree of directory `top`: it
/// comes later, and every directory from behind `top` up to it lies deeper
/// than `top`.
pub open spec fn in_subtree(walk: Seq<VisitedView>, top: int, below: int) -> bool {
    &&& top < below
    &&& forall|x: int| top < x <= below ==> (#[trigger] walk[x]).depth > walk[top].depth
}

/// The paths of a walk nest as its directories do: a directory whose path
/// lies strictly below the path of a directory with a metadata file lies in
/// that directory's subtree.
pub open spec fn paths_nest(walk: Seq<VisitedView>) -> bool {
    forall|top: int, below: int|
        0 <= top < walk.len() && 0 <= below < walk.len() && walk[top].dir.has_metadata()
            && is_under(walk[below].dir.path, walk[top].dir.path) ==> #[trigger] in_subtree(
            walk,
            top,
            below,
        )
}

/// Directory `at` holds a usable metadata record that places its asset
/// strictly below directory `top`, which holds a metadata file.
pub open spec fn places_below(walk: Seq<VisitedView>, at: int, top: int) -> bool {
    match walk[at].dir.usable_record() {
        Some(record) => walk[top].dir.has_metadata() && is_under(record.path, walk[top].dir.path),
        None => false,
    }
}

/// No usable metadata record of the walk places its asset strictly below a
/// directory of the walk that holds a metadata file.
pub open spec fn records_stay_clear(walk: Seq<VisitedView>) -> bool {
    forall|at: int, top: int|
        0 <= at < walk.len() && 0 <= top < walk.len() ==> !#[trigger] places_below(walk, at, top)
}

/// The directory as it is read once its metadata file was filled in.
pub open spec fn filled_in(dir: DirectoryView, config: ConfigView) -> DirectoryView {
    DirectoryView { metadata: MetadataView::Record(dir.auto_filled(config)), ..dir }
}

/// `second` is what a later scan reads of the directory that an earlier
/// scan read as `first`, where nothing but the scanner wrote to it: the same,
/// or, where its metadata file was unusable and an image was resolved, the
/// same with the metadata file filled in.
pub open spec fn same_reading(first: DirectoryView, second: DirectoryView, config: ConfigView)
    -> bool {
    ||| second == first
    ||| first.has_metadata() && first.usable_record() is None && first.preview(config) is Some
        && second == filled_in(first, config)
}

/// `again` is what a later scan reads of the tree that an earlier scan read
/// as `walk`, where nothing but the scanner wrote to it.
pub open spec fn read_again(walk: Seq<VisitedView>, again: Seq<VisitedView>, config: ConfigView)
    -> bool {
    &&& again.len() == walk.len()
    &&& forall|i: int|
        0 <= i < walk.len() ==> (#[trigger] again[i]).depth == walk[i].depth && same_reading(
            walk[i].dir,
            again[i].dir,
            config,
        )
}

/// Every directory of the walk with an unusable metadata file has an image
/// that discovery resolves.
pub open spec fn filled_with_images(walk: Seq<VisitedView>, config: ConfigView) -> bool {
    forall|i: int|
        0 <= i < walk.len() && (#[trigger] walk[i]).dir.has_metadata()
            && walk[i].dir.usable_record() is None ==> walk[i].dir.preview(config) is Some
}

/// The walk as a later scan reads it, once the records that the outcomes of
/// a scan asked for were written into the metadata files.
pub open spec fn reread(walk: Seq<VisitedView>, outcomes: Seq<Option<OutcomeView>>) -> Seq<
    VisitedView,
> {
    Seq::new(
        walk.len(),
        |i: int|
            VisitedView {
                depth: walk[i].depth,
                dir: if i < outcomes.len() {
                    match outcomes[i] {
                        Some(outcome) => after_rewrite(walk[i].dir, outcome),
                        None => walk[i].dir,
                    }
                } else {
                    walk[i].dir
                },
            },
    )
}

/// No stored path lies strictly below `parent`.
pub open spec fn nothing_below(catalog: CatalogView, parent: Seq<char>) -> bool {
    forall|q: Seq<char>| #[trigger] catalog.path_exists(q) ==> !is_under(q, parent)
}

/// No path lies strictly below itself.
pub proof fn lemma_not_under_itself(path: Seq<char>)
    ensures
        !is_under(path, path),
{
}

/// What one visit does to the stored paths: it leaves the tombstones and
/// never lowers the counter; it adds no path but the one under which it
/// stores the directory; and it removes no path but those below a directory
/// with a metadata file.
pub proof fn lemma_visit_paths(catalog: CatalogView, config: ConfigView, dir: DirectoryView)
    ensures
        ({
            let after = visit(catalog, config, dir).0;
            &&& after.tombstones == catalog.tombstones
            &&& after.next_id >= catalog.next_id
            &&& forall|q: Seq<char>| #[trigger]
                after.path_exists(q) ==> catalog.path_exists(q) || (q == dir.stored_path()
                    && !catalog.skips(dir.path))
            &&& forall|q: Seq<char>|
                catalog.path_exists(q) && !(dir.has_metadata() && is_under(q, dir.path))
                    ==> #[trigger] after.path_exists(q)
        }),
{
    if !catalog.skips(dir.path) {
        lemma_outside_paths(catalog.entries, dir.path);
        let cleared = if dir.has_metadata() {
            catalog.delete_under(dir.path)
        } else {
            catalog
        };
        match dir.usable_record() {
            Some(record) => {
                lemma_placed_paths(
                    cleared.entries,
                    EntryView { id: cleared.next_id, data: record },
                );
            },
            None => {
                match dir.preview(config) {
                    Some(image) => {
                        lemma_placed_paths(
                            cleared.entries,
                            EntryView { id: cleared.next_id, data: dir.discovered(image) },
                        );
                    },
                    None => {},
                }
            },
        }
    }
}

/// A scan leaves the tombstones as they are and never lowers the counter.
pub proof fn lemma_scan_keeps(
    catalog: CatalogView,
    config: ConfigView,
    walk: Seq<VisitedView>,
    from: int,
    skip: Option<int>,
)
    ensures
        scan_from(catalog, config, walk, from, skip).tombstones == catalog.tombstones,
        scan_from(catalog, config, walk, from, skip).next_id >= catalog.next_id,
    decreases walk.len() - from,
{
    if 0 <= from < walk.len() {
        if hidden(skip, walk[from].depth) {
            lemma_scan_keeps(catalog, config, walk, from + 1, skip);
        } else {
            let (after, outcome) = visit(catalog, config, walk[from].dir);
            lemma_visit_paths(catalog, config, walk[from].dir);
            lemma_scan_keeps(after, config, walk, from + 1, skip_after(outcome, walk[from].depth));
        }
    }
}

/// A stored path survives a scan, where it lies below no directory with a
/// metadata file that the scan may still visit.
pub proof fn lemma_path_survives(
    catalog: CatalogView,
    config: ConfigView,
    walk: Seq<VisitedView>,
    from: int,
    skip: Option<int>,
    path: Seq<char>,
)
    requires
        catalog.path_exists(path),
        forall|x: int|
            from <= x < walk.len() && (#[trigger] walk[x]).dir.has_metadata() ==> !is_under(
                path,
                walk[x].dir.path,
            ),
    ensures
        scan_from(catalog, config, walk, from, skip).path_exists(path),
    decreases walk.len() - from,
{
    if 0 <= from < walk.len() {
        if hidden(skip, walk[from].depth) {
            lemma_path_survives(catalog, config, walk, from + 1, skip, path);
        } else {
            let (after, outcome) = visit(catalog, config, walk[from].dir);
            lemma_visit_paths(catalog, config, walk[from].dir);
            assert(after.path_exists(path));
            lemma_path_survives(
                after,
                config,
                walk,
                from + 1,
                skip_after(outcome, walk[from].depth),
                path,
            );
        }
    } else if from < 0 {
    }
}

/// Once a visit has pruned a directory with a metadata file, the rest of the
/// scan stores nothing below it.
pub proof fn lemma_stays_clear(
    catalog: CatalogView,
    config: ConfigView,
    walk: Seq<VisitedView>,
    from: int,
    skip: Option<int>,
    top: int,
)
    requires
        paths_nest(walk),
        records_stay_clear(walk),
        0 <= top < from <= walk.len(),
        walk[top].dir.has_metadata(),
        nothing_below(catalog, walk[top].dir.path),
        from < walk.len() && in_subtree(walk, top, from) ==> skip == Some(walk[top].depth),
    ensures
        nothing_below(scan_from(catalog, config, walk, from, skip), walk[top].dir.path),
    decreases walk.len() - from,
{
    if from < walk.len() {
        let parent = walk[top].dir.path;
        if from + 1 < walk.len() && in_subtree(walk, top, from + 1) {
            assert(in_subtree(walk, top, from)) by {
                assert forall|x: int| top < x <= from implies (#[trigger] walk[x]).depth
                    > walk[top].depth by {}
            }
        }
        if hidden(skip, walk[from].depth) {
            lemma_stays_clear(catalog, config, walk, from + 1, skip, top);
        } else {
            let (after, outcome) = visit(catalog, config, walk[from].dir);
            lemma_visit_paths(catalog, config, walk[from].dir);
            if in_subtree(walk, top, from) {
                assert(walk[from].depth > walk[top].depth);
                assert(false);
            }
            if is_under(walk[from].dir.path, parent) {
                assert(in_subtree(walk, top, from));
            }
            assert(nothing_below(after, parent)) by {
                assert forall|q: Seq<char>| #[trigger] after.path_exists(q) implies !is_under(
                    q,
                    parent,
                ) by {
                    if !catalog.path_exists(q) {
                        assert(q == walk[from].dir.stored_path());
                        assert(!places_below(walk, from, top));
                    }
                }
            }
            lemma_stays_clear(
                after,
                config,
                walk,
                from + 1,
                skip_after(outcome, walk[from].depth),
                top,
            );
        }
    }
}

/// Where nothing is stored below a parent, removing what lies below it
/// leaves the catalog as it is.
pub proof fn lemma_nothing_to_remove(catalog: CatalogView, parent: Seq<char>)
    requires
        nothing_below(catalog, parent),
    ensures
        catalog.delete_under(parent) == catalog,
        crate::model::ids_under(catalog.entries, parent) == Seq::<int>::empty(),
{
    assert forall|i: int| 0 <= i < catalog.entries.len() implies !is_under(
        (#[trigger] catalog.entries[i]).data.path,
        parent,
    ) by {
        assert(catalog.path_exists(catalog.entries[i].data.path));
    }
    lemma_outside_fixed(catalog.entries, parent);
}

/// The asset that a visit offers to the catalog for a directory: the usable
/// record, else what discovery makes of the directory and its image.
pub open spec fn offered(dir: DirectoryView, config: ConfigView) -> Option<AssetView> {
    match dir.usable_record() {
        Some(record) => Some(record),
        None => match dir.preview(config) {
            Some(image) => Some(dir.discovered(image)),
            None => None,
        },
    }
}

/// The rest of a second scan changes nothing: `second` is what the first
/// scan made of `first` from position `from` on, and the second scan passes
/// over at least what the first passed over.
pub proof fn lemma_rescan(
    first: CatalogView,
    second: CatalogView,
    config: ConfigView,
    walk: Seq<VisitedView>,
    from: int,
    skip_first: Option<int>,
    skip_second: Option<int>,
)
    requires
        paths_nest(walk),
        records_stay_clear(walk),
        0 <= from <= walk.len(),
        second == scan_from(first, config, walk, from, skip_first),
        skip_first matches Some(d1) ==> (skip_second matches Some(d2) && d2 <= d1),
    ensures
        scan_from(second, config, walk, from, skip_second) == second,
    decreases walk.len() - from,
{
    if from < walk.len() {
        let depth = walk[from].depth;
        let dir = walk[from].dir;
        if hidden(skip_first, depth) {
            lemma_rescan(first, second, config, walk, from + 1, skip_first, skip_second);
        } else {
            let (after, outcome) = visit(first, config, dir);
            let next_first = skip_after(outcome, depth);
            assert(second == scan_from(after, config, walk, from + 1, next_first));
            if hidden(skip_second, depth) {
                lemma_rescan(after, second, config, walk, from + 1, next_first, skip_second);
            } else {
                let (again, outcome_again) = visit(second, config, dir);
                let stored = dir.stored_path();
                lemma_scan_keeps(first, config, walk, from, skip_first);
                lemma_visit_paths(first, config, dir);
                assert forall|x: int|
                    from + 1 <= x < walk.len() && (#[trigger] walk[x]).dir.has_metadata()
                        implies !is_under(dir.path, walk[x].dir.path) by {
                    if is_under(dir.path, walk[x].dir.path) {
                        assert(in_subtree(walk, x, from));
                    }
                }
                assert forall|x: int|
                    from + 1 <= x < walk.len() && (#[trigger] walk[x]).dir.has_metadata()
                        implies !is_under(stored, walk[x].dir.path) by {
                    assert(!places_below(walk, from, x));
                }
                if first.skips(dir.path) {
                    if first.path_exists(dir.path) {
                        lemma_path_survives(after, config, walk, from + 1, next_first, dir.path);
                    }
                    assert(again == second);
                    assert(outcome_again.pruned);
                } else if second.skips(dir.path) {
                    assert(again == second);
                    assert(outcome_again.pruned);
                } else {
                    lemma_outside_paths(first.entries, dir.path);
                    let cleared = if dir.has_metadata() {
                        first.delete_under(dir.path)
                    } else {
                        first
                    };
                    let asset = offered(dir, config);
                    match asset {
                        Some(a) => {
                            assert(a.path == stored);
                            assert(after == cleared.insert(a).0);
                            lemma_placed_paths(
                                cleared.entries,
                                EntryView { id: cleared.next_id, data: a },
                            );
                        },
                        None => {
                            assert(after == cleared);
                        },
                    }
                    if dir.has_metadata() {
                        assert(nothing_below(after, dir.path)) by {
                            assert forall|q: Seq<char>| #[trigger]
                                after.path_exists(q) implies !is_under(q, dir.path) by {
                                if !cleared.path_exists(q) {
                                    assert(q == stored);
                                    assert(!places_below(walk, from, from));
                                    lemma_not_under_itself(dir.path);
                                }
                            }
                        }
                        lemma_stays_clear(after, config, walk, from + 1, next_first, from);
                        lemma_nothing_to_remove(second, dir.path);
                    }
                    match asset {
                        Some(a) => {
                            if after.path_exists(stored) {
                                lemma_path_survives(
                                    after,
                                    config,
                                    walk,
                                    from + 1,
                                    next_first,
                                    stored,
                                );
                                assert(second.path_exists(a.path));
                            } else {
                                assert(cleared.next_id >= i64::MAX);
                                assert(second.next_id >= i64::MAX);
                            }
                        },
                        None => {},
                    }
                    assert(again == second);
                    assert(outcome.pruned == outcome_again.pruned);
                }
                lemma_rescan(
                    after,
                    second,
                    config,
                    walk,
                    from + 1,
                    next_first,
                    skip_after(outcome_again, depth),
                );
            }
        }
    }
}

/// A visit of a directory whose metadata file was filled in does to the
/// catalog, and decides of the walk, what a visit of the directory as it was
/// read before does.
pub proof fn lemma_same_reading(
    catalog: CatalogView,
    config: ConfigView,
    first: DirectoryView,
    second: DirectoryView,
)
    requires
        same_reading(first, second, config),
    ensures
        visit(catalog, config, second).0 == visit(catalog, config, first).0,
        visit(catalog, config, second).1.pruned == visit(catalog, config, first).1.pruned,
        visit(catalog, config, second).1.indexed == visit(catalog, config, first).1.indexed,
        visit(catalog, config, second).1.removed == visit(catalog, config, first).1.removed,
{
    if second != first {
        let image = first.preview(config)->Some_0;
        let record = first.auto_filled(config);
        assert(record == first.discovered(image));
        assert(second.has_metadata());
        assert(second.folder_name() == first.folder_name());
        assert(second.preview(config) == first.preview(config));
        assert(second.path == first.path);
        if second.usable_record() is Some {
            assert(second.usable_record() == Some(record));
        } else {
            assert(second.discovered(image) == record);
        }
    }
}

/// A scan of the tree as it is read again does to a catalog what a scan of
/// the tree as it was read before does.
pub proof fn lemma_read_again(
    catalog: CatalogView,
    config: ConfigView,
    walk: Seq<VisitedView>,
    again: Seq<VisitedView>,
    from: int,
    skip: Option<int>,
)
    requires
        read_again(walk, again, config),
    ensures
        scan_from(catalog, config, again, from, skip) == scan_from(
            catalog,
            config,
            walk,
            from,
            skip,
        ),
    decreases walk.len() - from,
{
    if 0 <= from < walk.len() {
        assert(again[from].depth == walk[from].depth);
        if hidden(skip, walk[from].depth) {
            lemma_read_again(catalog, config, walk, again, from + 1, skip);
        } else {
            lemma_same_reading(catalog, config, walk[from].dir, again[from].dir);
            let (after, outcome) = visit(catalog, config, walk[from].dir);
            lemma_read_again(
                after,
                config,
                walk,
                again,
                from + 1,
                skip_after(outcome, walk[from].depth),
            );
        }
    }
}

/// The outcomes of a scan are as many as the directories from `from` on, and
/// a record that one asks to write is the auto-filled record of a directory
/// with an unusable metadata file.
pub proof fn lemma_outcomes(
    catalog: CatalogView,
    config: ConfigView,
    walk: Seq<VisitedView>,
    from: int,
    skip: Option<int>,
)
    requires
        0 <= from <= walk.len(),
    ensures
        outcomes_from(catalog, config, walk, from, skip).len() == walk.len() - from,
        forall|k: int|
            0 <= k < walk.len() - from ==> match #[trigger] outcomes_from(
                catalog,
                config,
                walk,
                from,
                skip,
            )[k] {
                Some(outcome) => match outcome.rewrite {
                    Some(record) => {
                        &&& walk[from + k].dir.has_metadata()
                        &&& walk[from + k].dir.usable_record() is None
                        &&& record == walk[from + k].dir.auto_filled(config)
                    },
                    None => true,
                },
                None => true,
            },
    decreases walk.len() - from,
{
    if from < walk.len() {
        let all = outcomes_from(catalog, config, walk, from, skip);
        if hidden(skip, walk[from].depth) {
            lemma_outcomes(catalog, config, walk, from + 1, skip);
            let rest = outcomes_from(catalog, config, walk, from + 1, skip);
            assert forall|k: int| 1 <= k < walk.len() - from implies all[k] == rest[k - 1] by {}
        } else {
            let (after, outcome) = visit(catalog, config, walk[from].dir);
            let next = skip_after(outcome, walk[from].depth);
            lemma_outcomes(after, config, walk, from + 1, next);
            let rest = outcomes_from(after, config, walk, from + 1, next);
            assert forall|k: int| 1 <= k < walk.len() - from implies all[k] == rest[k - 1] by {}
        }
    }
}

/// The walk with the metadata files filled in as a scan asked for is the
/// tree read again, where every unusable metadata file had an image to be
/// filled in with.
pub proof fn lemma_reread(catalog: CatalogView, config: ConfigView, walk: Seq<VisitedView>)
    requires
        filled_with_images(walk, config),
    ensures
        read_again(walk, reread(walk, scan_outcomes(catalog, config, walk)), config),
{
    let outcomes = scan_outcomes(catalog, config, walk);
    let again = reread(walk, outcomes);
    lemma_outcomes(catalog, config, walk, 0, None);
    assert forall|i: int| 0 <= i < walk.len() implies (#[trigger] again[i]).depth == walk[i].depth
        && same_reading(walk[i].dir, again[i].dir, config) by {
        match outcomes[i] {
            Some(outcome) => {
                match outcome.rewrite {
                    Some(record) => {
                        assert(again[i].dir == filled_in(walk[i].dir, config));
                    },
                    None => {},
                }
            },
            None => {},
        }
    }
}

/// A scan repeats without effect: a second scan of the same walk leaves the
/// catalog exactly as the first scan left it, so it stores nothing, removes
/// nothing and the count stays the same. It holds of walks whose paths nest
/// as their directories do, unless a metadata record places its asset below
/// a directory with a metadata file.
pub proof fn second_scan_changes_nothing(
    catalog: CatalogView,
    config: ConfigView,
    walk: Seq<VisitedView>,
)
    requires
        paths_nest(walk),
        records_stay_clear(walk),
    ensures
        scan(scan(catalog, config, walk), config, walk) == scan(catalog, config, walk),
        scan(scan(catalog, config, walk), config, walk).count() == scan(
            catalog,
            config,
            walk,
        ).count(),
{
    lemma_rescan(catalog, scan(catalog, config, walk), config, walk, 0, None, None);
}

/// A scan of a tree that is read again changes nothing: after a scan of
/// `walk`, a scan of the same tree as a later reading `again` gives it, with
/// the metadata files that the first scan filled in, leaves the catalog
/// exactly as the first scan left it. It holds of walks whose paths nest as
/// their directories do, unless a metadata record places its asset below a
/// directory with a metadata file. A metadata file that was filled in
/// without an image is no such reading.
pub proof fn scan_of_the_tree_read_again_changes_nothing(
    catalog: CatalogView,
    config: ConfigView,
    walk: Seq<VisitedView>,
    again: Seq<VisitedView>,
)
    requires
        paths_nest(walk),
        records_stay_clear(walk),
        read_again(walk, again, config),
    ensures
        scan(scan(catalog, config, walk), config, again) == scan(catalog, config, walk),
        scan(scan(catalog, config, walk), config, again).count() == scan(
            catalog,
            config,
            walk,
        ).count(),
{
    let first = scan(catalog, config, walk);
    lemma_read_again(first, config, walk, again, 0, None);
    lemma_rescan(catalog, first, config, walk, 0, None, None);
}

/// A scan after auto-fill changes nothing: after a scan of `walk` and after
/// the records that it asked for were written into the metadata files, a
/// scan of the tree leaves the catalog exactly as the first scan left it. It
/// holds of walks whose paths nest as their directories do, unless a
/// metadata record places its asset below a directory with a metadata file,
/// or a directory has an unusable metadata file and no image.
pub proof fn scan_after_auto_fill_changes_nothing(
    catalog: CatalogView,
    config: ConfigView,
    walk: Seq<VisitedView>,
)
    requires
        paths_nest(walk),
        records_stay_clear(walk),
        filled_with_images(walk, config),
    ensures
        scan(
            scan(catalog, config, walk),
            config,
            reread(walk, scan_outcomes(catalog, config, walk)),
        ) == scan(catalog, config, walk),
{
    lemma_reread(catalog, config, walk);
    scan_of_the_tree_read_again_changes_nothing(
        catalog,
        config,
        walk,
        reread(walk, scan_outcomes(catalog, config, walk)),
    );
}

/// Through the handle: after `find_assets` has run once, a second run over
/// the tree read again leaves the handle exactly as the first run left it,
/// the store with every asset and the count included. It holds of walks
/// whose paths nest as their directories do, unless a metadata record places
/// its asset below a directory with a metadata file.
pub proof fn second_run_of_find_assets_changes_nothing(
    handle: ManagerView,
    walk: Seq<VisitedView>,
    again: Seq<VisitedView>,
)
    requires
        paths_nest(walk),
        records_stay_clear(walk),
        read_again(walk, again, handle.config),
    ensures
        ({
            let first = handle.find_assets(walk).0;
            &&& first.find_assets(again).0 == first
            &&& first.find_assets(again).0.count() == first.count()
        }),
{
    match handle.store {
        Some(catalog) => {
            scan_of_the_tree_read_again_changes_nothing(catalog, handle.config, walk, again);
        },
        None => {},
    }
}

/// No usable metadata record of the walk states the path `path`, unless it
/// is the path of the directory that holds the record.
pub open spec fn named_by_itself_only(walk: Seq<VisitedView>, path: Seq<char>) -> bool {
    forall|i: int|
        0 <= i < walk.len() && (#[trigger] walk[i]).dir.stored_path() == path ==> walk[i].dir.path
            == path
}

/// The rest of a scan leaves the tombstones as they are and stores no
/// tombstoned path.
pub proof fn lemma_tombstoned_stays_out(
    catalog: CatalogView,
    config: ConfigView,
    walk: Seq<VisitedView>,
    from: int,
    skip: Option<int>,
    path: Seq<char>,
)
    requires
        named_by_itself_only(walk, path),
        catalog.is_tombstoned(path),
        !catalog.path_exists(path),
    ensures
        scan_from(catalog, config, walk, from, skip).tombstones == catalog.tombstones,
        !scan_from(catalog, config, walk, from, skip).path_exists(path),
    decreases walk.len() - from,
{
    if 0 <= from < walk.len() {
        if hidden(skip, walk[from].depth) {
            lemma_tombstoned_stays_out(catalog, config, walk, from + 1, skip, path);
        } else {
            let dir = walk[from].dir;
            let (after, outcome) = visit(catalog, config, dir);
            lemma_visit_paths(catalog, config, dir);
            if after.path_exists(path) {
                assert(path == dir.stored_path());
                assert(path == dir.path);
                assert(catalog.skips(dir.path));
            }
            lemma_tombstoned_stays_out(
                after,
                config,
                walk,
                from + 1,
                skip_after(outcome, walk[from].depth),
                path,
            );
        }
    }
}

/// Tombstones keep deleted paths out: a scan leaves the tombstones as they
/// are, and a tombstoned path that is not stored before the scan is not
/// stored after it. The one exception is a metadata record that states the
/// tombstoned path from within another directory.
pub proof fn scan_stores_no_tombstoned_path(
    catalog: CatalogView,
    config: ConfigView,
    walk: Seq<VisitedView>,
    path: Seq<char>,
)
    requires
        named_by_itself_only(walk, path),
        catalog.is_tombstoned(path),
        !catalog.path_exists(path),
    ensures
        scan(catalog, config, walk).tombstones == catalog.tombstones,
        scan(catalog, config, walk).is_tombstoned(path),
        !scan(catalog, config, walk).path_exists(path),
{
    lemma_tombstoned_stays_out(catalog, config, walk, 0, None, path);
}

/// A visit keeps the invariant of the store.
pub proof fn visit_keeps_the_invariant(catalog: CatalogView, config: ConfigView, dir: DirectoryView)
    requires
        catalog.wf(),
    ensures
        visit(catalog, config, dir).0.wf(),
{
    if !(catalog.is_tombstoned(dir.path) || catalog.path_exists(dir.path)) {
        catalog.lemma_delete_under_wf(dir.path);
        let cleared = if dir.has_metadata() {
            catalog.delete_under(dir.path)
        } else {
            catalog
        };
        match dir.usable_record() {
            Some(record) => {
                cleared.lemma_insert_wf(record);
            },
            None => {
                match dir.preview(config) {
                    Some(image) => {
                        cleared.lemma_insert_wf(dir.discovered(image));
                    },
                    None => {},
                }
            },
        }
    }
}

/// The rest of a scan keeps the invariant of the store.
pub proof fn lemma_scan_wf(
    catalog: CatalogView,
    config: ConfigView,
    walk: Seq<VisitedView>,
    from: int,
    skip: Option<int>,
)
    requires
        catalog.wf(),
    ensures
        scan_from(catalog, config, walk, from, skip).wf(),
    decreases walk.len() - from,
{
    if 0 <= from < walk.len() {
        if hidden(skip, walk[from].depth) {
            lemma_scan_wf(catalog, config, walk, from + 1, skip);
        } else {
            let (after, outcome) = visit(catalog, config, walk[from].dir);
            visit_keeps_the_invariant(catalog, config, walk[from].dir);
            lemma_scan_wf(after, config, walk, from + 1, skip_after(outcome, walk[from].depth));
        }
    }
}

/// A scan keeps the invariant of the store: whatever the walk holds, paths
/// and identifiers stay unique and the listing stays in order.
pub proof fn scan_keeps_the_invariant(
    catalog: CatalogView,
    config: ConfigView,
    walk: Seq<VisitedView>,
)
    requires
        catalog.wf(),
    ensures
        scan(catalog, config, walk).wf(),
{
    lemma_scan_wf(catalog, config, walk, 0, None);
}

} // verus!
