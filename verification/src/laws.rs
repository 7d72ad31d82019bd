//! What holds of the catalog whatever it stores: uniqueness of paths,
//! tombstones that keep deleted paths out, scans that repeat without
//! effect, the priority of the discovery passes, and the arithmetic of
//! pages.

use vstd::prelude::*;
use crate::asset::{AssetView, CatalogError, EntryView, UpdateView};
use crate::config::ConfigView;
use crate::discovery::{preview_pass, resolved_index};
use crate::model::{
    CatalogView, holds_path, is_under, lemma_outside_fixed, lemma_outside_paths,
    lemma_placed_paths, lemma_position, ordered, placed, precedes,
};
use crate::paging::{page_count, window};
use crate::query::{ConditionView, conditions_of, matching, satisfies_all};
use crate::scanner::{DirectoryView, OutcomeView, after_rewrite, visit};
use crate::text::{is_space, words};

verus! {

/// Every operation of the store keeps its invariant: paths and identifiers
/// stay unique, identifiers stay below the counter, and the listing stays in
/// order.
pub proof fn store_keeps_its_invariant(
    catalog: CatalogView,
    asset: AssetView,
    id: int,
    update: UpdateView,
    path: Seq<char>,
    remember: bool,
)
    requires
        catalog.wf(),
    ensures
        CatalogView::empty().wf(),
        catalog.insert(asset).0.wf(),
        catalog.update(id, update).0.wf(),
        catalog.remove(id).wf(),
        catalog.delete(id, remember).wf(),
        catalog.tombstone(path).wf(),
        catalog.delete_under(path).wf(),
{
    catalog.lemma_insert_wf(asset);
    catalog.lemma_update_wf(id, update);
    catalog.lemma_remove_wf(id);
    catalog.lemma_delete_under_wf(path);
}

/// Identifiers are not used again: an asset that is stored gets the counter
/// as its identifier, which no stored asset has, and no operation ever
/// lowers the counter.
pub proof fn identifiers_are_not_used_again(
    catalog: CatalogView,
    asset: AssetView,
    id: int,
    update: UpdateView,
    path: Seq<char>,
    remember: bool,
)
    requires
        catalog.wf(),
    ensures
        catalog.insert(asset).1 matches Ok(given) ==> given == catalog.next_id && catalog.get(given)
            is None && catalog.insert(asset).0.next_id == given + 1,
        catalog.insert(asset).0.next_id >= catalog.next_id,
        catalog.update(id, update).0.next_id == catalog.next_id,
        catalog.remove(id).next_id == catalog.next_id,
        catalog.delete(id, remember).next_id == catalog.next_id,
        catalog.tombstone(path).next_id == catalog.next_id,
        catalog.delete_under(path).next_id == catalog.next_id,
{
    lemma_position(catalog.entries, catalog.next_id);
}

/// Paths are unique: after an asset was offered to the catalog, a second
/// asset with the same path is rejected with `WriteFailed`, and the catalog
/// and its count stay as they are.
pub proof fn second_asset_with_a_stored_path_is_rejected(
    catalog: CatalogView,
    first: AssetView,
    second: AssetView,
)
    requires
        catalog.wf(),
        first.path == second.path,
    ensures
        ({
            let after = catalog.insert(first).0;
            &&& after.insert(second) == (after, Err::<int, CatalogError>(CatalogError::WriteFailed))
            &&& after.insert(second).0.count() == after.count()
        }),
{
    let e = EntryView { id: catalog.next_id, data: first };
    lemma_placed_paths(catalog.entries, e);
}

/// An asset that was stored is found under the identifier that the catalog
/// returned, and the count has grown by one.
pub proof fn stored_asset_is_found(catalog: CatalogView, asset: AssetView)
    requires
        catalog.wf(),
        catalog.insert(asset).1 is Ok,
    ensures
        ({
            let (after, written) = catalog.insert(asset);
            &&& after.get(written->Ok_0) == Some(asset)
            &&& after.count() == catalog.count() + 1
            &&& after.path_exists(asset.path)
        }),
{
    let e = EntryView { id: catalog.next_id, data: asset };
    let t = placed(catalog.entries, e);
    crate::model::lemma_slot(catalog.entries, e);
    lemma_placed_paths(catalog.entries, e);
    lemma_position(t, e.id);
    let at = crate::model::slot(catalog.entries, e);
    assert(t[at] == e);
    assert forall|j: int| 0 <= j < t.len() && j != at implies (#[trigger] t[j]).id != e.id by {
        if j < at {
            assert(t[j] == catalog.entries[j]);
        } else {
            assert(t[j] == catalog.entries[j - 1]);
        }
    }
}

/// A directory whose path is tombstoned is skipped: the visit leaves the
/// catalog as it is, stores nothing, and the walk does not descend.
pub proof fn tombstoned_directory_is_skipped(
    catalog: CatalogView,
    config: ConfigView,
    dir: DirectoryView,
)
    requires
        catalog.is_tombstoned(dir.path),
    ensures
        visit(catalog, config, dir) == (
            catalog,
            OutcomeView { pruned: true, indexed: None, removed: Seq::empty(), rewrite: None },
        ),
{
}

/// After an asset was deleted with its path remembered, a visit of the
/// directory with that path stores nothing and leaves the count as it is.
pub proof fn deleted_and_remembered_path_is_not_stored_again(
    catalog: CatalogView,
    id: int,
    config: ConfigView,
    dir: DirectoryView,
)
    requires
        catalog.wf(),
        catalog.get(id) matches Some(asset) && asset.path == dir.path,
    ensures
        ({
            let deleted = catalog.delete(id, true);
            &&& !deleted.path_exists(dir.path)
            &&& deleted.is_tombstoned(dir.path)
            &&& visit(deleted, config, dir).0 == deleted
            &&& visit(deleted, config, dir).1.indexed is None
            &&& visit(deleted, config, dir).0.count() == deleted.count()
        }),
{
    lemma_position(catalog.entries, id);
    let k = crate::model::position(catalog.entries, id)->Some_0;
    let s = catalog.entries;
    let t = s.remove(k);
    if holds_path(t, dir.path) {
        let i = choose|i: int| 0 <= i < t.len() && (#[trigger] t[i]).data.path == dir.path;
        let o = if i < k {
            i
        } else {
            i + 1
        };
        assert(t[i] == s[o]);
        assert(s[o].data.path != s[k].data.path);
    }
}

/// A visit leaves the tombstones as they are, and it stores no tombstoned
/// path, unless a usable metadata record names one.
pub proof fn visit_stores_no_tombstoned_path(
    catalog: CatalogView,
    config: ConfigView,
    dir: DirectoryView,
    path: Seq<char>,
)
    requires
        catalog.wf(),
        catalog.is_tombstoned(path),
        !catalog.path_exists(path),
        dir.usable_record() matches Some(record) ==> record.path != path,
    ensures
        visit(catalog, config, dir).0.tombstones == catalog.tombstones,
        !visit(catalog, config, dir).0.path_exists(path),
{
    lemma_outside_paths(catalog.entries, dir.path);
    let cleared = if dir.has_metadata() {
        catalog.delete_under(dir.path)
    } else {
        catalog
    };
    assert(!cleared.path_exists(path));
    match dir.usable_record() {
        Some(record) => {
            lemma_placed_paths(cleared.entries, EntryView { id: cleared.next_id, data: record });
        },
        None => {
            match dir.preview(config) {
                Some(image) => {
                    lemma_placed_paths(
                        cleared.entries,
                        EntryView { id: cleared.next_id, data: dir.discovered(image) },
                    );
                },
                None => {},
            }
        },
    }
}

/// A scan repeats without effect: a second visit of a directory, read as it
/// was at the first, leaves the catalog as the first visit left it, stores
/// nothing and removes nothing. The one exception is a metadata record that
/// places its asset below the directory that holds it.
pub proof fn second_visit_changes_nothing(
    catalog: CatalogView,
    config: ConfigView,
    dir: DirectoryView,
)
    requires
        catalog.wf(),
        dir.usable_record() matches Some(record) ==> !is_under(record.path, dir.path),
    ensures
        ({
            let first = visit(catalog, config, dir).0;
            &&& visit(first, config, dir).0 == first
            &&& visit(first, config, dir).1.indexed is None
            &&& visit(first, config, dir).1.removed == Seq::<int>::empty()
            &&& visit(first, config, dir).0.count() == first.count()
        }),
{
    if !(catalog.is_tombstoned(dir.path) || catalog.path_exists(dir.path)) {
        lemma_outside_paths(catalog.entries, dir.path);
        let cleared = if dir.has_metadata() {
            catalog.delete_under(dir.path)
        } else {
            catalog
        };
        let asset = match dir.usable_record() {
            Some(record) => Some(record),
            None => match dir.preview(config) {
                Some(image) => Some(dir.discovered(image)),
                None => None,
            },
        };
        let first = visit(catalog, config, dir).0;
        assert(!cleared.path_exists(dir.path));
        match asset {
            Some(a) => {
                let e = EntryView { id: cleared.next_id, data: a };
                assert(first == cleared.insert(a).0);
                lemma_placed_paths(cleared.entries, e);
                crate::model::lemma_placed_members(cleared.entries, e);
                if dir.has_metadata() {
                    assert forall|i: int| 0 <= i < first.entries.len() implies !is_under(
                        (#[trigger] first.entries[i]).data.path,
                        dir.path,
                    ) by {
                        let x = first.entries[i];
                        assert(first.entries.contains(x));
                        if cleared.entries.contains(x) {
                            let k = choose|k: int|
                                0 <= k < cleared.entries.len() && cleared.entries[k] == x;
                            assert(!is_under(cleared.entries[k].data.path, dir.path));
                        }
                    }
                    lemma_outside_fixed(first.entries, dir.path);
                }
            },
            None => {
                assert(first == cleared);
                if dir.has_metadata() {
                    lemma_outside_fixed(first.entries, dir.path);
                }
            },
        }
    }
}

/// The preview-name pass has priority: where it finds a file, that file is
/// the preview, whatever the folder is called and whichever fallbacks are
/// switched on.
pub proof fn preview_name_has_priority(
    names: Seq<Seq<char>>,
    folder: Seq<char>,
    config: ConfigView,
    has_metadata: bool,
)
    requires
        preview_pass(names, config.preview_names) is Some,
    ensures
        resolved_index(names, folder, config, has_metadata) == preview_pass(
            names,
            config.preview_names,
        ),
{
}

/// A usable metadata record has precedence: the visit offers the record to
/// the catalog as it stands, image and tags included, and it does not
/// rewrite the metadata file, whatever image files the directory holds.
pub proof fn usable_metadata_is_stored_verbatim(
    catalog: CatalogView,
    config: ConfigView,
    dir: DirectoryView,
)
    requires
        catalog.wf(),
        !catalog.is_tombstoned(dir.path),
        !catalog.path_exists(dir.path),
        dir.usable_record() is Some,
    ensures
        ({
            let record = dir.usable_record()->Some_0;
            let (after, outcome) = visit(catalog, config, dir);
            &&& outcome.rewrite is None
            &&& outcome.pruned
            &&& after == catalog.delete_under(dir.path).insert(record).0
            &&& outcome.indexed matches Some(id) ==> after.get(id) == Some(record)
        }),
{
    let record = dir.usable_record()->Some_0;
    let cleared = catalog.delete_under(dir.path);
    catalog.lemma_delete_under_wf(dir.path);
    if cleared.insert(record).1 is Ok {
        stored_asset_is_found(cleared, record);
    }
}

/// Auto-fill: a directory with an unusable metadata file and a resolved
/// image gets a record with its name, its path and that image written back,
/// and once the visit has stored the directory, a later visit that reads
/// the rewritten file changes nothing.
pub proof fn auto_filled_directory_is_settled(
    catalog: CatalogView,
    config: ConfigView,
    dir: DirectoryView,
)
    requires
        catalog.wf(),
        !catalog.is_tombstoned(dir.path),
        !catalog.path_exists(dir.path),
        dir.has_metadata(),
        dir.usable_record() is None,
        dir.preview(config) is Some,
    ensures
        ({
            let (after, outcome) = visit(catalog, config, dir);
            &&& outcome.rewrite == Some(dir.discovered(dir.preview(config)->Some_0))
            &&& outcome.indexed is Some ==> visit(after, config, after_rewrite(dir, outcome)) == (
                after,
                OutcomeView { pruned: true, indexed: None, removed: Seq::empty(), rewrite: None },
            )
        }),
{
    let cleared = catalog.delete_under(dir.path);
    let asset = dir.discovered(dir.preview(config)->Some_0);
    lemma_placed_paths(cleared.entries, EntryView { id: cleared.next_id, data: asset });
}

/// What a search finds are the stored entries that meet every condition; a
/// search without a condition finds nothing.
pub proof fn search_finds_what_meets_every_condition(
    entries: Seq<EntryView>,
    conditions: Seq<ConditionView>,
)
    ensures
        forall|x: EntryView| #[trigger]
            matching(entries, conditions).contains(x) <==> entries.contains(x) && conditions.len()
                > 0 && satisfies_all(x.data, conditions),
        conditions.len() == 0 ==> matching(entries, conditions).len() == 0,
    decreases entries.len(),
{
    if entries.len() != 0 {
        let front = entries.drop_last();
        let last = entries.last();
        search_finds_what_meets_every_condition(front, conditions);
        let t = matching(front, conditions);
        let all = matching(entries, conditions);
        assert forall|x: EntryView| #[trigger]
            all.contains(x) <==> entries.contains(x) && conditions.len() > 0 && satisfies_all(
                x.data,
                conditions,
            ) by {
            if entries.contains(x) {
                let m = choose|m: int| 0 <= m < entries.len() && entries[m] == x;
                if m < front.len() {
                    assert(front[m] == x);
                }
            }
            if front.contains(x) {
                let m = choose|m: int| 0 <= m < front.len() && front[m] == x;
                assert(entries[m] == x);
            }
            if conditions.len() > 0 && satisfies_all(last.data, conditions) {
                if t.contains(x) {
                    let k = choose|k: int| 0 <= k < t.len() && t[k] == x;
                    assert(all[k] == x);
                }
                if all.contains(x) {
                    let k = choose|k: int| 0 <= k < all.len() && all[k] == x;
                    if k < t.len() {
                        assert(t[k] == x);
                    } else {
                        assert(entries[entries.len() - 1] == x);
                    }
                }
                if x == last {
                    assert(all[t.len() as int] == x);
                    assert(entries[entries.len() - 1] == x);
                }
            }
        }
    }
}

/// A search keeps the order of the listing.
pub proof fn search_keeps_the_listing_order(
    entries: Seq<EntryView>,
    conditions: Seq<ConditionView>,
)
    requires
        ordered(entries),
    ensures
        ordered(matching(entries, conditions)),
    decreases entries.len(),
{
    if entries.len() != 0 {
        let front = entries.drop_last();
        assert forall|i: int| 0 <= i < front.len() implies front[i] == entries[i] by {}
        assert(ordered(front));
        search_keeps_the_listing_order(front, conditions);
        search_finds_what_meets_every_condition(front, conditions);
        let t = matching(front, conditions);
        let all = matching(entries, conditions);
        if all.len() > t.len() {
            assert forall|i: int, j: int| 0 <= i < j < all.len() implies precedes(
                #[trigger] all[i],
                #[trigger] all[j],
            ) by {
                if j < t.len() {
                    assert(precedes(t[i], t[j]));
                } else {
                    assert(t.contains(t[i]));
                    assert(front.contains(t[i]));
                    let m = choose|m: int| 0 <= m < front.len() && front[m] == t[i];
                    assert(precedes(entries[m], entries[entries.len() - 1]));
                }
            }
        }
    }
}

/// A query of white space alone has no words, so it stands for no
/// condition.
pub proof fn blank_query_has_no_condition(query: Seq<char>)
    requires
        forall|i: int| 0 <= i < query.len() ==> is_space(#[trigger] query[i]),
    ensures
        words(query).len() == 0,
        conditions_of(query).len() == 0,
    decreases query.len(),
{
    if query.len() != 0 {
        let rest = query.drop_first();
        assert forall|i: int| 0 <= i < rest.len() implies is_space(#[trigger] rest[i]) by {
            assert(rest[i] == query[i + 1]);
        }
        blank_query_has_no_condition(rest);
    }
}

/// Pages tile the listing: page `page` of `count` items holds `page_size`
/// items while it lies before the last page, what is left on the last page,
/// and nothing beyond it; and the number of pages is the least number that
/// holds every item.
pub proof fn pages_tile_the_listing<T>(s: Seq<T>, page: int, page_size: int)
    requires
        page >= 1,
        page_size >= 1,
    ensures
        ({
            let pages = page_count(s.len() as int, page_size);
            let items = window(s, (page - 1) * page_size, page_size);
            &&& (pages - 1) * page_size < s.len() || s.len() == 0
            &&& s.len() <= pages * page_size
            &&& page < pages ==> items.len() == page_size
            &&& page == pages ==> items.len() == s.len() - (pages - 1) * page_size
            &&& page > pages ==> items.len() == 0
            &&& forall|i: int|
                0 <= i < items.len() ==> items[i] == s[(page - 1) * page_size + i]
        }),
{
    let n = s.len() as int;
    let pages = page_count(n, page_size);
    assert(n == (n / page_size) * page_size + n % page_size && 0 <= n % page_size < page_size
        && 0 <= n / page_size) by (nonlinear_arith)
        requires
            n >= 0,
            page_size >= 1,
    ;
    assert((pages - 1) * page_size == pages * page_size - page_size) by (nonlinear_arith);
    assert((n / page_size + 1) * page_size == (n / page_size) * page_size + page_size)
        by (nonlinear_arith);
    if page < pages {
        assert(page * page_size <= (pages - 1) * page_size) by (nonlinear_arith)
            requires
                page <= pages - 1,
                page_size >= 1,
        ;
    }
    if page > pages {
        assert((page - 1) * page_size >= pages * page_size) by (nonlinear_arith)
            requires
                page - 1 >= pages,
                page_size >= 1,
        ;
    }
    assert((page - 1) * page_size + page_size == page * page_size) by (nonlinear_arith);
    assert((page - 1) * page_size >= 0) by (nonlinear_arith)
        requires
            page >= 1,
            page_size >= 1,
    ;
}

} // verus!
