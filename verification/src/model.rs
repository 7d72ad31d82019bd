//! The catalog as a mathematical value: the stored assets in listing order,
//! the tombstoned paths and the identifier counter, with the operations of
//! the store as functions on that value.

use vstd::prelude::*;
use crate::asset::{AssetView, CatalogError, EntryView, UpdateView};
use crate::text::{fold, lex_less, lemma_lex_total, lemma_lex_transitive, lemma_lex_irreflexive};

verus! {

/// Listing order: by name up to ASCII case, and among equal names by identifier.
pub open spec fn precedes(a: EntryView, b: EntryView) -> bool {
    ||| lex_less(fold(a.data.name), fold(b.data.name))
    ||| fold(a.data.name) == fold(b.data.name) && a.id < b.id
}

/// Every entry precedes each entry behind it.
pub open spec fn ordered(s: Seq<EntryView>) -> bool {
    forall|i: int, j: int| 0 <= i < j < s.len() ==> precedes(#[trigger] s[i], #[trigger] s[j])
}

/// No identifier occurs twice.
pub open spec fn distinct_ids(s: Seq<EntryView>) -> bool {
    forall|i: int, j: int|
        0 <= i < s.len() && 0 <= j < s.len() && i != j ==> (#[trigger] s[i]).id != (
        #[trigger] s[j]).id
}

/// No path occurs twice.
pub open spec fn distinct_paths(s: Seq<EntryView>) -> bool {
    forall|i: int, j: int|
        0 <= i < s.len() && 0 <= j < s.len() && i != j ==> (#[trigger] s[i]).data.path != (
        #[trigger] s[j]).data.path
}

/// Some entry has the path `path`.
pub open spec fn holds_path(s: Seq<EntryView>, path: Seq<char>) -> bool {
    exists|i: int| 0 <= i < s.len() && (#[trigger] s[i]).data.path == path
}

/// Number of entries at the front of `s` that precede `e`: the position at
/// which `e` enters an ordered sequence.
pub open spec fn slot(s: Seq<EntryView>, e: EntryView) -> int
    decreases s.len(),
{
    if s.len() == 0 || !precedes(s[0], e) {
        0
    } else {
        1 + slot(s.drop_first(), e)
    }
}

/// The sequence with `e` entered at its position.
pub open spec fn placed(s: Seq<EntryView>, e: EntryView) -> Seq<EntryView> {
    s.insert(slot(s, e), e)
}

/// Position of the entry with identifier `id`.
pub open spec fn position(s: Seq<EntryView>, id: int) -> Option<int>
    decreases s.len(),
{
    if s.len() == 0 {
        None
    } else if s[0].id == id {
        Some(0)
    } else {
        match position(s.drop_first(), id) {
            Some(k) => Some(k + 1),
            None => None,
        }
    }
}

/// The sequence without the entry with identifier `id`.
pub open spec fn without(s: Seq<EntryView>, id: int) -> Seq<EntryView> {
    match position(s, id) {
        Some(k) => s.remove(k),
        None => s,
    }
}

/// A path without the `/` characters at its end.
pub open spec fn trimmed(path: Seq<char>) -> Seq<char>
    decreases path.len(),
{
    if path.len() > 0 && path.last() == '/' {
        trimmed(path.drop_last())
    } else {
        path
    }
}

/// `path` lies strictly below `parent`: without the `/` characters at their
/// ends, the path is the parent, a `/`, and at least one character more. A
/// shared prefix of characters alone does not make a descendant.
pub open spec fn is_under(path: Seq<char>, parent: Seq<char>) -> bool {
    let base = trimmed(parent);
    let below = trimmed(path);
    &&& below.len() > base.len() + 1
    &&& below.subrange(0, base.len() as int) == base
    &&& below[base.len() as int] == '/'
}

/// The entries of `s` whose path does not lie strictly below `parent`, in
/// their order.
pub open spec fn outside(s: Seq<EntryView>, parent: Seq<char>) -> Seq<EntryView>
    decreases s.len(),
{
    if s.len() == 0 {
        s
    } else if is_under(s.last().data.path, parent) {
        outside(s.drop_last(), parent)
    } else {
        outside(s.drop_last(), parent).push(s.last())
    }
}

/// The identifiers of the entries of `s` whose path lies strictly below
/// `parent`, in their order.
pub open spec fn ids_under(s: Seq<EntryView>, parent: Seq<char>) -> Seq<int>
    decreases s.len(),
{
    if s.len() == 0 {
        Seq::empty()
    } else if is_under(s.last().data.path, parent) {
        ids_under(s.drop_last(), parent).push(s.last().id)
    } else {
        ids_under(s.drop_last(), parent)
    }
}

/// Mathematical value of a catalog.
pub struct CatalogView {
    /// The stored assets, in listing order.
    pub entries: Seq<EntryView>,
    /// The paths that were deleted for good.
    pub tombstones: Set<Seq<char>>,
    /// The identifier that the next stored asset gets.
    pub next_id: int,
}

/// The asset that an update turns `data` into: every filled slot replaces
/// its field. An image slot that is filled without an image clears the
/// image.
pub open spec fn revised(data: AssetView, update: UpdateView) -> AssetView {
    AssetView {
        name: match update.name {
            Some(n) => n,
            None => data.name,
        },
        path: match update.path {
            Some(p) => p,
            None => data.path,
        },
        image_path: match update.image_path {
            Some(slot) => slot,
            None => data.image_path,
        },
        tags: match update.tags {
            Some(t) => t,
            None => data.tags,
        },
    }
}

/// The asset with its name alone updated.
pub open spec fn renamed(data: AssetView, update: UpdateView) -> AssetView {
    AssetView {
        name: match update.name {
            Some(n) => n,
            None => data.name,
        },
        ..data
    }
}

impl CatalogView {
    /// The invariant of the store: listing order, unique identifiers below
    /// the counter, unique paths.
    pub open spec fn wf(self) -> bool {
        &&& ordered(self.entries)
        &&& distinct_ids(self.entries)
        &&& distinct_paths(self.entries)
        &&& forall|i: int| 0 <= i < self.entries.len() ==> 1 <= (#[trigger] self.entries[i]).id
            < self.next_id
        &&& self.entries.len() < self.next_id <= i64::MAX
    }

    /// The empty catalog.
    pub open spec fn empty() -> CatalogView {
        CatalogView { entries: Seq::empty(), tombstones: Set::empty(), next_id: 1 }
    }

    /// A catalog that holds nothing and accepts nothing: what a scan sees
    /// of a store that cannot be reached.
    pub open spec fn closed() -> CatalogView {
        CatalogView { entries: Seq::empty(), tombstones: Set::empty(), next_id: i64::MAX as int }
    }

    /// Number of stored assets.
    pub open spec fn count(self) -> int {
        self.entries.len() as int
    }

    /// Whether an asset with this path is stored.
    pub open spec fn path_exists(self, path: Seq<char>) -> bool {
        holds_path(self.entries, path)
    }

    /// Whether this path was deleted for good.
    pub open spec fn is_tombstoned(self, path: Seq<char>) -> bool {
        self.tombstones.contains(path)
    }

    /// Whether a scan passes over the directory with this path: the path is
    /// tombstoned or an asset with it is stored.
    pub open spec fn skips(self, path: Seq<char>) -> bool {
        self.is_tombstoned(path) || self.path_exists(path)
    }

    /// The asset with identifier `id`, if it is stored.
    pub open spec fn get(self, id: int) -> Option<AssetView> {
        match position(self.entries, id) {
            Some(k) => Some(self.entries[k].data),
            None => None,
        }
    }

    /// Storing an asset: it gets the next identifier and enters the listing
    /// at its position. A path that is already stored, or an exhausted
    /// counter, rejects the write and leaves the catalog as it is.
    pub open spec fn insert(self, data: AssetView) -> (CatalogView, Result<int, CatalogError>) {
        if self.path_exists(data.path) || self.next_id >= i64::MAX {
            (self, Err(CatalogError::WriteFailed))
        } else {
            let e = EntryView { id: self.next_id, data };
            (
                CatalogView {
                    entries: placed(self.entries, e),
                    next_id: self.next_id + 1,
                    ..self
                },
                Ok(self.next_id),
            )
        }
    }

    /// Removing the asset with identifier `id`, if it is stored.
    pub open spec fn remove(self, id: int) -> CatalogView {
        CatalogView { entries: without(self.entries, id), ..self }
    }

    /// Remembering a path as deleted for good.
    pub open spec fn tombstone(self, path: Seq<char>) -> CatalogView {
        CatalogView { tombstones: self.tombstones.insert(path), ..self }
    }

    /// Deleting the asset with identifier `id`; with `remember`, its path is
    /// tombstoned where the asset was stored.
    pub open spec fn delete(self, id: int, remember: bool) -> CatalogView {
        match self.get(id) {
            Some(data) => if remember {
                self.remove(id).tombstone(data.path)
            } else {
                self.remove(id)
            },
            None => self,
        }
    }

    /// Removing every asset whose path lies strictly below `parent`.
    pub open spec fn delete_under(self, parent: Seq<char>) -> CatalogView {
        CatalogView { entries: outside(self.entries, parent), ..self }
    }

    /// Updating the asset with identifier `id`, field by field in the order
    /// name, path, image, tags. An update without a filled slot is invalid.
    /// An unknown identifier changes nothing and succeeds. A new path that
    /// another asset holds rejects the write after the name was changed.
    pub open spec fn update(self, id: int, update: UpdateView) -> (
        CatalogView,
        Result<(), CatalogError>,
    ) {
        if update.is_empty() {
            (self, Err(CatalogError::InvalidInput))
        } else {
            match position(self.entries, id) {
                None => (self, Ok(())),
                Some(k) => {
                    let old = self.entries[k];
                    let others = self.entries.remove(k);
                    let clash = match update.path {
                        Some(p) => holds_path(others, p),
                        None => false,
                    };
                    if clash {
                        let e = EntryView { id, data: renamed(old.data, update) };
                        (
                            CatalogView { entries: placed(others, e), ..self },
                            Err(CatalogError::WriteFailed),
                        )
                    } else {
                        let e = EntryView { id, data: revised(old.data, update) };
                        (CatalogView { entries: placed(others, e), ..self }, Ok(()))
                    }
                },
            }
        }
    }
}

pub proof fn lemma_precedes_total(a: EntryView, b: EntryView)
    requires
        a.id != b.id,
    ensures
        precedes(a, b) || precedes(b, a),
        !(precedes(a, b) && precedes(b, a)),
{
    lemma_lex_total(fold(a.data.name), fold(b.data.name));
    lemma_lex_irreflexive(fold(a.data.name));
}

pub proof fn lemma_precedes_transitive(a: EntryView, b: EntryView, c: EntryView)
    requires
        precedes(a, b),
        precedes(b, c),
    ensures
        precedes(a, c),
{
    let (ka, kb, kc) = (fold(a.data.name), fold(b.data.name), fold(c.data.name));
    if lex_less(ka, kb) && lex_less(kb, kc) {
        lemma_lex_transitive(ka, kb, kc);
    }
}

/// The position at which an entry enters: all before it precede the entry,
/// and the one at the position, if any, does not.
pub proof fn lemma_slot(s: Seq<EntryView>, e: EntryView)
    ensures
        0 <= slot(s, e) <= s.len(),
        forall|k: int| 0 <= k < slot(s, e) ==> precedes(#[trigger] s[k], e),
        slot(s, e) < s.len() ==> !precedes(s[slot(s, e)], e),
    decreases s.len(),
{
    if s.len() != 0 && precedes(s[0], e) {
        let rest = s.drop_first();
        lemma_slot(rest, e);
        assert forall|k: int| 0 <= k < slot(s, e) implies precedes(#[trigger] s[k], e) by {
            if k > 0 {
                assert(rest[k - 1] == s[k]);
            }
        }
        if slot(s, e) < s.len() {
            assert(rest[slot(rest, e)] == s[slot(s, e)]);
        }
    }
}

/// An entry with a new identifier keeps an ordered sequence ordered.
pub proof fn lemma_placed_ordered(s: Seq<EntryView>, e: EntryView)
    requires
        ordered(s),
        forall|k: int| 0 <= k < s.len() ==> (#[trigger] s[k]).id != e.id,
    ensures
        ordered(placed(s, e)),
{
    lemma_slot(s, e);
    let at = slot(s, e);
    let t = placed(s, e);
    assert forall|i: int, j: int| 0 <= i < j < t.len() implies precedes(
        #[trigger] t[i],
        #[trigger] t[j],
    ) by {
        if j < at {
            assert(t[i] == s[i] && t[j] == s[j]);
        } else if j == at {
            assert(t[i] == s[i]);
        } else if i < at {
            assert(t[i] == s[i] && t[j] == s[j - 1]);
            if at < j - 1 || i < at {
                assert(precedes(s[i], s[j - 1]));
            }
        } else if i == at {
            assert(t[j] == s[j - 1]);
            lemma_precedes_total(s[at], e);
            if at < j - 1 {
                assert(precedes(s[at], s[j - 1]));
                lemma_precedes_transitive(e, s[at], s[j - 1]);
            }
        } else {
            assert(t[i] == s[i - 1] && t[j] == s[j - 1]);
        }
    }
}

/// Where an identifier is found, it is found at its first occurrence.
pub proof fn lemma_position(s: Seq<EntryView>, id: int)
    ensures
        match position(s, id) {
            Some(k) => 0 <= k < s.len() && s[k].id == id && forall|j: int|
                0 <= j < k ==> (#[trigger] s[j]).id != id,
            None => forall|j: int| 0 <= j < s.len() ==> (#[trigger] s[j]).id != id,
        },
    decreases s.len(),
{
    if s.len() != 0 && s[0].id != id {
        let rest = s.drop_first();
        lemma_position(rest, id);
        match position(rest, id) {
            Some(k) => {
                assert(rest[k] == s[k + 1]);
                assert forall|j: int| 0 <= j < k + 1 implies (#[trigger] s[j]).id != id by {
                    if j > 0 {
                        assert(rest[j - 1] == s[j]);
                    }
                }
            },
            None => {
                assert forall|j: int| 0 <= j < s.len() implies (#[trigger] s[j]).id != id by {
                    if j > 0 {
                        assert(rest[j - 1] == s[j]);
                    }
                }
            },
        }
    }
}

/// What `outside` keeps are entries of the sequence that do not lie below
/// the parent, and it keeps each of those.
pub proof fn lemma_outside_members(s: Seq<EntryView>, parent: Seq<char>)
    ensures
        outside(s, parent).len() <= s.len(),
        forall|x: EntryView| #[trigger]
            outside(s, parent).contains(x) <==> s.contains(x) && !is_under(x.data.path, parent),
    decreases s.len(),
{
    if s.len() != 0 {
        let front = s.drop_last();
        let last = s.last();
        lemma_outside_members(front, parent);
        let t = outside(front, parent);
        assert forall|x: EntryView| #[trigger]
            outside(s, parent).contains(x) <==> s.contains(x) && !is_under(
                x.data.path,
                parent,
            ) by {
            if s.contains(x) {
                let m = choose|m: int| 0 <= m < s.len() && s[m] == x;
                if m < front.len() {
                    assert(front[m] == x);
                    assert(front.contains(x));
                }
            }
            if front.contains(x) {
                let m = choose|m: int| 0 <= m < front.len() && front[m] == x;
                assert(s[m] == x);
            }
            if is_under(last.data.path, parent) {
            } else {
                let r = t.push(last);
                if t.contains(x) {
                    let k = choose|k: int| 0 <= k < t.len() && t[k] == x;
                    assert(r[k] == x);
                }
                if r.contains(x) {
                    let k = choose|k: int| 0 <= k < r.len() && r[k] == x;
                    if k < t.len() {
                        assert(t[k] == x);
                    } else {
                        assert(x == last);
                        assert(s[s.len() - 1] == x);
                    }
                }
                if x == last {
                    assert(r[t.len() as int] == x);
                }
            }
        }
    }
}

/// Removing the entries below a parent keeps the invariants of a sequence.
pub proof fn lemma_outside_keeps(s: Seq<EntryView>, parent: Seq<char>)
    ensures
        ordered(s) ==> ordered(outside(s, parent)),
        distinct_ids(s) ==> distinct_ids(outside(s, parent)),
        distinct_paths(s) ==> distinct_paths(outside(s, parent)),
    decreases s.len(),
{
    if s.len() != 0 {
        let front = s.drop_last();
        let last = s.last();
        lemma_outside_keeps(front, parent);
        lemma_outside_members(front, parent);
        let t = outside(front, parent);
        assert forall|i: int| 0 <= i < front.len() implies front[i] == s[i] by {}
        if !is_under(last.data.path, parent) {
            let r = t.push(last);
            assert forall|k: int| 0 <= k < t.len() implies exists|m: int|
                0 <= m < front.len() && s[m] == #[trigger] t[k] by {
                assert(t.contains(t[k]));
                assert(front.contains(t[k]));
                let m = choose|m: int| 0 <= m < front.len() && front[m] == t[k];
                assert(s[m] == t[k]);
            }
            if ordered(s) {
                assert(ordered(front));
                assert forall|i: int, j: int| 0 <= i < j < r.len() implies precedes(
                    #[trigger] r[i],
                    #[trigger] r[j],
                ) by {
                    if j < t.len() {
                        assert(precedes(t[i], t[j]));
                    } else {
                        let m = choose|m: int| 0 <= m < front.len() && s[m] == t[i];
                        assert(precedes(s[m], s[s.len() - 1]));
                    }
                }
            }
            if distinct_ids(s) {
                assert(distinct_ids(front));
                assert forall|i: int, j: int|
                    0 <= i < r.len() && 0 <= j < r.len() && i != j implies (#[trigger] r[i]).id != (
                #[trigger] r[j]).id by {
                    if i < t.len() && j < t.len() {
                        assert(t[i].id != t[j].id);
                    } else if i < t.len() {
                        let m = choose|m: int| 0 <= m < front.len() && s[m] == t[i];
                        assert(s[m].id != s[s.len() - 1].id);
                    } else {
                        let m = choose|m: int| 0 <= m < front.len() && s[m] == t[j];
                        assert(s[m].id != s[s.len() - 1].id);
                    }
                }
            }
            if distinct_paths(s) {
                assert(distinct_paths(front));
                assert forall|i: int, j: int|
                    0 <= i < r.len() && 0 <= j < r.len() && i != j implies (
                #[trigger] r[i]).data.path != (#[trigger] r[j]).data.path by {
                    if i < t.len() && j < t.len() {
                        assert(t[i].data.path != t[j].data.path);
                    } else if i < t.len() {
                        let m = choose|m: int| 0 <= m < front.len() && s[m] == t[i];
                        assert(s[m].data.path != s[s.len() - 1].data.path);
                    } else {
                        let m = choose|m: int| 0 <= m < front.len() && s[m] == t[j];
                        assert(s[m].data.path != s[s.len() - 1].data.path);
                    }
                }
            }
        } else {
            if ordered(s) {
                assert(ordered(front));
            }
            if distinct_ids(s) {
                assert(distinct_ids(front));
            }
            if distinct_paths(s) {
                assert(distinct_paths(front));
            }
        }
    }
}

impl CatalogView {
    /// Storing an asset keeps the invariant.
    pub proof fn lemma_insert_wf(self, data: AssetView)
        requires
            self.wf(),
        ensures
            self.insert(data).0.wf(),
    {
        if !(self.path_exists(data.path) || self.next_id >= i64::MAX) {
            let e = EntryView { id: self.next_id, data };
            lemma_placed_keeps(self.entries, e);
            lemma_placed_members(self.entries, e);
            let t = placed(self.entries, e);
            assert forall|i: int| 0 <= i < t.len() implies 1 <= (#[trigger] t[i]).id
                < self.next_id + 1 by {
                assert(t.contains(t[i]));
                if t[i] != e {
                    let k = choose|k: int| 0 <= k < self.entries.len() && self.entries[k] == t[i];
                    assert(1 <= self.entries[k].id < self.next_id);
                }
            }
        }
    }

    /// Removing an asset keeps the invariant.
    pub proof fn lemma_remove_wf(self, id: int)
        requires
            self.wf(),
        ensures
            self.remove(id).wf(),
    {
        lemma_position(self.entries, id);
        match position(self.entries, id) {
            Some(k) => {
                lemma_removal_keeps(self.entries, k);
                let s = self.entries;
                let t = s.remove(k);
                assert forall|i: int| 0 <= i < t.len() implies 1 <= (#[trigger] t[i]).id
                    < self.next_id by {
                    let oi = if i < k { i } else { i + 1 };
                    assert(t[i] == s[oi]);
                }
            },
            None => {},
        }
    }

    /// Removing the assets below a parent keeps the invariant.
    pub proof fn lemma_delete_under_wf(self, parent: Seq<char>)
        requires
            self.wf(),
        ensures
            self.delete_under(parent).wf(),
    {
        lemma_outside_keeps(self.entries, parent);
        lemma_outside_members(self.entries, parent);
        let t = outside(self.entries, parent);
        assert forall|i: int| 0 <= i < t.len() implies 1 <= (#[trigger] t[i]).id
            < self.next_id by {
            assert(t.contains(t[i]));
            assert(self.entries.contains(t[i]));
        }
    }

    /// Updating an asset keeps the invariant.
    pub proof fn lemma_update_wf(self, id: int, update: UpdateView)
        requires
            self.wf(),
        ensures
            self.update(id, update).0.wf(),
    {
        if !update.is_empty() {
            lemma_position(self.entries, id);
            match position(self.entries, id) {
                None => {},
                Some(k) => {
                    let s = self.entries;
                    let old = s[k];
                    let others = s.remove(k);
                    lemma_removal_keeps(s, k);
                    assert forall|i: int| 0 <= i < others.len() implies (#[trigger] others[i])
                        == s[if i < k { i } else { i + 1 }] by {}
                    let clash = match update.path {
                        Some(p) => holds_path(others, p),
                        None => false,
                    };
                    let e = if clash {
                        EntryView { id, data: renamed(old.data, update) }
                    } else {
                        EntryView { id, data: revised(old.data, update) }
                    };
                    assert forall|i: int| 0 <= i < others.len() implies (#[trigger] others[i]).id
                        != id && others[i].data.path != e.data.path by {
                        let oi = if i < k { i } else { i + 1 };
                        assert(others[i] == s[oi]);
                        assert(s[oi].id != s[k].id);
                        assert(s[oi].data.path != s[k].data.path);
                    }
                    lemma_placed_keeps(others, e);
                    let t = placed(others, e);
                    lemma_slot(others, e);
                    let at = slot(others, e);
                    assert forall|i: int| 0 <= i < t.len() implies 1 <= (#[trigger] t[i]).id
                        < self.next_id by {
                        if i < at {
                            assert(t[i] == others[i]);
                        } else if i > at {
                            assert(t[i] == others[i - 1]);
                        }
                    }
                },
            }
        }
    }
}

/// Taking one entry out keeps the invariants of a sequence.
pub proof fn lemma_removal_keeps(s: Seq<EntryView>, k: int)
    requires
        0 <= k < s.len(),
    ensures
        ordered(s) ==> ordered(s.remove(k)),
        distinct_ids(s) ==> distinct_ids(s.remove(k)),
        distinct_paths(s) ==> distinct_paths(s.remove(k)),
{
    let t = s.remove(k);
    assert forall|i: int| 0 <= i < t.len() implies (#[trigger] t[i]) == s[if i < k {
        i
    } else {
        i + 1
    }] by {}
    if ordered(s) {
        assert forall|i: int, j: int| 0 <= i < j < t.len() implies precedes(
            #[trigger] t[i],
            #[trigger] t[j],
        ) by {
            let oi = if i < k { i } else { i + 1 };
            let oj = if j < k { j } else { j + 1 };
            assert(precedes(s[oi], s[oj]));
        }
    }
    if distinct_ids(s) {
        assert forall|i: int, j: int|
            0 <= i < t.len() && 0 <= j < t.len() && i != j implies (#[trigger] t[i]).id != (
        #[trigger] t[j]).id by {
            let oi = if i < k { i } else { i + 1 };
            let oj = if j < k { j } else { j + 1 };
            assert(s[oi].id != s[oj].id);
        }
    }
    if distinct_paths(s) {
        assert forall|i: int, j: int|
            0 <= i < t.len() && 0 <= j < t.len() && i != j implies (#[trigger] t[i]).data.path != (
        #[trigger] t[j]).data.path by {
            let oi = if i < k { i } else { i + 1 };
            let oj = if j < k { j } else { j + 1 };
            assert(s[oi].data.path != s[oj].data.path);
        }
    }
}

/// An entry whose identifier and path are new keeps the invariants of a
/// sequence when it enters at its position.
pub proof fn lemma_placed_keeps(s: Seq<EntryView>, e: EntryView)
    requires
        ordered(s),
        distinct_ids(s),
        distinct_paths(s),
        forall|i: int|
            0 <= i < s.len() ==> (#[trigger] s[i]).id != e.id && s[i].data.path != e.data.path,
    ensures
        ordered(placed(s, e)),
        distinct_ids(placed(s, e)),
        distinct_paths(placed(s, e)),
        placed(s, e).len() == s.len() + 1,
{
    lemma_slot(s, e);
    lemma_placed_ordered(s, e);
    let at = slot(s, e);
    let t = placed(s, e);
    assert forall|i: int| 0 <= i < t.len() implies (i < at && t[i] == s[i]) || (i == at && t[i]
        == e) || (i > at && t[i] == s[i - 1]) by {}
    assert forall|i: int, j: int|
        0 <= i < t.len() && 0 <= j < t.len() && i != j implies (#[trigger] t[i]).data.path != (
    #[trigger] t[j]).data.path by {
        let oi = if i < at { i } else { i - 1 };
        let oj = if j < at { j } else { j - 1 };
        if i != at && j != at {
            assert(s[oi].data.path != s[oj].data.path);
        } else if i == at {
            assert(s[oj].data.path != e.data.path);
        } else {
            assert(s[oi].data.path != e.data.path);
        }
    }
    assert forall|i: int, j: int|
        0 <= i < t.len() && 0 <= j < t.len() && i != j implies (#[trigger] t[i]).id != (
    #[trigger] t[j]).id by {
        let oi = if i < at { i } else { i - 1 };
        let oj = if j < at { j } else { j - 1 };
        if i != at && j != at {
            assert(s[oi].id != s[oj].id);
        } else if i == at {
            assert(s[oj].id != e.id);
        } else {
            assert(s[oi].id != e.id);
        }
    }
}

/// Mathematical value of a row as the store keeps it.
pub struct RowView {
    pub id: int,
    pub name: Seq<char>,
    pub path: Seq<char>,
    pub image_path: Option<Seq<char>>,
    pub tags: Option<Seq<char>>,
}

/// The entry that a stored row stands for. A missing or malformed tags text
/// stands for no tags.
pub open spec fn entry_of(row: RowView) -> EntryView {
    EntryView {
        id: row.id,
        data: AssetView {
            name: row.name,
            path: row.path,
            image_path: row.image_path,
            tags: crate::tags::stored_tags(row.tags),
        },
    }
}

/// Rows that can be read as a catalog: identifiers from 1 on that leave room
/// for one more, no identifier and no path twice.
pub open spec fn valid_rows(rows: Seq<RowView>) -> bool {
    &&& rows.len() < i64::MAX
    &&& forall|i: int| 0 <= i < rows.len() ==> 1 <= (#[trigger] rows[i]).id < i64::MAX
    &&& forall|i: int, j: int|
        0 <= i < rows.len() && 0 <= j < rows.len() && i != j ==> (#[trigger] rows[i]).id != (
        #[trigger] rows[j]).id && rows[i].path != rows[j].path
}

/// The entries that rows stand for, in listing order.
pub open spec fn restored_entries(rows: Seq<RowView>) -> Seq<EntryView>
    decreases rows.len(),
{
    if rows.len() == 0 {
        Seq::empty()
    } else {
        placed(restored_entries(rows.drop_last()), entry_of(rows.last()))
    }
}

/// The greatest identifier of the rows, or zero.
pub open spec fn highest_id(rows: Seq<RowView>) -> int
    decreases rows.len(),
{
    if rows.len() == 0 {
        0
    } else if rows.last().id > highest_id(rows.drop_last()) {
        rows.last().id
    } else {
        highest_id(rows.drop_last())
    }
}

/// The set of the texts of a sequence.
pub open spec fn text_set(v: Seq<Seq<char>>) -> Set<Seq<char>> {
    Set::new(|p: Seq<char>| exists|i: int| 0 <= i < v.len() && #[trigger] v[i] == p)
}

/// The counter of a catalog that is read back: one more than the greatest
/// of the identifiers in use, the last identifier that the store says it
/// gave out, and the number of rows; never beyond the largest identifier.
pub open spec fn restored_counter(rows: Seq<RowView>, sequence: int) -> int {
    let top = if sequence > highest_id(rows) {
        sequence
    } else {
        highest_id(rows)
    };
    let used = if top > rows.len() {
        top
    } else {
        rows.len() as int
    };
    if used + 1 > i64::MAX {
        i64::MAX as int
    } else {
        used + 1
    }
}

/// Reading a catalog back from what the store keeps. Rows that are not
/// valid cannot be read.
pub open spec fn restore(rows: Seq<RowView>, tombstones: Seq<Seq<char>>, sequence: int) -> Result<
    CatalogView,
    CatalogError,
> {
    if valid_rows(rows) {
        Ok(
            CatalogView {
                entries: restored_entries(rows),
                tombstones: text_set(tombstones),
                next_id: restored_counter(rows, sequence),
            },
        )
    } else {
        Err(CatalogError::ReadFailed)
    }
}

/// What a sequence holds after an entry entered it.
pub proof fn lemma_placed_members(s: Seq<EntryView>, e: EntryView)
    ensures
        forall|x: EntryView| #[trigger] placed(s, e).contains(x) <==> s.contains(x) || x == e,
{
    lemma_slot(s, e);
    let at = slot(s, e);
    let t = placed(s, e);
    assert forall|x: EntryView| #[trigger] t.contains(x) <==> s.contains(x) || x == e by {
        if t.contains(x) {
            let i = choose|i: int| 0 <= i < t.len() && t[i] == x;
            if i < at {
                assert(s[i] == x);
            } else if i > at {
                assert(s[i - 1] == x);
            }
        }
        if s.contains(x) {
            let i = choose|i: int| 0 <= i < s.len() && s[i] == x;
            if i < at {
                assert(t[i] == x);
            } else {
                assert(t[i + 1] == x);
            }
        }
        if x == e {
            assert(t[at] == x);
        }
    }
}

/// Where no entry lies below a parent, removing the entries below it
/// changes nothing and removes nothing.
pub proof fn lemma_outside_fixed(s: Seq<EntryView>, parent: Seq<char>)
    requires
        forall|i: int| 0 <= i < s.len() ==> !is_under((#[trigger] s[i]).data.path, parent),
    ensures
        outside(s, parent) == s,
        ids_under(s, parent) == Seq::<int>::empty(),
    decreases s.len(),
{
    if s.len() != 0 {
        let front = s.drop_last();
        assert forall|i: int| 0 <= i < front.len() implies !is_under(
            (#[trigger] front[i]).data.path,
            parent,
        ) by {
            assert(front[i] == s[i]);
        }
        lemma_outside_fixed(front, parent);
        assert(!is_under(s[s.len() - 1].data.path, parent));
        assert(front.push(s.last()) =~= s);
    }
}

/// The paths of a sequence after an entry entered it.
pub proof fn lemma_placed_paths(s: Seq<EntryView>, e: EntryView)
    ensures
        forall|q: Seq<char>| #[trigger]
            holds_path(placed(s, e), q) <==> holds_path(s, q) || q == e.data.path,
{
    lemma_placed_members(s, e);
    let t = placed(s, e);
    assert forall|q: Seq<char>| #[trigger]
        holds_path(t, q) <==> holds_path(s, q) || q == e.data.path by {
        if holds_path(t, q) {
            let i = choose|i: int| 0 <= i < t.len() && (#[trigger] t[i]).data.path == q;
            assert(t.contains(t[i]));
            if t[i] != e {
                assert(s.contains(t[i]));
                let k = choose|k: int| 0 <= k < s.len() && s[k] == t[i];
                assert(s[k].data.path == q);
            }
        }
        if holds_path(s, q) {
            let i = choose|i: int| 0 <= i < s.len() && (#[trigger] s[i]).data.path == q;
            assert(s.contains(s[i]));
            assert(t.contains(s[i]));
            let k = choose|k: int| 0 <= k < t.len() && t[k] == s[i];
            assert(t[k].data.path == q);
        }
        if q == e.data.path {
            assert(t.contains(e));
            let k = choose|k: int| 0 <= k < t.len() && t[k] == e;
            assert(t[k].data.path == q);
        }
    }
}

/// The paths of a sequence after the entries below a parent left it.
pub proof fn lemma_outside_paths(s: Seq<EntryView>, parent: Seq<char>)
    ensures
        forall|q: Seq<char>| #[trigger]
            holds_path(outside(s, parent), q) <==> holds_path(s, q) && !is_under(q, parent),
        forall|i: int|
            0 <= i < outside(s, parent).len() ==> !is_under(
                (#[trigger] outside(s, parent)[i]).data.path,
                parent,
            ),
{
    lemma_outside_members(s, parent);
    let t = outside(s, parent);
    assert forall|i: int| 0 <= i < t.len() implies !is_under(
        (#[trigger] t[i]).data.path,
        parent,
    ) by {
        assert(t.contains(t[i]));
    }
    assert forall|q: Seq<char>| #[trigger]
        holds_path(t, q) <==> holds_path(s, q) && !is_under(q, parent) by {
        if holds_path(t, q) {
            let i = choose|i: int| 0 <= i < t.len() && (#[trigger] t[i]).data.path == q;
            assert(t.contains(t[i]));
            assert(s.contains(t[i]));
            let k = choose|k: int| 0 <= k < s.len() && s[k] == t[i];
            assert(s[k].data.path == q);
        }
        if holds_path(s, q) && !is_under(q, parent) {
            let i = choose|i: int| 0 <= i < s.len() && (#[trigger] s[i]).data.path == q;
            assert(s.contains(s[i]));
            assert(t.contains(s[i]));
            let k = choose|k: int| 0 <= k < t.len() && t[k] == s[i];
            assert(t[k].data.path == q);
        }
    }
}

} // verus!
