//! The catalog store: assets with unique paths in listing order, tombstoned
//! paths, and an identifier counter that never hands out a number twice.

use vstd::prelude::*;
use crate::asset::{
    AssetData, AssetEntry, AssetUpdate, AssetView, CatalogError, EntryView, copy_optional,
    copy_strings, entry_views, string_views,
};
use crate::model::{
    CatalogView, RowView, distinct_ids, distinct_paths, entry_of, highest_id, holds_path,
    ids_under, is_under, lemma_placed_keeps, lemma_position, ordered, outside, placed, position,
    precedes, restore, restored_entries, slot, trimmed, valid_rows,
};
use crate::paging::window;
use crate::text::{chars_of, folded_chars_of, has_prefix, lex_before, same_chars};

verus! {

/// The set of texts that a list of strings holds.
pub open spec fn path_set(v: Seq<String>) -> Set<Seq<char>> {
    Set::new(|p: Seq<char>| exists|i: int| 0 <= i < v.len() && (#[trigger] v[i])@ == p)
}

/// The value of an optional asset.
pub open spec fn optional_asset(a: Option<AssetData>) -> Option<AssetView> {
    match a {
        Some(d) => Some(d@),
        None => None,
    }
}

/// The integers that a list of identifiers holds.
pub open spec fn id_values(v: Seq<i64>) -> Seq<int> {
    Seq::new(v.len(), |i: int| v[i] as int)
}

/// Whether two string slices hold the same text.
pub fn same_text(a: &str, b: &str) -> (r: bool)
    ensures
        r == (a@ == b@),
{
    let ca = chars_of(a);
    let cb = chars_of(b);
    same_chars(&ca, &cb)
}

/// Whether `a` comes before `b` in listing order.
pub fn comes_before(a: &AssetEntry, b: &AssetEntry) -> (r: bool)
    ensures
        r == precedes(a@, b@),
{
    let ka = folded_chars_of(a.data.name.as_str());
    let kb = folded_chars_of(b.data.name.as_str());
    lex_before(&ka, &kb) || (same_chars(&ka, &kb) && a.id < b.id)
}

/// Length of a path without the `/` characters at its end.
pub fn trimmed_len(path: &Vec<char>) -> (r: usize)
    ensures
        r <= path.len(),
        trimmed(path@) == path@.take(r as int),
{
    let mut n: usize = path.len();
    assert(path@.take(n as int) =~= path@);
    while n > 0 && path[n - 1] == '/'
        invariant
            n <= path.len(),
            trimmed(path@) == trimmed(path@.take(n as int)),
        decreases n,
    {
        assert(path@.take(n as int).drop_last() =~= path@.take(n - 1));
        n -= 1;
    }
    n
}

/// Whether `path` lies strictly below `parent`.
pub fn lies_under(path: &str, parent: &str) -> (r: bool)
    ensures
        r == is_under(path@, parent@),
{
    let p = chars_of(path);
    let q = chars_of(parent);
    let m = trimmed_len(&p);
    let n = trimmed_len(&q);
    if n >= m || m - n < 2 {
        return false;
    }
    let below = crate::text::part(&p, 0, m);
    let base = crate::text::part(&q, 0, n);
    assert(below@ =~= trimmed(path@));
    assert(base@ =~= trimmed(parent@));
    has_prefix(&below, &base) && below[n] == '/'
}

/// Whether one of the entries has the path `path`.
pub fn holds(entries: &Vec<AssetEntry>, path: &str) -> (r: bool)
    ensures
        r == holds_path(entry_views(entries@), path@),
{
    let mut i: usize = 0;
    while i < entries.len()
        invariant
            i <= entries.len(),
            forall|k: int| 0 <= k < i ==> (#[trigger] entry_views(entries@)[k]).data.path != path@,
        decreases entries.len() - i,
    {
        if same_text(entries[i].data.path.as_str(), path) {
            assert(entry_views(entries@)[i as int].data.path == path@);
            return true;
        }
        i += 1;
    }
    false
}

/// Position at which `e` enters the entries.
pub fn slot_in(entries: &Vec<AssetEntry>, e: &AssetEntry) -> (r: usize)
    ensures
        r == slot(entry_views(entries@), e@),
        r <= entries.len(),
{
    let ghost s = entry_views(entries@);
    let mut i: usize = 0;
    assert(s.skip(0) =~= s);
    while i < entries.len()
        invariant
            i <= entries.len(),
            s == entry_views(entries@),
            slot(s, e@) == i + slot(s.skip(i as int), e@),
        decreases entries.len() - i,
    {
        assert(s.skip(i as int)[0] == entries@[i as int]@);
        if !comes_before(&entries[i], e) {
            return i;
        }
        assert(s.skip(i as int).drop_first() =~= s.skip(i + 1));
        i += 1;
    }
    i
}

/// The catalog store.
pub struct Catalog {
    entries: Vec<AssetEntry>,
    tombstones: Vec<String>,
    next_id: i64,
}

impl View for Catalog {
    type V = CatalogView;

    closed spec fn view(&self) -> CatalogView {
        CatalogView {
            entries: entry_views(self.entries@),
            tombstones: path_set(self.tombstones@),
            next_id: self.next_id as int,
        }
    }
}

impl Catalog {
    #[verifier::type_invariant]
    spec fn well_formed(&self) -> bool {
        self@.wf()
    }

    /// An empty catalog, whose first asset gets the identifier 1.
    pub fn new() -> (r: Catalog)
        ensures
            r@ == CatalogView::empty(),
            r@.wf(),
    {
        let r = Catalog { entries: Vec::new(), tombstones: Vec::new(), next_id: 1 };
        assert(r@.entries =~= Seq::empty());
        assert(r@.tombstones =~= Set::empty());
        r
    }

    /// A catalog that holds nothing and accepts nothing.
    pub fn closed() -> (r: Catalog)
        ensures
            r@ == CatalogView::closed(),
            r@.wf(),
    {
        let r = Catalog { entries: Vec::new(), tombstones: Vec::new(), next_id: i64::MAX };
        assert(r@.entries =~= Seq::empty());
        assert(r@.tombstones =~= Set::empty());
        r
    }

    /// Number of stored assets.
    pub fn count(&self) -> (r: i64)
        ensures
            r == self@.count(),
            self@.wf(),
    {
        proof {
            use_type_invariant(self);
        }
        self.entries.len() as i64
    }

    /// The stored assets, in listing order.
    pub fn entries(&self) -> (r: &Vec<AssetEntry>)
        ensures
            entry_views(r@) == self@.entries,
            self@.wf(),
    {
        proof {
            use_type_invariant(self);
        }
        &self.entries
    }

    /// The identifier that the next stored asset gets.
    pub fn next_id(&self) -> (r: i64)
        ensures
            r == self@.next_id,
    {
        self.next_id
    }

    /// The tombstoned paths.
    pub fn tombstones(&self) -> (r: &Vec<String>)
        ensures
            path_set(r@) == self@.tombstones,
    {
        &self.tombstones
    }

    /// Whether an asset with this path is stored.
    pub fn path_exists(&self, path: &str) -> (r: bool)
        ensures
            r == self@.path_exists(path@),
            self@.wf(),
    {
        proof {
            use_type_invariant(self);
        }
        holds(&self.entries, path)
    }

    /// Whether this path was deleted for good.
    pub fn is_tombstoned(&self, path: &str) -> (r: bool)
        ensures
            r == self@.is_tombstoned(path@),
            self@.wf(),
    {
        proof {
            use_type_invariant(self);
        }
        let mut i: usize = 0;
        while i < self.tombstones.len()
            invariant
                i <= self.tombstones.len(),
                self@.wf(),
                forall|k: int| 0 <= k < i ==> (#[trigger] self.tombstones@[k])@ != path@,
            decreases self.tombstones.len() - i,
        {
            if same_text(self.tombstones[i].as_str(), path) {
                return true;
            }
            i += 1;
        }
        false
    }

    /// Whether a scan passes over the directory with this path.
    pub fn skips(&self, path: &str) -> (r: bool)
        ensures
            r == self@.skips(path@),
            self@.wf(),
    {
        self.is_tombstoned(path) || self.path_exists(path)
    }

    /// Position of the asset with identifier `id`.
    fn find(&self, id: i64) -> (r: Option<usize>)
        ensures
            match r {
                Some(k) => position(self@.entries, id as int) == Some(k as int) && k
                    < self.entries.len(),
                None => position(self@.entries, id as int) is None,
            },
    {
        let ghost s = entry_views(self.entries@);
        let mut i: usize = 0;
        while i < self.entries.len()
            invariant
                i <= self.entries.len(),
                s == entry_views(self.entries@),
                forall|k: int| 0 <= k < i ==> (#[trigger] s[k]).id != id,
            decreases self.entries.len() - i,
        {
            if self.entries[i].id == id {
                proof {
                    assert(s[i as int].id == id);
                    lemma_position(s, id as int);
                }
                return Some(i);
            }
            i += 1;
        }
        proof {
            lemma_position(s, id as int);
        }
        None
    }

    /// The asset with identifier `id`, if it is stored.
    pub fn get(&self, id: i64) -> (r: Option<AssetData>)
        ensures
            optional_asset(r) == self@.get(id as int),
            self@.wf(),
    {
        proof {
            use_type_invariant(self);
        }
        match self.find(id) {
            Some(k) => Some(self.entries[k].data.duplicate()),
            None => None,
        }
    }

    /// Stores an asset and returns its identifier. A path that is already
    /// stored is rejected with `WriteFailed`, and so is every write once the
    /// identifiers are used up; the catalog is then as it was.
    pub fn insert(&mut self, data: AssetData) -> (r: Result<i64, CatalogError>)
        ensures
            final(self)@ == old(self)@.insert(data@).0,
            match r {
                Ok(id) => old(self)@.insert(data@).1 == Ok::<int, CatalogError>(id as int),
                Err(e) => old(self)@.insert(data@).1 == Err::<int, CatalogError>(e),
            },
            final(self)@.wf(),
    {
        proof {
            use_type_invariant(&*self);
        }
        if self.path_exists(data.path.as_str()) || self.next_id >= i64::MAX {
            return Err(CatalogError::WriteFailed);
        }
        let id = self.next_id;
        let entry = AssetEntry { id, data };
        let at = slot_in(&self.entries, &entry);
        proof {
            let c0 = self@;
            c0.lemma_insert_wf(entry@.data);
            assert(entry_views(self.entries@.insert(at as int, entry)) =~= placed(
                c0.entries,
                entry@,
            ));
        }
        let mut work: Vec<AssetEntry> = Vec::new();
        core::mem::swap(&mut self.entries, &mut work);
        work.insert(at, entry);
        self.next_id = id + 1;
        self.entries = work;
        Ok(id)
    }

    /// Removes the asset with identifier `id`, if it is stored.
    pub fn remove(&mut self, id: i64)
        ensures
            final(self)@ == old(self)@.remove(id as int),
            final(self)@.wf(),
    {
        proof {
            use_type_invariant(&*self);
        }
        match self.find(id) {
            Some(k) => {
                proof {
                    let c0 = self@;
                    c0.lemma_remove_wf(id as int);
                    assert(entry_views(self.entries@.remove(k as int)) =~= c0.entries.remove(
                        k as int,
                    ));
                }
                let mut work: Vec<AssetEntry> = Vec::new();
                core::mem::swap(&mut self.entries, &mut work);
                let _ = work.remove(k);
                self.entries = work;
            },
            None => {},
        }
    }

    /// Remembers a path as deleted for good. A path that is remembered
    /// already stays remembered.
    pub fn tombstone(&mut self, path: String)
        ensures
            final(self)@ == old(self)@.tombstone(path@),
            final(self)@.wf(),
    {
        proof {
            use_type_invariant(&*self);
        }
        if self.is_tombstoned(path.as_str()) {
            assert(self@.tombstones.insert(path@) =~= self@.tombstones);
        } else {
            proof {
                let v = self.tombstones@;
                let w = v.push(path);
                assert forall|p: Seq<char>| path_set(w).contains(p) <==> path_set(v).insert(
                    path@,
                ).contains(p) by {
                    if path_set(w).contains(p) {
                        let i = choose|i: int| 0 <= i < w.len() && (#[trigger] w[i])@ == p;
                        if i < v.len() {
                            assert(v[i]@ == p);
                        }
                    }
                    if path_set(v).contains(p) {
                        let i = choose|i: int| 0 <= i < v.len() && (#[trigger] v[i])@ == p;
                        assert(w[i]@ == p);
                    }
                    if p == path@ {
                        assert(w[v.len() as int]@ == p);
                    }
                }
                assert(path_set(w) =~= path_set(v).insert(path@));
            }
            let mut work: Vec<String> = Vec::new();
            core::mem::swap(&mut self.tombstones, &mut work);
            work.push(path);
            self.tombstones = work;
        }
    }

    /// Deletes the asset with identifier `id`. With `remember`, the path of
    /// the asset is tombstoned. An unknown identifier changes nothing.
    pub fn delete(&mut self, id: i64, remember: bool)
        ensures
            final(self)@ == old(self)@.delete(id as int, remember),
            final(self)@.wf(),
    {
        proof {
            use_type_invariant(&*self);
            lemma_position(self@.entries, id as int);
        }
        match self.find(id) {
            Some(k) => {
                let path = self.entries[k].data.path.clone();
                self.remove(id);
                if remember {
                    self.tombstone(path);
                }
            },
            None => {},
        }
    }

    /// Removes every asset whose path lies strictly below `parent` and
    /// returns the identifiers of the removed assets, in listing order.
    pub fn delete_under(&mut self, parent: &str) -> (r: Vec<i64>)
        ensures
            final(self)@ == old(self)@.delete_under(parent@),
            id_values(r@) == ids_under(old(self)@.entries, parent@),
            final(self)@.wf(),
    {
        proof {
            use_type_invariant(&*self);
            self@.lemma_delete_under_wf(parent@);
        }
        let mut work: Vec<AssetEntry> = Vec::new();
        core::mem::swap(&mut self.entries, &mut work);
        let ghost orig = entry_views(work@);
        let ghost raw = work@;
        let mut kept: Vec<AssetEntry> = Vec::new();
        let mut gone: Vec<i64> = Vec::new();
        assert(orig.take(0) =~= Seq::empty());
        assert(entry_views(kept@) =~= outside(orig.take(0), parent@));
        assert(id_values(gone@) =~= ids_under(orig.take(0), parent@));
        for e in it: work
            invariant
                it.seq() == raw,
                orig == entry_views(raw),
                entry_views(kept@) == outside(orig.take(it.index()), parent@),
                id_values(gone@) == ids_under(orig.take(it.index()), parent@),
        {
            let ghost n = it.index();
            assert(orig.take(n + 1).drop_last() =~= orig.take(n));
            assert(orig.take(n + 1).last() == e@);
            if lies_under(e.data.path.as_str(), parent) {
                assert(id_values(gone@.push(e.id)) =~= id_values(gone@).push(e.id as int));
                gone.push(e.id);
            } else {
                assert(entry_views(kept@.push(e)) =~= entry_views(kept@).push(e@));
                kept.push(e);
            }
        }
        assert(orig.take(orig.len() as int) =~= orig);
        self.entries = kept;
        gone
    }

    /// Updates the fields of the asset with identifier `id` for which the
    /// update has a filled slot, in the order name, path, image, tags. An
    /// image slot that is filled without an image clears the image. An
    /// update without a filled slot is `InvalidInput`. An unknown identifier
    /// changes nothing and succeeds. A new path that another asset holds is
    /// `WriteFailed`; the name, if it was given, has then been changed.
    pub fn update(&mut self, id: i64, update: &AssetUpdate) -> (r: Result<(), CatalogError>)
        ensures
            final(self)@ == old(self)@.update(id as int, update@).0,
            r == old(self)@.update(id as int, update@).1,
            final(self)@.wf(),
    {
        proof {
            use_type_invariant(&*self);
            self@.lemma_update_wf(id as int, update@);
        }
        if update.is_empty() {
            return Err(CatalogError::InvalidInput);
        }
        match self.find(id) {
            None => Ok(()),
            Some(k) => {
                let mut work: Vec<AssetEntry> = Vec::new();
                core::mem::swap(&mut self.entries, &mut work);
                let ghost before = entry_views(work@);
                assert(entry_views(work@.remove(k as int)) =~= before.remove(k as int));
                let old = work.remove(k);
                let clash = match &update.path {
                    Some(p) => holds(&work, p.as_str()),
                    None => false,
                };
                let name = match &update.name {
                    Some(n) => n.clone(),
                    None => old.data.name,
                };
                let data = if clash {
                    AssetData {
                        name,
                        path: old.data.path,
                        image_path: old.data.image_path,
                        tags: old.data.tags,
                    }
                } else {
                    AssetData {
                        name,
                        path: match &update.path {
                            Some(p) => p.clone(),
                            None => old.data.path,
                        },
                        image_path: match &update.image_path {
                            Some(slot) => copy_optional(slot),
                            None => old.data.image_path,
                        },
                        tags: match &update.tags {
                            Some(t) => copy_strings(t),
                            None => old.data.tags,
                        },
                    }
                };
                let entry = AssetEntry { id, data };
                let at = slot_in(&work, &entry);
                assert(entry_views(work@.insert(at as int, entry)) =~= placed(
                    entry_views(work@),
                    entry@,
                ));
                work.insert(at, entry);
                self.entries = work;
                if clash {
                    Err(CatalogError::WriteFailed)
                } else {
                    Ok(())
                }
            },
        }
    }

    /// The assets from position `offset` of the listing on, at most `limit`
    /// of them. A negative number counts as zero.
    pub fn list(&self, offset: i64, limit: i64) -> (r: Vec<AssetEntry>)
        ensures
            entry_views(r@) == window(self@.entries, offset as int, limit as int),
            self@.wf(),
    {
        proof {
            use_type_invariant(self);
        }
        copy_window(&self.entries, offset, limit)
    }
}

/// Copies the entries from position `offset` on, at most `limit` of them. A
/// negative number counts as zero.
pub fn copy_window(entries: &Vec<AssetEntry>, offset: i64, limit: i64) -> (r: Vec<AssetEntry>)
    ensures
        entry_views(r@) == window(entry_views(entries@), offset as int, limit as int),
{
    let len: usize = entries.len();
    let from: usize = if offset <= 0 {
        0
    } else if offset as u64 >= len as u64 {
        len
    } else {
        offset as usize
    };
    let to: usize = if limit <= 0 {
        from
    } else if limit as u64 >= (len - from) as u64 {
        len
    } else {
        from + limit as usize
    };
    let mut out: Vec<AssetEntry> = Vec::new();
    let mut i: usize = from;
    let ghost s = entry_views(entries@);
    assert(entry_views(out@) =~= s.subrange(from as int, i as int));
    while i < to
        invariant
            from <= i <= to,
            to <= entries.len(),
            s == entry_views(entries@),
            entry_views(out@) == s.subrange(from as int, i as int),
        decreases to - i,
    {
        let e = entries[i].duplicate();
        assert(s[i as int] == e@);
        assert(entry_views(out@.push(e)) =~= entry_views(out@).push(e@));
        assert(s.subrange(from as int, i + 1) =~= s.subrange(from as int, i as int).push(
            s[i as int],
        ));
        out.push(e);
        i += 1;
    }
    out
}

/// A row as the store keeps it.
#[derive(Clone, Debug, PartialEq, Eq)]
pub struct StoredRow {
    pub id: i64,
    pub name: String,
    pub path: String,
    pub image_path: Option<String>,
    /// The serialised tags; `None` in a row written before tags were kept.
    pub tags: Option<String>,
}

impl View for StoredRow {
    type V = RowView;

    open spec fn view(&self) -> RowView {
        RowView {
            id: self.id as int,
            name: self.name@,
            path: self.path@,
            image_path: crate::asset::optional_view(self.image_path),
            tags: crate::asset::optional_view(self.tags),
        }
    }
}

/// The values of the rows that a vector holds.
pub open spec fn row_views(v: Seq<StoredRow>) -> Seq<RowView> {
    Seq::new(v.len(), |i: int| v[i]@)
}

/// Whether one of the entries has the identifier `id`.
pub fn has_id(entries: &Vec<AssetEntry>, id: i64) -> (r: bool)
    ensures
        r == exists|k: int| 0 <= k < entries.len() && (#[trigger] entry_views(entries@)[k]).id == id,
{
    let mut i: usize = 0;
    while i < entries.len()
        invariant
            i <= entries.len(),
            forall|k: int| 0 <= k < i ==> (#[trigger] entry_views(entries@)[k]).id != id,
        decreases entries.len() - i,
    {
        if entries[i].id == id {
            assert(entry_views(entries@)[i as int].id == id);
            return true;
        }
        i += 1;
    }
    false
}

impl Catalog {
    /// Reads a catalog back from the rows and tombstoned paths that the
    /// store keeps and the last identifier that it says it gave out. Rows
    /// with an identifier under 1, with the largest identifier, or with an
    /// identifier or a path that another row has, are `ReadFailed`.
    pub fn restore(rows: &Vec<StoredRow>, tombstones: Vec<String>, sequence: i64) -> (r: Result<
        Catalog,
        CatalogError,
    >)
        ensures
            match r {
                Ok(c) => restore(row_views(rows@), string_views(tombstones@), sequence as int)
                    == Ok::<CatalogView, CatalogError>(c@) && c@.wf(),
                Err(e) => restore(row_views(rows@), string_views(tombstones@), sequence as int)
                    == Err::<CatalogView, CatalogError>(e),
            },
    {
        let ghost all = row_views(rows@);
        if rows.len() as u64 >= i64::MAX as u64 {
            return Err(CatalogError::ReadFailed);
        }
        let mut work: Vec<AssetEntry> = Vec::new();
        let mut top: i64 = 0;
        let mut i: usize = 0;
        assert(all.take(0) =~= Seq::empty());
        assert(entry_views(work@) =~= restored_entries(all.take(0)));
        while i < rows.len()
            invariant
                i <= rows.len(),
                rows.len() < i64::MAX,
                all == row_views(rows@),
                work.len() == i,
                valid_rows(all.take(i as int)),
                entry_views(work@) == restored_entries(all.take(i as int)),
                ordered(entry_views(work@)),
                distinct_ids(entry_views(work@)),
                distinct_paths(entry_views(work@)),
                forall|x: EntryView| #[trigger]
                    entry_views(work@).contains(x) <==> exists|k: int|
                        0 <= k < i && entry_of(#[trigger] all[k]) == x,
                top == highest_id(all.take(i as int)),
                0 <= top < i64::MAX,
            decreases rows.len() - i,
        {
            let row = &rows[i];
            let ghost s = entry_views(work@);
            let ghost seen = all.take(i as int);
            let ghost next = all.take(i + 1);
            assert(all[i as int] == row@);
            assert(next.drop_last() =~= seen);
            assert(next.last() == row@);
            assert forall|k: int| 0 <= k < i implies seen[k] == all[k] && next[k] == all[k] by {}
            if row.id < 1 || row.id >= i64::MAX {
                return Err(CatalogError::ReadFailed);
            }
            if has_id(&work, row.id) {
                proof {
                    let k = choose|k: int| 0 <= k < work.len() && (#[trigger] s[k]).id == row.id;
                    assert(s.contains(s[k]));
                    let m = choose|m: int| 0 <= m < i && entry_of(#[trigger] all[m]) == s[k];
                    assert(all[m].id == all[i as int].id);
                }
                return Err(CatalogError::ReadFailed);
            }
            if holds(&work, row.path.as_str()) {
                proof {
                    let k = choose|k: int|
                        0 <= k < s.len() && (#[trigger] s[k]).data.path == row.path@;
                    assert(s.contains(s[k]));
                    let m = choose|m: int| 0 <= m < i && entry_of(#[trigger] all[m]) == s[k];
                    assert(all[m].path == all[i as int].path);
                }
                return Err(CatalogError::ReadFailed);
            }
            let entry = AssetEntry {
                id: row.id,
                data: AssetData {
                    name: row.name.clone(),
                    path: row.path.clone(),
                    image_path: copy_optional(&row.image_path),
                    tags: crate::tags::decode_tags(&row.tags),
                },
            };
            assert(entry@ == entry_of(row@));
            let at = slot_in(&work, &entry);
            proof {
                assert forall|k: int| 0 <= k < s.len() implies (#[trigger] s[k]).id != entry@.id
                    && s[k].data.path != entry@.data.path by {}
                lemma_placed_keeps(s, entry@);
                crate::model::lemma_placed_members(s, entry@);
                assert(entry_views(work@.insert(at as int, entry)) =~= placed(s, entry@));
                let t = placed(s, entry@);
                assert forall|x: EntryView| #[trigger]
                    t.contains(x) <==> exists|k: int|
                        0 <= k < i + 1 && entry_of(#[trigger] all[k]) == x by {
                    if t.contains(x) {
                        if s.contains(x) {
                            let m = choose|m: int| 0 <= m < i && entry_of(#[trigger] all[m]) == x;
                            assert(0 <= m < i + 1);
                        } else {
                            assert(entry_of(all[i as int]) == x);
                        }
                    }
                    if exists|k: int| 0 <= k < i + 1 && entry_of(#[trigger] all[k]) == x {
                        let m = choose|m: int| 0 <= m < i + 1 && entry_of(#[trigger] all[m]) == x;
                        if m < i {
                            assert(s.contains(x));
                        }
                    }
                }
                assert forall|a: int, b: int|
                    0 <= a < next.len() && 0 <= b < next.len() && a != b implies (
                #[trigger] next[a]).id != (#[trigger] next[b]).id && next[a].path
                    != next[b].path by {
                    if a < i && b < i {
                        assert(seen[a].id != seen[b].id && seen[a].path != seen[b].path);
                    } else {
                        let o = if a < i {
                            a
                        } else {
                            b
                        };
                        assert(s.contains(entry_of(all[o])));
                        let k = choose|k: int| 0 <= k < s.len() && s[k] == entry_of(all[o]);
                        assert(s[k].id != entry@.id);
                    }
                }
                assert forall|a: int| 0 <= a < next.len() implies 1 <= (#[trigger] next[a]).id
                    < i64::MAX by {
                    if a < i {
                        assert(1 <= seen[a].id < i64::MAX);
                    }
                }
            }
            work.insert(at, entry);
            if row.id > top {
                top = row.id;
            }
            i += 1;
        }
        assert(all.take(all.len() as int) =~= all);
        let len = rows.len() as i64;
        let upper = if sequence > top {
            sequence
        } else {
            top
        };
        let used = if upper > len {
            upper
        } else {
            len
        };
        let next_id = if used >= i64::MAX {
            i64::MAX
        } else {
            used + 1
        };
        proof {
            let s = entry_views(work@);
            lemma_highest(all);
            assert forall|k: int| 0 <= k < s.len() implies 1 <= (#[trigger] s[k]).id < next_id by {
                assert(s.contains(s[k]));
                let m = choose|m: int| 0 <= m < all.len() && entry_of(#[trigger] all[m]) == s[k];
                assert(all[m].id <= top);
            }
            assert forall|p: Seq<char>|
                path_set(tombstones@).contains(p) <==> crate::model::text_set(
                    string_views(tombstones@),
                ).contains(p) by {
                let v = tombstones@;
                let w = string_views(v);
                if path_set(v).contains(p) {
                    let k = choose|k: int| 0 <= k < v.len() && (#[trigger] v[k])@ == p;
                    assert(w[k] == p);
                }
                if crate::model::text_set(w).contains(p) {
                    let k = choose|k: int| 0 <= k < w.len() && #[trigger] w[k] == p;
                    assert(v[k]@ == p);
                }
            }
            assert(path_set(tombstones@) =~= crate::model::text_set(string_views(tombstones@)));
        }
        Ok(Catalog { entries: work, tombstones, next_id })
    }
}

/// No row has an identifier above the greatest.
pub proof fn lemma_highest(rows: Seq<RowView>)
    ensures
        forall|k: int| 0 <= k < rows.len() ==> (#[trigger] rows[k]).id <= highest_id(rows),
    decreases rows.len(),
{
    if rows.len() != 0 {
        let front = rows.drop_last();
        lemma_highest(front);
        assert forall|k: int| 0 <= k < rows.len() implies (#[trigger] rows[k]).id <= highest_id(
            rows,
        ) by {
            if k < front.len() {
                assert(front[k] == rows[k]);
            }
        }
    }
}

} // verus!
