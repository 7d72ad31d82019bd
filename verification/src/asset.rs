//! The asset record, the partial update, and the error taxonomy.

use vstd::prelude::*;

verus! {

/// The texts that a sequence of strings holds.
pub open spec fn string_views(v: Seq<String>) -> Seq<Seq<char>> {
    Seq::new(v.len(), |i: int| v[i]@)
}

/// The text that an optional string holds.
pub open spec fn optional_view(s: Option<String>) -> Option<Seq<char>> {
    match s {
        Some(t) => Some(t@),
        None => None,
    }
}

/// Mathematical value of an asset record.
pub struct AssetView {
    pub name: Seq<char>,
    pub path: Seq<char>,
    pub image_path: Option<Seq<char>>,
    pub tags: Seq<Seq<char>>,
}

/// One catalogued unit: a directory with a display name, an optional preview
/// image and an ordered list of tags.
#[derive(Clone, Debug, PartialEq, Eq)]
pub struct AssetData {
    pub name: String,
    pub path: String,
    pub image_path: Option<String>,
    pub tags: Vec<String>,
}

impl View for AssetData {
    type V = AssetView;

    open spec fn view(&self) -> AssetView {
        AssetView {
            name: self.name@,
            path: self.path@,
            image_path: optional_view(self.image_path),
            tags: string_views(self.tags@),
        }
    }
}

/// Copies a list of strings.
pub fn copy_strings(v: &Vec<String>) -> (r: Vec<String>)
    ensures
        string_views(r@) == string_views(v@),
{
    let mut out: Vec<String> = Vec::new();
    let mut i: usize = 0;
    while i < v.len()
        invariant
            i <= v.len(),
            out.len() == i,
            forall|k: int| 0 <= k < i ==> out@[k]@ == v@[k]@,
        decreases v.len() - i,
    {
        out.push(v[i].clone());
        i += 1;
    }
    assert(string_views(out@) =~= string_views(v@));
    out
}

/// Copies an optional string.
pub fn copy_optional(s: &Option<String>) -> (r: Option<String>)
    ensures
        optional_view(r) == optional_view(*s),
{
    match s {
        Some(t) => Some(t.clone()),
        None => None,
    }
}

impl AssetData {
    /// A copy of this record.
    pub fn duplicate(&self) -> (r: AssetData)
        ensures
            r@ == self@,
    {
        AssetData {
            name: self.name.clone(),
            path: self.path.clone(),
            image_path: copy_optional(&self.image_path),
            tags: copy_strings(&self.tags),
        }
    }
}

/// Mathematical value of a stored asset.
pub struct EntryView {
    pub id: int,
    pub data: AssetView,
}

/// An asset together with the identifier that the catalog gave it.
#[derive(Clone, Debug, PartialEq, Eq)]
pub struct AssetEntry {
    pub id: i64,
    pub data: AssetData,
}

impl View for AssetEntry {
    type V = EntryView;

    open spec fn view(&self) -> EntryView {
        EntryView { id: self.id as int, data: self.data@ }
    }
}

impl AssetEntry {
    /// A copy of this entry.
    pub fn duplicate(&self) -> (r: AssetEntry)
        ensures
            r@ == self@,
    {
        AssetEntry { id: self.id, data: self.data.duplicate() }
    }
}

/// The values of the entries that a vector holds.
pub open spec fn entry_views(v: Seq<AssetEntry>) -> Seq<EntryView> {
    Seq::new(v.len(), |i: int| v[i]@)
}

/// Why a catalog operation failed.
#[derive(Clone, Copy, Debug, PartialEq, Eq, Structural)]
pub enum CatalogError {
    /// The backing store could not be opened or created.
    StoreUnavailable,
    /// No asset has the requested identifier.
    NotFound,
    /// An update named no field to change.
    InvalidInput,
    /// The store rejected a write, for instance a second asset with a path already held.
    WriteFailed,
    /// What the store holds could not be read as a catalog.
    ReadFailed,
}

/// Mathematical value of a partial update.
pub struct UpdateView {
    pub name: Option<Seq<char>>,
    pub path: Option<Seq<char>>,
    pub image_path: Option<Option<Seq<char>>>,
    pub tags: Option<Seq<Seq<char>>>,
}

/// A partial update: one optional slot for each field that can change. An
/// empty slot leaves the field as it is.
#[derive(Clone, Debug, PartialEq, Eq)]
pub struct AssetUpdate {
    pub name: Option<String>,
    pub path: Option<String>,
    /// `Some(None)` clears the image; `Some(Some(path))` sets it.
    pub image_path: Option<Option<String>>,
    pub tags: Option<Vec<String>>,
}

impl View for AssetUpdate {
    type V = UpdateView;

    open spec fn view(&self) -> UpdateView {
        UpdateView {
            name: optional_view(self.name),
            path: optional_view(self.path),
            image_path: match self.image_path {
                Some(slot) => Some(optional_view(slot)),
                None => None,
            },
            tags: match self.tags {
                Some(t) => Some(string_views(t@)),
                None => None,
            },
        }
    }
}

impl UpdateView {
    /// No slot is filled.
    pub open spec fn is_empty(self) -> bool {
        self.name is None && self.path is None && self.image_path is None && self.tags is None
    }
}

impl AssetUpdate {
    /// An update that changes nothing.
    pub fn new() -> (r: AssetUpdate)
        ensures
            r@.is_empty(),
    {
        AssetUpdate { name: None, path: None, image_path: None, tags: None }
    }

    /// Whether no slot is filled.
    pub fn is_empty(&self) -> (r: bool)
        ensures
            r == self@.is_empty(),
    {
        self.name.is_none() && self.path.is_none() && self.image_path.is_none()
            && self.tags.is_none()
    }
}

} // verus!
