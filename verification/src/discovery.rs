//! Preview resolution: which file of a directory, if any, is its preview
//! image.
//!
//! Three passes are tried in strict order and the first hit wins: the
//! configured preview names, a file named after the folder, and the first
//! image of the listing.

use vstd::prelude::*;
use crate::config::{ConfigView, PatternView, PreviewPattern, ScanConfig, pattern_views};
use crate::pattern::{CompiledPattern, pattern_accepts, pattern_compiles};
use crate::text::{
    chars_of, equal_ignoring_case, extension, extension_of, same_ignoring_case, stem, stem_of,
    texts,
};

verus! {

/// Mathematical value of a listed file.
pub struct ListedView {
    pub name: Seq<char>,
    pub path: Seq<char>,
}

/// One entry of a directory's immediate listing: its file name and its path.
#[derive(Clone, Debug, PartialEq, Eq)]
pub struct DirEntry {
    pub name: String,
    pub path: String,
}

impl View for DirEntry {
    type V = ListedView;

    open spec fn view(&self) -> ListedView {
        ListedView { name: self.name@, path: self.path@ }
    }
}

/// The values of the entries that a listing holds.
pub open spec fn listing_views(v: Seq<DirEntry>) -> Seq<ListedView> {
    Seq::new(v.len(), |i: int| v[i]@)
}

/// The file names of a listing, in its order.
pub open spec fn names_of(entries: Seq<ListedView>) -> Seq<Seq<char>> {
    Seq::new(entries.len(), |i: int| entries[i].name)
}

/// The supported image extensions, in the order in which the folder-name
/// pass tries them.
pub open spec fn image_extensions() -> Seq<Seq<char>> {
    seq![
        seq!['p', 'n', 'g'],
        seq!['j', 'p', 'e', 'g'],
        seq!['j', 'p', 'g'],
        seq!['b', 'm', 'p'],
        seq!['t', 'g', 'a'],
        seq!['w', 'e', 'b', 'p'],
        seq!['s', 'v', 'g'],
    ]
}

/// Whether an extension is one of the supported image extensions, up to
/// ASCII case.
pub open spec fn is_image_extension(ext: Seq<char>) -> bool {
    exists|i: int|
        0 <= i < image_extensions().len() && same_ignoring_case(
            ext,
            #[trigger] image_extensions()[i],
        )
}

/// Whether a file name has a supported image extension.
pub open spec fn is_image_name(name: Seq<char>) -> bool {
    match extension(name) {
        Some(e) => is_image_extension(e),
        None => false,
    }
}

/// What a pass looks for in a file name.
pub enum Probe {
    /// A preview-name pattern, on a file with an image extension.
    Preview(PatternView),
    /// A whole file name, up to ASCII case.
    Named(Seq<char>),
    /// Any file with an image extension.
    Image,
}

/// Whether a file name is what a probe looks for.
pub open spec fn probe_hit(probe: Probe, name: Seq<char>) -> bool {
    match probe {
        Probe::Preview(PatternView::Literal(literal)) => is_image_name(name) && same_ignoring_case(
            stem(name),
            literal,
        ),
        Probe::Preview(PatternView::Pattern(source)) => is_image_name(name) && pattern_compiles(
            source,
        ) && pattern_accepts(source, name),
        Probe::Named(whole) => same_ignoring_case(name, whole),
        Probe::Image => is_image_name(name),
    }
}

/// Position of the first file name, in listing order, that a probe hits.
pub open spec fn first_hit(names: Seq<Seq<char>>, probe: Probe) -> Option<int>
    decreases names.len(),
{
    if names.len() == 0 {
        None
    } else if probe_hit(probe, names[0]) {
        Some(0)
    } else {
        match first_hit(names.drop_first(), probe) {
            Some(i) => Some(i + 1),
            None => None,
        }
    }
}

/// The preview-name pass: the first pattern, in configured order, that hits
/// any file decides, and among its hits the first in listing order.
pub open spec fn preview_pass(names: Seq<Seq<char>>, patterns: Seq<PatternView>) -> Option<int>
    decreases patterns.len(),
{
    if patterns.len() == 0 {
        None
    } else {
        match first_hit(names, Probe::Preview(patterns[0])) {
            Some(i) => Some(i),
            None => preview_pass(names, patterns.drop_first()),
        }
    }
}

/// The file name that the folder-name pass looks for with one extension.
pub open spec fn folder_file(folder: Seq<char>, ext: Seq<char>) -> Seq<char> {
    folder + seq!['.'] + ext
}

/// The folder-name pass over the extensions `exts`: the first extension for
/// which a file is named `<folder>.<ext>` decides.
pub open spec fn folder_pass(names: Seq<Seq<char>>, folder: Seq<char>, exts: Seq<Seq<char>>)
    -> Option<int>
    decreases exts.len(),
{
    if exts.len() == 0 {
        None
    } else {
        match first_hit(names, Probe::Named(folder_file(folder, exts[0]))) {
            Some(i) => Some(i),
            None => folder_pass(names, folder, exts.drop_first()),
        }
    }
}

/// Position in the listing of the preview image of a directory, if one can
/// be determined. `has_metadata` says that the directory holds a metadata
/// file, which switches the first-image fallback on.
pub open spec fn resolved_index(
    names: Seq<Seq<char>>,
    folder: Seq<char>,
    config: ConfigView,
    has_metadata: bool,
) -> Option<int> {
    match preview_pass(names, config.preview_names) {
        Some(i) => Some(i),
        None => {
            let by_folder = if config.use_folder_name {
                folder_pass(names, folder, image_extensions())
            } else {
                None
            };
            match by_folder {
                Some(i) => Some(i),
                None => if config.use_first_image || has_metadata {
                    first_hit(names, Probe::Image)
                } else {
                    None
                },
            }
        },
    }
}

/// Path of the preview image of a directory, if one can be determined.
pub open spec fn resolved_image(
    entries: Seq<ListedView>,
    folder: Seq<char>,
    config: ConfigView,
    has_metadata: bool,
) -> Option<Seq<char>> {
    match resolved_index(names_of(entries), folder, config, has_metadata) {
        Some(i) => Some(entries[i].path),
        None => None,
    }
}

/// What `first_hit` finds is a hit that no earlier file name is; where it
/// finds nothing, no file name is a hit.
pub proof fn lemma_first_hit(names: Seq<Seq<char>>, probe: Probe)
    ensures
        match first_hit(names, probe) {
            Some(i) => {
                &&& 0 <= i < names.len()
                &&& probe_hit(probe, names[i])
                &&& forall|k: int| 0 <= k < i ==> !probe_hit(probe, #[trigger] names[k])
            },
            None => forall|k: int| 0 <= k < names.len() ==> !probe_hit(probe, #[trigger] names[k]),
        },
    decreases names.len(),
{
    if names.len() != 0 && !probe_hit(probe, names[0]) {
        let rest = names.drop_first();
        lemma_first_hit(rest, probe);
        assert forall|k: int| 0 <= k < rest.len() implies rest[k] == names[k + 1] by {}
        match first_hit(rest, probe) {
            Some(i) => {
                assert forall|k: int| 0 <= k < i + 1 implies !probe_hit(
                    probe,
                    #[trigger] names[k],
                ) by {
                    if k > 0 {
                        assert(rest[k - 1] == names[k]);
                    }
                }
            },
            None => {
                assert forall|k: int| 0 <= k < names.len() implies !probe_hit(
                    probe,
                    #[trigger] names[k],
                ) by {
                    if k > 0 {
                        assert(rest[k - 1] == names[k]);
                    }
                }
            },
        }
    }
}

/// The first file name that is a hit, with no hit before it, is what
/// `first_hit` finds.
pub proof fn lemma_first_hit_is(names: Seq<Seq<char>>, probe: Probe, at: int)
    requires
        0 <= at < names.len(),
        probe_hit(probe, names[at]),
        forall|k: int| 0 <= k < at ==> !probe_hit(probe, #[trigger] names[k]),
    ensures
        first_hit(names, probe) == Some(at),
{
    lemma_first_hit(names, probe);
}

/// Where no file name is a hit, `first_hit` finds nothing.
pub proof fn lemma_first_hit_none(names: Seq<Seq<char>>, probe: Probe)
    requires
        forall|k: int| 0 <= k < names.len() ==> !probe_hit(probe, #[trigger] names[k]),
    ensures
        first_hit(names, probe) is None,
{
    lemma_first_hit(names, probe);
}

/// The supported image extensions as a list.
pub fn image_extension_list() -> (r: Vec<Vec<char>>)
    ensures
        texts(r@) == image_extensions(),
{
    let mut out: Vec<Vec<char>> = Vec::new();
    out.push(vec!['p', 'n', 'g']);
    out.push(vec!['j', 'p', 'e', 'g']);
    out.push(vec!['j', 'p', 'g']);
    out.push(vec!['b', 'm', 'p']);
    out.push(vec!['t', 'g', 'a']);
    out.push(vec!['w', 'e', 'b', 'p']);
    out.push(vec!['s', 'v', 'g']);
    assert(texts(out@) =~= image_extensions()) by {
        assert forall|i: int| 0 <= i < 7 implies #[trigger] out@[i]@ =~= image_extensions()[i] by {}
    }
    out
}

/// Whether a file name has a supported image extension.
pub fn has_image_extension(name: &Vec<char>) -> (r: bool)
    ensures
        r == is_image_name(name@),
{
    match extension_of(name) {
        Some(ext) => {
            let known = image_extension_list();
            let mut i: usize = 0;
            while i < known.len()
                invariant
                    i <= known.len(),
                    extension(name@) == Some(ext@),
                    texts(known@) == image_extensions(),
                    forall|k: int|
                        0 <= k < i ==> !same_ignoring_case(ext@, #[trigger] image_extensions()[k]),
                decreases known.len() - i,
            {
                assert(texts(known@).len() == known@.len());
                assert(texts(known@)[i as int] == known@[i as int]@);
                if equal_ignoring_case(&ext, &known[i]) {
                    assert(same_ignoring_case(ext@, image_extensions()[i as int]));
                    return true;
                }
                i += 1;
            }
            assert(texts(known@).len() == known@.len());
            false
        },
        None => false,
    }
}

/// Position of the first entry that is set in both lists. What one list
/// holds beyond the end of the other is left out.
pub fn first_set_in_both(a: &Vec<bool>, b: &Vec<bool>) -> (r: Option<usize>)
    ensures
        match r {
            Some(i) => i < a.len() && i < b.len() && a@[i as int] && b@[i as int] && forall|k: int|
                0 <= k < i ==> !(a@[k] && b@[k]),
            None => forall|k: int| 0 <= k < a.len() && k < b.len() ==> !(a@[k] && b@[k]),
        },
{
    let mut i: usize = 0;
    while i < a.len() && i < b.len()
        invariant
            i <= a.len(),
            i <= b.len(),
            forall|k: int| 0 <= k < i ==> !(a@[k] && b@[k]),
        decreases a.len() - i,
    {
        if a[i] && b[i] {
            return Some(i);
        }
        i += 1;
    }
    None
}

/// The characters of each entry's file name.
pub fn entry_names(entries: &Vec<DirEntry>) -> (r: Vec<Vec<char>>)
    ensures
        texts(r@) == names_of(listing_views(entries@)),
{
    let mut out: Vec<Vec<char>> = Vec::new();
    let mut i: usize = 0;
    while i < entries.len()
        invariant
            i <= entries.len(),
            out.len() == i,
            forall|k: int| 0 <= k < i ==> out@[k]@ == entries@[k].name@,
        decreases entries.len() - i,
    {
        out.push(chars_of(entries[i].name.as_str()));
        i += 1;
    }
    assert(texts(out@) =~= names_of(listing_views(entries@)));
    out
}

/// For each file name, whether it has a supported image extension.
pub fn image_marks(names: &Vec<Vec<char>>) -> (r: Vec<bool>)
    ensures
        r.len() == names.len(),
        forall|k: int| 0 <= k < names.len() ==> r@[k] == is_image_name(#[trigger] names@[k]@),
{
    let mut out: Vec<bool> = Vec::new();
    let mut i: usize = 0;
    while i < names.len()
        invariant
            i <= names.len(),
            out.len() == i,
            forall|k: int| 0 <= k < i ==> out@[k] == is_image_name(#[trigger] names@[k]@),
        decreases names.len() - i,
    {
        out.push(has_image_extension(&names[i]));
        i += 1;
    }
    out
}

/// For each file name, whether its stem equals `literal` up to ASCII case.
pub fn stem_marks(names: &Vec<Vec<char>>, literal: &Vec<char>) -> (r: Vec<bool>)
    ensures
        r.len() == names.len(),
        forall|k: int|
            0 <= k < names.len() ==> r@[k] == same_ignoring_case(
                stem(#[trigger] names@[k]@),
                literal@,
            ),
{
    let mut out: Vec<bool> = Vec::new();
    let mut i: usize = 0;
    while i < names.len()
        invariant
            i <= names.len(),
            out.len() == i,
            forall|k: int|
                0 <= k < i ==> out@[k] == same_ignoring_case(
                    stem(#[trigger] names@[k]@),
                    literal@,
                ),
        decreases names.len() - i,
    {
        let st = stem_of(&names[i]);
        out.push(equal_ignoring_case(&st, literal));
        i += 1;
    }
    out
}

/// For each entry, whether the regular expression compiled and finds a
/// match somewhere in the entry's file name.
pub fn pattern_marks(entries: &Vec<DirEntry>, pattern: &CompiledPattern) -> (r: Vec<bool>)
    ensures
        r.len() == entries.len(),
        forall|k: int|
            0 <= k < entries.len() ==> #[trigger] r@[k] == (pattern_compiles(pattern@)
                && pattern_accepts(pattern@, entries@[k].name@)),
{
    let mut out: Vec<bool> = Vec::new();
    let mut i: usize = 0;
    while i < entries.len()
        invariant
            i <= entries.len(),
            out.len() == i,
            forall|k: int|
                0 <= k < i ==> #[trigger] out@[k] == (pattern_compiles(pattern@)
                    && pattern_accepts(pattern@, entries@[k].name@)),
        decreases entries.len() - i,
    {
        out.push(pattern.hits(entries[i].name.as_str()));
        i += 1;
    }
    out
}

/// Position of the first file name that equals `whole` up to ASCII case.
pub fn first_named(names: &Vec<Vec<char>>, whole: &Vec<char>) -> (r: Option<usize>)
    ensures
        match r {
            Some(i) => first_hit(texts(names@), Probe::Named(whole@)) == Some(i as int) && i
                < names.len(),
            None => first_hit(texts(names@), Probe::Named(whole@)) is None,
        },
{
    let mut i: usize = 0;
    while i < names.len()
        invariant
            i <= names.len(),
            forall|k: int|
                0 <= k < i ==> !probe_hit(Probe::Named(whole@), #[trigger] texts(names@)[k]),
        decreases names.len() - i,
    {
        if equal_ignoring_case(&names[i], whole) {
            proof {
                lemma_first_hit_is(texts(names@), Probe::Named(whole@), i as int);
            }
            return Some(i);
        }
        i += 1;
    }
    proof {
        lemma_first_hit_none(texts(names@), Probe::Named(whole@));
    }
    None
}

/// Position of the first file that one preview-name pattern hits.
fn first_preview_hit(
    entries: &Vec<DirEntry>,
    names: &Vec<Vec<char>>,
    images: &Vec<bool>,
    pattern: &PreviewPattern,
) -> (r: Option<usize>)
    requires
        texts(names@) == names_of(listing_views(entries@)),
        images.len() == names.len(),
        forall|k: int| 0 <= k < names.len() ==> images@[k] == is_image_name(#[trigger] names@[k]@),
    ensures
        match r {
            Some(i) => first_hit(texts(names@), Probe::Preview(pattern@)) == Some(i as int) && i
                < names.len(),
            None => first_hit(texts(names@), Probe::Preview(pattern@)) is None,
        },
{
    let ghost probe = Probe::Preview(pattern@);
    let ghost all = texts(names@);
    assert(all.len() == names.len());
    assert(all.len() == entries.len());
    assert forall|k: int| 0 <= k < names.len() implies #[trigger] names@[k]@
        == entries@[k].name@ by {
        assert(all[k] == names@[k]@);
        assert(names_of(listing_views(entries@))[k] == entries@[k].name@);
    }
    let marks: Vec<bool> = match pattern {
        PreviewPattern::Literal(literal) => {
            let wanted = chars_of(literal.as_str());
            stem_marks(names, &wanted)
        },
        PreviewPattern::Pattern(compiled) => pattern_marks(entries, compiled),
    };
    assert forall|k: int| 0 <= k < names.len() implies (marks@[k] && images@[k]) == probe_hit(
        probe,
        #[trigger] all[k],
    ) by {
        assert(all[k] == names@[k]@);
        assert(names@[k]@ == entries@[k].name@);
    }
    match first_set_in_both(&marks, images) {
        Some(i) => {
            proof {
                lemma_first_hit_is(all, probe, i as int);
            }
            Some(i)
        },
        None => {
            proof {
                lemma_first_hit_none(all, probe);
            }
            None
        },
    }
}

/// The preview-name pass.
fn preview_name_pass(
    entries: &Vec<DirEntry>,
    names: &Vec<Vec<char>>,
    images: &Vec<bool>,
    patterns: &Vec<PreviewPattern>,
) -> (r: Option<usize>)
    requires
        texts(names@) == names_of(listing_views(entries@)),
        images.len() == names.len(),
        forall|k: int| 0 <= k < names.len() ==> images@[k] == is_image_name(#[trigger] names@[k]@),
    ensures
        match r {
            Some(i) => preview_pass(texts(names@), pattern_views(patterns@)) == Some(i as int) && i
                < names.len(),
            None => preview_pass(texts(names@), pattern_views(patterns@)) is None,
        },
{
    let ghost all = pattern_views(patterns@);
    let mut i: usize = 0;
    assert(all.skip(0) =~= all);
    while i < patterns.len()
        invariant
            i <= patterns.len(),
            all == pattern_views(patterns@),
            texts(names@) == names_of(listing_views(entries@)),
            images.len() == names.len(),
            forall|k: int|
                0 <= k < names.len() ==> images@[k] == is_image_name(#[trigger] names@[k]@),
            preview_pass(texts(names@), all) == preview_pass(texts(names@), all.skip(i as int)),
        decreases patterns.len() - i,
    {
        assert(all.skip(i as int)[0] == patterns@[i as int]@);
        assert(all.skip(i as int).drop_first() =~= all.skip(i + 1));
        match first_preview_hit(entries, names, images, &patterns[i]) {
            Some(found) => {
                return Some(found);
            },
            None => {},
        }
        i += 1;
    }
    None
}

/// The folder-name pass.
pub fn folder_name_pass(names: &Vec<Vec<char>>, folder: &Vec<char>) -> (r: Option<usize>)
    ensures
        match r {
            Some(i) => folder_pass(texts(names@), folder@, image_extensions()) == Some(i as int)
                && i < names.len(),
            None => folder_pass(texts(names@), folder@, image_extensions()) is None,
        },
{
    let known = image_extension_list();
    let ghost exts = image_extensions();
    let mut i: usize = 0;
    assert(exts.skip(0) =~= exts);
    assert(texts(known@).len() == known.len());
    while i < known.len()
        invariant
            i <= known.len(),
            known.len() == exts.len(),
            texts(known@) == exts,
            exts == image_extensions(),
            folder_pass(texts(names@), folder@, exts) == folder_pass(
                texts(names@),
                folder@,
                exts.skip(i as int),
            ),
        decreases known.len() - i,
    {
        assert(exts.skip(i as int)[0] == exts[i as int]);
        assert(texts(known@)[i as int] == known@[i as int]@);
        assert(exts.skip(i as int).drop_first() =~= exts.skip(i + 1));
        let mut wanted: Vec<char> = Vec::new();
        let mut k: usize = 0;
        while k < folder.len()
            invariant
                k <= folder.len(),
                wanted@ == folder@.take(k as int),
            decreases folder.len() - k,
        {
            wanted.push(folder[k]);
            assert(folder@.take(k + 1) =~= folder@.take(k as int).push(folder@[k as int]));
            k += 1;
        }
        assert(folder@.take(folder@.len() as int) =~= folder@);
        wanted.push('.');
        let ext = &known[i];
        let mut j: usize = 0;
        while j < ext.len()
            invariant
                j <= ext.len(),
                wanted@ == folder@ + seq!['.'] + ext@.take(j as int),
            decreases ext.len() - j,
        {
            wanted.push(ext[j]);
            assert(ext@.take(j + 1) =~= ext@.take(j as int).push(ext@[j as int]));
            j += 1;
        }
        assert(ext@.take(ext@.len() as int) =~= ext@);
        assert(wanted@ == folder_file(folder@, exts[i as int]));
        match first_named(names, &wanted) {
            Some(found) => {
                return Some(found);
            },
            None => {},
        }
        i += 1;
    }
    None
}

/// Position of the first file with a supported image extension.
fn first_image(names: &Vec<Vec<char>>, images: &Vec<bool>) -> (r: Option<usize>)
    requires
        images.len() == names.len(),
        forall|k: int| 0 <= k < names.len() ==> images@[k] == is_image_name(#[trigger] names@[k]@),
    ensures
        match r {
            Some(i) => first_hit(texts(names@), Probe::Image) == Some(i as int) && i < names.len(),
            None => first_hit(texts(names@), Probe::Image) is None,
        },
{
    let ghost all = texts(names@);
    assert forall|k: int| 0 <= k < names.len() implies (images@[k] && images@[k]) == probe_hit(
        Probe::Image,
        #[trigger] all[k],
    ) by {
        assert(all[k] == names@[k]@);
    }
    match first_set_in_both(images, images) {
        Some(i) => {
            proof {
                lemma_first_hit_is(all, Probe::Image, i as int);
            }
            Some(i)
        },
        None => {
            proof {
                lemma_first_hit_none(all, Probe::Image);
            }
            None
        },
    }
}

/// Resolves the preview image of a directory from its immediate listing:
/// the preview-name pass, then the folder-name pass where it is switched on,
/// then the first image where the fallback is switched on or the directory
/// holds a metadata file. Returns the path of the file that was chosen.
pub fn resolve_preview(
    entries: &Vec<DirEntry>,
    folder_name: &str,
    config: &ScanConfig,
    has_metadata: bool,
) -> (r: Option<String>)
    ensures
        crate::asset::optional_view(r) == resolved_image(
            listing_views(entries@),
            folder_name@,
            config@,
            has_metadata,
        ),
{
    let names = entry_names(entries);
    let images = image_marks(&names);
    assert(texts(names@).len() == names.len());
    assert(names.len() == entries.len());
    let mut found = preview_name_pass(entries, &names, &images, config.preview_names());
    if found.is_none() && config.use_folder_name() {
        let folder = chars_of(folder_name);
        found = folder_name_pass(&names, &folder);
    }
    if found.is_none() && (config.use_first_image() || has_metadata) {
        found = first_image(&names, &images);
    }
    match found {
        Some(i) => {
            assert(listing_views(entries@)[i as int] == entries@[i as int]@);
            Some(entries[i].path.clone())
        },
        None => None,
    }
}

} // verus!
