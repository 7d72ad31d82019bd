//! The scan configuration: preview-name patterns, fallback switches and the
//! page size.

use vstd::prelude::*;
use vstd::string::StrSliceExecFns;
use crate::asset::string_views;
use crate::pattern::CompiledPattern;

verus! {

/// Mathematical value of a preview-name pattern.
pub enum PatternView {
    Literal(Seq<char>),
    Pattern(Seq<char>),
}

/// A preview-name pattern. Which of the two it is, is decided once, when the
/// list of names is set, and a regular expression is compiled then.
#[derive(Debug)]
pub enum PreviewPattern {
    /// A name that a file's stem has to equal, up to ASCII case.
    Literal(String),
    /// A regular expression that is searched for in the whole file name.
    Pattern(CompiledPattern),
}

impl View for PreviewPattern {
    type V = PatternView;

    open spec fn view(&self) -> PatternView {
        match self {
            PreviewPattern::Literal(s) => PatternView::Literal(s@),
            PreviewPattern::Pattern(c) => PatternView::Pattern(c@),
        }
    }
}

/// The pattern that a configured name stands for: a regular expression where
/// it begins with the anchor `^`, a literal otherwise.
pub open spec fn classified(name: Seq<char>) -> PatternView {
    if name.len() > 0 && name[0] == '^' {
        PatternView::Pattern(name)
    } else {
        PatternView::Literal(name)
    }
}

/// The patterns that a list of configured names stands for.
pub open spec fn classified_all(names: Seq<Seq<char>>) -> Seq<PatternView> {
    Seq::new(names.len(), |i: int| classified(names[i]))
}

/// The values of the patterns that a vector holds.
pub open spec fn pattern_views(v: Seq<PreviewPattern>) -> Seq<PatternView> {
    Seq::new(v.len(), |i: int| v[i]@)
}

impl PreviewPattern {
    /// Whether the pattern is a regular expression.
    pub fn is_pattern(&self) -> (r: bool)
        ensures
            r == (self@ is Pattern),
    {
        match self {
            PreviewPattern::Literal(_) => false,
            PreviewPattern::Pattern(_) => true,
        }
    }

    /// The name as it was configured.
    pub fn source(&self) -> (r: &String)
        ensures
            r@ == match self@ {
                PatternView::Literal(s) => s,
                PatternView::Pattern(s) => s,
            },
    {
        match self {
            PreviewPattern::Literal(s) => s,
            PreviewPattern::Pattern(c) => c.source(),
        }
    }

    /// Decides whether a configured name is a literal or a regular
    /// expression, and compiles the regular expression.
    pub fn classify(name: &str) -> (r: PreviewPattern)
        ensures
            r@ == classified(name@),
    {
        if !name.is_empty() && name.get_char(0) == '^' {
            PreviewPattern::Pattern(CompiledPattern::new(name))
        } else {
            PreviewPattern::Literal(name.to_owned())
        }
    }
}

/// Mathematical value of a scan configuration.
pub struct ConfigView {
    pub preview_names: Seq<PatternView>,
    pub use_first_image: bool,
    pub use_folder_name: bool,
    pub page_size: int,
}

/// The configuration with which a new catalog starts.
pub open spec fn default_config() -> ConfigView {
    ConfigView {
        preview_names: seq![PatternView::Literal("Preview"@), PatternView::Literal("Asset"@)],
        use_first_image: false,
        use_folder_name: true,
        page_size: 50,
    }
}

/// The knobs that discovery and the query engine read. The page size is at
/// least 1 at all times.
pub struct ScanConfig {
    preview_names: Vec<PreviewPattern>,
    use_first_image: bool,
    use_folder_name: bool,
    page_size: i64,
}

impl View for ScanConfig {
    type V = ConfigView;

    closed spec fn view(&self) -> ConfigView {
        ConfigView {
            preview_names: pattern_views(self.preview_names@),
            use_first_image: self.use_first_image,
            use_folder_name: self.use_folder_name,
            page_size: self.page_size as int,
        }
    }
}

impl ScanConfig {
    #[verifier::type_invariant]
    spec fn page_size_is_positive(&self) -> bool {
        self.page_size >= 1
    }

    /// The default configuration: the names `Preview` and `Asset`, the
    /// folder-name pass on, the first-image fallback off, 50 assets a page.
    pub fn new() -> (r: ScanConfig)
        ensures
            r@ == default_config(),
    {
        let mut names: Vec<PreviewPattern> = Vec::new();
        names.push(PreviewPattern::Literal("Preview".to_owned()));
        names.push(PreviewPattern::Literal("Asset".to_owned()));
        assert(pattern_views(names@) =~= default_config().preview_names);
        ScanConfig {
            preview_names: names,
            use_first_image: false,
            use_folder_name: true,
            page_size: 50,
        }
    }

    /// Sets the page size; a size under 1 becomes 1.
    pub fn set_page_size(&mut self, size: i64)
        ensures
            final(self)@ == (ConfigView {
                page_size: if size >= 1 {
                    size as int
                } else {
                    1
                },
                ..old(self)@
            }),
    {
        self.page_size = if size >= 1 {
            size
        } else {
            1
        };
    }

    /// The page size.
    pub fn get_page_size(&self) -> (r: i64)
        ensures
            r == self@.page_size,
            r >= 1,
    {
        proof {
            use_type_invariant(self);
        }
        self.page_size
    }

    /// Replaces the preview names, deciding for each whether it is a literal
    /// or a regular expression.
    pub fn set_preview_file_names(&mut self, names: &Vec<String>)
        ensures
            final(self)@ == (ConfigView {
                preview_names: classified_all(string_views(names@)),
                ..old(self)@
            }),
    {
        let mut patterns: Vec<PreviewPattern> = Vec::new();
        let mut i: usize = 0;
        while i < names.len()
            invariant
                i <= names.len(),
                patterns.len() == i,
                forall|k: int| 0 <= k < i ==> patterns@[k]@ == classified(names@[k]@),
            decreases names.len() - i,
        {
            patterns.push(PreviewPattern::classify(names[i].as_str()));
            i += 1;
        }
        assert(pattern_views(patterns@) =~= classified_all(string_views(names@)));
        proof {
            use_type_invariant(&*self);
        }
        self.preview_names = patterns;
    }

    /// Switches the first-image fallback on or off.
    pub fn set_use_first_image(&mut self, use_first: bool)
        ensures
            final(self)@ == (ConfigView { use_first_image: use_first, ..old(self)@ }),
    {
        proof {
            use_type_invariant(&*self);
        }
        self.use_first_image = use_first;
    }

    /// Switches the folder-name pass on or off.
    pub fn set_use_folder_name(&mut self, use_folder: bool)
        ensures
            final(self)@ == (ConfigView { use_folder_name: use_folder, ..old(self)@ }),
    {
        proof {
            use_type_invariant(&*self);
        }
        self.use_folder_name = use_folder;
    }

    /// The preview-name patterns, in the order in which they are tried.
    pub fn preview_names(&self) -> (r: &Vec<PreviewPattern>)
        ensures
            pattern_views(r@) == self@.preview_names,
    {
        &self.preview_names
    }

    /// Whether the first-image fallback is on.
    pub fn use_first_image(&self) -> (r: bool)
        ensures
            r == self@.use_first_image,
    {
        self.use_first_image
    }

    /// Whether the folder-name pass is on.
    pub fn use_folder_name(&self) -> (r: bool)
        ensures
            r == self@.use_folder_name,
    {
        self.use_folder_name
    }
}

} // verus!
