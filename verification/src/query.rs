//! The query engine: search terms, the conditions they stand for, and the
//! assets that meet all of them.

use vstd::prelude::*;
use crate::asset::{AssetEntry, AssetView, EntryView, entry_views};
use crate::paging::window;
use crate::tags::{encode_tags, serialized_tags};
use crate::text::{
    chars_of, contains_ignoring_case, has_part_ignoring_case, has_prefix, part, split_words,
    starts_with, texts, words,
};

verus! {

/// Mathematical value of a search condition.
pub enum ConditionView {
    Tag(Seq<char>),
    General(Seq<char>),
}

/// One condition of a search. Every condition of a query has to hold.
#[derive(Clone, Debug, PartialEq, Eq)]
pub enum Condition {
    /// The text occurs in the serialised tags.
    Tag(Vec<char>),
    /// The text occurs in the name, in the path or in the serialised tags.
    General(Vec<char>),
}

impl View for Condition {
    type V = ConditionView;

    open spec fn view(&self) -> ConditionView {
        match self {
            Condition::Tag(t) => ConditionView::Tag(t@),
            Condition::General(t) => ConditionView::General(t@),
        }
    }
}

/// The values of the conditions that a vector holds.
pub open spec fn condition_views(v: Seq<Condition>) -> Seq<ConditionView> {
    Seq::new(v.len(), |i: int| v[i]@)
}

/// The prefix that marks a tag condition.
pub open spec fn tag_prefix() -> Seq<char> {
    seq!['t', 'a', 'g', ':']
}

/// The condition that one word of a query stands for: a tag condition where
/// the word is the tag prefix and at least one character more, a general
/// condition otherwise.
pub open spec fn condition_of(word: Seq<char>) -> ConditionView {
    if starts_with(word, tag_prefix()) && word.len() > tag_prefix().len() {
        ConditionView::Tag(word.skip(tag_prefix().len() as int))
    } else {
        ConditionView::General(word)
    }
}

/// The conditions that a query stands for: one for each of its words.
pub open spec fn conditions_of(query: Seq<char>) -> Seq<ConditionView> {
    Seq::new(words(query).len(), |i: int| condition_of(words(query)[i]))
}

/// Whether a condition holds of a name, a path and a serialised tag list.
/// Matching is by substring, up to ASCII case.
pub open spec fn holds_on(
    name: Seq<char>,
    path: Seq<char>,
    tags_text: Seq<char>,
    condition: ConditionView,
) -> bool {
    match condition {
        ConditionView::Tag(t) => contains_ignoring_case(tags_text, t),
        ConditionView::General(t) => contains_ignoring_case(name, t) || contains_ignoring_case(
            path,
            t,
        ) || contains_ignoring_case(tags_text, t),
    }
}

/// Whether an asset meets a condition.
pub open spec fn satisfies(asset: AssetView, condition: ConditionView) -> bool {
    holds_on(asset.name, asset.path, serialized_tags(asset.tags), condition)
}

/// Whether an asset meets every condition.
pub open spec fn satisfies_all(asset: AssetView, conditions: Seq<ConditionView>) -> bool {
    forall|i: int| 0 <= i < conditions.len() ==> satisfies(asset, #[trigger] conditions[i])
}

/// The entries that meet every condition, in their order. Without a
/// condition nothing matches: a search needs at least one term.
pub open spec fn matching(entries: Seq<EntryView>, conditions: Seq<ConditionView>) -> Seq<
    EntryView,
>
    decreases entries.len(),
{
    if entries.len() == 0 {
        entries
    } else if conditions.len() > 0 && satisfies_all(entries.last().data, conditions) {
        matching(entries.drop_last(), conditions).push(entries.last())
    } else {
        matching(entries.drop_last(), conditions)
    }
}

/// What a search returns: the requested part of the matching entries and
/// the number of all matching entries.
pub open spec fn found(
    entries: Seq<EntryView>,
    conditions: Seq<ConditionView>,
    offset: int,
    limit: int,
) -> (Seq<EntryView>, int) {
    let all = matching(entries, conditions);
    (window(all, offset, limit), all.len() as int)
}

/// No more entries match than there are.
pub proof fn lemma_matching_len(entries: Seq<EntryView>, conditions: Seq<ConditionView>)
    ensures
        matching(entries, conditions).len() <= entries.len(),
    decreases entries.len(),
{
    if entries.len() != 0 {
        lemma_matching_len(entries.drop_last(), conditions);
    }
}

/// The condition that one word of a query stands for.
pub fn classify_word(word: &Vec<char>) -> (r: Condition)
    ensures
        r@ == condition_of(word@),
{
    let prefix: Vec<char> = vec!['t', 'a', 'g', ':'];
    assert(prefix@ =~= tag_prefix());
    assert(tag_prefix().len() == 4);
    if has_prefix(word, &prefix) && word.len() > 4 {
        let rest = part(word, 4, word.len());
        assert(word@.skip(4) =~= word@.subrange(4, word@.len() as int));
        Condition::Tag(rest)
    } else {
        let whole = part(word, 0, word.len());
        assert(whole@ =~= word@);
        Condition::General(whole)
    }
}

/// The conditions that a query stands for.
pub fn parse_query(query: &str) -> (r: Vec<Condition>)
    ensures
        condition_views(r@) == conditions_of(query@),
{
    let text = chars_of(query);
    let split = split_words(&text);
    let mut out: Vec<Condition> = Vec::new();
    let mut i: usize = 0;
    assert(texts(split@).len() == split.len());
    while i < split.len()
        invariant
            i <= split.len(),
            out.len() == i,
            texts(split@) == words(query@),
            forall|k: int| 0 <= k < i ==> out@[k]@ == condition_of(words(query@)[k]),
        decreases split.len() - i,
    {
        assert(texts(split@)[i as int] == split@[i as int]@);
        out.push(classify_word(&split[i]));
        i += 1;
    }
    assert(condition_views(out@) =~= conditions_of(query@));
    out
}

/// Whether a condition holds of a name, a path and a serialised tag list.
pub fn meets(name: &Vec<char>, path: &Vec<char>, tags_text: &Vec<char>, condition: &Condition) -> (r:
    bool)
    ensures
        r == holds_on(name@, path@, tags_text@, condition@),
{
    match condition {
        Condition::Tag(t) => has_part_ignoring_case(tags_text, t),
        Condition::General(t) => has_part_ignoring_case(name, t) || has_part_ignoring_case(path, t)
            || has_part_ignoring_case(tags_text, t),
    }
}

/// Whether an asset meets every condition.
pub fn meets_all(entry: &AssetEntry, conditions: &Vec<Condition>) -> (r: bool)
    ensures
        r == satisfies_all(entry@.data, condition_views(conditions@)),
{
    let name = chars_of(entry.data.name.as_str());
    let path = chars_of(entry.data.path.as_str());
    let tags = encode_tags(&entry.data.tags);
    let tags_text = chars_of(tags.as_str());
    let ghost all = condition_views(conditions@);
    let mut i: usize = 0;
    while i < conditions.len()
        invariant
            i <= conditions.len(),
            all == condition_views(conditions@),
            name@ == entry@.data.name,
            path@ == entry@.data.path,
            tags_text@ == serialized_tags(entry@.data.tags),
            forall|k: int| 0 <= k < i ==> satisfies(entry@.data, #[trigger] all[k]),
        decreases conditions.len() - i,
    {
        assert(all[i as int] == conditions@[i as int]@);
        if !meets(&name, &path, &tags_text, &conditions[i]) {
            return false;
        }
        i += 1;
    }
    true
}

/// Searches the entries: returns the entries that meet every condition,
/// from position `offset` of the matches on and at most `limit` of them,
/// together with the number of all matches. Without a condition nothing
/// matches.
pub fn search_entries(
    entries: &Vec<AssetEntry>,
    conditions: &Vec<Condition>,
    offset: i64,
    limit: i64,
) -> (r: (Vec<AssetEntry>, usize))
    ensures
        (entry_views(r.0@), r.1 as int) == found(
            entry_views(entries@),
            condition_views(conditions@),
            offset as int,
            limit as int,
        ),
{
    let ghost s = entry_views(entries@);
    let ghost c = condition_views(conditions@);
    let mut out: Vec<AssetEntry> = Vec::new();
    let mut seen: usize = 0;
    let mut i: usize = 0;
    assert(s.take(0) =~= Seq::empty());
    assert(entry_views(out@) =~= window(matching(s.take(0), c), offset as int, limit as int));
    while i < entries.len()
        invariant
            i <= entries.len(),
            seen <= i,
            s == entry_views(entries@),
            c == condition_views(conditions@),
            seen == matching(s.take(i as int), c).len(),
            entry_views(out@) == window(matching(s.take(i as int), c), offset as int, limit as int),
        decreases entries.len() - i,
    {
        let ghost before = matching(s.take(i as int), c);
        assert(s.take(i + 1).drop_last() =~= s.take(i as int));
        assert(s.take(i + 1).last() == entries@[i as int]@);
        assert(c.len() == conditions.len());
        if conditions.len() > 0 && meets_all(&entries[i], conditions) {
            let ghost after = before.push(entries@[i as int]@);
            assert(matching(s.take(i + 1), c) == after);
            let skipped: u64 = if offset <= 0 {
                0
            } else {
                offset as u64
            };
            let wanted: u64 = if limit <= 0 {
                0
            } else {
                limit as u64
            };
            let inside = seen as u64 >= skipped && seen as u64 - skipped < wanted;
            if inside {
                let e = entries[i].duplicate();
                assert(entry_views(out@.push(e)) =~= entry_views(out@).push(e@));
                assert(window(after, offset as int, limit as int) =~= window(
                    before,
                    offset as int,
                    limit as int,
                ).push(e@));
                out.push(e);
            } else {
                assert(window(after, offset as int, limit as int) =~= window(
                    before,
                    offset as int,
                    limit as int,
                ));
            }
            seen += 1;
        }
        i += 1;
    }
    assert(s.take(s.len() as int) =~= s);
    (out, seen)
}

} // verus!
