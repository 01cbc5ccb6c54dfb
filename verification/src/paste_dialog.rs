//! The quick paste dialog: what it offers, and what its filter leaves.
use crate::clipboard_history::{entry_views, Captured, HistoryEntry};
use crate::database::item_views;
use crate::item::{text_view, Item, ItemKind, ItemView};
use crate::text::{contains_text, lowercase, lowercase_of, occurs_in, same_text, trim, trimmed};
use crate::tree_builder::{collapse_newlines, collapsed_newlines};
use vstd::prelude::*;

verus! {

/// One thing to paste.
#[derive(Debug, PartialEq, Eq)]
pub struct PasteCandidate {
    pub title: String,
    /// The line under the title; empty for a captured text, which is its own title.
    pub preview: String,
    /// What kind of thing this is; empty for a stored snippet.
    pub tag: String,
    pub text: String,
}

/// The value of a [`PasteCandidate`].
pub struct CandidateView {
    pub title: Seq<char>,
    pub preview: Seq<char>,
    pub tag: Seq<char>,
    pub text: Seq<char>,
}

impl View for PasteCandidate {
    type V = CandidateView;

    open spec fn view(&self) -> CandidateView {
        CandidateView {
            title: self.title@,
            preview: self.preview@,
            tag: self.tag@,
            text: self.text@,
        }
    }
}

pub open spec fn candidate_views(candidates: Seq<PasteCandidate>) -> Seq<CandidateView> {
    candidates.map_values(|c: PasteCandidate| c@)
}

/// A captured text as a candidate.
pub open spec fn captured_candidate(text: Seq<char>, tag: Seq<char>) -> CandidateView {
    CandidateView { title: collapsed_newlines(text), preview: Seq::empty(), tag, text }
}

/// A stored snippet as a candidate.
pub open spec fn snippet_candidate(item: ItemView) -> CandidateView {
    CandidateView {
        title: item.title,
        preview: collapsed_newlines(item.body_plain),
        tag: Seq::empty(),
        text: item.body_plain,
    }
}

/// The candidates of the first `n` captured texts: those that are not empty.
pub open spec fn captured_candidates(history: Seq<Captured>, tag: Seq<char>, n: int) -> Seq<
    CandidateView,
>
    decreases n,
{
    if n <= 0 {
        Seq::empty()
    } else {
        let earlier = captured_candidates(history, tag, n - 1);
        if history[n - 1].0.len() == 0 {
            earlier
        } else {
            earlier.push(captured_candidate(history[n - 1].0, tag))
        }
    }
}

/// The candidates of the first `n` items: those that are plain snippets.
pub open spec fn snippet_candidates(items: Seq<ItemView>, n: int) -> Seq<CandidateView>
    decreases n,
{
    if n <= 0 {
        Seq::empty()
    } else {
        let earlier = snippet_candidates(items, n - 1);
        if items[n - 1].kind == ItemKind::Plain {
            earlier.push(snippet_candidate(items[n - 1]))
        } else {
            earlier
        }
    }
}

/// Everything there is to paste: captured texts first, which the user had in hand last, then
/// the snippets.
pub open spec fn all_candidates(
    history: Seq<Captured>,
    items: Seq<ItemView>,
    tag: Seq<char>,
) -> Seq<CandidateView> {
    captured_candidates(history, tag, history.len() as int) + snippet_candidates(
        items,
        items.len() as int,
    )
}

/// Does the needle, which is in lower case, occur in the title or in the text?
pub open spec fn is_match(c: CandidateView, needle: Seq<char>) -> bool {
    occurs_in(needle, lowercase_of(c.title)) || occurs_in(needle, lowercase_of(c.text))
}

/// The matches among the first `n` candidates.
pub open spec fn matches_of(all: Seq<CandidateView>, needle: Seq<char>, n: int) -> Seq<
    CandidateView,
>
    decreases n,
{
    if n <= 0 {
        Seq::empty()
    } else {
        let earlier = matches_of(all, needle, n - 1);
        if is_match(all[n - 1], needle) {
            earlier.push(all[n - 1])
        } else {
            earlier
        }
    }
}

/// What the dialog lists for a filter. Blanks around the filter and the case of letters do not
/// matter.
pub open spec fn listed(all: Seq<CandidateView>, filter: Seq<char>) -> Seq<CandidateView> {
    let needle = lowercase_of(trimmed(filter));
    if needle.len() == 0 {
        all
    } else {
        matches_of(all, needle, all.len() as int)
    }
}

fn is_empty(text: &str) -> (r: bool)
    ensures
        r == (text@.len() == 0),
{
    proof {
        reveal_strlit("");
        if text@.len() == 0 {
            assert(text@ =~= ""@);
        }
    }
    same_text(text, "")
}

/// Does a candidate with this title and this text, both in lower case, stay in the list for a
/// needle in lower case? Without a needle everything does.
pub fn stays_listed(lower_title: &str, lower_text: &str, needle: &str) -> (r: bool)
    ensures
        r == (needle@.len() == 0 || occurs_in(needle@, lower_title@) || occurs_in(
            needle@,
            lower_text@,
        )),
{
    is_empty(needle) || contains_text(lower_title, needle) || contains_text(lower_text, needle)
}

/// What the dialog lists.
pub fn paste_candidates(
    history: &[HistoryEntry],
    items: &[Item],
    history_tag: &str,
    filter: &str,
) -> (r: Vec<PasteCandidate>)
    ensures
        candidate_views(r@) == listed(
            all_candidates(entry_views(history@), item_views(items@), history_tag@),
            filter@,
        ),
{
    let ghost captured = entry_views(history@);
    let ghost views = item_views(items@);
    let mut all: Vec<PasteCandidate> = Vec::new();
    let mut i: usize = 0;
    assert(candidate_views(all@) =~= captured_candidates(captured, history_tag@, 0));
    while i < history.len()
        invariant
            i <= history@.len(),
            captured == entry_views(history@),
            candidate_views(all@) == captured_candidates(captured, history_tag@, i as int),
        decreases history@.len() - i,
    {
        assert(captured[i as int] == history@[i as int]@);
        let text = history[i].text.as_str();
        if !is_empty(text) {
            let ghost before = all@;
            all.push(
                PasteCandidate {
                    title: collapse_newlines(text),
                    preview: String::new(),
                    tag: history_tag.to_owned(),
                    text: text.to_owned(),
                },
            );
            assert(candidate_views(all@) =~= candidate_views(before).push(
                captured_candidate(captured[i as int].0, history_tag@),
            ));
        }
        i = i + 1;
    }
    let ghost first = candidate_views(all@);
    let mut k: usize = 0;
    assert(first =~= first + snippet_candidates(views, 0));
    while k < items.len()
        invariant
            k <= items@.len(),
            views == item_views(items@),
            candidate_views(all@) == first + snippet_candidates(views, k as int),
        decreases items@.len() - k,
    {
        assert(views[k as int] == items@[k as int]@);
        let item = &items[k];
        if item.kind == ItemKind::Plain {
            let ghost before = all@;
            all.push(
                PasteCandidate {
                    title: item.title.clone(),
                    preview: collapse_newlines(item.body_plain.as_str()),
                    tag: String::new(),
                    text: item.body_plain.clone(),
                },
            );
            assert(candidate_views(all@) =~= candidate_views(before).push(
                snippet_candidate(views[k as int]),
            ));
            assert(candidate_views(all@) =~= first + snippet_candidates(views, k + 1));
        }
        k = k + 1;
    }
    let trimmed_filter = trim(filter);
    let needle = lowercase(trimmed_filter.as_str());
    if is_empty(needle.as_str()) {
        return all;
    }
    let ghost listed_all = candidate_views(all@);
    let mut out: Vec<PasteCandidate> = Vec::new();
    let mut n: usize = 0;
    assert(candidate_views(out@) =~= matches_of(listed_all, needle@, 0));
    while n < all.len()
        invariant
            n <= all@.len(),
            needle@.len() > 0,
            listed_all == candidate_views(all@),
            candidate_views(out@) == matches_of(listed_all, needle@, n as int),
        decreases all@.len() - n,
    {
        let c = &all[n];
        assert(listed_all[n as int] == c@);
        let lower_title = lowercase(c.title.as_str());
        let lower_text = lowercase(c.text.as_str());
        if stays_listed(lower_title.as_str(), lower_text.as_str(), needle.as_str()) {
            let ghost before = out@;
            out.push(
                PasteCandidate {
                    title: c.title.clone(),
                    preview: c.preview.clone(),
                    tag: c.tag.clone(),
                    text: c.text.clone(),
                },
            );
            assert(candidate_views(out@) =~= candidate_views(before).push(listed_all[n as int]));
        }
        n = n + 1;
    }
    out
}

/// The text to paste for a place in the list.
pub fn selected_text(candidates: &[PasteCandidate], index: i32) -> (r: Option<String>)
    ensures
        text_view(r) == (if 0 <= index < candidates@.len() {
            Some(candidates@[index as int].text@)
        } else {
            None
        }),
{
    if index >= 0 && (index as usize) < candidates.len() {
        Some(candidates[index as usize].text.clone())
    } else {
        None
    }
}

/// A filter only leaves things out: what it lists are candidates that match, in their order,
/// and no match is missing.
pub proof fn filter_keeps_the_matches(all: Seq<CandidateView>, needle: Seq<char>, n: int)
    requires
        0 <= n <= all.len(),
    ensures
        matches_of(all, needle, n) == all.take(n).filter(|c: CandidateView| is_match(c, needle)),
    decreases n,
{
    reveal(Seq::filter);
    let keep = |c: CandidateView| is_match(c, needle);
    if n == 0 {
        assert(all.take(0) =~= Seq::<CandidateView>::empty());
    } else {
        filter_keeps_the_matches(all, needle, n - 1);
        let upto = all.take(n);
        assert(upto.drop_last() =~= all.take(n - 1));
        assert(upto.last() == all[n - 1]);
    }
}

} // verus!
