//! What the quick paste dialog is for: everything that can be pasted is offered, and a filter
//! leaves out only what does not match.
use crate::clipboard_history::Captured;
use crate::item::{ItemKind, ItemView};
use crate::paste_dialog::{
    all_candidates, captured_candidates, filter_keeps_the_matches, is_match, listed, matches_of,
    snippet_candidates, CandidateView,
};
use crate::text::{lowercase_of, occurs_in, trimmed};
use crate::tree_builder::{collapsed_newlines, history_label, is_newline};
use vstd::prelude::*;

verus! {

// ---- one line -----------------------------------------------------------

proof fn collapsing_parts(a: Seq<char>, b: Seq<char>)
    requires
        a.len() > 0 && b.len() > 0 ==> !(is_newline(a.last()) && is_newline(b[0])),
    ensures
        collapsed_newlines(a + b) == collapsed_newlines(a) + collapsed_newlines(b),
    decreases b.len(),
{
    if b.len() == 0 {
        assert(a + b =~= a);
        assert(collapsed_newlines(a) + collapsed_newlines(b) =~= collapsed_newlines(a));
    } else {
        let head = b.drop_last();
        collapsing_parts(a, head);
        let whole = a + b;
        assert(whole.drop_last() =~= a + head);
        assert(whole.last() == b.last());
        if b.len() > 1 {
            assert(whole[whole.len() - 2] == b[b.len() - 2]);
        } else if a.len() > 0 {
            assert(whole[whole.len() - 2] == a.last());
        }
        assert(collapsed_newlines(whole) =~= collapsed_newlines(a) + collapsed_newlines(b));
    }
}

/// Law: a text on one line stays as it is, one or more line breaks in a row become one blank,
/// and the parts of a text go their own way unless a run of line breaks is cut in two.
pub proof fn line_breaks_become_blanks(a: Seq<char>, b: Seq<char>)
    ensures
        (forall|i: int| 0 <= i < a.len() ==> (#[trigger] a[i]) != '\n' && a[i] != '\r')
            ==> collapsed_newlines(a) == a,
        a.len() > 0 && (forall|i: int|
            0 <= i < a.len() ==> (#[trigger] a[i]) == '\n' || a[i] == '\r')
            ==> collapsed_newlines(a) == seq![' '],
        a.len() == 0 || (a.last() != '\n' && a.last() != '\r') || b.len() == 0 || (b[0] != '\n'
            && b[0] != '\r') ==> collapsed_newlines(a + b) == collapsed_newlines(a)
            + collapsed_newlines(b),
{
    if forall|i: int| 0 <= i < a.len() ==> (#[trigger] a[i]) != '\n' && a[i] != '\r' {
        crate::tree_builder::one_line_stays(a);
    }
    if a.len() > 0 && (forall|i: int|
        0 <= i < a.len() ==> (#[trigger] a[i]) == '\n' || a[i] == '\r') {
        a_run_becomes_a_blank(a);
    }
    if a.len() == 0 || (a.last() != '\n' && a.last() != '\r') || b.len() == 0 || (b[0] != '\n'
        && b[0] != '\r') {
        collapsing_parts(a, b);
    }
}

proof fn a_run_becomes_a_blank(a: Seq<char>)
    requires
        a.len() > 0,
        forall|i: int| 0 <= i < a.len() ==> (#[trigger] a[i]) == '\n' || a[i] == '\r',
    ensures
        collapsed_newlines(a) == seq![' '],
    decreases a.len(),
{
    reveal_with_fuel(collapsed_newlines, 2);
    let head = a.drop_last();
    if a.len() > 1 {
        assert forall|i: int| 0 <= i < head.len() implies (#[trigger] head[i]) == '\n' || head[i]
            == '\r' by {
            assert(head[i] == a[i]);
        }
        a_run_becomes_a_blank(head);
        assert(a[a.len() - 2] == '\n' || a[a.len() - 2] == '\r');
    } else {
        assert(head =~= Seq::<char>::empty());
        assert(collapsed_newlines(a) =~= seq![' ']);
    }
}

/// Law: the label of a captured text is what its first 80 characters come to on one line.
pub proof fn labels_show_the_start(text: Seq<char>)
    ensures
        text.len() <= 80 ==> history_label(text) == collapsed_newlines(text),
        text.len() > 80 ==> history_label(text) == collapsed_newlines(text.take(80)),
{
}

// ---- what is offered ----------------------------------------------------

proof fn captured_are_a_filter(history: Seq<Captured>, tag: Seq<char>, n: int)
    requires
        0 <= n <= history.len(),
    ensures
        captured_candidates(history, tag, n) == history.take(n).filter(
            |e: Captured| e.0.len() > 0,
        ).map_values(
            |e: Captured|
                CandidateView {
                    title: collapsed_newlines(e.0),
                    preview: Seq::empty(),
                    tag,
                    text: e.0,
                },
        ),
    decreases n,
{
    reveal(Seq::filter);
    let keep = |e: Captured| e.0.len() > 0;
    let show = |e: Captured|
        CandidateView {
            title: collapsed_newlines(e.0),
            preview: Seq::empty(),
            tag,
            text: e.0,
        };
    let upto = history.take(n);
    if n == 0 {
        assert(upto =~= Seq::<Captured>::empty());
        assert(captured_candidates(history, tag, n) =~= upto.filter(keep).map_values(show));
    } else {
        captured_are_a_filter(history, tag, n - 1);
        assert(upto.drop_last() =~= history.take(n - 1));
        assert(upto.last() == history[n - 1]);
        let earlier = history.take(n - 1).filter(keep);
        assert(captured_candidates(history, tag, n) =~= upto.filter(keep).map_values(show));
    }
}

proof fn snippets_are_a_filter(items: Seq<ItemView>, n: int)
    requires
        0 <= n <= items.len(),
    ensures
        snippet_candidates(items, n) == items.take(n).filter(
            |i: ItemView| i.kind == ItemKind::Plain,
        ).map_values(
            |i: ItemView|
                CandidateView {
                    title: i.title,
                    preview: collapsed_newlines(i.body_plain),
                    tag: Seq::empty(),
                    text: i.body_plain,
                },
        ),
    decreases n,
{
    reveal(Seq::filter);
    let keep = |i: ItemView| i.kind == ItemKind::Plain;
    let show = |i: ItemView|
        CandidateView {
            title: i.title,
            preview: collapsed_newlines(i.body_plain),
            tag: Seq::empty(),
            text: i.body_plain,
        };
    let upto = items.take(n);
    if n == 0 {
        assert(upto =~= Seq::<ItemView>::empty());
        assert(snippet_candidates(items, n) =~= upto.filter(keep).map_values(show));
    } else {
        snippets_are_a_filter(items, n - 1);
        assert(upto.drop_last() =~= items.take(n - 1));
        assert(upto.last() == items[n - 1]);
        assert(snippet_candidates(items, n) =~= upto.filter(keep).map_values(show));
    }
}

/// Law: without a filter the dialog lists every captured text that has something in it, and
/// behind them every stored item that is a plain snippet, each once and in the order given,
/// wherever it stands. A captured text is its own title; a snippet has its title, its body on
/// one line as preview and its whole body as text.
pub proof fn everything_is_offered(
    history: Seq<Captured>,
    items: Seq<ItemView>,
    tag: Seq<char>,
    filter: Seq<char>,
)
    requires
        lowercase_of(trimmed(filter)).len() == 0,
    ensures
        listed(all_candidates(history, items, tag), filter) == all_candidates(history, items, tag),
        all_candidates(history, items, tag) == history.filter(
            |e: Captured| e.0.len() > 0,
        ).map_values(
            |e: Captured|
                CandidateView {
                    title: collapsed_newlines(e.0),
                    preview: Seq::empty(),
                    tag,
                    text: e.0,
                },
        ) + items.filter(|i: ItemView| i.kind == ItemKind::Plain).map_values(
            |i: ItemView|
                CandidateView {
                    title: i.title,
                    preview: collapsed_newlines(i.body_plain),
                    tag: Seq::empty(),
                    text: i.body_plain,
                },
        ),
{
    every_candidate(history, items, tag);
}

proof fn every_candidate(history: Seq<Captured>, items: Seq<ItemView>, tag: Seq<char>)
    ensures
        all_candidates(history, items, tag) == history.filter(
            |e: Captured| e.0.len() > 0,
        ).map_values(
            |e: Captured|
                CandidateView {
                    title: collapsed_newlines(e.0),
                    preview: Seq::empty(),
                    tag,
                    text: e.0,
                },
        ) + items.filter(|i: ItemView| i.kind == ItemKind::Plain).map_values(
            |i: ItemView|
                CandidateView {
                    title: i.title,
                    preview: collapsed_newlines(i.body_plain),
                    tag: Seq::empty(),
                    text: i.body_plain,
                },
        ),
{
    captured_are_a_filter(history, tag, history.len() as int);
    snippets_are_a_filter(items, items.len() as int);
    assert(history.take(history.len() as int) =~= history);
    assert(items.take(items.len() as int) =~= items);
}

/// Law: a stored item that is a plain snippet is offered for its whole body, and nothing else
/// that is stored is: as many candidates come of the items as there are plain ones.
pub proof fn a_plain_snippet_is_offered(
    history: Seq<Captured>,
    items: Seq<ItemView>,
    tag: Seq<char>,
    k: int,
)
    requires
        0 <= k < items.len(),
        items[k].kind == ItemKind::Plain,
    ensures
        exists|c: CandidateView| #[trigger]
            all_candidates(history, items, tag).contains(c) && c.title == items[k].title && c.text
                == items[k].body_plain && c.tag.len() == 0,
        all_candidates(history, items, tag).len() == history.filter(
            |e: Captured| e.0.len() > 0,
        ).len() + items.filter(|i: ItemView| i.kind == ItemKind::Plain).len(),
{
    every_candidate(history, items, tag);
    let keep = |i: ItemView| i.kind == ItemKind::Plain;
    broadcast use vstd::seq_lib::group_filter_ensures;

    let plain = items.filter(keep);
    assert(plain.contains(items[k]));
    let p = choose|p: int| 0 <= p < plain.len() && plain[p] == items[k];
    let before = history.filter(|e: Captured| e.0.len() > 0).len();
    let all = all_candidates(history, items, tag);
    assert(all[before + p].title == items[k].title);
    assert(all.contains(all[before + p]));
}

/// Law: with a filter the dialog lists the candidates whose title or text holds what was typed,
/// all of them, in their order. Blanks around it and the case of letters do not matter.
pub proof fn a_filter_leaves_the_matches(all: Seq<CandidateView>, filter: Seq<char>)
    requires
        lowercase_of(trimmed(filter)).len() > 0,
    ensures
        listed(all, filter) == all.filter(
            |c: CandidateView|
                occurs_in(lowercase_of(trimmed(filter)), lowercase_of(c.title)) || occurs_in(
                    lowercase_of(trimmed(filter)),
                    lowercase_of(c.text),
                ),
        ),
{
    let needle = lowercase_of(trimmed(filter));
    let n = all.len() as int;
    filter_keeps_the_matches(all, needle, n);
    assert(all.take(n) =~= all);
    let a = |c: CandidateView| is_match(c, needle);
    let b = |c: CandidateView|
        occurs_in(lowercase_of(trimmed(filter)), lowercase_of(c.title)) || occurs_in(
            lowercase_of(trimmed(filter)),
            lowercase_of(c.text),
        );
    assert(matches_of(all, needle, n) == all.filter(a));
    assert(a =~= b);
}

} // verus!
