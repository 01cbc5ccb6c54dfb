//! What the clipboard history is for: the texts that were copied last, newest first, each
//! once, as many as are wanted.
use crate::clipboard_history::{
    first_of, history_after, is_recorded, others_than, recorded, Captured, HistoryStep,
};
use crate::item::Timestamp;
use vstd::prelude::*;

verus! {

proof fn others_are_a_filter(entries: Seq<Captured>, text: Seq<char>, n: int)
    requires
        0 <= n <= entries.len(),
    ensures
        others_than(entries, text, n) == entries.take(n).filter(|e: Captured| e.0 != text),
    decreases n,
{
    reveal(Seq::filter);
    if n == 0 {
        assert(entries.take(0) =~= Seq::<Captured>::empty());
    } else {
        others_are_a_filter(entries, text, n - 1);
        let upto = entries.take(n);
        assert(upto.drop_last() =~= entries.take(n - 1));
        assert(upto.last() == entries[n - 1]);
    }
}

/// Law: recording a text puts it in front of the entries of other texts, which stay as they
/// are and in their order. Nothing else is lost but what is beyond the bound, at the end.
pub proof fn recording_keeps_the_others(
    entries: Seq<Captured>,
    max_items: nat,
    text: Seq<char>,
    now: Timestamp,
)
    ensures
        ({
            let others = entries.filter(|e: Captured| e.0 != text);
            let after = recorded(entries, max_items, text, now);
            &&& after.len() == (if others.len() + 1 <= max_items {
                others.len() + 1
            } else {
                max_items
            })
            &&& max_items > 0 ==> after[0] == (text, now)
            &&& forall|i: int| 1 <= i < after.len() ==> (#[trigger] after[i]) == others[i - 1]
        }),
{
    others_are_a_filter(entries, text, entries.len() as int);
    assert(entries.take(entries.len() as int) =~= entries);
}

/// Law: an entry of another text is still there after a recording, one place further back
/// if the text was not there before, as long as the bound leaves room for it.
pub proof fn a_new_text_moves_the_others_back(
    entries: Seq<Captured>,
    max_items: nat,
    text: Seq<char>,
    now: Timestamp,
    i: int,
)
    requires
        0 <= i < entries.len(),
        i + 1 < max_items,
        forall|k: int| 0 <= k < entries.len() ==> (#[trigger] entries[k]).0 != text,
    ensures
        i + 1 < recorded(entries, max_items, text, now).len(),
        recorded(entries, max_items, text, now)[i + 1] == entries[i],
{
    recording_keeps_the_others(entries, max_items, text, now);
    all_are_others(entries, text);
    let after = recorded(entries, max_items, text, now);
    assert(after[i + 1] == entries.filter(|e: Captured| e.0 != text)[i]);
}

proof fn all_are_others(entries: Seq<Captured>, text: Seq<char>)
    requires
        forall|k: int| 0 <= k < entries.len() ==> (#[trigger] entries[k]).0 != text,
    ensures
        entries.filter(|e: Captured| e.0 != text) == entries,
    decreases entries.len(),
{
    reveal(Seq::filter);
    if entries.len() > 0 {
        all_are_others(entries.drop_last(), text);
        assert(entries.drop_last().push(entries.last()) =~= entries);
    } else {
        assert(entries =~= Seq::<Captured>::empty());
    }
}

/// Law: a copy is recorded exactly if capture is on, there is something in it, and it is not
/// what was recorded last.
pub proof fn what_is_recorded(entries: Seq<Captured>, enabled: bool, text: Seq<char>)
    ensures
        is_recorded(entries, enabled, text) <==> enabled && text.len() > 0 && (entries.len() == 0
            || entries[0].0 != text),
{
}

/// Law: a smaller bound takes entries off the end only.
pub proof fn a_bound_cuts_the_end(entries: Seq<Captured>, max: nat)
    ensures
        first_of(entries, max).len() == (if entries.len() <= max {
            entries.len()
        } else {
            max
        }),
        forall|i: int|
            0 <= i < first_of(entries, max).len() ==> (#[trigger] first_of(entries, max)[i])
                == entries[i],
{
}

/// Law: as many different texts as the bound allows, copied one after the other into a fresh
/// history, are all there, newest first.
pub proof fn different_copies_are_all_there(
    bound: usize,
    texts: Seq<Seq<char>>,
    times: Seq<Timestamp>,
    n: int,
)
    requires
        0 <= n <= texts.len() == times.len(),
        n <= bound,
        forall|i: int| 0 <= i < texts.len() ==> (#[trigger] texts[i]).len() > 0,
        forall|i: int, j: int|
            0 <= i < j < texts.len() ==> (#[trigger] texts[i]) != (#[trigger] texts[j]),
    ensures
        ({
            let steps = Seq::new(
                n as nat,
                |i: int| HistoryStep::Copied(texts[i], times[i]),
            );
            history_after(bound, true, steps).captured == Seq::new(
                n as nat,
                |i: int| (texts[n - 1 - i], times[n - 1 - i]),
            )
        }),
        ({
            let steps = Seq::new(
                n as nat,
                |i: int| HistoryStep::Copied(texts[i], times[i]),
            );
            history_after(bound, true, steps).bound == bound && history_after(
                bound,
                true,
                steps,
            ).enabled
        }),
    decreases n,
{
    let steps = Seq::new(n as nat, |i: int| HistoryStep::Copied(texts[i], times[i]));
    let s = history_after(bound, true, steps);
    if n == 0 {
        assert(s.captured =~= Seq::new(0nat, |i: int| (texts[n - 1 - i], times[n - 1 - i])));
    } else {
        different_copies_are_all_there(bound, texts, times, n - 1);
        let m = n - 1;
        let head = Seq::new(m as nat, |i: int| HistoryStep::Copied(texts[i], times[i]));
        assert(steps.drop_last() =~= head);
        let before = history_after(bound, true, head);
        let text = texts[m];
        let now = times[m];
        assert forall|k: int| 0 <= k < before.captured.len() implies (
        #[trigger] before.captured[k]).0 != text by {
            assert(before.captured[k].0 == texts[m - 1 - k]);
        }
        all_are_others(before.captured, text);
        recording_keeps_the_others(before.captured, bound as nat, text, now);
        assert(steps.last() == HistoryStep::Copied(text, now));
        let after = recorded(before.captured, bound as nat, text, now);
        assert(s.captured == after);
        assert forall|i: int| 0 <= i < n implies after[i] == (
            texts[n - 1 - i],
            times[n - 1 - i],
        ) by {
            if i > 0 {
                assert(after[i] == before.captured[i - 1]);
            }
        }
        assert(after =~= Seq::new(n as nat, |i: int| (texts[n - 1 - i], times[n - 1 - i])));
    }
}

} // verus!
