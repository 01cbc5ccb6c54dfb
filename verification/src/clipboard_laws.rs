//! What watching the clipboard is for: each copy that another program makes is reported, once,
//! and the program's own writes are not.
use crate::clipboard::{
    after_take, announced, expiry_of, first_with, live, live_at, on_poll_state, on_selection_state,
    text_mime, Armed, FilterState,
};
use vstd::prelude::*;

verus! {

// ---- own writes ---------------------------------------------------------

proof fn live_is_a_filter(entries: Seq<Armed>, now: u64, n: int)
    requires
        0 <= n <= entries.len(),
    ensures
        live_at(entries, now, n) == entries.take(n).filter(|e: Armed| e.1 > now),
    decreases n,
{
    reveal(Seq::filter);
    if n == 0 {
        assert(entries.take(0) =~= Seq::<Armed>::empty());
    } else {
        live_is_a_filter(entries, now, n - 1);
        let upto = entries.take(n);
        assert(upto.drop_last() =~= entries.take(n - 1));
        assert(upto.last() == entries[n - 1]);
    }
}

/// Law: what is still armed at a moment is every announcement that expires later, each of
/// them, in their order. An announcement expires two seconds after it was made.
pub proof fn armed_until_the_expiry(entries: Seq<Armed>, now: u64)
    ensures
        live(entries, now) == entries.filter(|e: Armed| e.1 > now),
        expiry_of(now) == (if now + 2_000_000_000 <= 0xffff_ffff_ffff_ffff {
            now + 2_000_000_000
        } else {
            0xffff_ffff_ffff_ffff
        }),
{
    live_is_a_filter(entries, now, entries.len() as int);
    assert(entries.take(entries.len() as int) =~= entries);
}

proof fn first_with_is_at(entries: Seq<Armed>, text: Seq<char>, i: int, k: int)
    requires
        0 <= i <= k < entries.len(),
        entries[k].0 == text,
        forall|j: int| i <= j < k ==> (#[trigger] entries[j]).0 != text,
    ensures
        first_with(entries, text, i) == Some(k),
    decreases k - i,
{
    if i < k {
        first_with_is_at(entries, text, i + 1, k);
    }
}

proof fn first_with_is_none(entries: Seq<Armed>, text: Seq<char>, i: int)
    requires
        0 <= i,
        forall|j: int| 0 <= j < entries.len() ==> (#[trigger] entries[j]).0 != text,
    ensures
        first_with(entries, text, i) is None,
    decreases entries.len() - i,
{
    if i < entries.len() {
        first_with_is_none(entries, text, i + 1);
    }
}

proof fn members_of_a_filter(entries: Seq<Armed>, keep: spec_fn(Armed) -> bool)
    ensures
        forall|k: int|
            0 <= k < entries.filter(keep).len() ==> entries.contains(
                #[trigger] entries.filter(keep)[k],
            ) && keep(entries.filter(keep)[k]),
    decreases entries.len(),
{
    reveal(Seq::filter);
    if entries.len() > 0 {
        let head = entries.drop_last();
        members_of_a_filter(head, keep);
        let list = entries.filter(keep);
        assert forall|k: int| 0 <= k < list.len() implies entries.contains(#[trigger] list[k])
            && keep(list[k]) by {
            if k < head.filter(keep).len() {
                assert(list[k] == head.filter(keep)[k]);
                let m = choose|m: int| 0 <= m < head.len() && head[m] == list[k];
                assert(entries[m] == list[k]);
            } else {
                assert(entries[entries.len() - 1] == list[k]);
            }
        }
    }
}

/// Law: a change to `text` counts as announced exactly if an announcement of that text has not
/// expired. If none has, nothing but what has expired is forgotten.
pub proof fn no_armed_announcement_no_swallowing(entries: Seq<Armed>, text: Seq<char>, now: u64)
    requires
        forall|i: int|
            0 <= i < entries.len() ==> !((#[trigger] entries[i]).0 == text && entries[i].1 > now),
    ensures
        !announced(entries, text, now),
        after_take(entries, text, now) == entries.filter(|e: Armed| e.1 > now),
{
    armed_until_the_expiry(entries, now);
    let keep = |e: Armed| e.1 > now;
    members_of_a_filter(entries, keep);
    let l = live(entries, now);
    assert forall|j: int| 0 <= j < l.len() implies (#[trigger] l[j]).0 != text by {
        assert(entries.contains(l[j]) && keep(l[j]));
        let m = choose|m: int| 0 <= m < entries.len() && entries[m] == l[j];
        assert(!(entries[m].0 == text && entries[m].1 > now));
    }
    first_with_is_none(l, text, 0);
}

/// Law: an announcement that has not expired swallows the change to its text. It is used up,
/// the earliest of them if there are several, and every other one stays, but for those that
/// have expired.
pub proof fn an_armed_announcement_is_used_up(
    entries: Seq<Armed>,
    text: Seq<char>,
    now: u64,
    p: int,
)
    requires
        0 <= p < entries.len(),
        entries[p].0 == text,
        entries[p].1 > now,
        forall|i: int|
            0 <= i < p ==> !((#[trigger] entries[i]).0 == text && entries[i].1 > now),
    ensures
        announced(entries, text, now),
        after_take(entries, text, now) == entries.take(p).filter(|e: Armed| e.1 > now)
            + entries.skip(p + 1).filter(|e: Armed| e.1 > now),
{
    let keep = |e: Armed| e.1 > now;
    armed_until_the_expiry(entries, now);
    let head = entries.take(p);
    let mid = seq![entries[p]];
    let tail = entries.skip(p + 1);
    assert(entries =~= head + mid + tail);
    Seq::filter_distributes_over_add(head + mid, tail, keep);
    Seq::filter_distributes_over_add(head, mid, keep);
    reveal(Seq::filter);
    assert(mid.drop_last() =~= Seq::<Armed>::empty());
    assert(mid.filter(keep) =~= mid);
    let l = live(entries, now);
    let at = head.filter(keep).len() as int;
    assert(l == head.filter(keep) + mid + tail.filter(keep));
    members_of_a_filter(head, keep);
    assert forall|j: int| 0 <= j < at implies (#[trigger] l[j]).0 != text by {
        assert(l[j] == head.filter(keep)[j]);
        let m = choose|m: int| 0 <= m < head.len() && head[m] == l[j];
        assert(!(entries[m].0 == text && entries[m].1 > now));
    }
    assert(l[at] == entries[p]);
    first_with_is_at(l, text, 0, at);
    assert(l.remove(at) =~= head.filter(keep) + tail.filter(keep));
}

// ---- reported copies ----------------------------------------------------

/// Law: a text that is not announced and is not the one seen last is a copy by somebody else.
/// It is reported, whatever was seen before and whatever else is announced, with just that
/// text, and becomes the text seen last. A look at the clipboard reports it too, whether or
/// not a first notification is still to come.
pub proof fn a_copy_is_reported(s: FilterState, text: Seq<char>, now: u64)
    requires
        s.last_seen != Some(text),
        forall|i: int|
            0 <= i < s.armed.len() ==> !((#[trigger] s.armed[i]).0 == text && s.armed[i].1 > now),
    ensures
        !s.first ==> on_selection_state(s, Some(text), now) == (
            FilterState {
                first: false,
                last_seen: Some(text),
                armed: s.armed.filter(|e: Armed| e.1 > now),
            },
            Some(text),
        ),
        on_poll_state(s, Some(text), now) == (
            FilterState {
                first: s.first,
                last_seen: Some(text),
                armed: s.armed.filter(|e: Armed| e.1 > now),
            },
            Some(text),
        ),
{
    no_armed_announcement_no_swallowing(s.armed, text, now);
}

/// Law: a text that was seen last and is not announced is no news, and stays the text seen
/// last.
pub proof fn no_news_is_not_reported(s: FilterState, text: Seq<char>, now: u64)
    requires
        s.last_seen == Some(text),
        forall|i: int|
            0 <= i < s.armed.len() ==> !((#[trigger] s.armed[i]).0 == text && s.armed[i].1 > now),
    ensures
        !s.first ==> on_selection_state(s, Some(text), now) == (
            FilterState {
                first: false,
                last_seen: Some(text),
                armed: s.armed.filter(|e: Armed| e.1 > now),
            },
            None::<Seq<char>>,
        ),
        on_poll_state(s, Some(text), now) == (
            FilterState {
                first: s.first,
                last_seen: Some(text),
                armed: s.armed.filter(|e: Armed| e.1 > now),
            },
            None::<Seq<char>>,
        ),
{
    no_armed_announcement_no_swallowing(s.armed, text, now);
}

/// Law: an own write that was announced in time is not reported. After a notification of it
/// no text counts as seen; after a look that found it the text counts as seen. One
/// announcement of the text is used up, the earliest.
pub proof fn an_own_write_is_not_reported(s: FilterState, text: Seq<char>, now: u64, p: int)
    requires
        0 <= p < s.armed.len(),
        s.armed[p].0 == text,
        s.armed[p].1 > now,
        forall|i: int|
            0 <= i < p ==> !((#[trigger] s.armed[i]).0 == text && s.armed[i].1 > now),
    ensures
        ({
            let left = s.armed.take(p).filter(|e: Armed| e.1 > now) + s.armed.skip(
                p + 1,
            ).filter(|e: Armed| e.1 > now);
            &&& !s.first ==> on_selection_state(s, Some(text), now) == (
                FilterState { first: false, last_seen: None, armed: left },
                None::<Seq<char>>,
            )
            &&& on_poll_state(s, Some(text), now) == (
                FilterState { first: s.first, last_seen: Some(text), armed: left },
                None::<Seq<char>>,
            )
        }),
{
    an_armed_announcement_is_used_up(s.armed, text, now, p);
}

/// Law: the first notification tells what is there already. It is remembered, nothing is
/// reported and no announcement is used up. What cannot be read changes nothing after that.
pub proof fn the_start_is_not_a_copy(s: FilterState, text: Option<Seq<char>>, now: u64)
    ensures
        s.first ==> on_selection_state(s, text, now) == (
            FilterState { first: false, last_seen: text, armed: s.armed },
            None::<Seq<char>>,
        ),
        !s.first ==> on_selection_state(s, None, now) == (s, None::<Seq<char>>),
        on_poll_state(s, None, now) == (s, None::<Seq<char>>),
{
}

/// Law: of two different texts that somebody copies one after the other, neither announced,
/// both are reported, each once: the second one too, whatever the first one was.
pub proof fn two_copies_are_two_reports(
    s: FilterState,
    one: Seq<char>,
    two: Seq<char>,
    now: u64,
    later: u64,
)
    requires
        !s.first,
        s.last_seen != Some(one),
        one != two,
        s.armed.len() == 0,
    ensures
        ({
            let (after, heard) = on_selection_state(s, Some(one), now);
            let (end, heard_next) = on_selection_state(after, Some(two), later);
            &&& heard == Some(one)
            &&& heard_next == Some(two)
            &&& on_selection_state(end, Some(one), later).1 == Some(one)
            &&& on_selection_state(end, Some(two), later).1 is None
        }),
        ({
            let (after, heard) = on_poll_state(s, Some(one), now);
            let (end, heard_next) = on_poll_state(after, Some(two), later);
            &&& heard == Some(one)
            &&& heard_next == Some(two)
            &&& on_poll_state(end, Some(one), later).1 == Some(one)
            &&& on_poll_state(end, Some(two), later).1 is None
        }),
{
    reveal(Seq::filter);
    a_copy_is_reported(s, one, now);
    let (after, _) = on_selection_state(s, Some(one), now);
    a_copy_is_reported(after, two, later);
    let (end, _) = on_selection_state(after, Some(two), later);
    a_copy_is_reported(end, one, later);
    no_news_is_not_reported(end, two, later);
    let (seen, _) = on_poll_state(s, Some(one), now);
    a_copy_is_reported(seen, two, later);
    let (last, _) = on_poll_state(seen, Some(two), later);
    a_copy_is_reported(last, one, later);
    no_news_is_not_reported(last, two, later);
}

/// The text formats that are read, most preferred first.
pub proof fn text_formats_in_order()
    ensures
        text_mime(0) == "text/plain;charset=utf-8"@,
        text_mime(1) == "text/plain;charset=UTF-8"@,
        text_mime(2) == "text/plain"@,
        text_mime(3) == "UTF8_STRING"@,
{
}

} // verus!
