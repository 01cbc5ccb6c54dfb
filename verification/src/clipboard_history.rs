//! Recent clipboard texts, newest first, each at most once, and no more than a set number.
use crate::clipboard::ClipboardPayload;
use crate::item::{told_by_the_clock, Timestamp};
use crate::text::same_text;
use vstd::prelude::*;

verus! {

/// One captured text.
#[derive(Debug)]
pub struct HistoryEntry {
    pub text: String,
    /// When it was copied.
    pub timestamp: Timestamp,
}

impl Clone for HistoryEntry {
    fn clone(&self) -> (r: Self)
        ensures
            r@ == self@,
    {
        HistoryEntry { text: self.text.clone(), timestamp: self.timestamp }
    }
}

impl View for HistoryEntry {
    type V = (Seq<char>, Timestamp);

    open spec fn view(&self) -> (Seq<char>, Timestamp) {
        (self.text@, self.timestamp)
    }
}

/// The text and the time of an entry.
pub type Captured = (Seq<char>, Timestamp);

/// The values of a list of entries.
pub open spec fn entry_views(entries: Seq<HistoryEntry>) -> Seq<Captured> {
    entries.map_values(|e: HistoryEntry| e@)
}

/// The first `n` entries without those of this text.
pub open spec fn others_than(entries: Seq<Captured>, text: Seq<char>, n: int) -> Seq<Captured>
    decreases n,
{
    if n <= 0 {
        Seq::empty()
    } else if entries[n - 1].0 != text {
        others_than(entries, text, n - 1).push(entries[n - 1])
    } else {
        others_than(entries, text, n - 1)
    }
}

/// The first `max` entries.
pub open spec fn first_of(entries: Seq<Captured>, max: nat) -> Seq<Captured> {
    if entries.len() > max {
        entries.take(max as int)
    } else {
        entries
    }
}

/// Is a copy of `text` recorded? Not while capture is off, not if it is empty, and not if it
/// is the newest entry already.
pub open spec fn is_recorded(entries: Seq<Captured>, enabled: bool, text: Seq<char>) -> bool {
    enabled && text.len() > 0 && !(entries.len() > 0 && entries[0].0 == text)
}

/// The entries after a copy of `text` was recorded: it is the newest, an older entry of the
/// same text is gone, and what is too much falls off the end.
pub open spec fn recorded(
    entries: Seq<Captured>,
    max_items: nat,
    text: Seq<char>,
    now: Timestamp,
) -> Seq<Captured> {
    first_of(seq![(text, now)] + others_than(entries, text, entries.len() as int), max_items)
}

/// No text occurs twice.
pub open spec fn texts_differ(entries: Seq<Captured>) -> bool {
    forall|i: int, j: int|
        0 <= i < entries.len() && 0 <= j < entries.len() && i != j ==> (#[trigger] entries[i]).0
            != (#[trigger] entries[j]).0
}

/// Every text has something in it.
pub open spec fn none_empty(entries: Seq<Captured>) -> bool {
    forall|i: int| 0 <= i < entries.len() ==> (#[trigger] entries[i]).0.len() > 0
}

proof fn others_than_keeps(entries: Seq<Captured>, text: Seq<char>, n: int)
    requires
        0 <= n <= entries.len(),
        texts_differ(entries),
    ensures
        others_than(entries, text, n).len() <= n,
        texts_differ(others_than(entries, text, n)),
        forall|k: int|
            0 <= k < others_than(entries, text, n).len() ==> (#[trigger] others_than(
                entries,
                text,
                n,
            )[k]).0 != text && entries.take(n).contains(others_than(entries, text, n)[k]),
    decreases n,
{
    if n > 0 {
        others_than_keeps(entries, text, n - 1);
        let head = others_than(entries, text, n - 1);
        let list = others_than(entries, text, n);
        let s = entries.take(n - 1);
        let t = entries.take(n);
        assert forall|k: int| 0 <= k < list.len() implies (#[trigger] list[k]).0 != text
            && t.contains(list[k]) by {
            if k < head.len() {
                assert(list[k] == head[k]);
                let m = choose|m: int| 0 <= m < s.len() && s[m] == head[k];
                assert(t[m] == list[k]);
            } else {
                assert(t[n - 1] == list[k]);
            }
        }
        assert forall|i: int, j: int|
            0 <= i < list.len() && 0 <= j < list.len() && i != j implies (#[trigger] list[i]).0
            != (#[trigger] list[j]).0 by {
            if i < head.len() && j < head.len() {
                assert(list[i] == head[i] && list[j] == head[j]);
            } else if i < head.len() {
                assert(list[i] == head[i]);
                let m = choose|m: int| 0 <= m < s.len() && s[m] == head[i];
                assert(entries[m].0 != entries[n - 1].0);
            } else {
                assert(list[j] == head[j]);
                let m = choose|m: int| 0 <= m < s.len() && s[m] == head[j];
                assert(entries[m].0 != entries[n - 1].0);
            }
        }
    }
}

/// Recording keeps the list within its bound, with every text at most once and the new text
/// first (if there is room for any).
pub proof fn recording_keeps_order(
    entries: Seq<Captured>,
    max_items: nat,
    text: Seq<char>,
    now: Timestamp,
)
    requires
        texts_differ(entries),
    ensures
        recorded(entries, max_items, text, now).len() <= max_items,
        texts_differ(recorded(entries, max_items, text, now)),
        max_items > 0 ==> recorded(entries, max_items, text, now)[0] == (text, now),
        recorded(entries, max_items, text, now).len() <= entries.len() + 1,
{
    let rest = others_than(entries, text, entries.len() as int);
    others_than_keeps(entries, text, entries.len() as int);
    let all = seq![(text, now)] + rest;
    assert forall|i: int, j: int|
        0 <= i < all.len() && 0 <= j < all.len() && i != j implies (#[trigger] all[i]).0 != (
    #[trigger] all[j]).0 by {
        if i == 0 {
            assert(all[j] == rest[j - 1]);
        } else if j == 0 {
            assert(all[i] == rest[i - 1]);
        } else {
            assert(all[i] == rest[i - 1] && all[j] == rest[j - 1]);
        }
    }
}

/// Recording a text that has something in it brings no empty one in.
proof fn recording_brings_no_empty_text(
    entries: Seq<Captured>,
    max_items: nat,
    text: Seq<char>,
    now: Timestamp,
)
    requires
        texts_differ(entries),
        none_empty(entries),
        text.len() > 0,
    ensures
        none_empty(recorded(entries, max_items, text, now)),
{
    let n = entries.len() as int;
    let rest = others_than(entries, text, n);
    others_than_keeps(entries, text, n);
    let all = seq![(text, now)] + rest;
    assert forall|i: int| 0 <= i < all.len() implies (#[trigger] all[i]).0.len() > 0 by {
        if i > 0 {
            assert(all[i] == rest[i - 1]);
            let m = choose|m: int| 0 <= m < n && entries.take(n)[m] == rest[i - 1];
            assert(entries[m] == rest[i - 1]);
        }
    }
}

/// Copying X, then Y, then X again leaves X before Y, with X there once.
pub proof fn copying_again_promotes(
    entries: Seq<Captured>,
    max_items: nat,
    x: Seq<char>,
    y: Seq<char>,
    t1: Timestamp,
    t2: Timestamp,
    t3: Timestamp,
)
    requires
        texts_differ(entries),
        max_items >= 2,
        x != y,
    ensures
        ({
            let after = recorded(
                recorded(recorded(entries, max_items, x, t1), max_items, y, t2),
                max_items,
                x,
                t3,
            );
            &&& after.len() >= 2
            &&& after[0] == (x, t3)
            &&& after[1] == (y, t2)
            &&& forall|i: int| 1 <= i < after.len() ==> (#[trigger] after[i]).0 != x
        }),
{
    let e1 = recorded(entries, max_items, x, t1);
    recording_keeps_order(entries, max_items, x, t1);
    let e2 = recorded(e1, max_items, y, t2);
    recording_keeps_order(e1, max_items, y, t2);
    let e3 = recorded(e2, max_items, x, t3);
    recording_keeps_order(e2, max_items, x, t3);
    others_than_first(e2, x, e2.len() as int);
    let rest = others_than(e2, x, e2.len() as int);
    let all = seq![(x, t3)] + rest;
    assert(all[1] == rest[0]);
    assert(e3[1] == all[1]);
    assert(e3[0] == all[0]);
    assert forall|i: int| 1 <= i < e3.len() implies (#[trigger] e3[i]).0 != x by {
        assert(e3[0].0 != e3[i].0);
    }
}

proof fn others_than_first(entries: Seq<Captured>, text: Seq<char>, n: int)
    requires
        1 <= n <= entries.len(),
        entries[0].0 != text,
    ensures
        others_than(entries, text, n).len() >= 1,
        others_than(entries, text, n)[0] == entries[0],
    decreases n,
{
    reveal_with_fuel(others_than, 2);
    if n > 1 {
        others_than_first(entries, text, n - 1);
    }
}

/// Bounded clipboard history, newest first.
#[derive(Debug)]
pub struct ClipboardHistory {
    entries: Vec<HistoryEntry>,
    max_items: usize,
    enabled: bool,
}

impl ClipboardHistory {
    /// The entries, newest first.
    pub closed spec fn captured(&self) -> Seq<Captured> {
        entry_views(self.entries@)
    }

    pub closed spec fn bound(&self) -> usize {
        self.max_items
    }

    pub closed spec fn is_enabled(&self) -> bool {
        self.enabled
    }

    /// No more entries than the bound, no text twice, and none empty.
    pub open spec fn wf(&self) -> bool {
        &&& self.captured().len() <= self.bound()
        &&& texts_differ(self.captured())
        &&& none_empty(self.captured())
    }

    /// An empty history. A bound of 0 keeps nothing.
    pub fn new(max_items: usize, enabled: bool) -> (r: Self)
        ensures
            r.wf(),
            r.captured() == Seq::<Captured>::empty(),
            r.bound() == max_items,
            r.is_enabled() == enabled,
    {
        let r = ClipboardHistory { entries: Vec::new(), max_items, enabled };
        assert(r.captured() =~= Seq::<Captured>::empty());
        r
    }

    /// Takes in a change of the clipboard at the moment `now`; says whether it was recorded.
    pub fn on_clipboard_changed_at(&mut self, payload: ClipboardPayload, now: Timestamp) -> (r: bool)
        requires
            old(self).wf(),
        ensures
            final(self).wf(),
            final(self).bound() == old(self).bound(),
            final(self).is_enabled() == old(self).is_enabled(),
            r == is_recorded(old(self).captured(), old(self).is_enabled(), payload.text@),
            final(self).captured() == (if r {
                recorded(old(self).captured(), old(self).bound() as nat, payload.text@, now)
            } else {
                old(self).captured()
            }),
    {
        let ghost before = self.captured();
        if !self.enabled {
            return false;
        }
        if payload.text.as_str().is_empty() {
            return false;
        }
        if self.entries.len() > 0 {
            assert(before[0] == self.entries@[0]@);
            if same_text(self.entries[0].text.as_str(), payload.text.as_str()) {
                return false;
            }
        }
        let text = payload.text;
        let mut kept: Vec<HistoryEntry> = Vec::new();
        kept.push(HistoryEntry { text: text.clone(), timestamp: now });
        assert(entry_views(kept@) =~= seq![(text@, now)] + others_than(before, text@, 0));
        let mut i: usize = 0;
        while i < self.entries.len()
            invariant
                i <= self.entries@.len(),
                before == entry_views(self.entries@),
                entry_views(kept@) == seq![(text@, now)] + others_than(before, text@, i as int),
            decreases self.entries@.len() - i,
        {
            let ghost kept_before = kept@;
            assert(before[i as int] == self.entries@[i as int]@);
            if !same_text(self.entries[i].text.as_str(), text.as_str()) {
                let copy = self.entries[i].clone();
                kept.push(copy);
                assert(entry_views(kept@) =~= entry_views(kept_before).push(copy@));
                assert(entry_views(kept@) =~= seq![(text@, now)] + others_than(
                    before,
                    text@,
                    i + 1,
                ));
            }
            i = i + 1;
        }
        let ghost all = entry_views(kept@);
        if kept.len() > self.max_items {
            kept.truncate(self.max_items);
            assert(entry_views(kept@) =~= all.take(self.max_items as int));
        }
        self.entries = kept;
        proof {
            recording_keeps_order(before, self.max_items as nat, text@, now);
            recording_brings_no_empty_text(before, self.max_items as nat, text@, now);
        }
        true
    }

    /// Takes in a change of the clipboard at the moment that the clock gives; see
    /// [`Self::on_clipboard_changed_at`].
    pub fn on_clipboard_changed(&mut self, payload: ClipboardPayload) -> (r: bool)
        requires
            old(self).wf(),
        ensures
            final(self).wf(),
            final(self).bound() == old(self).bound(),
            final(self).is_enabled() == old(self).is_enabled(),
            r == is_recorded(old(self).captured(), old(self).is_enabled(), payload.text@),
            !r ==> final(self).captured() == old(self).captured(),
            r ==> exists|now: Timestamp|
                told_by_the_clock(now) && #[trigger] recorded(
                    old(self).captured(),
                    old(self).bound() as nat,
                    payload.text@,
                    now,
                ) == final(self).captured(),
    {
        let now = Timestamp::now();
        self.on_clipboard_changed_at(payload, now)
    }

    /// The entries, newest first.
    pub fn entries(&self) -> (r: Vec<HistoryEntry>)
        ensures
            entry_views(r@) == self.captured(),
    {
        let mut out: Vec<HistoryEntry> = Vec::new();
        let mut i: usize = 0;
        while i < self.entries.len()
            invariant
                i <= self.entries@.len(),
                entry_views(out@) == entry_views(self.entries@).take(i as int),
            decreases self.entries@.len() - i,
        {
            let copy = self.entries[i].clone();
            let ghost before = out@;
            out.push(copy);
            assert(entry_views(out@) =~= entry_views(before).push(copy@));
            assert(copy@ == entry_views(self.entries@)[i as int]);
            i = i + 1;
            assert(entry_views(out@) =~= entry_views(self.entries@).take(i as int));
        }
        assert(entry_views(out@) =~= entry_views(self.entries@));
        out
    }

    /// Turns capture on or off. What was captured stays.
    pub fn set_enabled(&mut self, enabled: bool)
        requires
            old(self).wf(),
        ensures
            final(self).wf(),
            final(self).captured() == old(self).captured(),
            final(self).bound() == old(self).bound(),
            final(self).is_enabled() == enabled,
    {
        self.enabled = enabled;
    }

    pub fn enabled(&self) -> (r: bool)
        ensures
            r == self.is_enabled(),
    {
        self.enabled
    }

    /// Sets the bound. The oldest entries go if there are too many for it.
    pub fn set_max_items(&mut self, max_items: usize)
        requires
            old(self).wf(),
        ensures
            final(self).wf(),
            final(self).bound() == max_items,
            final(self).is_enabled() == old(self).is_enabled(),
            final(self).captured() == first_of(old(self).captured(), max_items as nat),
    {
        let ghost before = self.entries@;
        self.max_items = max_items;
        if self.entries.len() > max_items {
            self.entries.truncate(max_items);
            assert(self.captured() =~= entry_views(before).take(max_items as int));
        }
    }

    /// How many entries are kept at most.
    pub fn max_items(&self) -> (r: usize)
        ensures
            r == self.bound(),
    {
        self.max_items
    }
}

impl Default for ClipboardHistory {
    /// The bound and the state that the settings have by default.
    fn default() -> (r: Self)
        ensures
            r.wf(),
            r.captured() == Seq::<Captured>::empty(),
            r.bound() == 10,
            r.is_enabled(),
    {
        ClipboardHistory::new(10, true)
    }
}

// ---- any number of calls ------------------------------------------------

/// One call on a history.
pub enum HistoryStep {
    /// A text was copied at this moment.
    Copied(Seq<char>, Timestamp),
    /// Capture was turned on or off.
    Enabled(bool),
    /// The bound was set.
    Bound(usize),
}

/// What a history comes to by some calls.
pub struct HistoryState {
    pub captured: Seq<Captured>,
    pub bound: usize,
    pub enabled: bool,
}

/// The state of a fresh history after some calls.
pub open spec fn history_after(bound: usize, enabled: bool, steps: Seq<HistoryStep>) -> HistoryState
    decreases steps.len(),
{
    if steps.len() == 0 {
        HistoryState { captured: Seq::empty(), bound, enabled }
    } else {
        let s = history_after(bound, enabled, steps.drop_last());
        match steps.last() {
            HistoryStep::Copied(text, now) => if is_recorded(s.captured, s.enabled, text) {
                HistoryState { captured: recorded(s.captured, s.bound as nat, text, now), ..s }
            } else {
                s
            },
            HistoryStep::Enabled(on) => HistoryState { enabled: on, ..s },
            HistoryStep::Bound(max) => HistoryState {
                captured: first_of(s.captured, max as nat),
                bound: max,
                ..s
            },
        }
    }
}

/// Entry `i` is what was copied in call `origin[i]`, and an entry further back is from an
/// earlier call.
pub open spec fn newest_first(
    entries: Seq<Captured>,
    steps: Seq<HistoryStep>,
    origin: Seq<int>,
) -> bool {
    &&& origin.len() == entries.len()
    &&& forall|i: int|
        0 <= i < entries.len() ==> 0 <= #[trigger] origin[i] < steps.len() && steps[origin[i]]
            == HistoryStep::Copied(entries[i].0, entries[i].1)
    &&& forall|i: int, j: int|
        0 <= i < j < entries.len() ==> #[trigger] origin[i] > #[trigger] origin[j]
}

/// Leaving out a text leaves the others in order.
proof fn others_stay_in_order(
    entries: Seq<Captured>,
    text: Seq<char>,
    n: int,
    steps: Seq<HistoryStep>,
    origin: Seq<int>,
) -> (left: Seq<int>)
    requires
        0 <= n <= entries.len(),
        newest_first(entries, steps, origin),
    ensures
        newest_first(others_than(entries, text, n), steps, left),
        forall|k: int, m: int|
            0 <= k < left.len() && n <= m < origin.len() ==> #[trigger] left[k]
                > #[trigger] origin[m],
    decreases n,
{
    if n == 0 {
        Seq::empty()
    } else {
        let head = others_stay_in_order(entries, text, n - 1, steps, origin);
        if entries[n - 1].0 != text {
            let left = head.push(origin[n - 1]);
            let list = others_than(entries, text, n);
            let before = others_than(entries, text, n - 1);
            assert forall|i: int| 0 <= i < list.len() implies 0 <= #[trigger] left[i] < steps.len()
                && steps[left[i]] == HistoryStep::Copied(list[i].0, list[i].1) by {
                if i < before.len() {
                    assert(left[i] == head[i] && list[i] == before[i]);
                } else {
                    assert(left[i] == origin[n - 1]);
                }
            }
            assert forall|k: int, m: int|
                0 <= k < left.len() && n <= m < origin.len() implies #[trigger] left[k]
                > #[trigger] origin[m] by {
                if k < head.len() {
                    assert(left[k] == head[k]);
                }
            }
            left
        } else {
            head
        }
    }
}

/// More calls behind the others do not matter to where the entries are from.
proof fn order_survives_more_calls(
    entries: Seq<Captured>,
    steps: Seq<HistoryStep>,
    origin: Seq<int>,
)
    requires
        steps.len() > 0,
        newest_first(entries, steps.drop_last(), origin),
    ensures
        newest_first(entries, steps, origin),
{
    assert forall|i: int| 0 <= i < entries.len() implies 0 <= #[trigger] origin[i] < steps.len()
        && steps[origin[i]] == HistoryStep::Copied(entries[i].0, entries[i].1) by {
        assert(steps.drop_last()[origin[i]] == steps[origin[i]]);
    }
}

proof fn start_stays_in_order(
    entries: Seq<Captured>,
    max: nat,
    steps: Seq<HistoryStep>,
    origin: Seq<int>,
) -> (left: Seq<int>)
    requires
        newest_first(entries, steps, origin),
    ensures
        newest_first(first_of(entries, max), steps, left),
{
    if entries.len() > max {
        let left = origin.take(max as int);
        let list = first_of(entries, max);
        assert forall|i: int| 0 <= i < list.len() implies 0 <= #[trigger] left[i] < steps.len()
            && steps[left[i]] == HistoryStep::Copied(list[i].0, list[i].1) by {
            assert(left[i] == origin[i]);
        }
        left
    } else {
        origin
    }
}

/// Law: whatever is called on a fresh history, it holds no more entries than its bound, no
/// text twice and no empty one, and the newest capture comes first.
pub proof fn history_stays_in_order(bound: usize, enabled: bool, steps: Seq<HistoryStep>)
    ensures
        ({
            let s = history_after(bound, enabled, steps);
            &&& s.captured.len() <= s.bound
            &&& texts_differ(s.captured)
            &&& none_empty(s.captured)
            &&& exists|origin: Seq<int>| #[trigger] newest_first(s.captured, steps, origin)
        }),
    decreases steps.len(),
{
    let s = history_after(bound, enabled, steps);
    if steps.len() == 0 {
        assert(newest_first(s.captured, steps, Seq::<int>::empty()));
    } else {
        let before = history_after(bound, enabled, steps.drop_last());
        history_stays_in_order(bound, enabled, steps.drop_last());
        let origin = choose|origin: Seq<int>| #[trigger]
            newest_first(before.captured, steps.drop_last(), origin);
        order_survives_more_calls(before.captured, steps, origin);
        match steps.last() {
            HistoryStep::Copied(text, now) => {
                if is_recorded(before.captured, before.enabled, text) {
                    let max = before.bound as nat;
                    recording_keeps_order(before.captured, max, text, now);
                    recording_brings_no_empty_text(before.captured, max, text, now);
                    let n = before.captured.len() as int;
                    let head = others_stay_in_order(
                        before.captured,
                        text,
                        n,
                        steps.drop_last(),
                        origin,
                    );
                    let rest = others_than(before.captured, text, n);
                    let all = seq![(text, now)] + rest;
                    let whole = seq![steps.len() - 1] + head;
                    assert forall|i: int| 0 <= i < all.len() implies 0 <= #[trigger] whole[i]
                        < steps.len() && steps[whole[i]] == HistoryStep::Copied(
                        all[i].0,
                        all[i].1,
                    ) by {
                        if i > 0 {
                            assert(whole[i] == head[i - 1] && all[i] == rest[i - 1]);
                            assert(steps.drop_last()[head[i - 1]] == steps[head[i - 1]]);
                        }
                    }
                    assert forall|i: int, j: int| 0 <= i < j < all.len() implies #[trigger] whole[i]
                        > #[trigger] whole[j] by {
                        assert(whole[j] == head[j - 1]);
                        if i > 0 {
                            assert(whole[i] == head[i - 1]);
                        }
                    }
                    assert(newest_first(all, steps, whole));
                    let left = start_stays_in_order(all, max, steps, whole);
                    assert(newest_first(s.captured, steps, left));
                } else {
                    assert(newest_first(s.captured, steps, origin));
                }
            },
            HistoryStep::Enabled(_) => {
                assert(newest_first(s.captured, steps, origin));
            },
            HistoryStep::Bound(max) => {
                let left = start_stays_in_order(before.captured, max as nat, steps, origin);
                assert(newest_first(s.captured, steps, left));
            },
        }
    }
}

/// Law: turning capture on or off any number of times never changes the entries.
pub proof fn switching_keeps_the_entries(
    bound: usize,
    enabled: bool,
    steps: Seq<HistoryStep>,
    switches: Seq<HistoryStep>,
)
    requires
        forall|i: int| 0 <= i < switches.len() ==> (#[trigger] switches[i]) is Enabled,
    ensures
        history_after(bound, enabled, steps + switches).captured == history_after(
            bound,
            enabled,
            steps,
        ).captured,
    decreases switches.len(),
{
    let all = steps + switches;
    if switches.len() == 0 {
        assert(all =~= steps);
    } else {
        assert(all.drop_last() =~= steps + switches.drop_last());
        assert(all.last() == switches[switches.len() - 1]);
        switching_keeps_the_entries(bound, enabled, steps, switches.drop_last());
    }
}

} // verus!
