//! Clipboard contents, own writes that must not be reported, and the rules by which a change
//! of the clipboard becomes a reported copy.
use crate::devices::{read_view, CallLog, Clipboard, DeviceCall};
use crate::item::text_view;
use crate::take_once::{severed, severed_receiver};
use crate::text::same_text;
use std::sync::mpsc::Receiver;
use std::time::Instant;
use vstd::prelude::*;

verus! {

#[derive(Debug, PartialEq, Eq)]
pub enum ClipboardError {
    /// Nothing readable is there: the clipboard is empty, or holds no text.
    Empty,
    /// The access itself failed.
    Access(String),
}

/// One observed change.
#[derive(Debug, PartialEq, Eq)]
pub struct ClipboardPayload {
    pub text: String,
    /// Empty when unknown.
    pub source_process: String,
}

impl Clone for ClipboardPayload {
    fn clone(&self) -> (r: Self)
        ensures
            r.text@ == self.text@,
            r.source_process@ == self.source_process@,
    {
        ClipboardPayload { text: self.text.clone(), source_process: self.source_process.clone() }
    }
}

// ---- own writes ---------------------------------------------------------

/// How long an announced write stays armed, in nanoseconds.
pub const SUPPRESS_TTL_NS: u64 = 2_000_000_000;

/// `std::time::Instant`.
#[verifier::external_type_specification]
#[verifier::external_body]
pub struct ExInstant(Instant);

/// Calls `Instant::now`. Nothing is claimed of the moment it gives.
#[verifier::external_body]
fn clock_start() -> (r: Instant) {
    Instant::now()
}

/// Was `ns` read off the clock that started at `start`? It is a property of the two of which
/// nothing else is known.
pub closed spec fn read_off(start: Instant, ns: u64) -> bool {
    arbitrary::<spec_fn(Instant, u64) -> bool>()(start, ns)
}

/// Calls `Instant::elapsed`. Claimed: the time was read off this clock. Which time it is
/// depends on the clock and is not stated.
#[verifier::external_body]
fn ns_since(start: &Instant) -> (r: u64)
    ensures
        read_off(*start, r),
{
    start.elapsed().as_nanos() as u64
}

/// An announced write: its text, and the time in nanoseconds up to which it is armed.
pub type Armed = (Seq<char>, u64);

/// Texts that this process is about to write, each with its expiry. Times are nanoseconds on
/// the list's own clock.
#[derive(Debug)]
pub struct SuppressList {
    start: Instant,
    entries: Vec<(String, u64)>,
}

/// The entries that are still armed at `now`, of the first `n`.
pub open spec fn live_at(entries: Seq<Armed>, now: u64, n: int) -> Seq<Armed>
    decreases n,
{
    if n <= 0 {
        Seq::empty()
    } else if entries[n - 1].1 > now {
        live_at(entries, now, n - 1).push(entries[n - 1])
    } else {
        live_at(entries, now, n - 1)
    }
}

/// All entries that are still armed at `now`.
pub open spec fn live(entries: Seq<Armed>, now: u64) -> Seq<Armed> {
    live_at(entries, now, entries.len() as int)
}

/// When a write announced at `now` expires.
pub open spec fn expiry_of(now: u64) -> u64 {
    if now + SUPPRESS_TTL_NS > u64::MAX {
        u64::MAX
    } else {
        (now + SUPPRESS_TTL_NS) as u64
    }
}

/// The first entry with this text, from place `i` on.
pub open spec fn first_with(entries: Seq<Armed>, text: Seq<char>, i: int) -> Option<int>
    decreases entries.len() - i,
{
    if i < 0 || i >= entries.len() {
        None
    } else if entries[i].0 == text {
        Some(i)
    } else {
        first_with(entries, text, i + 1)
    }
}

/// Is a write of `text` announced and still armed?
pub open spec fn announced(entries: Seq<Armed>, text: Seq<char>, now: u64) -> bool {
    first_with(live(entries, now), text, 0) is Some
}

/// What is left after a change to `text` was seen: expired entries go, and one entry for the
/// text is used up.
pub open spec fn after_take(entries: Seq<Armed>, text: Seq<char>, now: u64) -> Seq<Armed> {
    match first_with(live(entries, now), text, 0) {
        Some(i) => live(entries, now).remove(i),
        None => live(entries, now),
    }
}

impl View for SuppressList {
    type V = Seq<Armed>;

    closed spec fn view(&self) -> Seq<Armed> {
        self.entries@.map_values(|e: (String, u64)| (e.0@, e.1))
    }
}

impl SuppressList {
    /// When the list's own clock started.
    pub closed spec fn clock(&self) -> Instant {
        self.start
    }

    pub fn new() -> (r: Self)
        ensures
            r@ == Seq::<Armed>::empty(),
    {
        let r = SuppressList { start: clock_start(), entries: Vec::new() };
        assert(r@ =~= Seq::<Armed>::empty());
        r
    }

    /// The time on the list's own clock.
    fn now(&self) -> (r: u64)
        ensures
            read_off(self.clock(), r),
    {
        ns_since(&self.start)
    }

    /// Drops what has expired.
    fn prune(&mut self, now: u64)
        ensures
            final(self)@ == live(old(self)@, now),
            final(self).clock() == old(self).clock(),
    {
        let ghost before = self@;
        let mut old_entries: Vec<(String, u64)> = Vec::new();
        std::mem::swap(&mut old_entries, &mut self.entries);
        let mut kept: Vec<(String, u64)> = Vec::new();
        let mut i: usize = 0;
        let ghost views = |v: Seq<(String, u64)>| v.map_values(|e: (String, u64)| (e.0@, e.1));
        assert(views(kept@) =~= live_at(before, now, 0));
        while i < old_entries.len()
            invariant
                i <= old_entries@.len(),
                before == old_entries@.map_values(|e: (String, u64)| (e.0@, e.1)),
                kept@.map_values(|e: (String, u64)| (e.0@, e.1)) == live_at(before, now, i as int),
            decreases old_entries@.len() - i,
        {
            let ghost kept_before = kept@;
            if old_entries[i].1 > now {
                let text = old_entries[i].0.clone();
                let expiry: u64 = old_entries[i].1;
                kept.push((text, expiry));
                assert(kept@.map_values(|e: (String, u64)| (e.0@, e.1)) =~= kept_before.map_values(
                    |e: (String, u64)| (e.0@, e.1),
                ).push((text@, expiry)));
            }
            i = i + 1;
        }
        self.entries = kept;
    }

    /// Announces a write of `text` at the time `now`.
    pub fn arm_at(&mut self, text: &str, now: u64)
        ensures
            final(self)@ == live(old(self)@, now).push((text@, expiry_of(now))),
            final(self).clock() == old(self).clock(),
    {
        self.prune(now);
        let ghost before = self@;
        let expiry: u64 = now.saturating_add(SUPPRESS_TTL_NS);
        self.entries.push((text.to_owned(), expiry));
        assert(self@ =~= before.push((text@, expiry_of(now))));
    }

    /// Announces a write of `text` now.
    pub fn arm(&mut self, text: &str)
        ensures
            exists|now: u64|
                read_off(old(self).clock(), now) && #[trigger] live(old(self)@, now).push(
                    (text@, expiry_of(now)),
                ) == final(self)@,
            final(self).clock() == old(self).clock(),
    {
        let now: u64 = self.now();
        self.arm_at(text, now)
    }

    /// Was a change to `text`, seen at the time `now`, announced? The announcement is used up.
    pub fn take_at(&mut self, text: &str, now: u64) -> (r: bool)
        ensures
            r == announced(old(self)@, text@, now),
            final(self)@ == after_take(old(self)@, text@, now),
            final(self).clock() == old(self).clock(),
    {
        self.prune(now);
        let ghost before = self@;
        let mut i: usize = 0;
        while i < self.entries.len()
            invariant
                i <= self.entries@.len(),
                self@ == before,
                self.clock() == old(self).clock(),
                before == live(old(self)@, now),
                first_with(before, text@, 0) == first_with(before, text@, i as int),
            decreases self.entries@.len() - i,
        {
            assert(before[i as int] == (self.entries@[i as int].0@, self.entries@[i as int].1));
            if same_text(self.entries[i].0.as_str(), text) {
                let _ = self.entries.remove(i);
                assert(self@ =~= before.remove(i as int));
                return true;
            }
            i = i + 1;
        }
        false
    }

    /// Was a change to `text`, seen now, announced? The announcement is used up.
    pub fn take(&mut self, text: &str) -> (r: bool)
        ensures
            exists|now: u64|
                read_off(old(self).clock(), now) && r == #[trigger] announced(
                    old(self)@,
                    text@,
                    now,
                ) && final(self)@ == after_take(old(self)@, text@, now),
            final(self).clock() == old(self).clock(),
    {
        let now: u64 = self.now();
        self.take_at(text, now)
    }

    /// How many announcements are armed at the time `now`. Expired ones are dropped.
    pub fn armed_count_at(&mut self, now: u64) -> (r: usize)
        ensures
            final(self)@ == live(old(self)@, now),
            r == final(self)@.len(),
            final(self).clock() == old(self).clock(),
    {
        self.prune(now);
        self.entries.len()
    }

    /// How many announcements are armed now. Expired ones are dropped.
    pub fn armed_count(&mut self) -> (r: usize)
        ensures
            exists|now: u64|
                read_off(old(self).clock(), now) && final(self)@ == #[trigger] live(
                    old(self)@,
                    now,
                ),
            r == final(self)@.len(),
            final(self).clock() == old(self).clock(),
    {
        let now: u64 = self.now();
        self.armed_count_at(now)
    }
}

impl Default for SuppressList {
    fn default() -> (r: Self)
        ensures
            r@ == Seq::<Armed>::empty(),
    {
        SuppressList::new()
    }
}

/// A text that was not announced is never swallowed.
pub proof fn only_announced_texts_are_swallowed(entries: Seq<Armed>, text: Seq<char>, now: u64)
    requires
        forall|i: int| 0 <= i < entries.len() ==> (#[trigger] entries[i]).0 != text,
    ensures
        !announced(entries, text, now),
        after_take(entries, text, now) == live(entries, now),
{
    live_members(entries, now, entries.len() as int);
    no_first_without(live(entries, now), text, 0);
}

/// An announcement that has expired swallows nothing.
pub proof fn expired_announcements_swallow_nothing(
    entries: Seq<Armed>,
    text: Seq<char>,
    now: u64,
)
    requires
        forall|i: int| 0 <= i < entries.len() && (#[trigger] entries[i]).0 == text ==> entries[i].1
            <= now,
    ensures
        !announced(entries, text, now),
{
    live_members(entries, now, entries.len() as int);
    no_first_without(live(entries, now), text, 0);
}

/// A write seen before its announcement expires is swallowed, and with it exactly one
/// announcement is used up.
pub proof fn announced_write_is_swallowed_once(
    entries: Seq<Armed>,
    text: Seq<char>,
    at: u64,
    seen: u64,
)
    requires
        at <= seen,
        seen < expiry_of(at),
    ensures
        ({
            let armed = live(entries, at).push((text, expiry_of(at)));
            &&& announced(armed, text, seen)
            &&& after_take(armed, text, seen).len() == live(armed, seen).len() - 1
        }),
{
    let armed = live(entries, at).push((text, expiry_of(at)));
    let l = live(armed, seen);
    assert(l.last() == (text, expiry_of(at)));
    first_with_finds(l, text, 0, l.len() - 1);
}

proof fn live_members(entries: Seq<Armed>, now: u64, n: int)
    requires
        0 <= n <= entries.len(),
    ensures
        forall|k: int|
            0 <= k < live_at(entries, now, n).len() ==> entries.contains(
                #[trigger] live_at(entries, now, n)[k],
            ) && live_at(entries, now, n)[k].1 > now,
    decreases n,
{
    if n > 0 {
        live_members(entries, now, n - 1);
        let head = live_at(entries, now, n - 1);
        let list = live_at(entries, now, n);
        assert forall|k: int| 0 <= k < list.len() implies entries.contains(#[trigger] list[k])
            && list[k].1 > now by {
            if k < head.len() {
                assert(list[k] == head[k]);
            } else {
                assert(entries[n - 1] == list[k]);
            }
        }
    }
}

proof fn no_first_without(entries: Seq<Armed>, text: Seq<char>, i: int)
    requires
        0 <= i,
        forall|k: int| 0 <= k < entries.len() ==> (#[trigger] entries[k]).0 != text,
    ensures
        first_with(entries, text, i) is None,
    decreases entries.len() - i,
{
    if i < entries.len() {
        no_first_without(entries, text, i + 1);
    }
}

proof fn first_with_finds(entries: Seq<Armed>, text: Seq<char>, i: int, k: int)
    requires
        0 <= i <= k < entries.len(),
        entries[k].0 == text,
    ensures
        first_with(entries, text, i) matches Some(p) && i <= p <= k,
    decreases k - i,
{
    if entries[i].0 != text {
        first_with_finds(entries, text, i + 1, k);
    }
}

// ---- from changes to reported copies ------------------------------------

/// What is known of the clipboard's history of changes: whether the first one is still to
/// come, the text last seen, and own writes to come.
#[derive(Debug)]
pub struct ChangeFilter {
    first: bool,
    last_seen: Option<String>,
    pub suppress: SuppressList,
}

/// The state of a [`ChangeFilter`].
pub struct FilterState {
    pub first: bool,
    pub last_seen: Option<Seq<char>>,
    pub armed: Seq<Armed>,
}

/// A change notification that carries `text`, if it carries any. The first one tells what was
/// there already and is only remembered. An own write clears the memory, so that the next
/// copy is reported whatever it is. Anything else is reported unless it was seen last.
pub open spec fn on_selection_state(s: FilterState, text: Option<Seq<char>>, now: u64) -> (
    FilterState,
    Option<Seq<char>>,
) {
    if s.first {
        (FilterState { first: false, last_seen: text, ..s }, None)
    } else {
        match text {
            None => (s, None),
            Some(t) => if announced(s.armed, t, now) {
                (FilterState { last_seen: None, armed: after_take(s.armed, t, now), ..s }, None)
            } else if s.last_seen == Some(t) {
                (FilterState { armed: after_take(s.armed, t, now), ..s }, None)
            } else {
                (
                    FilterState {
                        last_seen: Some(t),
                        armed: after_take(s.armed, t, now),
                        ..s
                    },
                    Some(t),
                )
            },
        }
    }
}

/// A look at the clipboard that found `text`, if it could be read. An own write is remembered
/// as seen, since the next look finds it again.
pub open spec fn on_poll_state(s: FilterState, text: Option<Seq<char>>, now: u64) -> (
    FilterState,
    Option<Seq<char>>,
) {
    match text {
        None => (s, None),
        Some(t) => {
            let armed = after_take(s.armed, t, now);
            if announced(s.armed, t, now) {
                (FilterState { last_seen: Some(t), armed, ..s }, None)
            } else if s.last_seen == Some(t) {
                (FilterState { armed, ..s }, None)
            } else {
                (FilterState { last_seen: Some(t), armed, ..s }, Some(t))
            }
        },
    }
}

/// The text of a payload that is to be reported, if any; its source is unknown.
pub open spec fn reports(p: Option<ClipboardPayload>, text: Option<Seq<char>>) -> bool {
    match (p, text) {
        (Some(p), Some(t)) => p.text@ == t && p.source_process@ == Seq::<char>::empty(),
        (None, None) => true,
        _ => false,
    }
}

impl View for ChangeFilter {
    type V = FilterState;

    closed spec fn view(&self) -> FilterState {
        FilterState {
            first: self.first,
            last_seen: text_view(self.last_seen),
            armed: self.suppress@,
        }
    }
}

fn payload_of(text: String) -> (r: ClipboardPayload)
    ensures
        r.text@ == text@,
        r.source_process@ == Seq::<char>::empty(),
{
    ClipboardPayload { text, source_process: String::new() }
}

impl ChangeFilter {
    /// When the clock of the own writes started.
    pub closed spec fn clock(&self) -> Instant {
        self.suppress.clock()
    }

    /// A filter for a source that starts by telling what is there already.
    pub fn new() -> (r: Self)
        ensures
            r@ == (FilterState { first: true, last_seen: None, armed: Seq::empty() }),
    {
        ChangeFilter { first: true, last_seen: None, suppress: SuppressList::new() }
    }

    /// A filter for a source that is looked at, with what is there at the start.
    pub fn seeded(seen: Option<String>) -> (r: Self)
        ensures
            r@ == (FilterState { first: false, last_seen: text_view(seen), armed: Seq::empty() }),
    {
        ChangeFilter { first: false, last_seen: seen, suppress: SuppressList::new() }
    }

    fn is_last_seen(&self, text: &str) -> (r: bool)
        ensures
            r == (self@.last_seen == Some(text@)),
    {
        match &self.last_seen {
            Some(seen) => same_text(seen.as_str(), text),
            None => false,
        }
    }

    /// Announces an own write of `text` at the time `now`.
    pub fn announce_at(&mut self, text: &str, now: u64)
        ensures
            final(self)@ == (FilterState {
                armed: live(old(self)@.armed, now).push((text@, expiry_of(now))),
                ..old(self)@
            }),
            final(self).clock() == old(self).clock(),
    {
        self.suppress.arm_at(text, now);
    }

    /// A change notification: what to report of it.
    pub fn on_selection_at(&mut self, text: Option<String>, now: u64) -> (r: Option<
        ClipboardPayload,
    >)
        ensures
            final(self)@ == on_selection_state(old(self)@, text_view(text), now).0,
            reports(r, on_selection_state(old(self)@, text_view(text), now).1),
            final(self).clock() == old(self).clock(),
    {
        if self.first {
            self.first = false;
            self.last_seen = text;
            return None;
        }
        let text = match text {
            Some(text) => text,
            None => return None,
        };
        if self.suppress.take_at(text.as_str(), now) {
            self.last_seen = None;
            return None;
        }
        if self.is_last_seen(text.as_str()) {
            return None;
        }
        self.last_seen = Some(text.clone());
        Some(payload_of(text))
    }

    /// The clipboard was cleared: the same text copied again is a fresh copy.
    pub fn on_cleared(&mut self)
        ensures
            final(self)@ == (FilterState { first: false, last_seen: None, ..old(self)@ }),
            final(self).clock() == old(self).clock(),
    {
        self.first = false;
        self.last_seen = None;
    }

    /// The source was connected anew and will start by telling what is there already.
    pub fn on_reconnected(&mut self)
        ensures
            final(self)@ == (FilterState { first: true, ..old(self)@ }),
            final(self).clock() == old(self).clock(),
    {
        self.first = true;
    }

    /// A look at the clipboard: what to report of it.
    pub fn on_poll_at(&mut self, text: Option<String>, now: u64) -> (r: Option<ClipboardPayload>)
        ensures
            final(self)@ == on_poll_state(old(self)@, text_view(text), now).0,
            reports(r, on_poll_state(old(self)@, text_view(text), now).1),
            final(self).clock() == old(self).clock(),
    {
        let text = match text {
            Some(text) => text,
            None => return None,
        };
        if self.suppress.take_at(text.as_str(), now) {
            self.last_seen = Some(text);
            return None;
        }
        if self.is_last_seen(text.as_str()) {
            return None;
        }
        self.last_seen = Some(text.clone());
        Some(payload_of(text))
    }

    /// A change notification after which the clipboard has been read: what to report of it.
    /// As [`Self::on_poll_at`], but an empty text counts for nothing.
    pub fn on_change_at(&mut self, text: Option<String>, now: u64) -> (r: Option<ClipboardPayload>)
        ensures
            text_view(text) == Some(Seq::<char>::empty()) ==> r is None && final(self)@ == old(
                self,
            )@,
            text_view(text) != Some(Seq::<char>::empty()) ==> final(self)@ == on_poll_state(
                old(self)@,
                text_view(text),
                now,
            ).0 && reports(r, on_poll_state(old(self)@, text_view(text), now).1),
            final(self).clock() == old(self).clock(),
    {
        if let Some(t) = &text {
            if t.as_str().is_empty() {
                assert(t@ =~= Seq::<char>::empty());
                return None;
            }
        }
        self.on_poll_at(text, now)
    }

    /// [`Self::on_selection_at`] at the time that the clock gives.
    pub fn on_selection(&mut self, text: Option<String>) -> (r: Option<ClipboardPayload>)
        ensures
            exists|now: u64|
                read_off(old(self).clock(), now) && final(self)@ == (#[trigger] on_selection_state(
                    old(self)@,
                    text_view(text),
                    now,
                )).0 && reports(r, on_selection_state(old(self)@, text_view(text), now).1),
            final(self).clock() == old(self).clock(),
    {
        let now: u64 = self.suppress.now();
        self.on_selection_at(text, now)
    }

    /// [`Self::on_poll_at`] at the time that the clock gives.
    pub fn on_poll(&mut self, text: Option<String>) -> (r: Option<ClipboardPayload>)
        ensures
            exists|now: u64|
                read_off(old(self).clock(), now) && final(self)@ == (#[trigger] on_poll_state(
                    old(self)@,
                    text_view(text),
                    now,
                )).0 && reports(r, on_poll_state(old(self)@, text_view(text), now).1),
            final(self).clock() == old(self).clock(),
    {
        let now: u64 = self.suppress.now();
        self.on_poll_at(text, now)
    }

    /// [`Self::on_change_at`] at the time that the clock gives.
    pub fn on_change(&mut self, text: Option<String>) -> (r: Option<ClipboardPayload>)
        ensures
            text_view(text) == Some(Seq::<char>::empty()) ==> r is None && final(self)@ == old(
                self,
            )@,
            text_view(text) != Some(Seq::<char>::empty()) ==> exists|now: u64|
                read_off(old(self).clock(), now) && final(self)@ == (#[trigger] on_poll_state(
                    old(self)@,
                    text_view(text),
                    now,
                )).0 && reports(r, on_poll_state(old(self)@, text_view(text), now).1),
            final(self).clock() == old(self).clock(),
    {
        let now: u64 = self.suppress.now();
        self.on_change_at(text, now)
    }
}

/// The same text is not reported twice in a row by looking at the clipboard, nor right after
/// it was written by this process.
pub proof fn a_seen_text_is_not_reported_again(
    s: FilterState,
    text: Seq<char>,
    now: u64,
    later: u64,
)
    ensures
        ({
            let after = on_poll_state(s, Some(text), now).0;
            on_poll_state(after, Some(text), later).1 is None
        }),
        announced(s.armed, text, now) ==> on_poll_state(s, Some(text), now).1 is None
            && on_selection_state(s, Some(text), now).1 is None,
{
}

/// After an own write has been swallowed as a notification, the next copy is reported
/// whatever its text, unless it was announced too.
pub proof fn a_copy_after_an_own_write_is_reported(
    s: FilterState,
    own: Seq<char>,
    now: u64,
    copy: Seq<char>,
    later: u64,
)
    requires
        !s.first,
        announced(s.armed, own, now),
        !announced(on_selection_state(s, Some(own), now).0.armed, copy, later),
    ensures
        on_selection_state(on_selection_state(s, Some(own), now).0, Some(copy), later).1 == Some(
            copy,
        ),
{
}

// ---- reading a selection ------------------------------------------------

/// Text formats, most preferred first.
pub open spec fn text_mime(i: int) -> Seq<char> {
    if i == 0 {
        "text/plain;charset=utf-8"@
    } else if i == 1 {
        "text/plain;charset=UTF-8"@
    } else if i == 2 {
        "text/plain"@
    } else {
        "UTF8_STRING"@
    }
}

fn text_mime_at(i: usize) -> (r: &'static str)
    ensures
        r@ == text_mime(i as int),
{
    if i == 0 {
        "text/plain;charset=utf-8"
    } else if i == 1 {
        "text/plain;charset=UTF-8"
    } else if i == 2 {
        "text/plain"
    } else {
        "UTF8_STRING"
    }
}

/// Is the format among those offered?
pub open spec fn offers(offered: Seq<String>, mime: Seq<char>) -> bool {
    exists|i: int| 0 <= i < offered.len() && (#[trigger] offered[i])@ == mime
}

fn has_offer(offered: &[String], mime: &str) -> (r: bool)
    ensures
        r == offers(offered@, mime@),
{
    let mut i: usize = 0;
    while i < offered.len()
        invariant
            i <= offered@.len(),
            forall|k: int| 0 <= k < i ==> (#[trigger] offered@[k])@ != mime@,
        decreases offered@.len() - i,
    {
        if same_text(offered[i].as_str(), mime) {
            assert(offered@[i as int]@ == mime@);
            return true;
        }
        i = i + 1;
    }
    false
}

/// The most preferred text format among those offered, if there is one.
pub fn choose_mime(offered: &[String]) -> (r: Option<&'static str>)
    ensures
        match r {
            Some(mime) => exists|i: int|
                0 <= i < 4 && mime@ == #[trigger] text_mime(i) && offers(offered@, text_mime(i))
                    && forall|j: int| 0 <= j < i ==> !offers(offered@, #[trigger] text_mime(j)),
            None => forall|i: int| 0 <= i < 4 ==> !offers(offered@, #[trigger] text_mime(i)),
        },
{
    let mut i: usize = 0;
    while i < 4
        invariant
            i <= 4,
            forall|j: int| 0 <= j < i ==> !offers(offered@, #[trigger] text_mime(j)),
        decreases 4 - i,
    {
        let mime = text_mime_at(i);
        if has_offer(offered, mime) {
            return Some(mime);
        }
        i = i + 1;
    }
    None
}

/// What `String::from_utf8_lossy` makes of some bytes.
pub uninterp spec fn lossy_text_of(bytes: Seq<u8>) -> Seq<char>;

/// Calls `String::from_utf8_lossy`. Claimed: the text depends on the bytes alone, and is what
/// they encode where they are valid UTF-8.
#[verifier::external_body]
fn lossy_text(bytes: &[u8]) -> (r: String)
    ensures
        r@ == lossy_text_of(bytes@),
        vstd::utf8::valid_utf8(bytes@) ==> r@ == vstd::utf8::decode_utf8(bytes@),
{
    String::from_utf8_lossy(bytes).into_owned()
}

/// How the transfer of a selection ended.
#[derive(Debug)]
pub enum TransferResult {
    Complete(Vec<u8>),
    /// A newer selection has replaced it.
    Stale,
    Failed,
}

/// The text of a selection. A transfer that was completed always has one; bytes that are not
/// valid UTF-8 are replaced, not refused.
pub fn read_text(transfer: TransferResult) -> (r: Option<String>)
    ensures
        match transfer {
            TransferResult::Complete(bytes) => text_view(r) == Some(lossy_text_of(bytes@)) && (
            vstd::utf8::valid_utf8(bytes@) ==> text_view(r) == Some(
                vstd::utf8::decode_utf8(bytes@),
            )),
            _ => r is None,
        },
{
    match transfer {
        TransferResult::Complete(bytes) => Some(lossy_text(&bytes)),
        _ => None,
    }
}

// ---- a clipboard of its own ---------------------------------------------

/// A clipboard that nobody shares.
pub struct NullClipboard {
    pub last_set: Option<String>,
    log: Ghost<Seq<DeviceCall>>,
}

impl NullClipboard {
    /// What was written last, if anything.
    pub closed spec fn contents(&self) -> Option<Seq<char>> {
        text_view(self.last_set)
    }

    pub fn new() -> (r: Self)
        ensures
            r.contents() is None,
            r.calls() == Seq::<DeviceCall>::empty(),
    {
        NullClipboard { last_set: None, log: Ghost(Seq::empty()) }
    }

    /// What was written last, if anything.
    pub fn last_set_text(&self) -> (r: Option<String>)
        ensures
            text_view(r) == self.contents(),
    {
        match &self.last_set {
            Some(text) => Some(text.clone()),
            None => None,
        }
    }
}

impl Default for NullClipboard {
    fn default() -> (r: Self)
        ensures
            r.contents() is None,
    {
        NullClipboard::new()
    }
}

impl CallLog for NullClipboard {
    closed spec fn calls(&self) -> Seq<DeviceCall> {
        self.log@
    }
}

impl Clipboard for NullClipboard {
    fn set_text(&mut self, text: &str) -> (r: Result<(), ClipboardError>)
        ensures
            r is Ok,
            final(self).contents() == Some(text@),
    {
        self.last_set = Some(text.to_owned());
        let r = Ok(());
        self.log = Ghost(self.log@.push(DeviceCall::Write(text@, r)));
        r
    }

    /// What was written last; an empty text before that.
    fn text(&mut self) -> (r: Result<String, ClipboardError>)
        ensures
            r matches Ok(text) && text@ == (match old(self).contents() {
                Some(text) => text,
                None => Seq::empty(),
            }),
            final(self).contents() == old(self).contents(),
    {
        let r = match &self.last_set {
            Some(text) => Ok(text.clone()),
            None => Ok(String::new()),
        };
        self.log = Ghost(self.log@.push(DeviceCall::Read(read_view(r))));
        r
    }

    /// A channel without a sender.
    fn changes(&mut self) -> (r: Receiver<ClipboardPayload>)
        ensures
            *final(self) == *old(self),
            severed(r),
    {
        severed_receiver()
    }

    /// There is nobody to tell.
    fn suppress_text(&mut self, text: &str)
        ensures
            final(self).contents() == old(self).contents(),
    {
        self.log = Ghost(self.log@.push(DeviceCall::Announce(text@)));
    }
}

} // verus!
