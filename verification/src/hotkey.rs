//! Global hotkeys: action ids, errors, and the backend that has no keyboard.
use crate::take_once::{severed, TakeOnceChannel};
use std::sync::mpsc::Receiver;
use vstd::prelude::*;

verus! {

/// Why a hotkey could not be registered.
#[derive(Debug, PartialEq, Eq)]
pub enum HotkeyError {
    /// No connection to the display server.
    Connect(String),
    /// Another application holds this shortcut.
    AlreadyGrabbed { key: String, mods: u16 },
    /// Any other failure to claim the shortcut.
    GrabFailed { key: String, mods: u16, detail: String },
    /// The text of the shortcut means nothing.
    BadSequence(String),
    /// The thread that owns the registrations does not answer.
    ReaderGone(String),
}

/// Opens the selection dialog, for quick paste.
pub const OPEN_DIALOG_ID: u32 = 1;

/// Opens the main window, for editing the library.
pub const OPEN_MAIN_WINDOW_ID: u32 = 2;

/// One request to register a sequence, with its outcome.
pub struct RegisterCall {
    pub id: u32,
    pub sequence: Seq<char>,
    pub outcome: Result<(), HotkeyError>,
}

/// Registers key sequences globally and reports the id of each one that fires.
pub trait GlobalHotkey: Send {
    /// The requests made so far. The record exists for reasoning only, and what is proved of a
    /// backend holds of one whose record grows by each request. A backend that does not say
    /// what its record is has one that depends on its state in a way of which nothing is known.
    open spec fn requests(&self) -> Seq<RegisterCall> {
        arbitrary::<spec_fn(&Self) -> Seq<RegisterCall>>()(self)
    }

    /// Makes `id` fire on `sequence`. An id that is registered again moves to the new sequence;
    /// on failure the old one stays. No other id is disturbed.
    fn register(&mut self, id: u32, sequence: &str) -> (r: Result<(), HotkeyError>)
        ensures
            final(self).requests() == old(self).requests().push(
                RegisterCall { id, sequence: sequence@, outcome: r },
            ),
    ;

    /// Drops the registration of `id`, if there is one.
    fn unregister(&mut self, id: u32);

    /// The channel that receives the id of each hotkey that fires.
    fn events(&mut self) -> Receiver<u32>;
}

/// A backend without a keyboard, whose hotkeys fire when told to.
pub struct NullGlobalHotkey {
    events: TakeOnceChannel<u32>,
    requests: Ghost<Seq<RegisterCall>>,
}

impl NullGlobalHotkey {
    /// The receiver of fired ids, until it has been taken.
    pub closed spec fn pending(&self) -> Option<Receiver<u32>> {
        self.events.receiver()
    }

    /// The receiver that the fired ids go to, taken or not.
    pub closed spec fn fed(&self) -> Receiver<u32> {
        self.events.fed()
    }

    /// The ids that were fired, in order.
    pub closed spec fn fired(&self) -> Seq<u32> {
        self.events.sent()
    }

    /// The receiver is on the line that ids are fired on.
    pub closed spec fn linked(&self) -> bool {
        self.events.linked()
    }

    /// Nothing registered yet, and the receiver still there.
    pub fn new() -> (r: Self)
        ensures
            r.linked(),
            r.pending() == Some(r.fed()),
            r.requests() == Seq::<RegisterCall>::empty(),
            r.fired() == Seq::<u32>::empty(),
    {
        NullGlobalHotkey { events: TakeOnceChannel::new(), requests: Ghost(Seq::empty()) }
    }

    /// Fires `id`, registered or not.
    pub fn fire(&mut self, id: u32)
        ensures
            final(self).fired() == old(self).fired().push(id),
            final(self).pending() == old(self).pending(),
            final(self).fed() == old(self).fed(),
            old(self).linked() ==> final(self).linked(),
            final(self).requests() == old(self).requests(),
    {
        self.events.send(id);
    }
}

impl Default for NullGlobalHotkey {
    fn default() -> (r: Self)
        ensures
            r.linked(),
            r.pending() == Some(r.fed()),
            r.requests() == Seq::<RegisterCall>::empty(),
            r.fired() == Seq::<u32>::empty(),
    {
        NullGlobalHotkey::new()
    }
}

impl GlobalHotkey for NullGlobalHotkey {
    closed spec fn requests(&self) -> Seq<RegisterCall> {
        self.requests@
    }

    /// Accepts every sequence.
    fn register(&mut self, id: u32, sequence: &str) -> (r: Result<(), HotkeyError>)
        ensures
            r == Ok::<(), HotkeyError>(()),
            final(self).pending() == old(self).pending(),
            final(self).fed() == old(self).fed(),
            final(self).linked() == old(self).linked(),
            final(self).fired() == old(self).fired(),
    {
        self.requests = Ghost(
            self.requests@.push(RegisterCall { id, sequence: sequence@, outcome: Ok(()) }),
        );
        Ok(())
    }

    fn unregister(&mut self, _id: u32)
        ensures
            *final(self) == *old(self),
    {
    }

    fn events(&mut self) -> (r: Receiver<u32>)
        ensures
            old(self).pending() matches Some(rx) ==> r == rx,
            old(self).pending() is None ==> severed(r),
            final(self).pending() is None,
            final(self).fed() == old(self).fed(),
            old(self).linked() ==> final(self).linked(),
            final(self).requests() == old(self).requests(),
            final(self).fired() == old(self).fired(),
    {
        self.events.take()
    }
}

} // verus!
