//! The seam to the clipboard and to the keyboard that pastes: what a backend offers, and the
//! record of what it was asked.
use crate::clipboard::{ClipboardError, ClipboardPayload};
use crate::paste_keys::PasteKeyError;
use std::sync::mpsc::Receiver;
use vstd::prelude::*;

verus! {

/// One call of a backend, with its outcome.
pub enum DeviceCall {
    /// The clipboard was read.
    Read(Result<Seq<char>, ClipboardError>),
    /// A write of this text was announced.
    Announce(Seq<char>),
    /// This text was written to the clipboard.
    Write(Seq<char>, Result<(), ClipboardError>),
    /// It was asked whether there is a keyboard to paste with.
    Available(bool),
    /// The sequence was held up for so many milliseconds.
    Settle(u64),
    /// The paste keystroke was sent.
    CtrlV(Result<(), PasteKeyError>),
}

/// What a clipboard read gave, its text taken by value.
pub open spec fn read_view(r: Result<String, ClipboardError>) -> Result<Seq<char>, ClipboardError> {
    match r {
        Ok(text) => Ok(text@),
        Err(e) => Err(e),
    }
}

/// A backend together with the record of the calls made on it. The record exists for
/// reasoning only, and what is proved of a paste holds of a backend whose record grows by each
/// call as the two traits below say. A backend that does not say what its record is has one
/// that depends on its state in a way of which nothing is known.
pub trait CallLog {
    open spec fn calls(&self) -> Seq<DeviceCall> {
        arbitrary::<spec_fn(&Self) -> Seq<DeviceCall>>()(self)
    }
}

/// Reading and writing the clipboard, and a channel of the changes that others make.
pub trait Clipboard: CallLog {
    fn set_text(&mut self, text: &str) -> (r: Result<(), ClipboardError>)
        ensures
            final(self).calls() == old(self).calls().push(DeviceCall::Write(text@, r)),
    ;

    fn text(&mut self) -> (r: Result<String, ClipboardError>)
        ensures
            final(self).calls() == old(self).calls().push(DeviceCall::Read(read_view(r))),
    ;

    /// The channel of changes. Only the first call gets a channel that delivers.
    fn changes(&mut self) -> Receiver<ClipboardPayload>;

    /// Announces that `text` is about to be written by this process, so that the change is not
    /// reported as somebody's copy.
    fn suppress_text(&mut self, text: &str)
        ensures
            final(self).calls() == old(self).calls().push(DeviceCall::Announce(text@)),
    ;
}

/// Sending the paste keystroke.
pub trait PasteKeys: CallLog {
    /// Is this a real device? It says nothing about the device's health: an error from
    /// [`Self::send_ctrl_v`] does.
    fn available(&mut self) -> (r: bool)
        ensures
            final(self).calls() == old(self).calls().push(DeviceCall::Available(r)),
    ;

    /// Waits so that the clipboard's new owner is known everywhere.
    fn settle(&mut self, delay_ms: u64)
        ensures
            final(self).calls() == old(self).calls().push(DeviceCall::Settle(delay_ms)),
    ;

    fn send_ctrl_v(&mut self) -> (r: Result<(), PasteKeyError>)
        ensures
            final(self).calls() == old(self).calls().push(DeviceCall::CtrlV(r)),
    ;
}

} // verus!
