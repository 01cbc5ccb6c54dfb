//! A virtual keyboard that can do nothing but Ctrl+V. It sends the frames of
//! [`crate::paste_keys::ctrl_v_frames`].
use vstd::prelude::*;

verus! {

#[derive(Debug, PartialEq, Eq)]
pub enum UinputError {
    /// The device could not be opened.
    Open(String),
    /// An event could not be sent.
    Emit(String),
    /// The device's lock is broken.
    Poisoned,
}

pub trait UinputCtrlV {
    /// Is this a real device? It says nothing about the device's health.
    fn available(&self) -> bool;

    fn send_ctrl_v(&mut self) -> Result<(), UinputError>;
}

/// No device: nothing is ever sent.
#[derive(Debug, Clone, Copy, PartialEq, Eq, Structural)]
pub struct NullUinputCtrlV;

impl UinputCtrlV for NullUinputCtrlV {
    fn available(&self) -> (r: bool)
        ensures
            !r,
    {
        false
    }

    fn send_ctrl_v(&mut self) -> (r: Result<(), UinputError>)
        ensures
            r == Ok::<(), UinputError>(()),
    {
        Ok(())
    }
}

} // verus!
