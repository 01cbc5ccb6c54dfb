//! Sending the paste keystroke.
use crate::devices::{CallLog, DeviceCall, PasteKeys};
use vstd::prelude::*;

verus! {

#[derive(Debug, PartialEq, Eq)]
pub enum PasteKeyError {
    /// The input device could not be set up.
    Open(String),
    /// An event could not be sent.
    Emit(String),
    /// The device's lock is broken.
    Poisoned,
    /// The system took fewer events than it was given.
    Rejected { sent: u32, expected: u32 },
}

/// The kernel's code for the left Ctrl key.
pub const KEY_LEFTCTRL: u16 = 29;

/// The kernel's code for the V key.
pub const KEY_V: u16 = 47;

/// A key going down or up.
#[derive(Debug, Clone, Copy, PartialEq, Eq, Structural)]
pub struct KeyFrame {
    pub key: u16,
    pub press: bool,
}

/// The transitions of one Ctrl+V, in order.
pub open spec fn ctrl_v_sequence() -> Seq<KeyFrame> {
    seq![
        KeyFrame { key: KEY_LEFTCTRL, press: true },
        KeyFrame { key: KEY_V, press: true },
        KeyFrame { key: KEY_V, press: false },
        KeyFrame { key: KEY_LEFTCTRL, press: false },
    ]
}

/// What is sent after a failure, so that no key stays down.
pub open spec fn release_sequence() -> Seq<KeyFrame> {
    seq![
        KeyFrame { key: KEY_V, press: false },
        KeyFrame { key: KEY_LEFTCTRL, press: false },
    ]
}

/// The transitions of one Ctrl+V, in order.
pub fn ctrl_v_frames() -> (r: Vec<KeyFrame>)
    ensures
        r@ == ctrl_v_sequence(),
{
    let mut frames: Vec<KeyFrame> = Vec::new();
    frames.push(KeyFrame { key: KEY_LEFTCTRL, press: true });
    frames.push(KeyFrame { key: KEY_V, press: true });
    frames.push(KeyFrame { key: KEY_V, press: false });
    frames.push(KeyFrame { key: KEY_LEFTCTRL, press: false });
    assert(frames@ =~= ctrl_v_sequence());
    frames
}

/// What is sent after a failure, so that no key stays down.
pub fn release_frames() -> (r: Vec<KeyFrame>)
    ensures
        r@ == release_sequence(),
{
    let mut frames: Vec<KeyFrame> = Vec::new();
    frames.push(KeyFrame { key: KEY_V, press: false });
    frames.push(KeyFrame { key: KEY_LEFTCTRL, press: false });
    assert(frames@ =~= release_sequence());
    frames
}

/// What is sent after the system took only a part of the keystroke: Ctrl must not stay down.
pub fn rejected_release() -> (r: Vec<KeyFrame>)
    ensures
        r@ == seq![KeyFrame { key: KEY_LEFTCTRL, press: false }],
{
    let mut frames: Vec<KeyFrame> = Vec::new();
    frames.push(KeyFrame { key: KEY_LEFTCTRL, press: false });
    assert(frames@ =~= seq![KeyFrame { key: KEY_LEFTCTRL, press: false }]);
    frames
}

/// Is `key` down after the first `n` frames, having been up before them?
pub open spec fn is_down(frames: Seq<KeyFrame>, key: u16, n: int) -> bool
    decreases n,
{
    if n <= 0 {
        false
    } else if frames[n - 1].key == key {
        frames[n - 1].press
    } else {
        is_down(frames, key, n - 1)
    }
}

/// What happens next while a keystroke is sent.
#[derive(Debug, Clone, Copy, PartialEq, Eq, Structural)]
pub enum SendStep {
    /// Send this frame, after a pause if `pause_before` says so.
    Emit { frame: KeyFrame, pause_before: bool },
    /// All frames are out.
    Done,
    /// A frame failed: send the releases, whatever comes of it, and report the failure.
    Release,
}

/// Goes on after `sent` frames have gone out, the last of which failed if `failed` says so.
pub fn next_frame(sent: usize, failed: bool) -> (r: SendStep)
    ensures
        r == (if failed {
            SendStep::Release
        } else if sent < ctrl_v_sequence().len() {
            SendStep::Emit { frame: ctrl_v_sequence()[sent as int], pause_before: sent > 0 }
        } else {
            SendStep::Done
        }),
{
    if failed {
        return SendStep::Release;
    }
    let frames = ctrl_v_frames();
    if sent < frames.len() {
        SendStep::Emit { frame: frames[sent], pause_before: sent > 0 }
    } else {
        SendStep::Done
    }
}

/// However far a keystroke gets, after it, or after the releases that follow a failure, no key
/// is down.
pub proof fn no_key_stays_down(sent: int, key: u16)
    requires
        0 <= sent <= ctrl_v_sequence().len(),
    ensures
        !is_down(ctrl_v_sequence(), key, ctrl_v_sequence().len() as int),
        ({
            let all = ctrl_v_sequence().take(sent) + release_sequence();
            !is_down(all, key, all.len() as int)
        }),
{
    let frames = ctrl_v_sequence();
    reveal_with_fuel(is_down, 7);
    assert(frames[0].key == KEY_LEFTCTRL && frames[1].key == KEY_V && frames[2].key == KEY_V
        && frames[3].key == KEY_LEFTCTRL);
    assert(!frames[2].press && !frames[3].press);
    let all = frames.take(sent) + release_sequence();
    assert(all[sent] == release_sequence()[0]);
    assert(all[sent + 1] == release_sequence()[1]);
    if key != KEY_LEFTCTRL && key != KEY_V {
        never_touched(all, key, all.len() as int);
        never_touched(frames, key, 4);
    }
}

proof fn never_touched(frames: Seq<KeyFrame>, key: u16, n: int)
    requires
        0 <= n <= frames.len(),
        forall|i: int| 0 <= i < frames.len() ==> (#[trigger] frames[i]).key != key,
    ensures
        !is_down(frames, key, n),
    decreases n,
{
    if n > 0 {
        never_touched(frames, key, n - 1);
    }
}

/// Judges how many of the four events of a keystroke the system took at once.
pub fn events_accepted(sent: u32, expected: u32) -> (r: Result<(), PasteKeyError>)
    ensures
        r == (if sent == expected {
            Ok::<(), PasteKeyError>(())
        } else {
            Err(PasteKeyError::Rejected { sent, expected })
        }),
{
    if sent == expected {
        Ok(())
    } else {
        Err(PasteKeyError::Rejected { sent, expected })
    }
}

/// The keystroke sent through the Windows input queue, which is there without any setting up.
#[derive(Debug, Clone, Copy, PartialEq, Eq, Structural)]
pub struct WindowsPasteKeys;

impl WindowsPasteKeys {
    pub fn new() -> (r: Result<Self, PasteKeyError>)
        ensures
            r == Ok::<Self, PasteKeyError>(WindowsPasteKeys),
    {
        Ok(WindowsPasteKeys)
    }
}

impl Default for WindowsPasteKeys {
    fn default() -> (r: Self)
        ensures
            r == WindowsPasteKeys,
    {
        WindowsPasteKeys
    }
}

/// No device: nothing is ever sent.
pub struct NullPasteKeys {
    log: Ghost<Seq<DeviceCall>>,
}

impl NullPasteKeys {
    pub fn new() -> (r: Self)
        ensures
            r.calls() == Seq::<DeviceCall>::empty(),
    {
        NullPasteKeys { log: Ghost(Seq::empty()) }
    }
}

impl CallLog for NullPasteKeys {
    closed spec fn calls(&self) -> Seq<DeviceCall> {
        self.log@
    }
}

impl PasteKeys for NullPasteKeys {
    fn available(&mut self) -> (r: bool)
        ensures
            !r,
    {
        self.log = Ghost(self.log@.push(DeviceCall::Available(false)));
        false
    }

    fn settle(&mut self, delay_ms: u64) {
        self.log = Ghost(self.log@.push(DeviceCall::Settle(delay_ms)));
    }

    fn send_ctrl_v(&mut self) -> (r: Result<(), PasteKeyError>)
        ensures
            r is Ok,
    {
        let r = Ok(());
        self.log = Ghost(self.log@.push(DeviceCall::CtrlV(r)));
        r
    }
}

} // verus!
