//! The paste sequence: snapshot the clipboard, write the payload, wait, send the keystroke,
//! put the snapshot back.
use crate::clipboard::ClipboardError;
use crate::devices::{Clipboard, DeviceCall, PasteKeys};
use crate::paste_keys::PasteKeyError;
use vstd::prelude::*;

verus! {

/// Why a paste failed.
#[derive(Debug, PartialEq, Eq)]
pub enum PasteError {
    Clipboard(ClipboardError),
    Uinput(PasteKeyError),
}

/// What the devices answered in the course of a paste. Answers to questions that are not asked
/// stand for nothing.
pub struct PasteAnswers {
    pub read: Result<Seq<char>, ClipboardError>,
    pub written: Result<(), ClipboardError>,
    pub available: bool,
    pub sent: Result<(), PasteKeyError>,
    pub restored: Result<(), ClipboardError>,
}

/// What there is to put back: nothing if it is not asked for or could not be read.
pub open spec fn snapshot_of(restore: bool, read: Result<Seq<char>, ClipboardError>) -> Option<
    Seq<char>,
> {
    match read {
        Ok(text) => if restore {
            Some(text)
        } else {
            None
        },
        Err(_) => None,
    }
}

/// The calls that ask for the keystroke.
pub open spec fn keystroke_calls(delay_ms: u64, a: PasteAnswers) -> Seq<DeviceCall> {
    if a.written is Err {
        Seq::empty()
    } else if !a.available {
        seq![DeviceCall::Available(false)]
    } else if delay_ms > 0 {
        seq![
            DeviceCall::Available(true),
            DeviceCall::Settle(delay_ms),
            DeviceCall::CtrlV(a.sent),
        ]
    } else {
        seq![DeviceCall::Available(true), DeviceCall::CtrlV(a.sent)]
    }
}

/// Is the snapshot put back? Not if there is none, and not if no keystroke was asked for:
/// somebody has to press the keys then, and the payload has to stay for that.
pub open spec fn puts_back(restore: bool, a: PasteAnswers) -> bool {
    snapshot_of(restore, a.read) is Some && (a.written is Err || a.available)
}

/// Every call of a paste, in order.
pub open spec fn paste_calls(
    payload: Seq<char>,
    delay_ms: u64,
    restore: bool,
    a: PasteAnswers,
) -> Seq<DeviceCall> {
    let read = if restore {
        seq![DeviceCall::Read(a.read)]
    } else {
        Seq::empty()
    };
    let write = seq![DeviceCall::Announce(payload), DeviceCall::Write(payload, a.written)];
    let back = if puts_back(restore, a) {
        let snapshot = snapshot_of(restore, a.read)->0;
        seq![DeviceCall::Announce(snapshot), DeviceCall::Write(snapshot, a.restored)]
    } else {
        Seq::empty()
    };
    read + write + keystroke_calls(delay_ms, a) + back
}

/// What a paste reports: a failed write, else a failed keystroke, else success.
pub open spec fn paste_result(a: PasteAnswers) -> Result<(), PasteError> {
    match a.written {
        Err(e) => Err(PasteError::Clipboard(e)),
        Ok(()) => if !a.available {
            Ok(())
        } else {
            match a.sent {
                Err(e) => Err(PasteError::Uinput(e)),
                Ok(()) => Ok(()),
            }
        },
    }
}

/// Pastes texts through the clipboard and the keyboard of one device.
pub struct Paster<D> {
    device: D,
    delay_ms: u64,
    restore_clipboard: bool,
}

impl<D: Clipboard + PasteKeys> Paster<D> {
    pub closed spec fn spec_device(&self) -> D {
        self.device
    }

    /// The delay before the keystroke in milliseconds, and whether the clipboard is restored.
    pub closed spec fn config(&self) -> (u64, bool) {
        (self.delay_ms, self.restore_clipboard)
    }

    pub fn new(device: D, delay_ms: u64, restore_clipboard: bool) -> (r: Self)
        ensures
            r.spec_device() == device,
            r.config() == (delay_ms, restore_clipboard),
    {
        Paster { device, delay_ms, restore_clipboard }
    }

    /// The device that pastes go through.
    pub fn device(&self) -> (r: &D)
        ensures
            *r == self.spec_device(),
    {
        &self.device
    }

    /// Retunes the sequence.
    pub fn set_config(&mut self, delay_ms: u64, restore_clipboard: bool)
        ensures
            final(self).spec_device() == old(self).spec_device(),
            final(self).config() == (delay_ms, restore_clipboard),
    {
        self.delay_ms = delay_ms;
        self.restore_clipboard = restore_clipboard;
    }

    /// Pastes `payload` into whatever has the focus.
    pub fn paste_text(&mut self, payload: &str) -> (r: Result<(), PasteError>)
        ensures
            final(self).config() == old(self).config(),
            exists|a: PasteAnswers|
                final(self).spec_device().calls() == old(self).spec_device().calls()
                    + #[trigger] paste_calls(
                    payload@,
                    old(self).config().0,
                    old(self).config().1,
                    a,
                ) && r == paste_result(a),
    {
        let ghost mut a = PasteAnswers {
            read: Err(ClipboardError::Empty),
            written: Ok(()),
            available: false,
            sent: Ok(()),
            restored: Ok(()),
        };
        let snapshot: Option<String> = if self.restore_clipboard {
            let read = self.device.text();
            proof {
                a.read = crate::devices::read_view(read);
            }
            match read {
                Ok(text) => Some(text),
                Err(_) => None,
            }
        } else {
            None
        };
        self.device.suppress_text(payload);
        let written = self.device.set_text(payload);
        proof {
            a.written = written;
        }
        let ghost after_write = self.device.calls();
        let outcome = match written {
            Ok(()) => {
                let sent = self.emit_paste();
                proof {
                    let b = choose|b: PasteAnswers|
                        b.written is Ok && self.device.calls() == after_write
                            + #[trigger] keystroke_calls(self.delay_ms, b) && sent == emit_result(b);
                    a.available = b.available;
                    a.sent = b.sent;
                    assert(keystroke_calls(self.delay_ms, a) == keystroke_calls(self.delay_ms, b));
                }
                sent
            },
            Err(e) => Err(PasteError::Clipboard(e)),
        };
        let emitted = match &outcome {
            Ok(emitted) => *emitted,
            Err(_) => true,
        };
        match snapshot {
            Some(text) => {
                if emitted {
                    self.device.suppress_text(text.as_str());
                    let restored = self.device.set_text(text.as_str());
                    proof {
                        a.restored = restored;
                    }
                }
            },
            None => {},
        }
        proof {
            assert(self.spec_device().calls() =~= old(self).spec_device().calls() + paste_calls(
                payload@,
                old(self).config().0,
                old(self).config().1,
                a,
            ));
        }
        match outcome {
            Ok(_) => Ok(()),
            Err(e) => Err(e),
        }
    }

    /// Answers a request to paste. `free` is what [`PasteGate::enter`] said: a request that
    /// found another paste under way is answered at once, and nothing is done.
    pub fn paste_if_free(&mut self, free: bool, payload: &str) -> (r: Result<(), PasteError>)
        ensures
            !free ==> r == Ok::<(), PasteError>(()) && *final(self) == *old(self),
            free ==> final(self).config() == old(self).config(),
            free ==> exists|a: PasteAnswers|
                final(self).spec_device().calls() == old(self).spec_device().calls()
                    + #[trigger] paste_calls(
                    payload@,
                    old(self).config().0,
                    old(self).config().1,
                    a,
                ) && r == paste_result(a),
    {
        if !free {
            return Ok(());
        }
        self.paste_text(payload)
    }

    /// Waits and sends the keystroke. `Ok(false)` means that there is no device to send it.
    fn emit_paste(&mut self) -> (r: Result<bool, PasteError>)
        ensures
            final(self).config() == old(self).config(),
            exists|a: PasteAnswers|
                a.written is Ok && final(self).spec_device().calls() == old(
                    self,
                ).spec_device().calls() + #[trigger] keystroke_calls(old(self).config().0, a) && r
                    == emit_result(a),
    {
        let ghost mut a = PasteAnswers {
            read: Err(ClipboardError::Empty),
            written: Ok(()),
            available: false,
            sent: Ok(()),
            restored: Ok(()),
        };
        if !self.device.available() {
            assert(self.spec_device().calls() =~= old(self).spec_device().calls()
                + keystroke_calls(old(self).config().0, a));
            return Ok(false);
        }
        if self.delay_ms > 0 {
            self.device.settle(self.delay_ms);
        }
        let sent = self.device.send_ctrl_v();
        proof {
            a.available = true;
            a.sent = sent;
            assert(self.spec_device().calls() =~= old(self).spec_device().calls()
                + keystroke_calls(old(self).config().0, a));
        }
        match sent {
            Ok(()) => Ok(true),
            Err(e) => Err(PasteError::Uinput(e)),
        }
    }
}

spec fn emit_result(a: PasteAnswers) -> Result<bool, PasteError> {
    if !a.available {
        Ok(false)
    } else {
        match a.sent {
            Ok(()) => Ok(true),
            Err(e) => Err(PasteError::Uinput(e)),
        }
    }
}

// ---- what every paste keeps to ------------------------------------------

/// Every write is announced right before it is made, and nothing is announced that is not
/// written right after.
pub proof fn writes_and_announcements_pair_up(
    payload: Seq<char>,
    delay_ms: u64,
    restore: bool,
    a: PasteAnswers,
)
    ensures
        ({
            let c = paste_calls(payload, delay_ms, restore, a);
            &&& forall|i: int|
                0 <= i < c.len() ==> (#[trigger] c[i] matches DeviceCall::Write(text, _) ==> i > 0
                    && c[i - 1] == DeviceCall::Announce(text))
            &&& forall|i: int|
                0 <= i < c.len() ==> (#[trigger] c[i] matches DeviceCall::Announce(text) ==> i + 1
                    < c.len() && (c[i + 1] matches DeviceCall::Write(t, _) && t == text))
        }),
{
}

/// The text that the last write among the first `n` calls put on the clipboard.
pub open spec fn last_written(calls: Seq<DeviceCall>, n: int) -> Option<Seq<char>>
    decreases n,
{
    if n <= 0 {
        None
    } else {
        match calls[n - 1] {
            DeviceCall::Write(text, _) => Some(text),
            _ => last_written(calls, n - 1),
        }
    }
}

/// The keystroke is sent at most once, with the payload as the last thing written, and that
/// write having succeeded.
pub proof fn keystroke_finds_the_payload(
    payload: Seq<char>,
    delay_ms: u64,
    restore: bool,
    a: PasteAnswers,
    i: int,
    j: int,
)
    requires
        0 <= i < paste_calls(payload, delay_ms, restore, a).len(),
        paste_calls(payload, delay_ms, restore, a)[i] is CtrlV,
    ensures
        ({
            let c = paste_calls(payload, delay_ms, restore, a);
            &&& last_written(c, i) == Some(payload)
            &&& a.written is Ok
            &&& 0 <= j < c.len() && c[j] is CtrlV ==> j == i
        }),
{
    reveal_with_fuel(last_written, 6);
}

/// What the clipboard was asked to hold in the end: the payload if nothing was to be put back,
/// nothing could be read, or there was no device for the keystroke; else what was there
/// before. So a failed keystroke does not cost the user their clipboard, and without a device
/// the payload is there to be pasted by hand.
pub proof fn what_stays_on_the_clipboard(
    payload: Seq<char>,
    delay_ms: u64,
    restore: bool,
    a: PasteAnswers,
)
    ensures
        ({
            let c = paste_calls(payload, delay_ms, restore, a);
            last_written(c, c.len() as int) == Some(
                if puts_back(restore, a) {
                    snapshot_of(restore, a.read)->0
                } else {
                    payload
                },
            )
        }),
        restore && a.read is Ok && a.written is Ok && a.available && a.sent is Err ==> puts_back(
            restore,
            a,
        ) && paste_result(a) is Err,
        a.written is Ok && !a.available ==> !puts_back(restore, a) && paste_result(a) is Ok,
{
    reveal_with_fuel(last_written, 9);
}

/// What is put back was read before anything was written.
pub proof fn snapshot_comes_first(
    payload: Seq<char>,
    delay_ms: u64,
    restore: bool,
    a: PasteAnswers,
    i: int,
)
    requires
        0 <= i < paste_calls(payload, delay_ms, restore, a).len(),
    ensures
        paste_calls(payload, delay_ms, restore, a)[i] is Read ==> i == 0 && restore,
        restore ==> paste_calls(payload, delay_ms, restore, a)[0] == DeviceCall::Read(a.read),
{
}

// ---- one at a time ------------------------------------------------------

/// Lets one paste through at a time.
#[derive(Debug)]
pub struct PasteGate {
    busy: bool,
}

impl PasteGate {
    /// Is a paste under way?
    pub closed spec fn is_busy(&self) -> bool {
        self.busy
    }

    pub fn new() -> (r: Self)
        ensures
            !r.is_busy(),
    {
        PasteGate { busy: false }
    }

    /// A paste is asked for: may it go ahead? One that is asked for while another is under way
    /// is dropped, not put off: two sequences would put back each other's texts.
    pub fn enter(&mut self) -> (r: bool)
        ensures
            r == !old(self).is_busy(),
            final(self).is_busy(),
    {
        let free = !self.busy;
        self.busy = true;
        free
    }

    /// The paste that was let through has ended, well or not.
    pub fn leave(&mut self)
        ensures
            !final(self).is_busy(),
    {
        self.busy = false;
    }
}

/// What happens at a [`PasteGate`].
pub enum GateEvent {
    Asked,
    Ended,
}

/// Is a paste under way after the first `n` events? The last of them says so.
pub open spec fn gate_busy(events: Seq<GateEvent>, n: int) -> bool {
    n > 0 && events[n - 1] is Asked
}

/// Is event `i` a request that is let through?
pub open spec fn let_through(events: Seq<GateEvent>, i: int) -> bool {
    0 <= i < events.len() && events[i] is Asked && !gate_busy(events, i)
}

/// Two pastes are never under way at once: between two that are let through, one has ended.
pub proof fn one_paste_at_a_time(events: Seq<GateEvent>, i: int, j: int)
    requires
        let_through(events, i),
        let_through(events, j),
        i < j,
    ensures
        exists|k: int| i < k < j && (#[trigger] events[k]) is Ended,
{
    assert(events[j - 1] is Ended);
}

// ---- many callers -------------------------------------------------------

/// What one caller asks for, and what the devices answer if it is let through.
pub struct PasteRequest {
    pub payload: Seq<char>,
    pub answers: PasteAnswers,
}

/// What the callers do, each named by the place of its request.
pub enum PasteMoment {
    /// The caller asks to be let through.
    Asked(int),
    /// The caller makes its next call on the devices.
    Called(int),
    /// The caller has made its calls and leaves.
    Ended(int),
}

/// Where the callers stand.
pub struct PasteProgress {
    /// The caller that was let through and has not left, and how many calls it has made.
    pub under_way: Option<(int, int)>,
    /// The calls made on the devices.
    pub record: Seq<DeviceCall>,
    /// The callers that were let through and have left, in this order.
    pub finished: Seq<int>,
}

/// The calls that a caller makes if it is let through.
pub open spec fn calls_for(request: PasteRequest, delay_ms: u64, restore: bool) -> Seq<DeviceCall> {
    paste_calls(request.payload, delay_ms, restore, request.answers)
}

/// One moment. A caller is let through where no other is under way. One that was not let
/// through makes no call and has nothing to leave.
pub open spec fn moment_later(
    p: PasteProgress,
    requests: Seq<PasteRequest>,
    delay_ms: u64,
    restore: bool,
    moment: PasteMoment,
) -> PasteProgress {
    match (moment, p.under_way) {
        (PasteMoment::Asked(w), None) => PasteProgress { under_way: Some((w, 0)), ..p },
        (PasteMoment::Called(w), Some((v, made))) => {
            let calls = calls_for(requests[w], delay_ms, restore);
            if w == v && made < calls.len() {
                PasteProgress {
                    under_way: Some((w, made + 1)),
                    record: p.record.push(calls[made]),
                    ..p
                }
            } else {
                p
            }
        },
        (PasteMoment::Ended(w), Some((v, made))) => if w == v && made == calls_for(
            requests[w],
            delay_ms,
            restore,
        ).len() {
            PasteProgress { under_way: None, finished: p.finished.push(w), ..p }
        } else {
            p
        },
        _ => p,
    }
}

/// Where the callers stand after some moments.
pub open spec fn progress_after(
    requests: Seq<PasteRequest>,
    delay_ms: u64,
    restore: bool,
    moments: Seq<PasteMoment>,
) -> PasteProgress
    decreases moments.len(),
{
    if moments.len() == 0 {
        PasteProgress { under_way: None, record: Seq::empty(), finished: Seq::empty() }
    } else {
        moment_later(
            progress_after(requests, delay_ms, restore, moments.drop_last()),
            requests,
            delay_ms,
            restore,
            moments.last(),
        )
    }
}

/// The calls of these callers, one caller after the other.
pub open spec fn calls_in_turn(
    requests: Seq<PasteRequest>,
    delay_ms: u64,
    restore: bool,
    callers: Seq<int>,
) -> Seq<DeviceCall>
    decreases callers.len(),
{
    if callers.len() == 0 {
        Seq::empty()
    } else {
        calls_in_turn(requests, delay_ms, restore, callers.drop_last()) + calls_for(
            requests[callers.last()],
            delay_ms,
            restore,
        )
    }
}

/// Law: however the callers come and go, the calls of two pastes never mix. The record is all
/// calls of each finished paste, one after the other, and then those that the paste under way
/// has made.
pub proof fn pastes_never_mix(
    requests: Seq<PasteRequest>,
    delay_ms: u64,
    restore: bool,
    moments: Seq<PasteMoment>,
)
    ensures
        ({
            let p = progress_after(requests, delay_ms, restore, moments);
            let finished = calls_in_turn(requests, delay_ms, restore, p.finished);
            match p.under_way {
                None => p.record == finished,
                Some((w, made)) => {
                    let calls = calls_for(requests[w], delay_ms, restore);
                    0 <= made <= calls.len() && p.record == finished + calls.take(made)
                },
            }
        }),
    decreases moments.len(),
{
    if moments.len() > 0 {
        pastes_never_mix(requests, delay_ms, restore, moments.drop_last());
        let p = progress_after(requests, delay_ms, restore, moments.drop_last());
        let q = progress_after(requests, delay_ms, restore, moments);
        let finished = calls_in_turn(requests, delay_ms, restore, p.finished);
        match (moments.last(), p.under_way) {
            (PasteMoment::Asked(w), None) => {
                let calls = calls_for(requests[w], delay_ms, restore);
                assert(finished + calls.take(0) =~= finished);
            },
            (PasteMoment::Called(w), Some((v, made))) => {
                let calls = calls_for(requests[w], delay_ms, restore);
                if w == v && made < calls.len() {
                    assert((finished + calls.take(made)).push(calls[made]) =~= finished
                        + calls.take(made + 1));
                }
            },
            (PasteMoment::Ended(w), Some((v, made))) => {
                let calls = calls_for(requests[w], delay_ms, restore);
                if w == v && made == calls.len() {
                    assert(calls.take(made) =~= calls);
                    assert(q.finished.drop_last() =~= p.finished);
                }
            },
            _ => {},
        }
    }
}

/// The texts that were written, in order.
pub open spec fn writes_of(calls: Seq<DeviceCall>) -> Seq<Seq<char>>
    decreases calls.len(),
{
    if calls.len() == 0 {
        Seq::empty()
    } else {
        match calls.last() {
            DeviceCall::Write(text, _) => writes_of(calls.drop_last()).push(text),
            _ => writes_of(calls.drop_last()),
        }
    }
}

/// The text on the clipboard after some calls, if nobody else writes: the last one that was
/// written without an error, or the one that was there.
pub open spec fn held_text(calls: Seq<DeviceCall>, original: Seq<char>) -> Seq<char>
    decreases calls.len(),
{
    if calls.len() == 0 {
        original
    } else {
        match calls.last() {
            DeviceCall::Write(text, Ok(())) => text,
            _ => held_text(calls.drop_last(), original),
        }
    }
}

proof fn writes_add_up(a: Seq<DeviceCall>, b: Seq<DeviceCall>, original: Seq<char>)
    ensures
        writes_of(a + b) == writes_of(a) + writes_of(b),
        held_text(a + b, original) == held_text(b, held_text(a, original)),
    decreases b.len(),
{
    if b.len() == 0 {
        assert(a + b =~= a);
        assert(writes_of(a) + writes_of(b) =~= writes_of(a));
    } else {
        writes_add_up(a, b.drop_last(), original);
        assert((a + b).drop_last() =~= a + b.drop_last());
        assert((a + b).last() == b.last());
        assert(writes_of(a + b) =~= writes_of(a) + writes_of(b));
    }
}

/// The devices answer paste `k` well: the read gives the text on the clipboard, the writes
/// succeed, and there is a keyboard.
pub open spec fn answered_well(
    requests: Seq<PasteRequest>,
    delay_ms: u64,
    callers: Seq<int>,
    original: Seq<char>,
    k: int,
) -> bool {
    let a = requests[callers[k]].answers;
    &&& a.read == Ok::<Seq<char>, ClipboardError>(
        held_text(calls_in_turn(requests, delay_ms, true, callers.take(k)), original),
    )
    &&& a.written == Ok::<(), ClipboardError>(())
    &&& a.available
    &&& a.restored == Ok::<(), ClipboardError>(())
}

/// Each payload, followed by the original text.
pub open spec fn payload_pairs(
    requests: Seq<PasteRequest>,
    callers: Seq<int>,
    original: Seq<char>,
) -> Seq<Seq<char>> {
    Seq::new(
        2 * callers.len(),
        |i: int|
            if i % 2 == 0 {
                requests[callers[i / 2]].payload
            } else {
                original
            },
    )
}

proof fn one_paste_writes_a_pair(request: PasteRequest, delay_ms: u64, text: Seq<char>)
    requires
        request.answers.read == Ok::<Seq<char>, ClipboardError>(text),
        request.answers.written == Ok::<(), ClipboardError>(()),
        request.answers.available,
        request.answers.restored == Ok::<(), ClipboardError>(()),
    ensures
        writes_of(calls_for(request, delay_ms, true)) == seq![request.payload, text],
        held_text(calls_for(request, delay_ms, true), text) == text,
{
    let c = calls_for(request, delay_ms, true);
    let a = request.answers;
    let read = seq![DeviceCall::Read(a.read)];
    let write = seq![
        DeviceCall::Announce(request.payload),
        DeviceCall::Write(request.payload, a.written),
    ];
    let keys = keystroke_calls(delay_ms, a);
    let back = seq![DeviceCall::Announce(text), DeviceCall::Write(text, a.restored)];
    assert(c == read + write + keys + back);
    reveal_with_fuel(writes_of, 4);
    reveal_with_fuel(held_text, 4);
    assert(read.drop_last() =~= Seq::<DeviceCall>::empty());
    assert(writes_of(read) =~= Seq::<Seq<char>>::empty());
    assert(write.drop_last().last() == write[0]);
    assert(write.drop_last().drop_last() =~= Seq::<DeviceCall>::empty());
    assert(writes_of(write) =~= seq![request.payload]);
    assert(back.drop_last().last() == back[0]);
    assert(back.drop_last().drop_last() =~= Seq::<DeviceCall>::empty());
    assert(writes_of(back) =~= seq![text]);
    assert(writes_of(keys) =~= Seq::<Seq<char>>::empty()) by {
        let k1 = keys.drop_last();
        let k2 = k1.drop_last();
        assert(k1.last() == keys[keys.len() - 2]);
        if delay_ms > 0 {
            assert(k2.last() == keys[0]);
            assert(k2.drop_last() =~= Seq::<DeviceCall>::empty());
        } else {
            assert(k2 =~= Seq::<DeviceCall>::empty());
        }
    }
    writes_add_up(read, write, text);
    writes_add_up(read + write, keys, text);
    writes_add_up(read + write + keys, back, text);
    assert(writes_of(c) =~= seq![request.payload, text]);
}

/// Law: with restoring on and devices that answer well, whatever number of callers pastes at
/// once, the writes are pairs of a payload and the original text, never mixed, and the
/// original text is on the clipboard in the end.
pub proof fn pastes_leave_the_original(
    requests: Seq<PasteRequest>,
    delay_ms: u64,
    moments: Seq<PasteMoment>,
    original: Seq<char>,
)
    requires
        ({
            let p = progress_after(requests, delay_ms, true, moments);
            &&& p.under_way is None
            &&& forall|k: int|
                0 <= k < p.finished.len() ==> #[trigger] answered_well(
                    requests,
                    delay_ms,
                    p.finished,
                    original,
                    k,
                )
        }),
    ensures
        ({
            let p = progress_after(requests, delay_ms, true, moments);
            &&& writes_of(p.record) == payload_pairs(requests, p.finished, original)
            &&& held_text(p.record, original) == original
        }),
{
    let p = progress_after(requests, delay_ms, true, moments);
    pastes_never_mix(requests, delay_ms, true, moments);
    pairs_in_turn(requests, delay_ms, p.finished, original);
}

proof fn pairs_in_turn(
    requests: Seq<PasteRequest>,
    delay_ms: u64,
    callers: Seq<int>,
    original: Seq<char>,
)
    requires
        forall|k: int|
            0 <= k < callers.len() ==> #[trigger] answered_well(
                requests,
                delay_ms,
                callers,
                original,
                k,
            ),
    ensures
        writes_of(calls_in_turn(requests, delay_ms, true, callers)) == payload_pairs(
            requests,
            callers,
            original,
        ),
        held_text(calls_in_turn(requests, delay_ms, true, callers), original) == original,
    decreases callers.len(),
{
    if callers.len() == 0 {
        assert(payload_pairs(requests, callers, original) =~= Seq::<Seq<char>>::empty());
    } else {
        let before = callers.drop_last();
        let n = callers.len() - 1;
        assert(answered_well(requests, delay_ms, callers, original, n));
        assert(callers.take(n) =~= before);
        assert forall|k: int| 0 <= k < before.len() implies #[trigger] answered_well(
            requests,
            delay_ms,
            before,
            original,
            k,
        ) by {
            assert(answered_well(requests, delay_ms, callers, original, k));
            assert(before.take(k) =~= callers.take(k));
        }
        pairs_in_turn(requests, delay_ms, before, original);
        let request = requests[callers.last()];
        one_paste_writes_a_pair(request, delay_ms, original);
        writes_add_up(
            calls_in_turn(requests, delay_ms, true, before),
            calls_for(request, delay_ms, true),
            original,
        );
        let pairs = payload_pairs(requests, callers, original);
        let first = payload_pairs(requests, before, original);
        assert(pairs =~= first + seq![request.payload, original]);
    }
}

} // verus!
