//! The decisions of the thread that owns the display connection: what to do next, given what
//! just happened.
use crate::grabs::{matched, ReaderState};
use vstd::prelude::*;

verus! {

// ---- waiting ------------------------------------------------------------

/// What to do after waiting on the display connection and the wake pipe.
#[derive(Debug, Clone, Copy, PartialEq, Eq, Structural)]
pub enum PollOutcome {
    /// Business as usual.
    Continue,
    /// The display connection is gone; try to build it again.
    Reconnect,
    /// The owner is gone; wind down.
    Exit,
}

/// The bits by which `poll` reports an error, a hang-up or a bad descriptor.
pub const POLL_BAD: i16 = 0x38;

pub open spec fn classified(x_revents: i16, wake_revents: i16) -> PollOutcome {
    if wake_revents & POLL_BAD != 0 {
        PollOutcome::Exit
    } else if x_revents & POLL_BAD != 0 {
        PollOutcome::Reconnect
    } else {
        PollOutcome::Continue
    }
}

/// Classifies what `poll` reported of the two descriptors. The wake pipe counts first: if the
/// owner is gone there is nobody left to serve.
pub fn poll_outcome(x_revents: i16, wake_revents: i16) -> (r: PollOutcome)
    ensures
        r == classified(x_revents, wake_revents),
{
    if wake_revents & POLL_BAD != 0 {
        PollOutcome::Exit
    } else if x_revents & POLL_BAD != 0 {
        PollOutcome::Reconnect
    } else {
        PollOutcome::Continue
    }
}

// ---- the wake pipe ------------------------------------------------------

/// How many bytes one read of the wake pipe asks for.
pub const WAKE_BUFFER: usize = 64;

/// What one read of the wake pipe gave.
#[derive(Debug, Clone, Copy, PartialEq, Eq, Structural)]
pub enum WakeRead {
    Bytes(usize),
    WouldBlock,
    Interrupted,
    Failed,
}

/// What to make of a read of the wake pipe.
#[derive(Debug, Clone, Copy, PartialEq, Eq, Structural)]
pub enum WakeStep {
    /// The pipe is empty and open.
    Quiet,
    /// The pipe is closed or broken.
    Closed,
    /// There may be more to read.
    ReadAgain,
}

pub open spec fn wake_step_of(read: WakeRead) -> WakeStep {
    match read {
        WakeRead::Bytes(n) => if n == 0 {
            WakeStep::Closed
        } else if n < WAKE_BUFFER {
            WakeStep::Quiet
        } else {
            WakeStep::ReadAgain
        },
        WakeRead::WouldBlock => WakeStep::Quiet,
        WakeRead::Interrupted => WakeStep::ReadAgain,
        WakeRead::Failed => WakeStep::Closed,
    }
}

/// Judges one read of the wake pipe. No bytes at all means that every writer is gone, which
/// ends the thread instead of making it read forever.
pub fn wake_step(read: WakeRead) -> (r: WakeStep)
    ensures
        r == wake_step_of(read),
{
    match read {
        WakeRead::Bytes(n) => if n == 0 {
            WakeStep::Closed
        } else if n < WAKE_BUFFER {
            WakeStep::Quiet
        } else {
            WakeStep::ReadAgain
        },
        WakeRead::WouldBlock => WakeStep::Quiet,
        WakeRead::Interrupted => WakeStep::ReadAgain,
        WakeRead::Failed => WakeStep::Closed,
    }
}

// ---- reconnecting -------------------------------------------------------

/// How often a lost connection is tried again before giving up.
pub const RECONNECT_ATTEMPTS: u32 = 5;

/// What to do after an attempt to reconnect.
#[derive(Debug, Clone, Copy, PartialEq, Eq, Structural)]
pub enum ReconnectStep {
    Connected,
    /// Wait and try again, with this number.
    Retry(u32),
    GiveUp,
}

/// Judges attempt number `attempt`, counted from 1.
pub fn reconnect_step(attempt: u32, connected: bool) -> (r: ReconnectStep)
    ensures
        r == (if connected {
            ReconnectStep::Connected
        } else if attempt < RECONNECT_ATTEMPTS {
            ReconnectStep::Retry((attempt + 1) as u32)
        } else {
            ReconnectStep::GiveUp
        }),
{
    if connected {
        ReconnectStep::Connected
    } else if attempt < RECONNECT_ATTEMPTS {
        ReconnectStep::Retry(attempt + 1)
    } else {
        ReconnectStep::GiveUp
    }
}

// ---- events from the server ---------------------------------------------

/// An event from the display server, as far as it matters.
#[derive(Debug, Clone, Copy, PartialEq, Eq, Structural)]
pub enum ServerEvent {
    KeyPress { keycode: u8, state: u16 },
    /// The modifier map or the keyboard map changed.
    KeysRemapped,
    /// The map of pointer buttons changed.
    PointerRemapped,
    Other,
}

/// What to do about an event.
#[derive(Debug, Clone, Copy, PartialEq, Eq, Structural)]
pub enum Dispatch {
    /// Report this id.
    Fire(u32),
    /// Release all grabs, resolve the layout anew, and register everything again.
    Remap,
    Ignore,
}

/// Decides what an event means for the registered shortcuts.
pub fn dispatch(reader: &ReaderState, event: ServerEvent) -> (r: Dispatch)
    ensures
        r == (match event {
            ServerEvent::KeyPress { keycode, state } => match matched(
                reader.table(),
                keycode,
                state,
                reader.spec_layout(),
                0,
            ) {
                Some(id) => Dispatch::Fire(id),
                None => Dispatch::Ignore,
            },
            ServerEvent::KeysRemapped => Dispatch::Remap,
            _ => Dispatch::Ignore,
        }),
{
    match event {
        ServerEvent::KeyPress { keycode, state } => match reader.matching(keycode, state) {
            Some(id) => Dispatch::Fire(id),
            None => Dispatch::Ignore,
        },
        ServerEvent::KeysRemapped => Dispatch::Remap,
        _ => Dispatch::Ignore,
    }
}

// ---- the loop -----------------------------------------------------------

/// What the thread does next.
#[derive(Debug, Clone, Copy, PartialEq, Eq, Structural)]
pub enum Phase {
    /// Empty the wake pipe.
    DrainWake,
    /// Take the next command out of the queue.
    TakeCommand,
    /// Handle the events that have arrived.
    DrainEvents,
    /// Wait for the connection or the wake pipe.
    Wait,
    /// Pause after a failed wait, so that a lasting failure does not become a busy loop.
    Pause,
    /// Build the connection again.
    Reconnect,
    Exit,
}

/// What came of it.
#[derive(Debug, Clone, Copy, PartialEq, Eq, Structural)]
pub enum PhaseResult {
    /// The wake pipe has been emptied; is it still open?
    Wake { open: bool },
    /// A command to register or unregister has been carried out.
    CommandDone,
    /// The queue is empty.
    NoCommand,
    /// The queue holds a request to stop, or nobody can put anything into it any more.
    Stop,
    /// Events have been handled; does the connection still work?
    Events { alive: bool },
    /// The wait ended with these reports.
    Polled { x_revents: i16, wake_revents: i16 },
    /// The wait failed.
    PollFailed { interrupted: bool },
    Paused,
    Reconnected { connected: bool },
}

/// Can this result come out of this phase?
pub open spec fn result_fits(phase: Phase, result: PhaseResult) -> bool {
    match phase {
        Phase::DrainWake => result is Wake,
        Phase::TakeCommand => result is CommandDone || result is NoCommand || result is Stop,
        Phase::DrainEvents => result is Events,
        Phase::Wait => result is Polled || result is PollFailed,
        Phase::Pause => result is Paused,
        Phase::Reconnect => result is Reconnected,
        Phase::Exit => false,
    }
}

/// The phase that follows.
pub open spec fn phase_after(phase: Phase, result: PhaseResult) -> Phase {
    match result {
        PhaseResult::Wake { open } => if open {
            Phase::TakeCommand
        } else {
            Phase::Exit
        },
        PhaseResult::CommandDone => Phase::TakeCommand,
        PhaseResult::NoCommand => Phase::DrainEvents,
        PhaseResult::Stop => Phase::Exit,
        PhaseResult::Events { alive } => if alive {
            Phase::Wait
        } else {
            Phase::Reconnect
        },
        PhaseResult::Polled { x_revents, wake_revents } => match classified(
            x_revents,
            wake_revents,
        ) {
            PollOutcome::Continue => Phase::DrainWake,
            PollOutcome::Reconnect => Phase::Reconnect,
            PollOutcome::Exit => Phase::Exit,
        },
        PhaseResult::PollFailed { interrupted } => if interrupted {
            Phase::DrainWake
        } else {
            Phase::Pause
        },
        PhaseResult::Paused => Phase::DrainWake,
        PhaseResult::Reconnected { connected } => if connected {
            Phase::DrainWake
        } else {
            Phase::Exit
        },
    }
}

/// Decides what the thread does next. It starts with [`Phase::DrainWake`].
pub fn next_phase(phase: Phase, result: PhaseResult) -> (r: Phase)
    requires
        result_fits(phase, result),
    ensures
        r == phase_after(phase, result),
{
    match result {
        PhaseResult::Wake { open } => if open {
            Phase::TakeCommand
        } else {
            Phase::Exit
        },
        PhaseResult::CommandDone => Phase::TakeCommand,
        PhaseResult::NoCommand => Phase::DrainEvents,
        PhaseResult::Stop => Phase::Exit,
        PhaseResult::Events { alive } => if alive {
            Phase::Wait
        } else {
            Phase::Reconnect
        },
        PhaseResult::Polled { x_revents, wake_revents } => match poll_outcome(
            x_revents,
            wake_revents,
        ) {
            PollOutcome::Continue => Phase::DrainWake,
            PollOutcome::Reconnect => Phase::Reconnect,
            PollOutcome::Exit => Phase::Exit,
        },
        PhaseResult::PollFailed { interrupted } => if interrupted {
            Phase::DrainWake
        } else {
            Phase::Pause
        },
        PhaseResult::Paused => Phase::DrainWake,
        PhaseResult::Reconnected { connected } => if connected {
            Phase::DrainWake
        } else {
            Phase::Exit
        },
    }
}

/// The thread never waits with a command unread: it gets to a wait only from handling events,
/// to that only from an empty queue, and to the queue only after emptying the wake pipe.
pub proof fn waits_only_with_nothing_to_do(phase: Phase, result: PhaseResult)
    requires
        result_fits(phase, result),
    ensures
        phase_after(phase, result) == Phase::Wait ==> phase == Phase::DrainEvents && result
            == (PhaseResult::Events { alive: true }),
        phase_after(phase, result) == Phase::DrainEvents ==> phase == Phase::TakeCommand && result
            is NoCommand,
        phase_after(phase, result) == Phase::TakeCommand ==> (phase == Phase::DrainWake && result
            == (PhaseResult::Wake { open: true })) || (phase == Phase::TakeCommand && result
            is CommandDone),
{
}

/// A connection that has failed is never waited on again: the thread reconnects or ends.
pub proof fn dead_connections_are_not_polled(phase: Phase, x_revents: i16, wake_revents: i16)
    requires
        x_revents & POLL_BAD != 0 || wake_revents & POLL_BAD != 0,
    ensures
        ({
            let next = phase_after(Phase::Wait, PhaseResult::Polled { x_revents, wake_revents });
            next == Phase::Reconnect || next == Phase::Exit
        }),
        phase_after(Phase::DrainEvents, PhaseResult::Events { alive: false }) == Phase::Reconnect,
{
}

} // verus!
