//! A channel whose receiving end is handed out exactly once.
//!
//! The first taker gets the real receiver. A later one gets a receiver whose channel has no
//! sender left, so that a consumer loop on it ends at once instead of waiting forever.
use std::sync::mpsc::{channel, Receiver, Sender};
use vstd::prelude::*;

verus! {

/// `std::sync::mpsc::Sender`.
#[verifier::external_type_specification]
#[verifier::external_body]
#[verifier::reject_recursive_types(T)]
pub struct ExSender<T>(Sender<T>);

/// `std::sync::mpsc::Receiver`.
#[verifier::external_type_specification]
#[verifier::external_body]
#[verifier::reject_recursive_types(T)]
pub struct ExReceiver<T>(Receiver<T>);

/// A sending end, with the line that it feeds and what has been sent through it.
#[verifier::reject_recursive_types(T)]
struct SendEnd<T> {
    tx: Sender<T>,
    line: Ghost<int>,
    sent: Ghost<Seq<T>>,
}

/// A receiving end, with the line that it drains.
#[verifier::reject_recursive_types(T)]
struct ReceiveEnd<T> {
    rx: Receiver<T>,
    line: Ghost<int>,
}

/// Has the receiver's channel no sender left, so that a receive on it ends at once? It is a
/// property of the receiver of which nothing else is known.
pub closed spec fn severed<T>(rx: Receiver<T>) -> bool {
    arbitrary::<spec_fn(Receiver<T>) -> bool>()(rx)
}

/// Calls `std::sync::mpsc::channel`. Claimed: both ends are on one line, so that the receiver
/// gets what the sender and its clones send, and nothing has been sent.
#[verifier::external_body]
fn open_channel<T>() -> (r: (SendEnd<T>, ReceiveEnd<T>))
    ensures
        r.0.line@ == r.1.line@,
        r.0.sent@ == Seq::<T>::empty(),
{
    let (tx, rx) = channel();
    (
        SendEnd { tx, line: Ghost(0), sent: Ghost(Seq::empty()) },
        ReceiveEnd { rx, line: Ghost(0) },
    )
}

/// Calls `std::sync::mpsc::channel` and lets go of the sender. Claimed: the receiver has no
/// sender left.
#[verifier::external_body]
pub(crate) fn severed_receiver<T>() -> (r: Receiver<T>)
    ensures
        severed(r),
{
    channel().1
}

/// Calls `Sender::send` and drops its result: that nobody listens any more is no fault of the
/// sender. Claimed: the value has been sent down the line, behind all that was sent before.
#[verifier::external_body]
fn send_down<T>(end: &mut SendEnd<T>, value: T)
    ensures
        final(end).sent@ == old(end).sent@.push(value),
        final(end).tx == old(end).tx,
        final(end).line == old(end).line,
{
    let _ = end.tx.send(value);
}

/// Calls `Sender::clone`. Claimed: the clone is as good as the sender, since it feeds the same
/// channel.
#[verifier::external_body]
fn another_sender<T>(tx: &Sender<T>) -> (r: Sender<T>)
    ensures
        r == *tx,
{
    tx.clone()
}

/// A channel with one consumer, whose receiver is handed out once.
#[verifier::reject_recursive_types(T)]
pub struct TakeOnceChannel<T> {
    tx: SendEnd<T>,
    rx: Option<ReceiveEnd<T>>,
    opened: Ghost<ReceiveEnd<T>>,
}

/// One attempt to take the receiver of `before`, which leaves `after` and gives `r`.
pub open spec fn is_take<T>(
    before: TakeOnceChannel<T>,
    after: TakeOnceChannel<T>,
    r: Option<Receiver<T>>,
) -> bool {
    &&& r == before.receiver()
    &&& after.receiver() is None
    &&& after.kept_sender() == before.kept_sender()
    &&& after.fed() == before.fed()
    &&& after.sent() == before.sent()
    &&& before.linked() ==> after.linked()
}

/// One value sent on `before`, which leaves `after`.
pub open spec fn is_send<T>(before: TakeOnceChannel<T>, after: TakeOnceChannel<T>, value: T) -> bool {
    &&& after.sent() == before.sent().push(value)
    &&& after.receiver() == before.receiver()
    &&& after.kept_sender() == before.kept_sender()
    &&& after.fed() == before.fed()
    &&& before.linked() ==> after.linked()
}

impl<T> TakeOnceChannel<T> {
    /// The receiver, until it has been taken.
    pub closed spec fn receiver(&self) -> Option<Receiver<T>> {
        match self.rx {
            Some(end) => Some(end.rx),
            None => None,
        }
    }

    /// The sending end that is kept.
    pub closed spec fn kept_sender(&self) -> Sender<T> {
        self.tx.tx
    }

    /// The receiver that was opened for this channel, taken or not.
    pub closed spec fn fed(&self) -> Receiver<T> {
        self.opened@.rx
    }

    /// What has been sent on the channel itself, in order. What a sender that was handed out
    /// sends is not in it.
    pub closed spec fn sent(&self) -> Seq<T> {
        self.tx.sent@
    }

    /// The receiver opened for this channel is on the line of the kept sender, and no other
    /// one is ever kept.
    pub closed spec fn linked(&self) -> bool {
        &&& self.opened@.line@ == self.tx.line@
        &&& self.rx matches Some(end) ==> end == self.opened@
    }

    /// A fresh channel with its receiver still there.
    pub fn new() -> (r: Self)
        ensures
            r.linked(),
            r.receiver() == Some(r.fed()),
            r.sent() == Seq::<T>::empty(),
    {
        let (tx, rx) = open_channel::<T>();
        let ghost opened = rx;
        TakeOnceChannel { tx, rx: Some(rx), opened: Ghost(opened) }
    }

    /// A sender for a worker to emit on.
    pub fn sender(&self) -> (r: Sender<T>)
        ensures
            r == self.kept_sender(),
    {
        another_sender(&self.tx.tx)
    }

    /// Sends `value` to whoever has the receiver, if anybody has.
    pub(crate) fn send(&mut self, value: T)
        ensures
            is_send(*old(self), *final(self), value),
    {
        send_down(&mut self.tx, value);
    }

    /// The real receiver on the first call, `None` on every later one.
    pub fn try_take(&mut self) -> (r: Option<Receiver<T>>)
        ensures
            is_take(*old(self), *final(self), r),
    {
        match self.rx.take() {
            Some(end) => Some(end.rx),
            None => None,
        }
    }

    /// The real receiver on the first call; on every later one the receiver of a channel that
    /// has lost its only sender.
    pub fn take(&mut self) -> (r: Receiver<T>)
        ensures
            is_take(*old(self), *final(self), old(self).receiver()),
            old(self).receiver() matches Some(rx) ==> r == rx,
            old(self).receiver() is None ==> severed(r),
    {
        match self.try_take() {
            Some(rx) => rx,
            None => severed_receiver(),
        }
    }
}

impl<T> Default for TakeOnceChannel<T> {
    fn default() -> (r: Self)
        ensures
            r.linked(),
            r.receiver() == Some(r.fed()),
            r.sent() == Seq::<T>::empty(),
    {
        TakeOnceChannel::new()
    }
}

/// Law: of any number of attempts on one channel exactly the first gets a receiver. It is the
/// one that the channel's senders feed, and every sender handed out meanwhile is that sender.
/// `channels` holds the channel before and after each attempt.
pub proof fn only_the_first_attempt_gets_the_receiver<T>(
    channels: Seq<TakeOnceChannel<T>>,
    taken: Seq<Option<Receiver<T>>>,
)
    requires
        channels.len() == taken.len() + 1,
        channels[0].linked(),
        channels[0].receiver() == Some(channels[0].fed()),
        forall|i: int|
            0 <= i < taken.len() ==> #[trigger] is_take(channels[i], channels[i + 1], taken[i]),
    ensures
        forall|i: int|
            0 <= i < taken.len() ==> #[trigger] taken[i] == (if i == 0 {
                Some(channels[0].fed())
            } else {
                None
            }),
        forall|i: int|
            0 <= i < channels.len() ==> (#[trigger] channels[i]).linked()
                && channels[i].kept_sender() == channels[0].kept_sender() && channels[i].fed()
                == channels[0].fed(),
    decreases taken.len(),
{
    if taken.len() > 0 {
        let n = taken.len() - 1;
        assert(is_take(channels[n], channels[n + 1], taken[n]));
        assert forall|i: int| 0 <= i < n implies #[trigger] is_take(
            channels.drop_last()[i],
            channels.drop_last()[i + 1],
            taken.drop_last()[i],
        ) by {
            assert(is_take(channels[i], channels[i + 1], taken[i]));
        }
        only_the_first_attempt_gets_the_receiver(channels.drop_last(), taken.drop_last());
        assert forall|i: int| 0 <= i < taken.len() implies #[trigger] taken[i] == (if i == 0 {
            Some(channels[0].fed())
        } else {
            None
        }) by {
            if i < n {
                assert(taken.drop_last()[i] == taken[i]);
            } else if n > 0 {
                assert(is_take(channels[n - 1], channels[n - 1 + 1], taken[n - 1]));
            }
        }
        assert forall|i: int| 0 <= i < channels.len() implies (#[trigger] channels[i]).linked()
            && channels[i].kept_sender() == channels[0].kept_sender() && channels[i].fed()
            == channels[0].fed() by {
            let j = if i <= n { i } else { n };
            assert(channels.drop_last()[j] == channels[j]);
            assert(channels.drop_last()[j].linked());
        }
    }
}

/// The values among the steps, in order. A step without one is an attempt to take the receiver.
pub open spec fn values_sent<T>(steps: Seq<Option<T>>) -> Seq<T>
    decreases steps.len(),
{
    if steps.len() == 0 {
        Seq::empty()
    } else {
        match steps.last() {
            Some(value) => values_sent(steps.drop_last()).push(value),
            None => values_sent(steps.drop_last()),
        }
    }
}

/// Law: whatever is sent on a channel goes down the line of its one receiver, every value once
/// and in order, before and after the receiver is taken. `channels` holds the channel before
/// and after each step.
pub proof fn every_value_goes_down_the_line<T>(
    channels: Seq<TakeOnceChannel<T>>,
    steps: Seq<Option<T>>,
)
    requires
        channels.len() == steps.len() + 1,
        channels[0].linked(),
        forall|i: int|
            #![trigger steps[i]]
            0 <= i < steps.len() ==> match steps[i] {
                Some(value) => is_send(channels[i], channels[i + 1], value),
                None => is_take(channels[i], channels[i + 1], channels[i].receiver()),
            },
    ensures
        channels.last().sent() == channels[0].sent() + values_sent(steps),
        channels.last().linked(),
        channels.last().fed() == channels[0].fed(),
        channels.last().kept_sender() == channels[0].kept_sender(),
    decreases steps.len(),
{
    if steps.len() == 0 {
        assert(channels[0].sent() + values_sent(steps) =~= channels[0].sent());
    } else {
        let n = steps.len() - 1;
        let first = channels.drop_last();
        assert forall|i: int|
            #![trigger steps.drop_last()[i]]
            0 <= i < n implies match steps.drop_last()[i] {
            Some(value) => is_send(first[i], first[i + 1], value),
            None => is_take(first[i], first[i + 1], first[i].receiver()),
        } by {
            assert(steps.drop_last()[i] == steps[i]);
        }
        every_value_goes_down_the_line(first, steps.drop_last());
        assert(first.last() == channels[n]);
        assert(channels.last() == channels[n + 1]);
        assert(steps[n] == steps.last());
        assert(channels.last().sent() =~= channels[0].sent() + values_sent(steps));
    }
}

} // verus!
