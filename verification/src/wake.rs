//! Waking those who wait for key events.
//!
//! A registration has two channels for it. A blocking client waits on a
//! crossbeam channel with room for one message, the number of the newest event.
//! An async client waits on a tokio watch channel, whose value says nothing: only
//! its change counts.
//!
//! The receiving ends are shared with other threads, so what a call on them finds is
//! open. What is said of an end of a channel is what it has itself sent, taken out or
//! seen. A registration keeps the one sending end of each channel to itself, and a
//! receiving end beside it: so it knows when there is room, and that what it sends
//! goes out.

use vstd::prelude::*;

verus! {

/// How many messages a registration's blocking channel has room for.
pub const SYNC_CHANNEL_SIZE: usize = 1;

/// The longest wait for a wake: a billion years, in nanoseconds. Arithmetic on
/// longer times could overflow.
pub const LONGEST_WAIT: u128 = 1_000_000_000 * 365 * 24 * 60 * 60 * NANOS_PER_SEC;

pub const NANOS_PER_SEC: u128 = 1_000_000_000;

/// Why a client could not wait.
#[derive(Debug, Clone, Copy, PartialEq, Eq, Structural)]
pub enum WakeError {
    /// No one can send to the channel any more.
    Disconnected,
}

/// What became of a message for a blocking channel.
#[derive(Debug, Clone, Copy, PartialEq, Eq, Structural)]
pub enum SyncSend {
    Sent,
    Full(usize),
    Disconnected(usize),
}

/// How a wait on a blocking channel ended.
#[derive(Debug, Clone, Copy, PartialEq, Eq, Structural)]
pub enum Wake {
    Woken(usize),
    Timeout,
    Disconnected,
}

/// The sending end of a crossbeam channel.
#[verifier::external_type_specification]
#[verifier::external_body]
#[verifier::reject_recursive_types(T)]
pub struct ExSyncSender<T>(crossbeam_channel::Sender<T>);

/// The receiving end of a crossbeam channel.
#[verifier::external_type_specification]
#[verifier::external_body]
#[verifier::reject_recursive_types(T)]
pub struct ExSyncReceiver<T>(crossbeam_channel::Receiver<T>);

/// The sending end of a tokio watch channel.
#[verifier::external_type_specification]
#[verifier::external_body]
#[verifier::reject_recursive_types(T)]
pub struct ExAsyncSender<T>(tokio::sync::watch::Sender<T>);

/// The receiving end of a tokio watch channel.
#[verifier::external_type_specification]
#[verifier::external_body]
#[verifier::reject_recursive_types(T)]
pub struct ExAsyncReceiver<T>(tokio::sync::watch::Receiver<T>);

/// The messages that this sending end has put into its channel, oldest first.
pub uninterp spec fn sync_sent(sender: crossbeam_channel::Sender<usize>) -> Seq<usize>;

/// How many messages fit into the channel that this sending end belongs to.
pub uninterp spec fn sync_limit(sender: crossbeam_channel::Sender<usize>) -> nat;

/// Whether this is the only sending end that its channel ever had.
pub uninterp spec fn sync_alone(sender: crossbeam_channel::Sender<usize>) -> bool;

/// Whether the channel was found to have room for one more message, since this sending
/// end sent last. Where it is the only one there is room ever after, until it sends:
/// those who receive only take messages out.
pub uninterp spec fn sync_room(sender: crossbeam_channel::Sender<usize>) -> bool;

/// Which channel this sending end belongs to.
pub uninterp spec fn sync_sink(sender: crossbeam_channel::Sender<usize>) -> nat;

/// Which channel this receiving end belongs to.
pub uninterp spec fn sync_source(receiver: crossbeam_channel::Receiver<usize>) -> nat;

/// The messages that this receiving end has taken out of its channel, oldest first.
pub uninterp spec fn sync_received(receiver: crossbeam_channel::Receiver<usize>) -> Seq<usize>;

/// Whether the channel had no sending end left when this receiving end was last waited on.
/// It then never has one again.
pub uninterp spec fn sync_severed(receiver: crossbeam_channel::Receiver<usize>) -> bool;

/// How long this receiving end was told to wait at most, in nanoseconds, each time that it was
/// waited on.
pub uninterp spec fn sync_waits(receiver: crossbeam_channel::Receiver<usize>) -> Seq<nat>;

/// The values that this sending end has put into its watch channel, oldest first.
pub uninterp spec fn async_sent(sender: tokio::sync::watch::Sender<()>) -> Seq<()>;

/// Whether this is the only sending end of its watch channel.
pub uninterp spec fn async_alone(sender: tokio::sync::watch::Sender<()>) -> bool;

/// Which watch channel this sending end belongs to.
pub uninterp spec fn async_sink(sender: tokio::sync::watch::Sender<()>) -> nat;

/// Which watch channel this receiving end belongs to.
pub uninterp spec fn async_source(receiver: tokio::sync::watch::Receiver<()>) -> nat;

/// How many of the values that went through its watch channel this receiving end has
/// seen.
pub uninterp spec fn async_seen(receiver: tokio::sync::watch::Receiver<()>) -> nat;

/// Two states of one sending end, between which it has sent nothing.
pub open spec fn sync_sent_nothing(
    before: crossbeam_channel::Sender<usize>,
    after: crossbeam_channel::Sender<usize>,
) -> bool {
    &&& sync_sent(after) == sync_sent(before)
    &&& sync_limit(after) == sync_limit(before)
    &&& sync_alone(after) == sync_alone(before)
    &&& sync_sink(after) == sync_sink(before)
}

/// `crossbeam_channel::bounded`: the only two ends of a new channel with room for
/// `cap` messages, into which nothing was put yet and out of which nothing was taken.
///
/// It panics where `cap` is too large for its bookkeeping or for memory.
#[verifier::external_body]
pub(crate) fn sync_channel(cap: usize) -> (ends: (
    crossbeam_channel::Sender<usize>,
    crossbeam_channel::Receiver<usize>,
))
    requires
        cap <= 1024,
    ensures
        sync_limit(ends.0) == cap,
        sync_alone(ends.0),
        sync_sent(ends.0) == Seq::<usize>::empty(),
        sync_received(ends.1) == Seq::<usize>::empty(),
        sync_sink(ends.0) == sync_source(ends.1),
{
    crossbeam_channel::bounded(cap)
}

/// `crossbeam_channel::Sender::is_full`: whether the channel was full at that moment.
/// Where it was not, and no other end sends, it has room from then on. A receiver elsewhere
/// may empty it at any time, so nothing is said of a channel that was full.
#[verifier::external_body]
pub(crate) fn sync_is_full(sender: &mut crossbeam_channel::Sender<usize>) -> (full: bool)
    ensures
        sync_sent_nothing(*old(sender), *final(sender)),
        sync_alone(*old(sender)) && !full ==> sync_room(*final(sender)),
{
    sender.is_full()
}

/// `crossbeam_channel::Receiver::try_recv`: takes the oldest message out of the channel,
/// or finds that there is none at that moment. Which of these happens, and which message
/// it is, rests on other receivers. Where `_sender` is the only sending end that the channel
/// ever had, a message that is taken is one that it sent. Either way there is then room
/// afterwards in a channel that can hold a message, for `_sender` sends nothing meanwhile.
#[verifier::external_body]
pub(crate) fn sync_try_recv(
    receiver: &mut crossbeam_channel::Receiver<usize>,
    _sender: &mut crossbeam_channel::Sender<usize>,
) -> (message: Option<usize>)
    requires
        sync_source(*old(receiver)) == sync_sink(*old(_sender)),
    ensures
        sync_source(*final(receiver)) == sync_source(*old(receiver)),
        sync_received(*final(receiver)) == match message {
            Some(taken) => sync_received(*old(receiver)).push(taken),
            None => sync_received(*old(receiver)),
        },
        sync_sent_nothing(*old(_sender), *final(_sender)),
        sync_alone(*old(_sender)) ==> (message matches Some(taken) ==> sync_sent(
            *old(_sender),
        ).contains(taken)),
        sync_alone(*old(_sender)) && sync_limit(*old(_sender)) > 0 ==> sync_room(*final(_sender)),
{
    receiver.try_recv().ok()
}

/// `crossbeam_channel::Sender::try_send`: puts `message` into the channel, or, where
/// it is full or has no receiver, hands `message` back. It is not full where room was
/// found in it, and it has a receiver where `_receiver` is one of its receiving ends.
#[verifier::external_body]
pub(crate) fn sync_try_send(
    sender: &mut crossbeam_channel::Sender<usize>,
    message: usize,
    _receiver: &crossbeam_channel::Receiver<usize>,
) -> (sent: SyncSend)
    ensures
        match sent {
            SyncSend::Sent => {
                &&& sync_sent(*final(sender)) == sync_sent(*old(sender)).push(message)
                &&& sync_limit(*final(sender)) == sync_limit(*old(sender))
                &&& sync_alone(*final(sender)) == sync_alone(*old(sender))
                &&& sync_sink(*final(sender)) == sync_sink(*old(sender))
            },
            SyncSend::Full(back) => {
                &&& back == message
                &&& sync_sent_nothing(*old(sender), *final(sender))
                &&& !(sync_alone(*old(sender)) && sync_room(*old(sender)))
            },
            SyncSend::Disconnected(back) => {
                &&& back == message
                &&& sync_sent_nothing(*old(sender), *final(sender))
                &&& sync_source(*_receiver) != sync_sink(*old(sender))
            },
        },
{
    match sender.try_send(message) {
        Ok(()) => SyncSend::Sent,
        Err(crossbeam_channel::TrySendError::Full(back)) => SyncSend::Full(back),
        Err(crossbeam_channel::TrySendError::Disconnected(back)) => SyncSend::Disconnected(back),
    }
}

/// `Clone` of `crossbeam_channel::Receiver`: another receiving end of the same
/// channel, which has taken nothing out of it yet.
#[verifier::external_body]
pub(crate) fn sync_receiver_clone(receiver: &crossbeam_channel::Receiver<usize>) -> (other:
    crossbeam_channel::Receiver<usize>)
    ensures
        sync_source(other) == sync_source(*receiver),
        sync_received(other) == Seq::<usize>::empty(),
{
    receiver.clone()
}

/// `crossbeam_channel::Receiver::recv_timeout`: waits for a message, at most for
/// `secs` seconds and `nanos` nanoseconds, and takes it out of the channel. How the wait
/// ends rests on time and on other threads, within this: it finds the channel disconnected
/// only where no sending end is left, for this receiving end is still there; its time is up
/// only where one was left when it looked; and a channel that has none gets none. With a time
/// that the clock cannot count to it would wait for ever.
#[verifier::external_body]
pub(crate) fn sync_recv_timeout(
    receiver: &mut crossbeam_channel::Receiver<usize>,
    secs: u64,
    nanos: u32,
) -> (wake: Wake)
    requires
        nanos < NANOS_PER_SEC,
        secs * NANOS_PER_SEC + nanos <= LONGEST_WAIT,
    ensures
        sync_source(*final(receiver)) == sync_source(*old(receiver)),
        sync_received(*final(receiver)) == match wake {
            Wake::Woken(taken) => sync_received(*old(receiver)).push(taken),
            Wake::Timeout => sync_received(*old(receiver)),
            Wake::Disconnected => sync_received(*old(receiver)),
        },
        sync_waits(*final(receiver)) == sync_waits(*old(receiver)).push(
            (secs * NANOS_PER_SEC + nanos) as nat,
        ),
        wake is Disconnected ==> sync_severed(*final(receiver)),
        wake is Timeout ==> !sync_severed(*final(receiver)),
        sync_severed(*old(receiver)) ==> sync_severed(*final(receiver)),
{
    match receiver.recv_timeout(std::time::Duration::new(secs, nanos)) {
        Ok(message) => Wake::Woken(message),
        Err(crossbeam_channel::RecvTimeoutError::Timeout) => Wake::Timeout,
        Err(crossbeam_channel::RecvTimeoutError::Disconnected) => Wake::Disconnected,
    }
}

/// `tokio::sync::watch::channel`: the only two ends of a new watch channel, through which
/// nothing was sent yet.
#[verifier::external_body]
pub(crate) fn async_channel() -> (ends: (
    tokio::sync::watch::Sender<()>,
    tokio::sync::watch::Receiver<()>,
))
    ensures
        async_alone(ends.0),
        async_sent(ends.0) == Seq::<()>::empty(),
        async_seen(ends.1) == 0,
        async_sink(ends.0) == async_source(ends.1),
{
    tokio::sync::watch::channel(())
}

/// `tokio::sync::watch::Sender::send`: changes the value of the channel and wakes
/// those who watch it, or fails where there is no receiver at that moment. There is one
/// where `_receiver` is one of its receiving ends.
#[verifier::external_body]
pub(crate) fn async_send(
    sender: &mut tokio::sync::watch::Sender<()>,
    _receiver: &tokio::sync::watch::Receiver<()>,
) -> (sent: bool)
    ensures
        async_sink(*final(sender)) == async_sink(*old(sender)),
        async_alone(*final(sender)) == async_alone(*old(sender)),
        sent ==> async_sent(*final(sender)) == async_sent(*old(sender)).push(()),
        !sent ==> async_sent(*final(sender)) == async_sent(*old(sender)),
        async_source(*_receiver) == async_sink(*old(sender)) ==> sent,
{
    sender.send(()).is_ok()
}

/// `Clone` of `tokio::sync::watch::Receiver`: another receiving end of the same
/// channel, which has seen as much.
#[verifier::external_body]
pub(crate) fn async_receiver_clone(receiver: &tokio::sync::watch::Receiver<()>) -> (other:
    tokio::sync::watch::Receiver<()>)
    ensures
        async_source(other) == async_source(*receiver),
        async_seen(other) == async_seen(*receiver),
{
    receiver.clone()
}

/// `tokio::sync::watch::Receiver::borrow_and_update`: this receiving end has now seen the
/// present value of its channel. Where `_sender` is the only sending end of it, that is the
/// last that it sent: it sends nothing meanwhile.
#[verifier::external_body]
pub(crate) fn async_mark_seen(
    receiver: &mut tokio::sync::watch::Receiver<()>,
    _sender: &tokio::sync::watch::Sender<()>,
)
    ensures
        async_source(*final(receiver)) == async_source(*old(receiver)),
        async_source(*old(receiver)) == async_sink(*_sender) && async_alone(*_sender)
            ==> async_seen(*final(receiver)) == async_sent(*_sender).len(),
{
    let _ = receiver.borrow_and_update();
}

/// What it means for a waiting client that its wait ended so: `true` to look at the
/// queue again, `false` where the time is up. The message says nothing more.
pub fn after_wake(wake: Wake) -> (r: Result<bool, WakeError>)
    ensures
        r == match wake {
            Wake::Woken(_) => Ok::<bool, WakeError>(true),
            Wake::Timeout => Ok(false),
            Wake::Disconnected => Err(WakeError::Disconnected),
        },
{
    match wake {
        Wake::Woken(_) => Ok(true),
        Wake::Timeout => Ok(false),
        Wake::Disconnected => Err(WakeError::Disconnected),
    }
}

/// A time in nanoseconds as whole seconds and the nanoseconds beyond them.
pub fn split_nanos(nanos: u128) -> (r: (u64, u32))
    requires
        nanos <= LONGEST_WAIT,
    ensures
        r.0 * NANOS_PER_SEC + r.1 == nanos,
        r.1 < NANOS_PER_SEC,
{
    ((nanos / NANOS_PER_SEC) as u64, (nanos % NANOS_PER_SEC) as u32)
}

/// Waits on a registration's blocking channel, at most for `nanos` nanoseconds:
/// `true` where the client was woken, by a message that is then gone from the channel, and
/// should look at its queue again; `false` where the time is up. Which it is rests on time
/// and on other threads.
///
/// It fails only where no one is left who could send a message. From then on no wait runs out
/// of time: it takes a message that is still there, or fails.
pub fn wait_for_wake(receiver: &mut crossbeam_channel::Receiver<usize>, nanos: u128) -> (r: Result<
    bool,
    WakeError,
>)
    requires
        nanos <= LONGEST_WAIT,
    ensures
        sync_source(*final(receiver)) == sync_source(*old(receiver)),
        sync_waits(*final(receiver)) == sync_waits(*old(receiver)).push(nanos as nat),
        r == Ok::<bool, WakeError>(true) ==> exists|message: usize|
            sync_received(*final(receiver)) == #[trigger] sync_received(*old(receiver)).push(
                message,
            ),
        r != Ok::<bool, WakeError>(true) ==> sync_received(*final(receiver)) == sync_received(
            *old(receiver),
        ),
        r is Err ==> r == Err::<bool, WakeError>(WakeError::Disconnected) && sync_severed(
            *final(receiver),
        ),
        r == Ok::<bool, WakeError>(false) ==> !sync_severed(*final(receiver)),
        sync_severed(*old(receiver)) ==> sync_severed(*final(receiver)) && r != Ok::<
            bool,
            WakeError,
        >(false),
{
    let (secs, rest) = split_nanos(nanos);
    after_wake(sync_recv_timeout(receiver, secs, rest))
}

} // verus!
