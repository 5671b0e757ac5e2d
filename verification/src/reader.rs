//! The decisions of the background reader.
//!
//! The reader owns a transport and shares a handle with whoever opened it.
//! It reads with a short timeout, hands each outcome to `on_read` together
//! with the handle's stop flag as it stands after the read, and then does
//! what it is told: leave, or wait and read again. Only `on_read` touches
//! the inbox. Closing the handle clears the flag.

use crate::inbox::{joined, total_len, Inbox};
use vstd::prelude::*;

verus! {

/// Largest number of bytes asked of the transport in one read.
pub const READ_CHUNK: usize = 1024;

/// How long a serial read may block before it reports that nothing came.
pub const READ_TIMEOUT_MS: u64 = 10;

/// Pause between two reads when nothing went wrong.
pub const POLL_PAUSE_MS: u64 = 5;

/// Extra pause after a read that failed for another reason than a timeout.
pub const BACKOFF_MS: u64 = 50;

/// How long a close waits, after it has cleared the stop flag, before it releases the transport.
pub const CLOSE_GRACE_MS: u64 = 100;

/// The library's side of an open serial port: the stop flag of its reader.
/// The caller keeps it where both the reader and the closing side can get
/// at it, next to the device itself.
#[derive(Debug)]
pub struct SerialPortHandle {
    running: bool,
}

impl SerialPortHandle {
    /// The reader has not been told to stop.
    pub closed spec fn running(&self) -> bool {
        self.running
    }

    /// Whether the reader has not been told to stop.
    pub fn is_running(&self) -> (running: bool)
        ensures
            running == self.running(),
    {
        self.running
    }
}

/// Makes the handle for a device that the caller has just tried to open:
/// a handle whose reader may run if the device is open, and no handle at
/// all if it is not, so that a failed attempt leaves nothing behind.
pub fn open_port(opened: bool) -> (handle: Option<SerialPortHandle>)
    ensures
        opened ==> handle is Some && handle->0.running(),
        !opened ==> handle is None,
{
    if opened {
        Some(SerialPortHandle { running: true })
    } else {
        None
    }
}

/// Tells the reader to stop. From now on `on_read`, given this handle's
/// flag, sends the reader away and leaves the inbox alone. Closing a handle
/// that is closed changes nothing. The caller then waits `CLOSE_GRACE_MS`
/// and releases the device.
pub fn close_port(handle: &mut SerialPortHandle)
    ensures
        !final(handle).running(),
{
    handle.running = false;
}

/// What one attempt to read from the transport came to.
pub enum ReadEvent {
    /// The transport delivered these bytes.
    Bytes(Vec<u8>),
    /// Nothing was there: a timeout, a would-block, or a read of zero bytes.
    Quiet,
    /// The read, or getting hold of the transport, failed for another reason.
    Fault,
}

/// What the reader does next.
#[derive(Clone, Copy, Debug, PartialEq, Eq, Structural)]
pub enum ReaderStep {
    /// Leave the loop for good.
    Exit,
    /// Sleep this many milliseconds, then read again.
    Pause { millis: u64 },
}

/// The step that follows a read, as a function of the stop flag and the outcome.
pub open spec fn next_step(running: bool, event: ReadEvent) -> ReaderStep {
    if !running {
        ReaderStep::Exit
    } else if event is Fault {
        ReaderStep::Pause { millis: (BACKOFF_MS + POLL_PAUSE_MS) as u64 }
    } else {
        ReaderStep::Pause { millis: POLL_PAUSE_MS }
    }
}

/// The bytes that a read adds to the inbox.
pub open spec fn deposit(running: bool, event: ReadEvent) -> Seq<u8> {
    if running && event is Bytes {
        event->Bytes_0@
    } else {
        Seq::empty()
    }
}

/// Handles the outcome of one read.
///
/// While `running` holds, delivered bytes are queued in `inbox` unchanged
/// and in order; a quiet read changes nothing; a fault changes nothing and
/// asks for a longer pause. Once `running` is false the inbox is never
/// touched again, whatever the read delivered, and the reader is told to
/// leave.
pub fn on_read(running: bool, event: ReadEvent, inbox: &mut Inbox) -> (step: ReaderStep)
    ensures
        step == next_step(running, event),
        final(inbox)@ == old(inbox)@ + deposit(running, event),
        !running ==> step == ReaderStep::Exit && final(inbox)@ == old(inbox)@,
{
    assert(old(inbox)@ + Seq::<u8>::empty() =~= old(inbox)@);
    if !running {
        return ReaderStep::Exit;
    }
    match event {
        ReadEvent::Bytes(data) => {
            inbox.append(data.as_slice());
            ReaderStep::Pause { millis: POLL_PAUSE_MS }
        },
        ReadEvent::Quiet => ReaderStep::Pause { millis: POLL_PAUSE_MS },
        ReadEvent::Fault => ReaderStep::Pause { millis: BACKOFF_MS + POLL_PAUSE_MS },
    }
}

/// The inbox after the reader handled the reads `events` one after the
/// other by `on_read`, where `flags[i]` is the stop flag as it stood after
/// the `i`-th read, and nobody drained the inbox meanwhile.
pub open spec fn after_reads(queued: Seq<u8>, flags: Seq<bool>, events: Seq<ReadEvent>) -> Seq<u8>
    recommends
        flags.len() == events.len(),
    decreases events.len(),
{
    if events.len() == 0 {
        queued
    } else {
        after_reads(queued, flags.drop_last(), events.drop_last()) + deposit(
            flags.last(),
            events.last(),
        )
    }
}

/// The chunks that the reads `events` delivered, an empty chunk for a read
/// that delivered nothing.
pub open spec fn delivered(events: Seq<ReadEvent>) -> Seq<Seq<u8>> {
    events.map_values(|e: ReadEvent| deposit(true, e))
}

/// While the reader runs, the inbox receives every delivered chunk
/// unchanged, each as a whole and in the order of arrival: it then holds
/// what it held, followed by the chunks, and has grown by exactly their
/// total length.
pub proof fn lemma_running_reader_is_lossless(
    queued: Seq<u8>,
    flags: Seq<bool>,
    events: Seq<ReadEvent>,
)
    requires
        flags.len() == events.len(),
        forall|i: int| 0 <= i < flags.len() ==> flags[i],
    ensures
        after_reads(queued, flags, events) == queued + joined(delivered(events)),
        after_reads(queued, flags, events).len() == queued.len() + total_len(delivered(events)),
    decreases events.len(),
{
    if events.len() == 0 {
        assert(queued + joined(delivered(events)) =~= queued);
    } else {
        lemma_running_reader_is_lossless(queued, flags.drop_last(), events.drop_last());
        assert(delivered(events).drop_last() =~= delivered(events.drop_last()));
        assert(after_reads(queued, flags, events) =~= queued + joined(delivered(events)));
        crate::inbox::lemma_appends_lose_nothing(queued, delivered(events));
    }
}

/// Once the stop flag is cleared, the reader is told to leave at its next
/// read and appends nothing more, whatever the transport still delivers.
pub proof fn lemma_stopped_reader_appends_nothing(
    queued: Seq<u8>,
    flags: Seq<bool>,
    events: Seq<ReadEvent>,
)
    requires
        flags.len() == events.len(),
        forall|i: int| 0 <= i < flags.len() ==> !flags[i],
    ensures
        after_reads(queued, flags, events) == queued,
        forall|i: int| 0 <= i < events.len() ==> next_step(flags[i], events[i]) == ReaderStep::Exit,
    decreases events.len(),
{
    if events.len() > 0 {
        lemma_stopped_reader_appends_nothing(queued, flags.drop_last(), events.drop_last());
        assert(after_reads(queued, flags, events) =~= queued);
    }
}

} // verus!
