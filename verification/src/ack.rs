//! Flow control of file transfers: the receiving side acknowledges how many bytes it
//! has taken, and the sending side stops when too much is unacknowledged.
use vstd::prelude::*;

verus! {

/// Above this many unacknowledged bytes the sender waits for acknowledgements.
pub const HIGH_WATERMARK: u64 = 1048576;

/// The receiver acknowledges at least every this many bytes.
pub const STEP_SIZE: u64 = 104857;

/// The size of the transfer buffers.
pub const BUF_SIZE: usize = 104857;

/// The receiving side: how many bytes it has taken, and how many it has acknowledged.
pub struct AckReader {
    total_read: u64,
    last_write: u64,
}

impl AckReader {
    /// At most the bytes taken are acknowledged, and fewer than a step are not.
    pub closed spec fn well_formed(self) -> bool {
        &&& self.last_write <= self.total_read
        &&& self.total_read - self.last_write < STEP_SIZE
    }

    pub closed spec fn total(self) -> u64 {
        self.total_read
    }

    pub closed spec fn acknowledged(self) -> u64 {
        self.last_write
    }

    /// Nothing taken yet.
    pub fn new() -> (r: AckReader)
        ensures
            r.well_formed(),
            r.total() == 0,
            r.acknowledged() == 0,
    {
        AckReader { total_read: 0, last_write: 0 }
    }

    /// `count` more bytes were taken and handed on; the acknowledgement to send, if a
    /// step or more is unacknowledged.
    pub fn on_read(&mut self, count: u64) -> (ack: Option<u64>)
        requires
            old(self).well_formed(),
            old(self).total() + count <= u64::MAX,
        ensures
            final(self).well_formed(),
            final(self).total() == old(self).total() + count,
            if old(self).total() + count - old(self).acknowledged() >= STEP_SIZE {
                &&& ack == Some(final(self).total())
                &&& final(self).acknowledged() == final(self).total()
            } else {
                &&& ack is None
                &&& final(self).acknowledged() == old(self).acknowledged()
            },
    {
        self.total_read = self.total_read + count;
        if self.total_read - self.last_write >= STEP_SIZE {
            self.last_write = self.total_read;
            Some(self.last_write)
        } else {
            None
        }
    }

    /// The last acknowledgement, sent once the data has ended: everything taken.
    pub fn finish(&self) -> (ack: u64)
        ensures
            ack == self.total(),
    {
        self.total_read
    }
}

/// The sending side: how many bytes it has sent, and how many the receiver has
/// acknowledged.
pub struct AckWriter {
    total_write: u64,
    last_read: u64,
}

impl AckWriter {
    pub closed spec fn well_formed(self) -> bool {
        self.last_read <= self.total_write
    }

    pub closed spec fn total(self) -> u64 {
        self.total_write
    }

    pub closed spec fn acknowledged(self) -> u64 {
        self.last_read
    }

    /// Bytes sent but not acknowledged.
    pub open spec fn unacknowledged(self) -> int {
        self.total() - self.acknowledged()
    }

    /// Nothing sent yet.
    pub fn new() -> (r: AckWriter)
        ensures
            r.well_formed(),
            r.total() == 0,
            r.acknowledged() == 0,
    {
        AckWriter { total_write: 0, last_read: 0 }
    }

    /// Whether the sender must flush and wait for acknowledgements before reading more:
    /// a high watermark or more is unacknowledged.
    pub fn must_wait(&self) -> (b: bool)
        requires
            self.well_formed(),
        ensures
            b == (self.unacknowledged() >= HIGH_WATERMARK),
    {
        self.total_write - self.last_read >= HIGH_WATERMARK
    }

    /// Whether a waiting sender reads another acknowledgement: more than two steps are
    /// unacknowledged.
    pub fn keep_waiting(&self) -> (b: bool)
        requires
            self.well_formed(),
        ensures
            b == (self.unacknowledged() > 2 * STEP_SIZE),
    {
        self.total_write - self.last_read > STEP_SIZE * 2
    }

    /// Whether a sender whose data has ended reads another acknowledgement: more than a
    /// step is unacknowledged.
    pub fn keep_closing(&self) -> (b: bool)
        requires
            self.well_formed(),
        ensures
            b == (self.unacknowledged() > STEP_SIZE),
    {
        self.total_write - self.last_read > STEP_SIZE
    }

    /// `count` more bytes were sent.
    pub fn on_sent(&mut self, count: u64)
        requires
            old(self).well_formed(),
            old(self).total() + count <= u64::MAX,
        ensures
            final(self).well_formed(),
            final(self).total() == old(self).total() + count,
            final(self).acknowledged() == old(self).acknowledged(),
    {
        self.total_write = self.total_write + count;
    }

    /// The receiver acknowledged `ack` bytes.
    pub fn on_ack(&mut self, ack: u64)
        requires
            old(self).well_formed(),
            ack <= old(self).total(),
        ensures
            final(self).well_formed(),
            final(self).total() == old(self).total(),
            final(self).acknowledged() == ack,
    {
        self.last_read = ack;
    }
}

/// Acknowledgements keep the receiver's unacknowledged bytes below a step, whatever
/// amounts it takes, and it acknowledges everything when the data ends.
pub proof fn lemma_reader_lag(r: AckReader)
    requires
        r.well_formed(),
    ensures
        r.acknowledged() <= r.total(),
        r.total() - r.acknowledged() < STEP_SIZE,
{
}

} // verus!
