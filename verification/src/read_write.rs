//! Buffers handed over by the transport for the duration of one call.
//!
//! A [`ReadWrite`] carries the data that a stream has received and not processed yet, and
//! collects the data to send on it within the space that the transport grants. Instants and
//! durations are counts of the ticks of a clock that the user of the connection picks.

use vstd::prelude::*;

verus! {

/// Reading and writing sides of a stream, as seen during one call.
pub struct ReadWrite {
    /// Moment of the call.
    pub now: u64,
    /// Data received on the stream. `None` if the remote has closed its writing side.
    pub incoming_buffer: Option<Vec<u8>>,
    /// Number of bytes at the start of [`ReadWrite::incoming_buffer`] that were processed.
    pub read_bytes: usize,
    /// Data to send on the stream. `None` if the local writing side is closed.
    pub outgoing_buffer: Option<Vec<u8>>,
    /// Maximum length that [`ReadWrite::outgoing_buffer`] may reach.
    pub outgoing_capacity: usize,
    /// If `Some`, the moment after which the call should be made again even if nothing
    /// happens on the stream.
    pub wake_up_after: Option<u64>,
}

impl ReadWrite {
    /// Data received on the stream, processed or not. Empty if the reading side is closed.
    pub open spec fn incoming(self) -> Seq<u8> {
        match self.incoming_buffer {
            Some(buffer) => buffer@,
            None => Seq::empty(),
        }
    }

    /// Data written so far. Empty if the writing side is closed.
    pub open spec fn outgoing(self) -> Seq<u8> {
        match self.outgoing_buffer {
            Some(buffer) => buffer@,
            None => Seq::empty(),
        }
    }

    /// Data received and not processed yet.
    pub open spec fn unread(self) -> Seq<u8> {
        self.incoming().skip(self.read_bytes as int)
    }

    /// Number of bytes that can still be written.
    pub open spec fn available(self) -> nat {
        match self.outgoing_buffer {
            Some(buffer) => (self.outgoing_capacity - buffer@.len()) as nat,
            None => 0,
        }
    }

    /// Never more is marked as processed than was received, nor more written than fits.
    pub open spec fn wf(self) -> bool {
        &&& self.read_bytes <= self.incoming().len()
        &&& self.outgoing().len() <= self.outgoing_capacity
    }

    /// The earlier of the wake-up moment `current` and the moment `after`.
    pub open spec fn earlier(current: Option<u64>, after: u64) -> Option<u64> {
        match current {
            Some(t) => if t < after {
                Some(t)
            } else {
                Some(after)
            },
            None => Some(after),
        }
    }

    /// The earlier of two moments is set, is not later than either, and is one of them.
    pub proof fn lemma_earlier(current: Option<u64>, after: u64)
        ensures
            Self::earlier(current, after) matches Some(t) && t <= after && (t == after
                || current == Some(t)),
            current matches Some(c) ==> Self::earlier(current, after).unwrap() <= c,
    {
    }

    /// Starts a call at `now` with the data received, if the reading side is open, and with
    /// the space granted for writing, if the writing side is open.
    pub fn new(now: u64, incoming: Option<Vec<u8>>, outgoing_capacity: Option<usize>) -> (rw: Self)
        ensures
            rw.wf(),
            rw.now == now,
            rw.incoming_buffer == incoming,
            rw.read_bytes == 0,
            rw.outgoing_buffer is Some <==> outgoing_capacity is Some,
            rw.outgoing().len() == 0,
            outgoing_capacity matches Some(c) ==> rw.outgoing_capacity == c,
            rw.wake_up_after is None,
    {
        match outgoing_capacity {
            Some(c) => ReadWrite {
                now,
                incoming_buffer: incoming,
                read_bytes: 0,
                outgoing_buffer: Some(Vec::new()),
                outgoing_capacity: c,
                wake_up_after: None,
            },
            None => ReadWrite {
                now,
                incoming_buffer: incoming,
                read_bytes: 0,
                outgoing_buffer: None,
                outgoing_capacity: 0,
                wake_up_after: None,
            },
        }
    }

    /// Returns the number of bytes received and not processed yet.
    pub fn incoming_buffer_available(&self) -> (n: usize)
        requires
            self.wf(),
        ensures
            n == self.unread().len(),
    {
        match &self.incoming_buffer {
            Some(buffer) => buffer.len() - self.read_bytes,
            None => 0,
        }
    }

    /// Returns the number of bytes that can still be written. Zero if the writing side is
    /// closed.
    pub fn outgoing_buffer_available(&self) -> (n: usize)
        requires
            self.wf(),
        ensures
            n == self.available(),
    {
        match &self.outgoing_buffer {
            Some(buffer) => self.outgoing_capacity - buffer.len(),
            None => 0,
        }
    }

    /// Returns the number of bytes written so far.
    pub fn written_bytes(&self) -> (n: usize)
        ensures
            n == self.outgoing().len(),
    {
        match &self.outgoing_buffer {
            Some(buffer) => buffer.len(),
            None => {
                assert(self.outgoing().len() == 0);
                0
            },
        }
    }

    /// Marks the next `num` bytes received as processed.
    pub fn advance_read(&mut self, num: usize)
        requires
            old(self).wf(),
            num <= old(self).unread().len(),
        ensures
            final(self).wf(),
            final(self).read_bytes == old(self).read_bytes + num,
            final(self).unread() == old(self).unread().skip(num as int),
            final(self).now == old(self).now,
            final(self).incoming_buffer == old(self).incoming_buffer,
            final(self).outgoing_buffer == old(self).outgoing_buffer,
            final(self).outgoing_capacity == old(self).outgoing_capacity,
            final(self).wake_up_after == old(self).wake_up_after,
    {
        let total: usize = match &self.incoming_buffer {
            Some(buffer) => buffer.len(),
            None => 0,
        };
        assert(self.unread().len() == total - self.read_bytes);
        self.read_bytes = self.read_bytes + num;
        proof {
            assert(self.unread() =~= old(self).unread().skip(num as int));
        }
    }

    /// Writes `data` out.
    pub fn write_out(&mut self, data: &[u8])
        requires
            old(self).wf(),
            old(self).outgoing_buffer is Some,
            data@.len() <= old(self).available(),
        ensures
            final(self).wf(),
            final(self).outgoing_buffer is Some,
            final(self).outgoing() == old(self).outgoing().add(data@),
            final(self).now == old(self).now,
            final(self).incoming_buffer == old(self).incoming_buffer,
            final(self).read_bytes == old(self).read_bytes,
            final(self).outgoing_capacity == old(self).outgoing_capacity,
            final(self).wake_up_after == old(self).wake_up_after,
    {
        let mut buffer: Vec<u8> = match self.outgoing_buffer.take() {
            Some(buffer) => buffer,
            None => Vec::new(),
        };
        crate::envelope::append_bytes(&mut buffer, data);
        self.outgoing_buffer = Some(buffer);
    }

    /// Asks for the call to be made again once `after` is reached, unless an earlier moment
    /// was asked for already.
    pub fn wake_up_after(&mut self, after: u64)
        ensures
            final(self).wake_up_after == Self::earlier(old(self).wake_up_after, after),
            final(self).now == old(self).now,
            final(self).incoming_buffer == old(self).incoming_buffer,
            final(self).read_bytes == old(self).read_bytes,
            final(self).outgoing_buffer == old(self).outgoing_buffer,
            final(self).outgoing_capacity == old(self).outgoing_capacity,
    {
        match self.wake_up_after {
            Some(t) => {
                if !(t < after) {
                    self.wake_up_after = Some(after);
                }
            },
            None => {
                self.wake_up_after = Some(after);
            },
        }
    }
}

} // verus!
