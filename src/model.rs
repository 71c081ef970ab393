//! The abstract state of an [`Output`](crate::Output) and the transitions
//! that its operations perform on it.
use vstd::prelude::*;

verus! {

/// What an adapter holds, as plain sequences.
pub struct OutputModel {
    /// The most recently decoded frame, or empty once it has been consumed.
    pub recv_frame: Seq<u8>,
    /// How many bytes of `recv_frame` have been delivered to callers.
    pub recv_offset: nat,
    /// The bytes accepted by writes and not yet handed to the channel.
    pub pending: Seq<u8>,
    /// The largest plaintext payload of one frame.
    pub max_frame_len: nat,
}

pub open spec fn min_nat(a: nat, b: nat) -> nat {
    if a <= b {
        a
    } else {
        b
    }
}

impl OutputModel {
    /// A fresh adapter: nothing received, nothing pending.
    pub open spec fn initial(max_frame_len: nat) -> OutputModel {
        OutputModel {
            recv_frame: Seq::empty(),
            recv_offset: 0,
            pending: Seq::empty(),
            max_frame_len,
        }
    }

    /// The cursor stays inside the frame, a consumed frame has been released,
    /// and the pending bytes fit in one frame.
    pub open spec fn wf(self) -> bool {
        &&& self.max_frame_len > 0
        &&& self.recv_offset <= self.recv_frame.len()
        &&& (self.recv_frame.len() > 0 ==> self.recv_offset < self.recv_frame.len())
        &&& self.pending.len() <= self.max_frame_len
    }

    /// The bytes of the current frame that no read has delivered yet.
    pub open spec fn unread(self) -> Seq<u8> {
        self.recv_frame.subrange(self.recv_offset as int, self.recv_frame.len() as int)
    }

    /// Whether a read can be served without asking the channel.
    pub open spec fn has_unread(self) -> bool {
        self.unread().len() > 0
    }

    /// How many bytes a read into a destination of `want` bytes delivers.
    pub open spec fn read_len(self, want: nat) -> nat {
        min_nat(self.unread().len(), want)
    }

    /// The state after a read into a destination of `want` bytes was served
    /// from the current frame; a frame read to its end is released.
    pub open spec fn after_read(self, want: nat) -> OutputModel {
        let off = self.recv_offset + self.read_len(want);
        if off == self.recv_frame.len() {
            OutputModel { recv_frame: Seq::empty(), recv_offset: 0, ..self }
        } else {
            OutputModel { recv_offset: off, ..self }
        }
    }

    /// The state after the channel decoded the transport frame `frame`.
    pub open spec fn after_frame(self, frame: Seq<u8>) -> OutputModel {
        OutputModel { recv_frame: frame, recv_offset: 0, ..self }
    }

    /// Whether the pending bytes fill a whole frame, which must be sent
    /// before another byte is accepted.
    pub open spec fn frame_due(self) -> bool {
        self.pending.len() == self.max_frame_len
    }

    /// Whether a flush has a frame to send.
    pub open spec fn flush_due(self) -> bool {
        self.pending.len() > 0
    }

    /// How many of `offered` bytes a write accepts: what still fits in the frame.
    pub open spec fn accept_len(self, offered: nat) -> nat {
        min_nat((self.max_frame_len - self.pending.len()) as nat, offered)
    }

    /// The state after a write of `src` on a frame that is not full.
    pub open spec fn after_write(self, src: Seq<u8>) -> OutputModel {
        OutputModel { pending: self.pending + src.take(self.accept_len(src.len()) as int), ..self }
    }

    /// The state after the pending bytes were handed to the channel as one frame.
    pub open spec fn after_send(self) -> OutputModel {
        OutputModel { pending: Seq::empty(), ..self }
    }
    /// The frames that one write call of the stream hands to the channel
    /// before it accepts bytes: the pending frame if it is full, else none.
    pub open spec fn write_call_sends(self) -> Seq<Seq<u8>> {
        if self.frame_due() {
            seq![self.pending]
        } else {
            Seq::empty()
        }
    }

    /// The state in which a write call of the stream accepts bytes, once a
    /// full frame has been sent.
    pub open spec fn before_write(self) -> OutputModel {
        if self.frame_due() {
            self.after_send()
        } else {
            self
        }
    }

    /// How many bytes of `src` one write call of the stream accepts.
    pub open spec fn write_call_accepts(self, src: Seq<u8>) -> nat {
        self.before_write().accept_len(src.len())
    }

    /// The state after one write call of the stream with `src`.
    pub open spec fn after_write_call(self, src: Seq<u8>) -> OutputModel {
        self.before_write().after_write(src)
    }

    /// The frames that a flush, and so a close, hands to the channel before
    /// it passes the flush on: the pending bytes, if there are any.
    pub open spec fn flush_sends(self) -> Seq<Seq<u8>> {
        if self.flush_due() {
            seq![self.pending]
        } else {
            Seq::empty()
        }
    }

    /// The state after a flush has sent its frame.
    pub open spec fn after_flush(self) -> OutputModel {
        if self.flush_due() {
            self.after_send()
        } else {
            self
        }
    }
}

} // verus!
