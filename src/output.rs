//! The adapter: frame buffers on both directions of a secured channel.
use vstd::prelude::*;

use crate::frame_bytes::{bytes_as_slice, bytes_content};
use crate::model::OutputModel;

verus! {

/// The largest plaintext payload of one frame: the largest noise message
/// less the room that encryption adds.
pub const MAX_FRAME_LEN: usize = 65535 - 1024;

/// One unit that the channel decoded.
pub enum DecodedItem<P> {
    /// Application bytes of a transport frame.
    Bytes(bytes::Bytes),
    /// A handshake payload, which has no place once the session is established.
    Payload(P),
}

/// Why a read failed.
pub enum ReadError<E> {
    /// The channel failed; its error is passed on as it is.
    Io(E),
    /// The channel decoded a handshake payload in transport mode.
    InvalidData,
}

/// What a read does after the channel answered.
pub enum ReadStep<E> {
    /// The read is over, with this result.
    Ready(Result<usize, ReadError<E>>),
    /// A frame was stored: serve the read from it.
    FrameStored,
}

/// The buffering state of one secured connection.
pub struct Output {
    recv_buffer: bytes::Bytes,
    recv_offset: usize,
    send_buffer: Vec<u8>,
    send_offset: usize,
    max_frame_len: usize,
}

impl View for Output {
    type V = OutputModel;

    closed spec fn view(&self) -> OutputModel {
        OutputModel {
            recv_frame: bytes_content(self.recv_buffer),
            recv_offset: self.recv_offset as nat,
            pending: self.send_buffer@,
            max_frame_len: self.max_frame_len as nat,
        }
    }
}

impl Output {
    /// The fields agree with each other and with the model's invariant.
    pub closed spec fn wf(&self) -> bool {
        &&& self@.wf()
        &&& self.send_offset == self.send_buffer@.len()
    }

    /// An adapter whose frames carry at most [`MAX_FRAME_LEN`] bytes.
    pub fn new() -> (r: Output)
        ensures
            r.wf(),
            r@ == OutputModel::initial(MAX_FRAME_LEN as nat),
    {
        Output::with_max_frame_len(MAX_FRAME_LEN)
    }

    /// An adapter whose frames carry at most `max_frame_len` bytes.
    pub fn with_max_frame_len(max_frame_len: usize) -> (r: Output)
        requires
            max_frame_len > 0,
        ensures
            r.wf(),
            r@ == OutputModel::initial(max_frame_len as nat),
    {
        let r = Output {
            recv_buffer: bytes::Bytes::new(),
            recv_offset: 0,
            send_buffer: Vec::new(),
            send_offset: 0,
            max_frame_len,
        };
        assert(r@.recv_frame =~= Seq::<u8>::empty());
        r
    }

    /// Serves a read from the current frame. `None`, with nothing changed,
    /// when no unread byte is buffered and the channel must be asked for the
    /// next frame; otherwise copies as many unread bytes as `buf` holds,
    /// advances the cursor, and releases a frame read to its end.
    pub fn read_buffered(&mut self, buf: &mut [u8]) -> (r: Option<usize>)
        requires
            old(self).wf(),
        ensures
            final(self).wf(),
            r is Some <==> old(self)@.has_unread(),
            r is None ==> final(self)@ == old(self)@ && final(buf)@ == old(buf)@,
            r matches Some(n) ==> {
                &&& n == old(self)@.read_len(old(buf)@.len())
                &&& final(buf)@ == old(self)@.unread().take(n as int) + old(buf)@.skip(n as int)
                &&& final(self)@ == old(self)@.after_read(old(buf)@.len())
            },
    {
        let len = self.recv_buffer.len();
        if len == 0 {
            return None;
        }
        let off = self.recv_offset;
        let n = if len - off < buf.len() {
            len - off
        } else {
            buf.len()
        };
        let src = bytes_as_slice(&self.recv_buffer);
        let mut i: usize = 0;
        while i < n
            invariant
                i <= n,
                n <= buf@.len(),
                off + n <= len,
                src@.len() == len,
                buf@.len() == old(buf)@.len(),
                forall|j: int| 0 <= j < i ==> buf@[j] == src@[off + j],
                forall|j: int| i <= j < buf@.len() ==> buf@[j] == old(buf)@[j],
            decreases n - i,
        {
            buf[i] = src[off + i];
            i = i + 1;
        }
        assert(buf@ =~= self@.unread().take(n as int) + old(buf)@.skip(n as int));
        self.recv_offset = off + n;
        if self.recv_offset == len {
            self.recv_buffer = bytes::Bytes::new();
            self.recv_offset = 0;
        }
        Some(n)
    }

    /// Takes the channel's answer to a request for the next decoded unit,
    /// made when no unread byte was buffered: `None` is the end of the
    /// stream, a read of zero bytes; an error is passed on; a handshake
    /// payload fails the read as invalid data; transport bytes become the
    /// current frame, from which the read is then served.
    pub fn on_decoded<E, P>(&mut self, polled: Option<Result<DecodedItem<P>, E>>) -> (r: ReadStep<E>)
        requires
            old(self).wf(),
            !old(self)@.has_unread(),
        ensures
            final(self).wf(),
            match polled {
                None => r == ReadStep::<E>::Ready(Ok(0)) && final(self)@ == old(self)@,
                Some(Err(e)) => r == ReadStep::<E>::Ready(Err(ReadError::Io(e)))
                    && final(self)@ == old(self)@,
                Some(Ok(DecodedItem::Payload(_))) => r == ReadStep::<E>::Ready(
                    Err(ReadError::InvalidData),
                ) && final(self)@ == old(self)@,
                Some(Ok(DecodedItem::Bytes(frame))) => r == ReadStep::<E>::FrameStored
                    && final(self)@ == old(self)@.after_frame(bytes_content(frame)),
            },
    {
        match polled {
            None => ReadStep::Ready(Ok(0)),
            Some(Err(e)) => ReadStep::Ready(Err(ReadError::Io(e))),
            Some(Ok(DecodedItem::Payload(_))) => ReadStep::Ready(Err(ReadError::InvalidData)),
            Some(Ok(DecodedItem::Bytes(frame))) => {
                self.recv_buffer = frame;
                self.recv_offset = 0;
                ReadStep::FrameStored
            },
        }
    }
    /// Whether the pending bytes fill a whole frame: a write must then have
    /// the channel take that frame before it accepts another byte.
    pub fn frame_due(&self) -> (r: bool)
        requires
            self.wf(),
        ensures
            r == self@.frame_due(),
    {
        self.send_offset == self.max_frame_len
    }

    /// Whether a flush (and so a close) has a frame to send first.
    pub fn flush_due(&self) -> (r: bool)
        requires
            self.wf(),
        ensures
            r == self@.flush_due(),
    {
        self.send_offset > 0
    }

    /// The frame to hand to the channel: exactly the pending bytes. The
    /// adapter keeps them until [`Output::frame_sent`] says the channel took them.
    pub fn outgoing_frame(&self) -> (r: Vec<u8>)
        requires
            self.wf(),
        ensures
            r@ == self@.pending,
    {
        let mut frame: Vec<u8> = Vec::with_capacity(self.send_offset);
        let mut i: usize = 0;
        while i < self.send_offset
            invariant
                self.wf(),
                i <= self.send_offset,
                frame@ == self.send_buffer@.take(i as int),
            decreases self.send_offset - i,
        {
            frame.push(self.send_buffer[i]);
            i = i + 1;
            assert(frame@ =~= self.send_buffer@.take(i as int));
        }
        assert(frame@ =~= self.send_buffer@);
        frame
    }

    /// Records that the channel took the pending bytes as one frame. The
    /// buffer's storage is kept for the bytes of the next frame.
    pub fn frame_sent(&mut self)
        requires
            old(self).wf(),
        ensures
            final(self).wf(),
            final(self)@ == old(self)@.after_send(),
    {
        self.send_buffer.clear();
        self.send_offset = 0;
        assert(self@.pending =~= Seq::<u8>::empty());
    }

    /// Accepts the bytes of `buf` that still fit in the current frame and
    /// returns how many that is; the caller offers the rest again. A full
    /// frame must have been sent first.
    pub fn write(&mut self, buf: &[u8]) -> (r: usize)
        requires
            old(self).wf(),
            !old(self)@.frame_due(),
        ensures
            final(self).wf(),
            r == old(self)@.accept_len(buf@.len()),
            final(self)@ == old(self)@.after_write(buf@),
    {
        let off = self.send_offset;
        let room = self.max_frame_len - off;
        let n = if buf.len() < room {
            buf.len()
        } else {
            room
        };
        self.send_buffer.reserve(n);
        let mut i: usize = 0;
        while i < n
            invariant
                i <= n,
                n <= buf@.len(),
                off == old(self).send_buffer@.len(),
                self.send_buffer@ == old(self).send_buffer@ + buf@.take(i as int),
                self.recv_buffer == old(self).recv_buffer,
                self.recv_offset == old(self).recv_offset,
                self.send_offset == old(self).send_offset,
                self.max_frame_len == old(self).max_frame_len,
            decreases n - i,
        {
            self.send_buffer.push(buf[i]);
            i = i + 1;
            assert(self.send_buffer@ =~= old(self).send_buffer@ + buf@.take(i as int));
        }
        self.send_offset = off + n;
        n
    }
}

} // verus!
