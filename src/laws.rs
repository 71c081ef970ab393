//! Properties of the adapter over sequences of calls, stated over the
//! transitions that the operations of [`Output`](crate::Output) promise.
use vstd::prelude::*;

use crate::model::OutputModel;

verus! {

/// The bytes of `frames`, one after the other.
pub open spec fn concat_frames(frames: Seq<Seq<u8>>) -> Seq<u8>
    decreases frames.len(),
{
    if frames.len() == 0 {
        Seq::empty()
    } else {
        frames[0] + concat_frames(frames.drop_first())
    }
}

/// The sum of `sizes`.
pub open spec fn total_size(sizes: Seq<nat>) -> nat
    decreases sizes.len(),
{
    if sizes.len() == 0 {
        0
    } else {
        sizes[0] + total_size(sizes.drop_first())
    }
}

/// Whether every read into destinations of `sizes` bytes, made in turn
/// from `m`, is served from the buffered frame.
pub open spec fn reads_buffered(m: OutputModel, sizes: Seq<nat>) -> bool
    decreases sizes.len(),
{
    sizes.len() == 0 || (m.has_unread() && reads_buffered(
        m.after_read(sizes[0]),
        sizes.drop_first(),
    ))
}

/// The bytes that reads into destinations of `sizes` bytes deliver, made
/// in turn from `m` and served from the buffered frame.
pub open spec fn bytes_read(m: OutputModel, sizes: Seq<nat>) -> Seq<u8>
    decreases sizes.len(),
{
    if sizes.len() == 0 {
        Seq::empty()
    } else {
        m.unread().take(m.read_len(sizes[0]) as int) + bytes_read(
            m.after_read(sizes[0]),
            sizes.drop_first(),
        )
    }
}

/// The state after reads into destinations of `sizes` bytes, made in turn from `m`.
pub open spec fn after_reads(m: OutputModel, sizes: Seq<nat>) -> OutputModel
    decreases sizes.len(),
{
    if sizes.len() == 0 {
        m
    } else {
        after_reads(m.after_read(sizes[0]), sizes.drop_first())
    }
}

/// The frames that write calls of the stream with `srcs`, in turn from `m`,
/// hand to the channel.
pub open spec fn sent_by_writes(m: OutputModel, srcs: Seq<Seq<u8>>) -> Seq<Seq<u8>>
    decreases srcs.len(),
{
    if srcs.len() == 0 {
        Seq::empty()
    } else {
        m.write_call_sends() + sent_by_writes(m.after_write_call(srcs[0]), srcs.drop_first())
    }
}

/// The bytes that write calls of the stream with `srcs`, in turn from `m`,
/// accept.
pub open spec fn accepted_by_writes(m: OutputModel, srcs: Seq<Seq<u8>>) -> Seq<u8>
    decreases srcs.len(),
{
    if srcs.len() == 0 {
        Seq::empty()
    } else {
        srcs[0].take(m.write_call_accepts(srcs[0]) as int) + accepted_by_writes(
            m.after_write_call(srcs[0]),
            srcs.drop_first(),
        )
    }
}

/// The state after write calls of the stream with `srcs`, in turn from `m`.
pub open spec fn after_writes(m: OutputModel, srcs: Seq<Seq<u8>>) -> OutputModel
    decreases srcs.len(),
{
    if srcs.len() == 0 {
        m
    } else {
        after_writes(m.after_write_call(srcs[0]), srcs.drop_first())
    }
}

proof fn lemma_concat_frames_append(a: Seq<Seq<u8>>, b: Seq<Seq<u8>>)
    ensures
        concat_frames(a + b) == concat_frames(a) + concat_frames(b),
    decreases a.len(),
{
    if a.len() == 0 {
        assert(a + b =~= b);
        assert(concat_frames(a) + concat_frames(b) =~= concat_frames(b));
    } else {
        assert((a + b).drop_first() =~= a.drop_first() + b);
        lemma_concat_frames_append(a.drop_first(), b);
        assert(concat_frames(a + b) =~= concat_frames(a) + concat_frames(b));
    }
}

proof fn lemma_concat_frames_single(frame: Seq<u8>)
    ensures
        concat_frames(seq![frame]) == frame,
{
    let single = seq![frame];
    assert(single[0] == frame);
    assert(single.drop_first() =~= Seq::<Seq<u8>>::empty());
    assert(concat_frames(single.drop_first()) == Seq::<u8>::empty());
    assert(concat_frames(single) =~= frame);
}

/// Reads that split a buffered frame in any way deliver its bytes whole and
/// in order: when the sizes of the destinations, none of them empty, add up
/// to the unread bytes, every read is served from the buffer, together they
/// return exactly those bytes, and the frame is released at the end.
pub proof fn read_reconstruction(m: OutputModel, sizes: Seq<nat>)
    requires
        m.wf(),
        forall|i: int| 0 <= i < sizes.len() ==> sizes[i] > 0,
        total_size(sizes) == m.unread().len(),
    ensures
        reads_buffered(m, sizes),
        bytes_read(m, sizes) == m.unread(),
        after_reads(m, sizes).wf(),
        after_reads(m, sizes).recv_frame == Seq::<u8>::empty(),
    decreases sizes.len(),
{
    if sizes.len() == 0 {
        assert(m.recv_frame =~= Seq::<u8>::empty());
        assert(bytes_read(m, sizes) =~= m.unread());
    } else {
        let s = sizes[0];
        let rest = sizes.drop_first();
        let next = m.after_read(s);
        assert(m.read_len(s) == s);
        assert(next.unread() =~= m.unread().skip(s as int));
        assert forall|i: int| 0 <= i < rest.len() implies rest[i] > 0 by {
            assert(rest[i] == sizes[i + 1]);
        }
        read_reconstruction(next, rest);
        assert(bytes_read(m, sizes) =~= m.unread());
    }
}

/// Write calls that together offer no more than what still fits in the
/// frame send nothing and accept every byte.
proof fn lemma_writes_within_frame(m: OutputModel, srcs: Seq<Seq<u8>>)
    requires
        m.wf(),
        m.pending.len() + concat_frames(srcs).len() < m.max_frame_len || (m.pending.len()
            + concat_frames(srcs).len() == m.max_frame_len && forall|i: int|
            0 <= i < srcs.len() ==> #[trigger] srcs[i].len() > 0),
    ensures
        sent_by_writes(m, srcs) == Seq::<Seq<u8>>::empty(),
        after_writes(m, srcs).pending == m.pending + concat_frames(srcs),
        after_writes(m, srcs).max_frame_len == m.max_frame_len,
        after_writes(m, srcs).wf(),
    decreases srcs.len(),
{
    if srcs.len() == 0 {
        assert(m.pending + concat_frames(srcs) =~= m.pending);
    } else {
        let next = m.after_write_call(srcs[0]);
        let rest = srcs.drop_first();
        assert(concat_frames(srcs).len() == srcs[0].len() + concat_frames(rest).len());
        assert forall|i: int| 0 <= i < rest.len() implies srcs[i + 1] == #[trigger] rest[i] by {}
        assert(!m.frame_due()) by {
            if m.pending.len() + concat_frames(srcs).len() == m.max_frame_len {
                assert(srcs[0].len() > 0);
            }
        }
        assert(next.pending =~= m.pending + srcs[0]);
        lemma_writes_within_frame(next, rest);
        assert(m.pending + concat_frames(srcs) =~= next.pending + concat_frames(srcs.drop_first()));
        assert(sent_by_writes(m, srcs) =~= Seq::<Seq<u8>>::empty());
    }
}

/// Writes that together offer fewer bytes than fill a frame send nothing:
/// every byte stays pending until a flush or a close.
pub proof fn no_premature_send(m: OutputModel, srcs: Seq<Seq<u8>>)
    requires
        m.wf(),
        m.pending.len() == 0,
        concat_frames(srcs).len() < m.max_frame_len,
    ensures
        sent_by_writes(m, srcs) == Seq::<Seq<u8>>::empty(),
        after_writes(m, srcs).pending == concat_frames(srcs),
        !after_writes(m, srcs).frame_due(),
{
    lemma_writes_within_frame(m, srcs);
    assert(m.pending + concat_frames(srcs) =~= concat_frames(srcs));
}

/// Writes, none of them empty, that together offer exactly one frame's
/// worth of bytes send nothing while they fill it; the next write call, or
/// a flush, then sends those bytes as one full frame and nothing else, and
/// leaves no byte pending.
pub proof fn exact_frame_boundary(m: OutputModel, srcs: Seq<Seq<u8>>)
    requires
        m.wf(),
        m.pending.len() == 0,
        concat_frames(srcs).len() == m.max_frame_len,
        forall|i: int| 0 <= i < srcs.len() ==> #[trigger] srcs[i].len() > 0,
    ensures
        sent_by_writes(m, srcs) == Seq::<Seq<u8>>::empty(),
        after_writes(m, srcs).frame_due(),
        after_writes(m, srcs).write_call_sends() == seq![concat_frames(srcs)],
        after_writes(m, srcs).flush_sends() == seq![concat_frames(srcs)],
        after_writes(m, srcs).before_write().pending == Seq::<u8>::empty(),
        after_writes(m, srcs).after_flush().pending == Seq::<u8>::empty(),
{
    lemma_writes_within_frame(m, srcs);
    assert(m.pending + concat_frames(srcs) =~= concat_frames(srcs));
}

/// A second flush with no write in between sends no frame: two flushes send
/// at most one frame together.
pub proof fn flush_idempotence(m: OutputModel)
    requires
        m.wf(),
    ensures
        m.flush_sends().len() <= 1,
        m.after_flush().flush_sends() == Seq::<Seq<u8>>::empty(),
        m.after_flush().wf(),
        (m.flush_sends() + m.after_flush().flush_sends()).len() <= 1,
{
}

/// No accepted byte is lost on close: the frames that write calls and then
/// the closing flush hand to the channel hold exactly the bytes that were
/// pending before and those the writes accepted, in order, and nothing
/// stays pending.
pub proof fn no_loss_on_close(m: OutputModel, srcs: Seq<Seq<u8>>)
    requires
        m.wf(),
    ensures
        concat_frames(sent_by_writes(m, srcs) + after_writes(m, srcs).flush_sends()) == m.pending
            + accepted_by_writes(m, srcs),
        after_writes(m, srcs).after_flush().pending == Seq::<u8>::empty(),
    decreases srcs.len(),
{
    let fin = after_writes(m, srcs);
    if srcs.len() == 0 {
        lemma_concat_frames_append(sent_by_writes(m, srcs), m.flush_sends());
        if m.flush_due() {
            lemma_concat_frames_single(m.pending);
        } else {
            assert(m.pending =~= Seq::<u8>::empty());
        }
        assert(concat_frames(sent_by_writes(m, srcs) + fin.flush_sends()) =~= m.pending
            + accepted_by_writes(m, srcs));
    } else {
        let next = m.after_write_call(srcs[0]);
        let rest = srcs.drop_first();
        no_loss_on_close(next, rest);
        let now = m.write_call_sends();
        let later = sent_by_writes(next, rest) + fin.flush_sends();
        assert(sent_by_writes(m, srcs) + fin.flush_sends() =~= now + later);
        lemma_concat_frames_append(now, later);
        if m.frame_due() {
            lemma_concat_frames_single(m.pending);
            assert(m.before_write().pending =~= Seq::<u8>::empty());
        } else {
            assert(concat_frames(now) =~= Seq::<u8>::empty());
        }
        assert(next.pending =~= m.before_write().pending + srcs[0].take(
            m.write_call_accepts(srcs[0]) as int,
        ));
        assert(concat_frames(now) + next.pending =~= m.pending + srcs[0].take(
            m.write_call_accepts(srcs[0]) as int,
        ));
        assert(concat_frames(sent_by_writes(m, srcs) + fin.flush_sends()) =~= m.pending
            + accepted_by_writes(m, srcs));
    }
}

} // verus!
