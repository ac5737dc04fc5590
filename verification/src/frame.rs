//! Cutting a byte stream into frames.

use crate::bytes;
use crate::error;
use crate::error::{IoError, P2pError, Reason};
use crate::hash;
use crate::hash::Hash32;
use crate::text;
use crate::wire::{MessageType, MessageView, HEADER_SIZE, MAX_MESSAGE_SIZE};
use crate::wire_laws;
use vstd::prelude::*;
use vstd::slice::{slice_subrange, slice_to_vec};

verus! {

/// What the bytes that have come so far amount to.
pub enum FrameStep {
    /// More bytes are needed.
    NeedMore,
    /// A whole frame: its type and its payload.
    Frame(MessageType, Vec<u8>),
    /// The stream is broken.
    Broken(P2pError),
}

/// What the bytes that have come so far amount to.
pub enum StepView {
    NeedMore,
    Frame(MessageType, Seq<u8>),
    Broken(Reason),
}

/// `step` is what `expected` says; a broken stream is a protocol error for the reason.
pub open spec fn step_is(step: FrameStep, expected: StepView) -> bool {
    match (step, expected) {
        (FrameStep::NeedMore, StepView::NeedMore) => true,
        (FrameStep::Frame(t, payload), StepView::Frame(t2, payload2)) => t == t2 && payload@
            == payload2,
        (FrameStep::Broken(e), StepView::Broken(reason)) => error::is_protocol_for(e, reason),
        _ => false,
    }
}

/// What the start of the buffer is, up to the comparison of the checksum.
pub enum Head {
    NeedMore,
    Broken(Reason),
    /// A frame with this type and payload, and the checksum that its header holds.
    Whole(MessageType, Seq<u8>, Seq<u8>),
}

/// What the start of the buffer is, up to the comparison of the checksum.
pub open spec fn head(buf: Seq<u8>, magic: Seq<u8>) -> Head {
    if buf.len() < HEADER_SIZE {
        Head::NeedMore
    } else if buf.subrange(0, 4) != magic {
        Head::Broken(Reason::Exactly("bad magic"@))
    } else {
        match MessageType::parse(buf[4]) {
            Err(text) => Head::Broken(Reason::Codec(text)),
            Ok(msg_type) => {
                let len = bytes::le_value(buf.subrange(5, 9));
                if len > MAX_MESSAGE_SIZE {
                    Head::Broken(Reason::Exactly("payload too large: "@ + text::decimal(len)))
                } else if buf.len() < HEADER_SIZE + len {
                    Head::NeedMore
                } else {
                    Head::Whole(
                        msg_type,
                        buf.subrange(HEADER_SIZE as int, HEADER_SIZE + len),
                        buf.subrange(9, 13),
                    )
                }
            },
        }
    }
}

/// A whole frame is handed out if its checksum starts the payload's digest.
pub open spec fn checked(
    msg_type: MessageType,
    payload: Seq<u8>,
    sum: Seq<u8>,
    digest: Seq<u8>,
) -> StepView {
    if sum == digest.subrange(0, 4) {
        StepView::Frame(msg_type, payload)
    } else {
        StepView::Broken(Reason::Exactly("checksum mismatch"@))
    }
}

/// What the buffer amounts to, and what is left of it: a whole frame leaves the buffer, also
/// where its checksum is wrong.
pub open spec fn frame_step(buf: Seq<u8>, magic: Seq<u8>) -> (StepView, Seq<u8>) {
    match head(buf, magic) {
        Head::NeedMore => (StepView::NeedMore, buf),
        Head::Broken(reason) => (StepView::Broken(reason), buf),
        Head::Whole(msg_type, payload, sum) => (
            checked(msg_type, payload, sum, hash::blake3_digest(payload)@),
            buf.subrange(HEADER_SIZE + payload.len(), buf.len() as int),
        ),
    }
}

/// A whole frame whose checksum has not been compared yet.
pub struct UncheckedFrame {
    pub msg_type: MessageType,
    pub payload: Vec<u8>,
    pub checksum: [u8; 4],
}

impl UncheckedFrame {
    /// Hands the frame out if its checksum starts `digest`, the digest of its payload.
    pub fn check(self, digest: &Hash32) -> (step: FrameStep)
        ensures
            step_is(step, checked(self.msg_type, self.payload@, self.checksum@, digest.0@)),
    {
        if !bytes::same_bytes(&self.checksum, slice_subrange(&digest.0, 0, 4)) {
            return FrameStep::Broken(P2pError::protocol("checksum mismatch"));
        }
        FrameStep::Frame(self.msg_type, self.payload)
    }
}

/// Takes the frame off the start of the buffer, up to the comparison of its checksum.
/// `Err(NeedMore)` and `Err(Broken)` leave the buffer as it is.
pub fn take_unchecked(buf: &mut Vec<u8>, magic: [u8; 4]) -> (res: Result<UncheckedFrame, FrameStep>)
    ensures
        match head(old(buf)@, magic@) {
            Head::NeedMore => res == Err::<UncheckedFrame, FrameStep>(FrameStep::NeedMore)
                && final(buf)@ == old(buf)@,
            Head::Broken(reason) => {
                &&& res matches Err(FrameStep::Broken(e))
                &&& error::is_protocol_for(e, reason)
                &&& final(buf)@ == old(buf)@
            },
            Head::Whole(msg_type, payload, sum) => {
                &&& res matches Ok(frame)
                &&& frame.msg_type == msg_type
                &&& frame.payload@ == payload
                &&& frame.checksum@ == sum
                &&& final(buf)@ == old(buf)@.subrange(
                    HEADER_SIZE + payload.len(),
                    old(buf)@.len() as int,
                )
            },
        },
{
    let data: &[u8] = buf.as_slice();
    if data.len() < HEADER_SIZE {
        return Err(FrameStep::NeedMore);
    }
    if !bytes::same_bytes(slice_subrange(data, 0, 4), &magic) {
        return Err(FrameStep::Broken(P2pError::protocol("bad magic")));
    }
    let msg_type: MessageType = match MessageType::from_u8(data[4]) {
        Ok(t) => t,
        Err(e) => {
            return Err(FrameStep::Broken(P2pError::from_core(&e)));
        },
    };
    let announced: u64 = bytes::read_le(data, 5, 4);
    proof {
        bytes::lemma_pow256();
    }
    let len: usize = announced as usize;
    if len > MAX_MESSAGE_SIZE {
        return Err(
            FrameStep::Broken(
                P2pError::Protocol(text::with_number("payload too large: ", announced)),
            ),
        );
    }
    let total: usize = HEADER_SIZE + len;
    if data.len() < total {
        return Err(FrameStep::NeedMore);
    }
    let checksum: [u8; 4] = [data[9], data[10], data[11], data[12]];
    assert(checksum@ =~= data@.subrange(9, 13));
    let payload: Vec<u8> = slice_to_vec(slice_subrange(data, HEADER_SIZE, total));
    let rest: Vec<u8> = buf.split_off(total);
    *buf = rest;
    Ok(UncheckedFrame { msg_type, payload, checksum })
}

/// Takes the frame off the start of the buffer, if it is whole.
pub fn next_frame(buf: &mut Vec<u8>, magic: [u8; 4]) -> (step: FrameStep)
    ensures
        step_is(step, frame_step(old(buf)@, magic@).0),
        final(buf)@ == frame_step(old(buf)@, magic@).1,
{
    match take_unchecked(buf, magic) {
        Ok(frame) => {
            let digest: Hash32 = Hash32::digest(frame.payload.as_slice());
            frame.check(&digest)
        },
        Err(step) => step,
    }
}

/// The error for a stream that has ended while more bytes were needed.
pub fn end_of_stream(buf: &Vec<u8>) -> (e: P2pError)
    ensures
        e matches P2pError::Io(io) && io.eof && io.kind@ == "unexpected end of file"@
            && io.message@ == if buf@.len() < HEADER_SIZE {
            "connection closed"@
        } else {
            "connection closed during payload"@
        },
{
    let message: String = if buf.len() < HEADER_SIZE {
        "connection closed".to_string()
    } else {
        "connection closed during payload".to_string()
    };
    P2pError::Io(IoError { eof: true, kind: "unexpected end of file".to_string(), message })
}

/// A frame that was encoded comes out as the message it was made of, and the bytes behind it
/// stay.
pub proof fn encoded_frame_comes_out(m: MessageView, rest: Seq<u8>)
    requires
        m.magic.len() == 4,
        m.payload.len() <= MAX_MESSAGE_SIZE,
    ensures
        frame_step(m.frame() + rest, m.magic) == (StepView::Frame(m.msg_type, m.payload), rest),
{
    wire_laws::message_round_trip(m, rest);
    let data = m.frame() + rest;
    let n = HEADER_SIZE + m.payload.len();
    assert(MessageView::split(data, m.magic) is Ok);
    assert(m.frame().len() == n) by {
        bytes::lemma_le_bytes_len(m.payload.len(), 4);
    }
    assert(data.subrange(n, data.len() as int) =~= rest);
}

/// Nothing comes out of a proper part of a frame: more bytes are waited for.
pub proof fn partial_frame_waits(m: MessageView, n: int)
    requires
        m.magic.len() == 4,
        m.payload.len() <= MAX_MESSAGE_SIZE,
        0 <= n < m.frame().len(),
    ensures
        frame_step(m.frame().subrange(0, n), m.magic) == (
            StepView::NeedMore,
            m.frame().subrange(0, n),
        ),
{
    wire_laws::truncated_frame_refused(m, n);
    wire_laws::message_type_round_trip(m.msg_type);
    let data = m.frame().subrange(0, n);
    bytes::lemma_le_bytes_len(m.payload.len(), 4);
    if n >= HEADER_SIZE {
        bytes::lemma_pow256();
        bytes::lemma_le_value_of_bytes(m.payload.len(), 4);
        assert(data.subrange(0, 4) =~= m.magic);
        assert(data.subrange(5, 9) =~= bytes::le_bytes(m.payload.len(), 4));
        assert(data[4] == m.msg_type.code());
    }
}

/// How the stream is split into reads does not matter: once the bytes amount to something,
/// more bytes behind them change nothing of it.
pub proof fn later_bytes_change_nothing(buf: Seq<u8>, more: Seq<u8>, magic: Seq<u8>)
    requires
        !(frame_step(buf, magic).0 is NeedMore),
    ensures
        frame_step(buf + more, magic) == (
            frame_step(buf, magic).0,
            frame_step(buf, magic).1 + more,
        ),
{
    let all = buf + more;
    assert(all.subrange(0, 4) =~= buf.subrange(0, 4));
    assert(all.subrange(5, 9) =~= buf.subrange(5, 9));
    assert(all.subrange(9, 13) =~= buf.subrange(9, 13));
    assert(all[4] == buf[4]);
    if let Head::Whole(t, payload, sum) = head(buf, magic) {
        let len = bytes::le_value(buf.subrange(5, 9));
        let n = HEADER_SIZE + len;
        assert(all.subrange(HEADER_SIZE as int, n) =~= buf.subrange(HEADER_SIZE as int, n));
        assert(payload.len() == len);
        assert(all.subrange(n, all.len() as int) =~= buf.subrange(n, buf.len() as int) + more);
    }
}

} // verus!
