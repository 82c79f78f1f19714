//! The mathematical model of the decoder: its state, and what one read does to it.

use crate::decode::standard_decoded;
use vstd::prelude::*;

verus! {

/// Number of raw bytes that are kept free at the tail of the raw buffer, at least.
pub const SHIFT_MARGIN: usize = 32;

/// Capacity of the raw buffer.
pub const BUFFER_SIZE: usize = 4096;

/// The decoder's state as values: base64 text read but not yet decoded, and
/// decoded bytes not yet handed out.
pub struct DecoderState {
    pub raw: Seq<u8>,
    pub overflow: Seq<u8>,
}

/// What one read does: the bytes handed to the caller and the state left behind,
/// or, for a malformed group, no bytes and the state left behind.
pub enum ReadOutcome {
    Delivered(Seq<u8>, DecoderState),
    Failed(DecoderState),
}

/// The smaller of `a` and `b`.
pub open spec fn min(a: int, b: int) -> int {
    if a <= b {
        a
    } else {
        b
    }
}

/// The state of a decoder that holds nothing.
pub open spec fn empty_state() -> DecoderState {
    DecoderState { raw: Seq::empty(), overflow: Seq::empty() }
}

/// `out` with `bytes` written over it from index `at` on.
pub open spec fn placed(out: Seq<u8>, at: int, bytes: Seq<u8>) -> Seq<u8> {
    out.take(at) + bytes + out.skip(at + bytes.len())
}

/// The state after the source delivered `data`.
pub open spec fn filled(s: DecoderState, data: Seq<u8>) -> DecoderState {
    DecoderState { raw: s.raw + data, overflow: s.overflow }
}

/// A read must first ask the source for more text while less than a whole
/// group is held.
pub open spec fn needs_input(s: DecoderState) -> bool {
    s.raw.len() < 4
}

/// Length of the aligned span that is decoded in bulk into `room` bytes of output:
/// the whole groups held, as far as their output surely fits.
pub open spec fn bulk_span(raw_len: int, room: int) -> int {
    min(raw_len / 4 * 4, room / 3 * 4)
}

/// `p` handed out before the outcome `r`.
pub open spec fn after_bytes(p: Seq<u8>, r: ReadOutcome) -> ReadOutcome {
    match r {
        ReadOutcome::Delivered(q, s) => ReadOutcome::Delivered(p + q, s),
        ReadOutcome::Failed(s) => ReadOutcome::Failed(s),
    }
}

/// Decoding the first group (the whole text, where less than a group is held) into
/// `room` bytes of output; what does not fit goes to the overflow.
pub open spec fn group_read(s: DecoderState, room: int) -> ReadOutcome {
    let g = s.raw.take(min(s.raw.len() as int, 4));
    match standard_decoded(g) {
        None => ReadOutcome::Failed(s),
        Some(d) => {
            let m = min(d.len() as int, room);
            ReadOutcome::Delivered(
                d.take(m),
                DecoderState { raw: s.raw.skip(g.len() as int), overflow: d.skip(m) },
            )
        },
    }
}

/// After the aligned span: one more group, where output room and a whole group are left.
pub open spec fn tail_read(s: DecoderState, room: int) -> ReadOutcome {
    if room > 0 && s.raw.len() >= 4 {
        group_read(s, room)
    } else {
        ReadOutcome::Delivered(Seq::empty(), s)
    }
}

/// A read into `n` bytes while the source still delivers: the overflow first, then an
/// aligned span in bulk where three bytes of room are left, then at most one group.
pub open spec fn ready_read(s: DecoderState, n: int) -> ReadOutcome {
    if n <= 0 {
        ReadOutcome::Delivered(Seq::empty(), s)
    } else {
        let t = min(n, s.overflow.len() as int);
        let head = s.overflow.take(t);
        let s1 = DecoderState { raw: s.raw, overflow: s.overflow.skip(t) };
        let room = n - t;
        if room >= 3 {
            let span = bulk_span(s.raw.len() as int, room);
            match standard_decoded(s.raw.take(span)) {
                None => ReadOutcome::Failed(s1),
                Some(d) => after_bytes(
                    head + d,
                    tail_read(DecoderState { raw: s.raw.skip(span), overflow: s1.overflow }, room - d.len()),
                ),
            }
        } else {
            after_bytes(head, tail_read(s1, room))
        }
    }
}

/// A read into `n` bytes once the source is exhausted: the overflow first, then the
/// final group, which may be shorter than four bytes.
pub open spec fn end_read(s: DecoderState, n: int) -> ReadOutcome {
    if n <= 0 {
        ReadOutcome::Delivered(Seq::empty(), s)
    } else {
        let t = min(n, s.overflow.len() as int);
        let head = s.overflow.take(t);
        let s1 = DecoderState { raw: s.raw, overflow: s.overflow.skip(t) };
        let room = n - t;
        if room > 0 && s.raw.len() > 0 {
            after_bytes(head, group_read(s1, room))
        } else {
            ReadOutcome::Delivered(head, s1)
        }
    }
}

} // verus!
