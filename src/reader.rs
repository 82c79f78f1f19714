//! The decoder itself: a raw buffer of base64 text, an overflow of decoded bytes,
//! and the reads that move bytes from one to the caller through the other.

use crate::decode::decode_slice_at;
use crate::decode::decoded_room;
use crate::decode::standard_decoded;
use crate::decode::DecodeFailure;
use crate::model::bulk_span;
use crate::model::empty_state;
use crate::model::end_read;
use crate::model::filled;
use crate::model::needs_input;
use crate::model::group_read;
use crate::model::min;
use crate::model::placed;
use crate::model::ready_read;
use crate::model::DecoderState;
use crate::model::ReadOutcome;
use crate::model::BUFFER_SIZE;
use crate::model::SHIFT_MARGIN;
use vstd::prelude::*;

verus! {

/// What the first step of a read found.
#[derive(Debug, Clone, Copy, PartialEq, Eq)]
pub enum ReadStep {
    /// Less than a whole group is held: the source is to be read into at most this
    /// many bytes.
    NeedInput(usize),
    /// This many decoded bytes were written to the front of the caller's buffer.
    Produced(usize),
}

/// Reads base64 text from a byte source and hands out the decoded bytes.
///
/// The source itself is driven by the caller: `read` says when more text is needed
/// and how much fits, `fill` takes what the source delivered, and `read_end` is used
/// once the source is exhausted.
pub struct FromBase64Reader<R> {
    inner: R,
    buf: Vec<u8>,
    buf_length: usize,
    buf_offset: usize,
    temp: Vec<u8>,
    temp_length: usize,
}

impl<R> View for FromBase64Reader<R> {
    type V = DecoderState;

    closed spec fn view(&self) -> DecoderState {
        DecoderState {
            raw: self.buf@.subrange(
                self.buf_offset as int,
                self.buf_offset + self.buf_length,
            ),
            overflow: self.temp@.take(self.temp_length as int),
        }
    }
}

/// Writing `a` at the front and then `b` after it is writing `a + b` at the front.
proof fn lemma_placed_after(o: Seq<u8>, a: Seq<u8>, b: Seq<u8>)
    requires
        a.len() + b.len() <= o.len(),
    ensures
        placed(placed(o, 0, a), a.len() as int, b) == placed(o, 0, a + b),
{
    assert(placed(placed(o, 0, a), a.len() as int, b) =~= placed(o, 0, a + b));
}

/// A sequence that agrees with `o` but for `d` at index `at` is `d` written over `o` there.
proof fn lemma_placed_parts(x: Seq<u8>, o: Seq<u8>, at: int, d: Seq<u8>)
    requires
        x.len() == o.len(),
        0 <= at,
        at + d.len() <= o.len(),
        x.take(at) == o.take(at),
        x.subrange(at, at + d.len()) == d,
        x.skip(at + d.len()) == o.skip(at + d.len()),
    ensures
        x == placed(o, at, d),
{
    assert forall|i: int| 0 <= i < x.len() implies x[i] == placed(o, at, d)[i] by {
        if i < at {
            assert(x[i] == x.take(at)[i]);
        } else if i < at + d.len() {
            assert(x[i] == x.subrange(at, at + d.len())[i - at]);
        } else {
            assert(x[i] == x.skip(at + d.len())[i - at - d.len()]);
        }
    }
    assert(x =~= placed(o, at, d));
}

impl<R> FromBase64Reader<R> {
    /// The buffers keep their sizes, the valid raw region lies inside the raw buffer
    /// with the shift margin free behind its start, and at most two bytes overflow.
    pub closed spec fn wf(&self) -> bool {
        &&& self.buf@.len() == BUFFER_SIZE
        &&& self.buf_offset + SHIFT_MARGIN <= BUFFER_SIZE
        &&& self.buf_offset + self.buf_length <= BUFFER_SIZE
        &&& self.temp@.len() == 2
        &&& self.temp_length <= 2
    }

    /// How many bytes of base64 text the raw buffer can take in now.
    pub closed spec fn spare(&self) -> nat {
        (BUFFER_SIZE - self.buf_offset - self.buf_length) as nat
    }

    /// The wrapped byte source.
    pub closed spec fn source(&self) -> R {
        self.inner
    }

    /// A decoder around `reader`, holding nothing yet.
    pub fn new(reader: R) -> (r: FromBase64Reader<R>)
        ensures
            r.wf(),
            r@ == empty_state(),
            r.spare() == BUFFER_SIZE,
            r.source() == reader,
    {
        let r = FromBase64Reader {
            inner: reader,
            buf: vec![0u8; BUFFER_SIZE],
            buf_length: 0,
            buf_offset: 0,
            temp: vec![0u8; 2],
            temp_length: 0,
        };
        assert(r@.raw =~= Seq::<u8>::empty());
        assert(r@.overflow =~= Seq::<u8>::empty());
        r
    }

    /// Drops `distance` bytes from the front of the raw region; where less than the
    /// shift margin would be left behind its start, moves the region to the front.
    fn buf_left_shift(&mut self, distance: usize)
        requires
            old(self).wf(),
            distance <= old(self)@.raw.len(),
        ensures
            final(self).wf(),
            final(self)@ == (DecoderState {
                raw: old(self)@.raw.skip(distance as int),
                overflow: old(self)@.overflow,
            }),
            final(self).spare() >= old(self).spare(),
            final(self).inner == old(self).inner,
    {
        let ghost rest = old(self)@.raw.skip(distance as int);
        self.buf_offset = self.buf_offset + distance;
        self.buf_length = self.buf_length - distance;
        assert(self@.raw =~= rest);
        if BUFFER_SIZE - self.buf_offset < SHIFT_MARGIN {
            let off = self.buf_offset;
            let len = self.buf_length;
            let mut i: usize = 0;
            while i < len
                invariant
                    i <= len,
                    off + len <= BUFFER_SIZE,
                    len == rest.len(),
                    self.buf@.len() == BUFFER_SIZE,
                    self.buf_length == len,
                    self.temp == old(self).temp,
                    self.temp_length == old(self).temp_length,
                    self.inner == old(self).inner,
                    forall|j: int| 0 <= j < i ==> self.buf@[j] == rest[j],
                    forall|j: int| i <= j < len ==> self.buf@[off + j] == rest[j],
                decreases len - i,
            {
                let b = self.buf[off + i];
                self.buf.set(i, b);
                i = i + 1;
            }
            self.buf_offset = 0;
            assert(self@.raw =~= rest);
        }
    }

    /// Moves overflow bytes to `out` from index `pos` on, as many as fit, and returns
    /// the index after them; what stays in the overflow moves to its front.
    fn drain_temp(&mut self, out: &mut [u8], pos: usize) -> (next: usize)
        requires
            old(self).wf(),
            pos <= old(out)@.len(),
        ensures
            final(self).wf(),
            next == pos + min(old(out)@.len() - pos, old(self)@.overflow.len() as int),
            final(out)@ == placed(old(out)@, pos as int, old(self)@.overflow.take(next - pos)),
            final(self)@ == (DecoderState {
                raw: old(self)@.raw,
                overflow: old(self)@.overflow.skip(next - pos),
            }),
            final(self).spare() == old(self).spare(),
            final(self).inner == old(self).inner,
    {
        let ghost ov = old(self)@.overflow;
        let out_len = out.len();
        let room = out_len - pos;
        let drain_length = if room < self.temp_length {
            room
        } else {
            self.temp_length
        };
        let mut i: usize = 0;
        while i < drain_length
            invariant
                i <= drain_length,
                pos + drain_length <= out_len,
                out_len == out@.len(),
                drain_length <= self.temp_length,
                old(self).wf(),
                *self == *old(self),
                ov == self.temp@.take(self.temp_length as int),
                out@.len() == old(out)@.len(),
                forall|j: int| 0 <= j < pos ==> out@[j] == old(out)@[j],
                forall|j: int| 0 <= j < i ==> out@[pos + j] == ov[j],
                forall|j: int| pos + drain_length <= j < out@.len() ==> out@[j] == old(out)@[j],
            decreases drain_length - i,
        {
            out[pos + i] = self.temp[i];
            i = i + 1;
        }
        let left = self.temp_length - drain_length;
        let mut k: usize = 0;
        while k < left
            invariant
                k <= left,
                left + drain_length == ov.len(),
                ov.len() <= 2,
                self.temp@.len() == 2,
                self.temp_length == ov.len(),
                self.buf == old(self).buf,
                self.buf_length == old(self).buf_length,
                self.buf_offset == old(self).buf_offset,
                self.inner == old(self).inner,
                forall|j: int| 0 <= j < k ==> self.temp@[j] == ov[drain_length + j],
                forall|j: int| drain_length + k <= j < ov.len() ==> self.temp@[j] == ov[j],
            decreases left - k,
        {
            let b = self.temp[drain_length + k];
            self.temp.set(k, b);
            k = k + 1;
        }
        self.temp_length = left;
        assert(self@.overflow =~= ov.skip(drain_length as int));
        assert(out@ =~= placed(old(out)@, pos as int, ov.take(drain_length as int)));
        pos + drain_length
    }

    /// Decodes one group (the rest of the text, where less than a group is held) and
    /// writes its bytes to `out` from index `pos` on; what does not fit goes to the
    /// overflow. Returns the index after the bytes written.
    fn drain_block(&mut self, out: &mut [u8], pos: usize) -> (r: Result<usize, DecodeFailure>)
        requires
            old(self).wf(),
            old(self)@.raw.len() > 0,
            old(self)@.overflow.len() == 0,
            pos < old(out)@.len(),
        ensures
            final(self).wf(),
            final(self).spare() >= old(self).spare(),
            final(self).inner == old(self).inner,
            final(out)@.len() == old(out)@.len(),
            match group_read(old(self)@, old(out)@.len() - pos) {
                ReadOutcome::Delivered(p, s) => {
                    &&& r matches Ok(next)
                    &&& next == pos + p.len()
                    &&& final(out)@ == placed(old(out)@, pos as int, p)
                    &&& final(self)@ == s
                },
                ReadOutcome::Failed(s) => r is Err && final(self)@ == s,
            },
    {
        let drain_length = if self.buf_length < 4 {
            self.buf_length
        } else {
            4
        };
        let mut b: Vec<u8> = vec![0u8; 3];
        let group = vstd::slice::slice_subrange(
            self.buf.as_slice(),
            self.buf_offset,
            self.buf_offset + drain_length,
        );
        assert(group@ == self@.raw.take(drain_length as int));
        let result = decode_slice_at(group, b.as_mut_slice(), 0);
        let decode_length = match result {
            Ok(n) => n,
            Err(e) => {
                return Err(DecodeFailure { cause: e });
            },
        };
        let decoded = vstd::slice::slice_subrange(b.as_slice(), 0, decode_length);
        assert(standard_decoded(self@.raw.take(drain_length as int)) == Some(decoded@)) by {
            assert(b@.subrange(0, decode_length as int) =~= decoded@);
        }
        self.buf_left_shift(drain_length);
        Ok(self.deliver_decoded(decoded, out, pos))
    }

    /// Hands out the bytes that one group decoded to: as many as fit go to `out` from
    /// index `pos` on, the rest to the overflow. Returns the index after the bytes
    /// written.
    pub fn deliver_decoded(&mut self, decoded: &[u8], out: &mut [u8], pos: usize) -> (next: usize)
        requires
            old(self).wf(),
            old(self)@.overflow.len() == 0,
            decoded@.len() <= 3,
            pos < old(out)@.len(),
        ensures
            final(self).wf(),
            final(self).spare() == old(self).spare(),
            final(self).source() == old(self).source(),
            next == pos + min(decoded@.len() as int, old(out)@.len() - pos),
            final(out)@ == placed(old(out)@, pos as int, decoded@.take(next - pos)),
            final(self)@ == (DecoderState {
                raw: old(self)@.raw,
                overflow: decoded@.skip(next - pos),
            }),
    {
        let ghost d = decoded@;
        let decode_length = decoded.len();
        let out_len = out.len();
        let room = out_len - pos;
        let fit = if room < decode_length {
            room
        } else {
            decode_length
        };
        let mut i: usize = 0;
        while i < fit
            invariant
                i <= fit,
                fit <= decode_length <= 3,
                d == decoded@,
                decode_length == d.len(),
                pos + fit <= out_len,
                out_len == out@.len(),
                out@.len() == old(out)@.len(),
                forall|j: int| 0 <= j < pos ==> out@[j] == old(out)@[j],
                forall|j: int| 0 <= j < i ==> out@[pos + j] == d[j],
                forall|j: int| pos + fit <= j < out@.len() ==> out@[j] == old(out)@[j],
            decreases fit - i,
        {
            out[pos + i] = decoded[i];
            i = i + 1;
        }
        let left = decode_length - fit;
        assert(left <= 2);
        let mut k: usize = 0;
        while k < left
            invariant
                k <= left,
                left + fit == decode_length,
                left <= 2,
                d == decoded@,
                decode_length == d.len(),
                self.temp@.len() == 2,
                self.temp_length == 0,
                self.buf == old(self).buf,
                self.buf_length == old(self).buf_length,
                self.buf_offset == old(self).buf_offset,
                self.inner == old(self).inner,
                old(self).wf(),
                forall|j: int| 0 <= j < k ==> self.temp@[j] == d[fit + j],
            decreases left - k,
        {
            self.temp.set(k, decoded[fit + k]);
            k = k + 1;
        }
        self.temp_length = left;
        assert(self@.overflow =~= d.skip(fit as int));
        assert(out@ =~= placed(old(out)@, pos as int, d.take(fit as int)));
        pos + fit
    }

    /// A read while whole groups are held: the overflow first, then an aligned span
    /// decoded straight into `out`, then one group where room is left.
    #[verifier::rlimit(60)]
    fn drain(&mut self, out: &mut [u8]) -> (r: Result<usize, DecodeFailure>)
        requires
            old(self).wf(),
            old(self)@.raw.len() >= 4,
        ensures
            final(self).wf(),
            final(self).inner == old(self).inner,
            final(out)@.len() == old(out)@.len(),
            match ready_read(old(self)@, old(out)@.len() as int) {
                ReadOutcome::Delivered(p, s) => {
                    &&& r matches Ok(n)
                    &&& n == p.len()
                    &&& final(out)@ == placed(old(out)@, 0, p)
                    &&& final(self)@ == s
                },
                ReadOutcome::Failed(s) => r is Err && final(self)@ == s,
            },
    {
        let out_len = out.len();
        if out_len == 0 {
            assert(out@ =~= placed(old(out)@, 0, Seq::empty()));
            return Ok(0);
        }
        let ghost ov = old(self)@.overflow;
        let mut pos: usize = 0;
        if self.temp_length > 0 {
            pos = self.drain_temp(out, 0);
        } else {
            assert(ov.skip(0) =~= ov);
            assert(ov.take(0) =~= Seq::<u8>::empty());
            assert(out@ =~= placed(old(out)@, 0, ov.take(0)));
        }
        let ghost head = ov.take(pos as int);
        let ghost s1 = DecoderState { raw: old(self)@.raw, overflow: ov.skip(pos as int) };
        assert(self@ == s1);
        let ghost mut prefix = head;
        let room = out_len - pos;
        if room >= 3 {
            let raw_groups = self.buf_length / 4;
            let span = if raw_groups <= room / 3 {
                raw_groups * 4
            } else {
                room / 3 * 4
            };
            assert(span == bulk_span(self.buf_length as int, room as int));
            assert(decoded_room(span as int) <= room) by (nonlinear_arith)
                requires
                    span == raw_groups * 4 || span == room / 3 * 4,
                    raw_groups <= room / 3 || span == room / 3 * 4,
            {
            }
            let input = vstd::slice::slice_subrange(
                self.buf.as_slice(),
                self.buf_offset,
                self.buf_offset + span,
            );
            assert(input@ == self@.raw.take(span as int));
            let ghost out1 = out@;
            let n = match decode_slice_at(input, out, pos) {
                Ok(n) => n,
                Err(e) => {
                    return Err(DecodeFailure { cause: e });
                },
            };
            let ghost d = out@.subrange(pos as int, pos + n);
            proof {
                lemma_placed_parts(out@, out1, pos as int, d);
                lemma_placed_after(old(out)@, head, d);
                prefix = head + d;
            }
            pos = pos + n;
            self.buf_left_shift(span);
            assert(ov.skip(pos - n) =~= Seq::<u8>::empty());
        }
        assert(out@ == placed(old(out)@, 0, prefix));
        assert(pos == prefix.len());
        if pos < out_len && self.buf_length >= 4 {
            let ghost s3 = self@;
            let r = self.drain_block(out, pos);
            proof {
                if let ReadOutcome::Delivered(q, _) = group_read(s3, out_len - pos) {
                    lemma_placed_after(old(out)@, prefix, q);
                }
            }
            r
        } else {
            assert(prefix + Seq::<u8>::empty() =~= prefix);
            Ok(pos)
        }
    }

    /// A read once the source is exhausted: the overflow first, then the final group,
    /// which may be shorter than four bytes.
    fn drain_end(&mut self, out: &mut [u8]) -> (r: Result<usize, DecodeFailure>)
        requires
            old(self).wf(),
        ensures
            final(self).wf(),
            final(self).spare() >= old(self).spare(),
            final(self).inner == old(self).inner,
            final(out)@.len() == old(out)@.len(),
            match end_read(old(self)@, old(out)@.len() as int) {
                ReadOutcome::Delivered(p, s) => {
                    &&& r matches Ok(n)
                    &&& n == p.len()
                    &&& final(out)@ == placed(old(out)@, 0, p)
                    &&& final(self)@ == s
                },
                ReadOutcome::Failed(s) => r is Err && final(self)@ == s,
            },
    {
        let out_len = out.len();
        if out_len == 0 {
            assert(out@ =~= placed(old(out)@, 0, Seq::empty()));
            return Ok(0);
        }
        let ghost ov = old(self)@.overflow;
        let mut pos: usize = 0;
        if self.temp_length > 0 {
            pos = self.drain_temp(out, 0);
        } else {
            assert(ov.skip(0) =~= ov);
            assert(ov.take(0) =~= Seq::<u8>::empty());
            assert(out@ =~= placed(old(out)@, 0, ov.take(0)));
        }
        let ghost head = ov.take(pos as int);
        assert(self@ == DecoderState { raw: old(self)@.raw, overflow: ov.skip(pos as int) });
        if pos < out_len && self.buf_length > 0 {
            assert(ov.skip(pos as int) =~= Seq::<u8>::empty());
            let ghost s1 = self@;
            let r = self.drain_block(out, pos);
            proof {
                if let ReadOutcome::Delivered(q, _) = group_read(s1, out_len - pos) {
                    lemma_placed_after(old(out)@, head, q);
                }
            }
            r
        } else {
            Ok(pos)
        }
    }

    /// The first step of every read. While less than a whole group is held, nothing is
    /// decoded and the source is to be read into at most the returned number of bytes.
    /// Otherwise decoded bytes are written to the front of `out`: the overflow, an
    /// aligned span, and one more group where room is left.
    pub fn read(&mut self, out: &mut [u8]) -> (r: Result<ReadStep, DecodeFailure>)
        requires
            old(self).wf(),
        ensures
            final(self).wf(),
            final(self).source() == old(self).source(),
            final(out)@.len() == old(out)@.len(),
            needs_input(old(self)@) ==> {
                &&& r == Ok::<ReadStep, DecodeFailure>(
                    ReadStep::NeedInput(old(self).spare() as usize),
                )
                &&& old(self).spare() > 0
                &&& final(self)@ == old(self)@
                &&& final(self).spare() == old(self).spare()
                &&& final(out)@ == old(out)@
            },
            !needs_input(old(self)@) ==> match ready_read(old(self)@, old(out)@.len() as int) {
                ReadOutcome::Delivered(p, s) => {
                    &&& r == Ok::<ReadStep, DecodeFailure>(ReadStep::Produced(p.len() as usize))
                    &&& final(out)@ == placed(old(out)@, 0, p)
                    &&& final(self)@ == s
                },
                ReadOutcome::Failed(s) => r is Err && final(self)@ == s,
            },
    {
        if self.buf_length < 4 {
            return Ok(ReadStep::NeedInput(BUFFER_SIZE - self.buf_offset - self.buf_length));
        }
        match self.drain(out) {
            Ok(n) => Ok(ReadStep::Produced(n)),
            Err(e) => Err(e),
        }
    }

    /// Takes in the bytes that the source delivered, at most as many as the last
    /// `ReadStep::NeedInput` allowed.
    pub fn fill(&mut self, data: &[u8])
        requires
            old(self).wf(),
            data@.len() <= old(self).spare(),
        ensures
            final(self).wf(),
            final(self)@ == filled(old(self)@, data@),
            final(self).spare() == old(self).spare() - data@.len(),
            final(self).source() == old(self).source(),
    {
        let start = self.buf_offset + self.buf_length;
        let count = data.len();
        let mut i: usize = 0;
        while i < count
            invariant
                i <= count,
                count == data@.len(),
                start + count <= BUFFER_SIZE,
                start == self.buf_offset + self.buf_length,
                self.buf@.len() == BUFFER_SIZE,
                self.buf_offset == old(self).buf_offset,
                self.buf_length == old(self).buf_length,
                self.temp == old(self).temp,
                self.temp_length == old(self).temp_length,
                self.inner == old(self).inner,
                forall|j: int| 0 <= j < start ==> self.buf@[j] == old(self).buf@[j],
                forall|j: int| 0 <= j < i ==> self.buf@[start + j] == data@[j],
            decreases count - i,
        {
            self.buf.set(start + i, data[i]);
            i = i + 1;
        }
        self.buf_length = self.buf_length + count;
        assert(self@.raw =~= old(self)@.raw + data@);
    }

    /// A read once the source has reported that it is exhausted: the overflow first,
    /// then the final group, which may be shorter than four bytes. Returns the number
    /// of bytes written to the front of `out`; zero, for a non-empty `out`, marks the
    /// end of the decoded stream.
    pub fn read_end(&mut self, out: &mut [u8]) -> (r: Result<usize, DecodeFailure>)
        requires
            old(self).wf(),
        ensures
            final(self).wf(),
            final(self).source() == old(self).source(),
            final(out)@.len() == old(out)@.len(),
            match end_read(old(self)@, old(out)@.len() as int) {
                ReadOutcome::Delivered(p, s) => {
                    &&& r matches Ok(n)
                    &&& n == p.len()
                    &&& final(out)@ == placed(old(out)@, 0, p)
                    &&& final(self)@ == s
                },
                ReadOutcome::Failed(s) => r is Err && final(self)@ == s,
            },
    {
        self.drain_end(out)
    }

    /// The wrapped byte source, for the caller to read from.
    pub fn get_mut(&mut self) -> (r: &mut R)
        ensures
            *r == old(self).source(),
            final(self).source() == *final(r),
            final(self)@ == old(self)@,
            final(self).spare() == old(self).spare(),
            final(self).wf() == old(self).wf(),
    {
        &mut self.inner
    }
}

impl<R> From<R> for FromBase64Reader<R> {
    fn from(reader: R) -> (r: FromBase64Reader<R>)
        ensures
            r.wf(),
            r@ == empty_state(),
            r.spare() == BUFFER_SIZE,
            r.source() == reader,
    {
        FromBase64Reader::new(reader)
    }
}

impl<R> vstd::std_specs::convert::FromSpecImpl<R> for FromBase64Reader<R> {
    open spec fn obeys_from_spec() -> bool {
        false
    }

    open spec fn from_spec(v: R) -> FromBase64Reader<R> {
        arbitrary()
    }
}

} // verus!
