//! Properties of reads in sequence, proved over the model.

use crate::model::empty_state;
use crate::model::end_read;
use crate::model::filled;
use crate::model::min;
use crate::model::needs_input;
use crate::model::ready_read;
use crate::model::DecoderState;
use crate::model::ReadOutcome;
use vstd::prelude::*;

verus! {

/// Once a read at the end of the source hands out nothing into a non-empty buffer,
/// the decoder holds nothing: a later read asks the source for text again and, the
/// source still being exhausted, hands out nothing and changes nothing.
pub proof fn lemma_exhausted_stays_exhausted(s: DecoderState, n: int, s2: DecoderState, m: int)
    requires
        needs_input(s),
        n > 0,
        end_read(s, n) == ReadOutcome::Delivered(Seq::empty(), s2),
    ensures
        s2 == empty_state(),
        needs_input(s2),
        end_read(s2, m) == ReadOutcome::Delivered(Seq::empty(), s2),
{
    let t = min(n, s.overflow.len() as int);
    let head = s.overflow.take(t);
    let s1 = DecoderState { raw: s.raw, overflow: s.overflow.skip(t) };
    assert(head.len() == t);
    if s.raw.len() > 0 {
        let g = s.raw.take(min(s.raw.len() as int, 4));
        assert(g =~= s.raw);
        assert(s.raw.skip(s.raw.len() as int) =~= Seq::<u8>::empty());
        match crate::decode::standard_decoded(g) {
            None => {},
            Some(d) => {
                let k = min(d.len() as int, n - t);
                assert(d.take(k).len() == k);
                assert((head + d.take(k)).len() == t + k);
                assert(t == 0 && k == 0);
                assert(s.overflow.skip(0) =~= Seq::<u8>::empty());
                assert(d.skip(0) =~= Seq::<u8>::empty());
            },
        }
    } else {
        assert(t == 0);
        assert(s.raw =~= Seq::<u8>::empty());
        assert(s.overflow.skip(0) =~= Seq::<u8>::empty());
    }
    assert(s2 == empty_state());
    assert(s2.overflow.take(0) =~= Seq::<u8>::empty());
}

/// Decoded bytes that did not fit into the caller's buffer are kept only when that
/// buffer was filled, and they are the first bytes that the next read hands out,
/// whether or not the source is exhausted by then.
pub proof fn lemma_overflow_delivered_first(
    s: DecoderState,
    n: int,
    p: Seq<u8>,
    s2: DecoderState,
    m: int,
    q: Seq<u8>,
    s3: DecoderState,
)
    requires
        n >= 0,
        ready_read(s, n) == ReadOutcome::Delivered(p, s2) || end_read(s, n)
            == ReadOutcome::Delivered(p, s2),
        m > 0,
        ready_read(s2, m) == ReadOutcome::Delivered(q, s3) || end_read(s2, m)
            == ReadOutcome::Delivered(q, s3),
    ensures
        s2.overflow.len() > 0 ==> p.len() == n,
        q.take(min(m, s2.overflow.len() as int)) == s2.overflow.take(
            min(m, s2.overflow.len() as int),
        ),
{
    let t2 = min(m, s2.overflow.len() as int);
    let head2 = s2.overflow.take(t2);
    assert((head2 + q.skip(t2)).take(t2) =~= head2);
    if n > 0 {
        let t = min(n, s.overflow.len() as int);
        assert(s.overflow.take(t).len() == t);
    }
    assert(q.take(t2) =~= head2);
}

/// Text may come from the source in chunks of any size: two deliveries leave the
/// decoder holding what one delivery of both would.
pub proof fn lemma_fill_chunks(s: DecoderState, a: Seq<u8>, b: Seq<u8>)
    ensures
        filled(filled(s, a), b) == filled(s, a + b),
{
    assert(s.raw + a + b =~= s.raw + (a + b));
}

} // verus!
