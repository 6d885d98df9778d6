//! Chunking for deliberately slowed ("tarpit") response delivery.
//!
//! A response flagged for tarpit treatment is not sent at once: its body
//! is cut into consecutive chunks of at most `TARPIT_CHUNK_SIZE` bytes,
//! and the surrounding program writes one chunk, flushes, and suspends
//! its own task for `TARPIT_DELAY_MS` milliseconds before the next.
//! This module computes the chunk plan; concatenating the chunks in
//! order reproduces the body exactly, and the chunk count is the
//! ceiling of body length over chunk size.

use vstd::arithmetic::div_mod::lemma_basic_div;
use vstd::arithmetic::div_mod::lemma_div_plus_one;
use vstd::prelude::*;
use vstd::slice::slice_subrange;
use vstd::slice::slice_to_vec;

verus! {

/// How many bytes of the body each tarpit chunk carries (at most).
pub const TARPIT_CHUNK_SIZE: usize = 100;

/// How long the delivering task suspends after each chunk,
/// in milliseconds.
pub const TARPIT_DELAY_MS: u64 = 1000;

/// `b` cut into consecutive chunks of `c` bytes, the last possibly
/// shorter.  Empty when `b` is empty (or `c` is not positive, which no
/// caller allows).
pub open spec fn chunks_of(b: Seq<u8>, c: int) -> Seq<Seq<u8>>
    decreases b.len(),
{
    if c < 1 || b.len() == 0 {
        Seq::empty()
    } else if b.len() <= c {
        seq![b]
    } else {
        seq![b.take(c)] + chunks_of(b.skip(c), c)
    }
}

/// Tarpit reconstruction: the chunks of `b`, concatenated in order,
/// are exactly `b`.
pub proof fn lemma_chunks_reconstruct(b: Seq<u8>, c: int)
    requires
        c >= 1,
    ensures
        chunks_of(b, c).flatten() == b,
    decreases b.len(),
{
    if b.len() == 0 {
        assert(chunks_of(b, c).flatten() =~= b);
    } else if b.len() <= c {
        seq![b].lemma_flatten_one_element();
        assert(chunks_of(b, c).flatten() =~= b);
    } else {
        lemma_chunks_reconstruct(b.skip(c), c);
        let rest = chunks_of(b.skip(c), c);
        let whole = seq![b.take(c)] + rest;
        assert(whole.first() == b.take(c));
        assert(whole.drop_first() =~= rest);
        assert(whole.flatten() == b.take(c) + rest.flatten());
        assert(b.take(c) + b.skip(c) =~= b);
    }
}

/// Tarpit chunk count: the number of chunks is the ceiling of the body
/// length over the chunk size.
pub proof fn lemma_chunks_count(b: Seq<u8>, c: int)
    requires
        c >= 1,
    ensures
        chunks_of(b, c).len() == (b.len() + c - 1) / c,
    decreases b.len(),
{
    if b.len() == 0 {
        lemma_basic_div(c - 1, c);
    } else if b.len() <= c {
        lemma_basic_div(b.len() - 1, c);
        lemma_div_plus_one(b.len() - 1, c);
        assert((b.len() + c - 1) / c == (c + (b.len() - 1)) / c);
    } else {
        lemma_chunks_count(b.skip(c), c);
        lemma_div_plus_one(b.len() - c + c - 1, c);
        assert((b.len() + c - 1) / c == (c + (b.len() - c + c - 1)) / c);
    }
}

/// Every chunk is non-empty and at most `c` bytes; every chunk but the
/// last is exactly `c` bytes.
pub proof fn lemma_chunks_shape(b: Seq<u8>, c: int)
    requires
        c >= 1,
    ensures
        forall|i: int|
            0 <= i < chunks_of(b, c).len() ==> 1 <= (#[trigger] chunks_of(b, c)[i]).len() <= c,
        forall|i: int|
            0 <= i < chunks_of(b, c).len() - 1 ==> (#[trigger] chunks_of(b, c)[i]).len() == c,
    decreases b.len(),
{
    if b.len() == 0 {
    } else if b.len() <= c {
    } else {
        lemma_chunks_shape(b.skip(c), c);
        let rest = chunks_of(b.skip(c), c);
        assert(forall|i: int|
            1 <= i < chunks_of(b, c).len() ==> chunks_of(b, c)[i] == #[trigger] rest[i - 1]);
        assert(rest.len() >= 1);
    }
}

/// The byte-sequence view of a chunk vector.
pub open spec fn chunk_views(cs: Seq<Vec<u8>>) -> Seq<Seq<u8>> {
    cs.map_values(|v: Vec<u8>| v@)
}

/// Cut `body` into consecutive chunks of at most `chunk_size` bytes,
/// preserving order.  Concatenating the chunks reproduces `body`
/// exactly, and there are exactly `ceil(len / chunk_size)` of them.
pub fn tarpit_chunks(body: &[u8], chunk_size: usize) -> (r: Vec<Vec<u8>>)
    requires
        chunk_size >= 1,
    ensures
        chunk_views(r@) == chunks_of(body@, chunk_size as int),
        chunk_views(r@).flatten() == body@,
        r@.len() == (body@.len() + chunk_size - 1) / (chunk_size as int),
{
    let ghost c = chunk_size as int;
    let blen: usize = body.len();
    assert(body@.len() == blen);
    let mut r: Vec<Vec<u8>> = Vec::new();
    let mut i: usize = 0;
    proof {
        assert(body@.skip(0) =~= body@);
        assert(chunk_views(r@) + chunks_of(body@, c) =~= chunks_of(body@, c));
    }
    while i < body.len()
        invariant
            i <= body@.len(),
            body@.len() <= usize::MAX,
            chunk_size >= 1,
            c == chunk_size as int,
            chunks_of(body@, c) == chunk_views(r@) + chunks_of(body@.skip(i as int), c),
        decreases body@.len() - i,
    {
        let end: usize = if body.len() - i <= chunk_size {
            body.len()
        } else {
            i + chunk_size
        };
        let chunk = slice_to_vec(slice_subrange(body, i, end));
        let ghost tail = body@.skip(i as int);
        proof {
            if body@.len() - i <= c {
                assert(chunk@ =~= tail);
                assert(chunks_of(tail, c) =~= seq![chunk@] + chunks_of(
                    body@.skip(end as int),
                    c,
                ));
            } else {
                assert(chunk@ =~= tail.take(c));
                assert(tail.skip(c) =~= body@.skip(end as int));
                assert(chunks_of(tail, c) =~= seq![chunk@] + chunks_of(
                    body@.skip(end as int),
                    c,
                ));
            }
        }
        let ghost prev = r@;
        r.push(chunk);
        proof {
            assert(chunk_views(r@) =~= chunk_views(prev) + seq![chunk@]);
            assert(chunks_of(body@, c) =~= chunk_views(r@) + chunks_of(
                body@.skip(end as int),
                c,
            ));
        }
        i = end;
    }
    proof {
        assert(body@.skip(i as int) =~= Seq::<u8>::empty());
        assert(chunk_views(r@) =~= chunks_of(body@, c));
        lemma_chunks_reconstruct(body@, c);
        lemma_chunks_count(body@, c);
    }
    r
}

} // verus!
