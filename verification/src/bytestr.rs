//! Small verified utilities over byte sequences: prefix tests, substring
//! search, equality, index search and appending.  The wire protocol and the
//! routing rules are all stated over `Seq<u8>`, so these are the bricks the
//! rest of the library is built from.

use vstd::prelude::*;

verus! {

/// `p` is a prefix of `b`.
pub open spec fn seq_starts_with(b: Seq<u8>, p: Seq<u8>) -> bool {
    p.len() <= b.len() && b.subrange(0, p.len() as int) == p
}

/// `n` occurs as a contiguous subsequence of `h`.
pub open spec fn seq_contains_sub(h: Seq<u8>, n: Seq<u8>) -> bool {
    exists|i: int|
        0 <= i && i + n.len() <= h.len() && #[trigger] h.subrange(i, i + n.len() as int) == n
}

/// Index of the first occurrence of `x` in `b` at or after `i`;
/// `b.len()` when there is none.
pub open spec fn index_of_from(b: Seq<u8>, i: int, x: u8) -> int
    decreases b.len() - i,
{
    if 0 <= i && i < b.len() {
        if b[i] == x {
            i
        } else {
            index_of_from(b, i + 1, x)
        }
    } else {
        b.len() as int
    }
}

/// What `index_of_from` returns: the first hit, or the length.
pub proof fn lemma_index_of_from(b: Seq<u8>, i: int, x: u8)
    requires
        0 <= i <= b.len(),
    ensures
        i <= index_of_from(b, i, x) <= b.len(),
        index_of_from(b, i, x) < b.len() ==> b[index_of_from(b, i, x)] == x,
        forall|k: int| i <= k < index_of_from(b, i, x) ==> b[k] != x,
    decreases b.len() - i,
{
    if i < b.len() && b[i] != x {
        lemma_index_of_from(b, i + 1, x);
    }
}

/// `index_of_from` is pinned down by the properties above.
pub proof fn lemma_index_of_from_is(b: Seq<u8>, i: int, x: u8, j: int)
    requires
        0 <= i <= j <= b.len(),
        j < b.len() ==> b[j] == x,
        forall|k: int| i <= k < j ==> b[k] != x,
    ensures
        index_of_from(b, i, x) == j,
    decreases j - i,
{
    if i < j {
        lemma_index_of_from_is(b, i + 1, x, j);
    }
}

/// Byte-for-byte equality of two slices.
pub fn bytes_eq(a: &[u8], b: &[u8]) -> (r: bool)
    ensures
        r == (a@ == b@),
{
    if a.len() != b.len() {
        assert(a@.len() != b@.len());
        return false;
    }
    let mut i: usize = 0;
    while i < a.len()
        invariant
            i <= a.len(),
            a@.len() == b@.len(),
            forall|k: int| 0 <= k < i ==> a@[k] == b@[k],
        decreases a.len() - i,
    {
        if a[i] != b[i] {
            return false;
        }
        i = i + 1;
    }
    assert(a@ =~= b@);
    true
}

/// Does `b` start with `p`?
pub fn has_prefix(b: &[u8], p: &[u8]) -> (r: bool)
    ensures
        r == seq_starts_with(b@, p@),
{
    if p.len() > b.len() {
        return false;
    }
    let mut i: usize = 0;
    while i < p.len()
        invariant
            i <= p.len(),
            p@.len() <= b@.len(),
            forall|k: int| 0 <= k < i ==> b@[k] == p@[k],
        decreases p.len() - i,
    {
        if b[i] != p[i] {
            assert(b@.subrange(0, p@.len() as int) != p@) by {
                assert(b@.subrange(0, p@.len() as int)[i as int] != p@[i as int]);
            }
            return false;
        }
        i = i + 1;
    }
    assert(b@.subrange(0, p@.len() as int) =~= p@);
    true
}

/// Does `h` contain `n` as a contiguous run of bytes?
pub fn contains_sub(h: &[u8], n: &[u8]) -> (r: bool)
    ensures
        r == seq_contains_sub(h@, n@),
{
    if n.len() > h.len() {
        return false;
    }
    if n.len() == 0 {
        assert(seq_contains_sub(h@, n@)) by {
            assert(h@.subrange(0, 0 + n@.len() as int) =~= n@);
        }
        return true;
    }
    let limit: usize = h.len() - n.len();
    let mut i: usize = 0;
    while i <= limit
        invariant
            1 <= n@.len() <= h@.len(),
            h@.len() <= usize::MAX,
            limit == h@.len() - n@.len(),
            i <= limit + 1,
            forall|j: int|
                0 <= j < i ==> #[trigger] h@.subrange(j, j + n@.len() as int) != n@,
        decreases limit + 1 - i,
    {
        assert(i + n@.len() <= h@.len());
        let window = vstd::slice::slice_subrange(h, i, i + n.len());
        if bytes_eq(window, n) {
            assert(h@.subrange(i as int, i + n@.len() as int) == n@);
            return true;
        }
        i = i + 1;
    }
    proof {
        assert forall|j: int|
            0 <= j && j + n@.len() <= h@.len() implies #[trigger] h@.subrange(
            j,
            j + n@.len() as int,
        ) != n@ by {
            assert(j < i);
        }
    }
    false
}

/// Append every byte of `s` to `v`, in order.
pub fn push_all(v: &mut Vec<u8>, s: &[u8])
    ensures
        final(v)@ == old(v)@ + s@,
{
    let mut i: usize = 0;
    while i < s.len()
        invariant
            i <= s.len(),
            v@ == old(v)@ + s@.subrange(0, i as int),
        decreases s.len() - i,
    {
        v.push(s[i]);
        assert(v@ =~= old(v)@ + s@.subrange(0, i + 1));
        i = i + 1;
    }
    assert(v@ =~= old(v)@ + s@);
}

/// First index of `x` in `b` at or after `from`, if any.
pub fn find_byte_from(b: &[u8], from: usize, x: u8) -> (r: Option<usize>)
    requires
        from <= b@.len(),
    ensures
        ({
            let j = index_of_from(b@, from as int, x);
            if j < b@.len() {
                r == Some(j as usize)
            } else {
                r is None
            }
        }),
{
    let mut i: usize = from;
    while i < b.len()
        invariant
            from <= i <= b@.len(),
            forall|k: int| from <= k < i ==> b@[k] != x,
        decreases b.len() - i,
    {
        if b[i] == x {
            proof {
                lemma_index_of_from_is(b@, from as int, x, i as int);
            }
            return Some(i);
        }
        i = i + 1;
    }
    proof {
        lemma_index_of_from_is(b@, from as int, x, b@.len() as int);
    }
    None
}

} // verus!
