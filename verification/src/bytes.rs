//! Byte-sequence helpers shared by the header codec, the engine and the
//! decoder: in-place range writes, zero filling, and the flat list of byte
//! chunks that the builder concatenates.

use vstd::prelude::*;

verus! {

/// The sequence `s` with the bytes of `d` written over positions
/// `off .. off + d.len()`.
pub open spec fn splice(s: Seq<u8>, off: int, d: Seq<u8>) -> Seq<u8> {
    s.take(off) + d + s.skip(off + d.len())
}

/// All-zero byte sequence of length `n`.
pub open spec fn zeroes(n: int) -> Seq<u8> {
    Seq::new(n as nat, |i: int| 0u8)
}

pub proof fn lemma_splice_len(s: Seq<u8>, off: int, d: Seq<u8>)
    requires
        0 <= off,
        off + d.len() <= s.len(),
    ensures
        splice(s, off, d).len() == s.len(),
        forall|j: int| 0 <= j < off ==> splice(s, off, d)[j] == s[j],
        forall|j: int| 0 <= j < d.len() ==> splice(s, off, d)[off + j] == d[j],
        forall|j: int| off + d.len() <= j < s.len() ==> splice(s, off, d)[j] == s[j],
{
}

/// Writes `src` into `dst` starting at `off`, leaving all other bytes alone.
pub fn write_bytes(dst: &mut Vec<u8>, off: usize, src: &Vec<u8>)
    requires
        off + src@.len() <= old(dst)@.len(),
    ensures
        final(dst)@ == splice(old(dst)@, off as int, src@),
{
    let n = src.len();
    let dlen = dst.len();
    let mut i: usize = 0;
    while i < n
        invariant
            n == src@.len(),
            off + n <= dlen,
            dlen == dst@.len(),
            dst@.len() == old(dst)@.len(),
            i <= n,
            forall|j: int|
                0 <= j < dst@.len() && !(off <= j < off + i) ==> dst@[j] == old(dst)@[j],
            forall|j: int| 0 <= j < i ==> dst@[off + j] == src@[j],
        decreases n - i,
    {
        dst[off + i] = src[i];
        i += 1;
    }
    proof {
        assert(dst@ =~= splice(old(dst)@, off as int, src@));
    }
}

/// A fresh vector of `n` zero bytes.
pub fn zero_vec(n: usize) -> (r: Vec<u8>)
    ensures
        r@ == zeroes(n as int),
{
    let mut r: Vec<u8> = Vec::new();
    let mut i: usize = 0;
    while i < n
        invariant
            i <= n,
            r@ == zeroes(i as int),
        decreases n - i,
    {
        r.push(0u8);
        proof {
            assert(r@ =~= zeroes(i + 1));
        }
        i += 1;
    }
    r
}

/// Appends all of `src` to `dst`.
pub fn extend_bytes(dst: &mut Vec<u8>, src: &Vec<u8>)
    ensures
        final(dst)@ == old(dst)@ + src@,
{
    let n = src.len();
    let mut i: usize = 0;
    while i < n
        invariant
            n == src@.len(),
            i <= n,
            dst@ == old(dst)@ + src@.take(i as int),
        decreases n - i,
    {
        dst.push(src[i]);
        proof {
            assert(dst@ =~= old(dst)@ + src@.take(i + 1));
        }
        i += 1;
    }
    proof {
        assert(dst@ =~= old(dst)@ + src@);
    }
}

/// Copies the byte range `start .. end` of `src` into a fresh vector.
pub fn copy_range(src: &Vec<u8>, start: usize, end: usize) -> (r: Vec<u8>)
    requires
        start <= end <= src@.len(),
    ensures
        r@ == src@.subrange(start as int, end as int),
{
    let mut r: Vec<u8> = Vec::new();
    let mut i: usize = start;
    while i < end
        invariant
            start <= i <= end <= src@.len(),
            r@ == src@.subrange(start as int, i as int),
        decreases end - i,
    {
        r.push(src[i]);
        proof {
            assert(r@ =~= src@.subrange(start as int, i + 1));
        }
        i += 1;
    }
    r
}

/// Copies the byte range `start .. end` of a slice into a fresh vector.
pub fn copy_range_slice(src: &[u8], start: usize, end: usize) -> (r: Vec<u8>)
    requires
        start <= end <= src@.len(),
    ensures
        r@ == src@.subrange(start as int, end as int),
{
    let mut r: Vec<u8> = Vec::new();
    let mut i: usize = start;
    while i < end
        invariant
            start <= i <= end <= src@.len(),
            r@ == src@.subrange(start as int, i as int),
        decreases end - i,
    {
        r.push(*vstd::slice::slice_index_get(src, i));
        proof {
            assert(r@ =~= src@.subrange(start as int, i + 1));
        }
        i += 1;
    }
    r
}

/// Position of the first zero byte of `s`, if any.
pub open spec fn spec_find_nul(s: Seq<u8>) -> Option<int> {
    if exists|i: int| 0 <= i < s.len() && s[i] == 0u8 {
        Some(choose|i: int|
            0 <= i < s.len() && s[i] == 0u8 && forall|j: int| 0 <= j < i ==> s[j] != 0u8)
    } else {
        None
    }
}

/// The bytes of `s` before its first zero byte; empty when `s` has none.
///
/// This mirrors how a C string is read out of a fixed tar field: without a
/// terminator the field is treated as unreadable, hence empty.
pub open spec fn cstr_prefix(s: Seq<u8>) -> Seq<u8> {
    match spec_find_nul(s) {
        Some(i) => s.take(i),
        None => Seq::empty(),
    }
}

/// Finds the first zero byte of `v`, matching `spec_find_nul`.
pub fn find_nul(v: &Vec<u8>) -> (r: Option<usize>)
    ensures
        match r {
            Some(i) => spec_find_nul(v@) == Some(i as int) && i < v@.len() && v@[i as int]
                == 0u8 && forall|j: int| 0 <= j < i ==> v@[j] != 0u8,
            None => spec_find_nul(v@) is None && forall|j: int|
                0 <= j < v@.len() ==> v@[j] != 0u8,
        },
{
    let n = v.len();
    let mut i: usize = 0;
    while i < n
        invariant
            n == v@.len(),
            i <= n,
            forall|j: int| 0 <= j < i ==> v@[j] != 0u8,
        decreases n - i,
    {
        if v[i] == 0u8 {
            return Some(i);
        }
        i += 1;
    }
    None
}


/// No byte of `s` is zero.
pub open spec fn nul_free(s: Seq<u8>) -> bool {
    forall|i: int| 0 <= i < s.len() ==> #[trigger] s[i] != 0u8
}

/// The first zero byte of `s` is exactly at `i` when `s[i]` is zero and no
/// earlier byte is.
pub proof fn lemma_find_nul_at(s: Seq<u8>, i: int)
    requires
        0 <= i < s.len(),
        s[i] == 0u8,
        forall|j: int| 0 <= j < i ==> s[j] != 0u8,
    ensures
        spec_find_nul(s) == Some(i),
{
    assert(0 <= i < s.len() && s[i] == 0u8 && forall|j: int| 0 <= j < i ==> s[j] != 0u8);
    let c = choose|k: int|
        0 <= k < s.len() && s[k] == 0u8 && forall|j: int| 0 <= j < k ==> s[j] != 0u8;
    if c < i {
        assert(s[c] != 0u8);
    }
    if c > i {
        assert(s[i] != 0u8);
    }
}

/// An ordered list of byte chunks, concatenated once the document is
/// assembled.
pub struct SeqOfBytes {
    pub inner: Vec<Vec<u8>>,
}

/// The concatenation of a list of byte chunks.
pub open spec fn concat_chunks(chunks: Seq<Seq<u8>>) -> Seq<u8>
    decreases chunks.len(),
{
    if chunks.len() == 0 {
        Seq::empty()
    } else {
        concat_chunks(chunks.drop_last()) + chunks.last()
    }
}

impl SeqOfBytes {
    pub open spec fn joined(&self) -> Seq<u8> {
        concat_chunks(self.inner.deep_view())
    }

    pub fn new() -> (r: SeqOfBytes)
        ensures
            r.inner@.len() == 0,
            r.joined() == Seq::<u8>::empty(),
    {
        SeqOfBytes { inner: Vec::new() }
    }

    /// Appends a chunk, borrowing it only long enough to copy it.
    pub fn push(&mut self, data: &[u8])
        ensures
            final(self).inner.deep_view() == old(self).inner.deep_view().push(data@),
            final(self).joined() == old(self).joined() + data@,
    {
        let owned = vstd::slice::slice_to_vec(data);
        self.inner.push(owned);
        proof {
            assert(self.inner.deep_view() =~~= old(self).inner.deep_view().push(data@));
            let chunks = old(self).inner.deep_view();
            assert(chunks.push(data@).drop_last() =~= chunks);
        }
    }

    /// Appends a chunk the list takes ownership of.
    pub fn own(&mut self, data: Vec<u8>)
        ensures
            final(self).inner.deep_view() == old(self).inner.deep_view().push(data@),
            final(self).joined() == old(self).joined() + data@,
    {
        let ghost given = data@;
        self.inner.push(data);
        proof {
            assert(self.inner.deep_view() =~~= old(self).inner.deep_view().push(given));
            let chunks = old(self).inner.deep_view();
            assert(chunks.push(given).drop_last() =~= chunks);
        }
    }

    /// Concatenates every chunk in order.
    pub fn join(&self) -> (r: Vec<u8>)
        ensures
            r@ == self.joined(),
    {
        let mut r: Vec<u8> = Vec::new();
        let n = self.inner.len();
        let mut i: usize = 0;
        while i < n
            invariant
                n == self.inner@.len(),
                i <= n,
                r@ == concat_chunks(self.inner.deep_view().take(i as int)),
            decreases n - i,
        {
            extend_bytes(&mut r, &self.inner[i]);
            proof {
                let chunks = self.inner.deep_view();
                assert(chunks.take(i + 1).drop_last() =~= chunks.take(i as int));
                assert(chunks.take(i + 1).last() == chunks[i as int]);
                assert(chunks[i as int] =~= self.inner@[i as int]@);
            }
            i += 1;
        }
        proof {
            assert(self.inner.deep_view().take(n as int) =~= self.inner.deep_view());
        }
        r
    }
}

} // verus!
