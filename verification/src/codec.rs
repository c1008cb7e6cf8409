use vstd::prelude::*;

use crate::matrix::{matrix_wf, reverse_wf, Matrix, ReverseMatrix};

verus! {

/// Why a buffer was refused by the reverse transform.
#[derive(Clone, Copy, Debug, PartialEq, Eq, Structural)]
pub enum CodecError {
    /// The buffer's length is odd, so it cannot consist of byte pairs.
    OddLength,
    /// Some byte of the buffer is outside the reverse table's domain.
    UnmappedByte,
}

pub open spec fn high_nibble(b: u8) -> u8 {
    b >> 4u8
}

pub open spec fn low_nibble(b: u8) -> u8 {
    b & 15u8
}

/// The forward transform: each input byte becomes the substituted byte
/// of its high nibble followed by the substituted byte of its low nibble.
pub open spec fn spec_encode(t: Seq<u8>, s: Seq<u8>) -> Seq<u8> {
    Seq::new(
        (s.len() * 2) as nat,
        |i: int|
            if i % 2 == 0 {
                t[high_nibble(s[i / 2]) as int]
            } else {
                t[low_nibble(s[i / 2]) as int]
            },
    )
}

/// Every byte of `s` lies in the reverse table's domain.
pub open spec fn all_mapped(r: Seq<Option<u8>>, s: Seq<u8>) -> bool {
    forall|i: int| 0 <= i < s.len() ==> #[trigger] r[s[i] as int] is Some
}

/// A buffer the reverse transform accepts: even length, every byte mapped.
pub open spec fn valid_encoded(r: Seq<Option<u8>>, s: Seq<u8>) -> bool {
    &&& s.len() % 2 == 0
    &&& all_mapped(r, s)
}

/// The reverse transform: each byte pair becomes the byte whose high
/// nibble is the first byte's preimage and whose low nibble is the
/// second byte's preimage.
pub open spec fn spec_decode(r: Seq<Option<u8>>, s: Seq<u8>) -> Seq<u8> {
    Seq::new(
        (s.len() / 2) as nat,
        |i: int| ((r[s[2 * i] as int]->Some_0 << 4u8) | r[s[2 * i + 1] as int]->Some_0),
    )
}

proof fn lemma_nibble_range(b: u8)
    by (bit_vector)
    ensures
        b >> 4u8 < 16,
        b & 15u8 < 16,
{
}

proof fn lemma_nibble_recompose(b: u8)
    by (bit_vector)
    ensures
        ((b >> 4u8) << 4u8) | (b & 15u8) == b,
{
}

/// Applies the forward transform to a whole buffer.
pub fn encode(m: &Matrix, stream: &[u8]) -> (r: Vec<u8>)
    requires
        m.wf(),
    ensures
        r@ == spec_encode(m@, stream@),
        r@.len() == 2 * stream@.len(),
{
    let mut out: Vec<u8> = Vec::new();
    let mut i: usize = 0;
    while i < stream.len()
        invariant
            m.wf(),
            i <= stream@.len(),
            out@ == spec_encode(m@, stream@.take(i as int)),
        decreases stream@.len() - i,
    {
        let b = stream[i];
        proof {
            lemma_nibble_range(b);
        }
        let hi = (b >> 4) as usize;
        let lo = (b & 15) as usize;
        out.push(m.entry(hi));
        out.push(m.entry(lo));
        proof {
            assert(out@ =~= spec_encode(m@, stream@.take(i + 1)));
        }
        i += 1;
    }
    proof {
        assert(stream@.take(stream@.len() as int) =~= stream@);
    }
    out
}

/// Applies the reverse transform to a buffer already known to be valid.
pub fn decode_valid(rev: &ReverseMatrix, stream: &[u8]) -> (r: Vec<u8>)
    requires
        rev.wf(),
        valid_encoded(rev@, stream@),
    ensures
        r@ == spec_decode(rev@, stream@),
        r@.len() == stream@.len() / 2,
{
    let mut out: Vec<u8> = Vec::new();
    let mut i: usize = 0;
    while i + 1 < stream.len()
        invariant
            rev.wf(),
            valid_encoded(rev@, stream@),
            i % 2 == 0,
            i <= stream@.len(),
            out@ == spec_decode(rev@, stream@.take(i as int)),
        decreases stream@.len() - i,
    {
        let b0 = stream[i];
        let b1 = stream[i + 1];
        assert(rev@[b0 as int] is Some && rev@[b1 as int] is Some);
        let n0 = rev.lookup(b0).unwrap();
        let n1 = rev.lookup(b1).unwrap();
        out.push((n0 << 4) | n1);
        proof {
            assert(out@ =~= spec_decode(rev@, stream@.take(i + 2)));
        }
        i += 2;
    }
    proof {
        assert(i == stream@.len());
        assert(stream@.take(stream@.len() as int) =~= stream@);
    }
    out
}

/// Checks that every byte of `stream` lies in the reverse table's domain.
pub fn check_mapped(rev: &ReverseMatrix, stream: &[u8]) -> (r: bool)
    requires
        rev.wf(),
    ensures
        r == all_mapped(rev@, stream@),
{
    let mut i: usize = 0;
    while i < stream.len()
        invariant
            rev.wf(),
            i <= stream@.len(),
            forall|k: int| 0 <= k < i ==> #[trigger] rev@[stream@[k] as int] is Some,
        decreases stream@.len() - i,
    {
        if rev.lookup(stream[i]).is_none() {
            return false;
        }
        i += 1;
    }
    true
}

/// Applies the reverse transform to a whole buffer, refusing odd
/// lengths and bytes outside the reverse table's domain.
pub fn decode(rev: &ReverseMatrix, stream: &[u8]) -> (r: Result<Vec<u8>, CodecError>)
    requires
        rev.wf(),
    ensures
        r is Ok <==> valid_encoded(rev@, stream@),
        r is Ok ==> r->Ok_0@ == spec_decode(rev@, stream@),
        r == Err::<Vec<u8>, CodecError>(CodecError::OddLength) <==> stream@.len() % 2 != 0,
        r == Err::<Vec<u8>, CodecError>(CodecError::UnmappedByte) <==> stream@.len() % 2 == 0
            && !all_mapped(rev@, stream@),
{
    if stream.len() % 2 != 0 {
        return Err(CodecError::OddLength);
    }
    if !check_mapped(rev, stream) {
        return Err(CodecError::UnmappedByte);
    }
    Ok(decode_valid(rev, stream))
}

/// Round-trip law: under a well-formed table pair, the forward transform
/// always yields a valid encoded buffer, and the reverse transform
/// restores the original bytes exactly.
pub proof fn lemma_round_trip(t: Seq<u8>, r: Seq<Option<u8>>, s: Seq<u8>)
    requires
        matrix_wf(t),
        reverse_wf(t, r),
    ensures
        valid_encoded(r, spec_encode(t, s)),
        spec_decode(r, spec_encode(t, s)) == s,
{
    let e = spec_encode(t, s);
    assert forall|i: int| 0 <= i < e.len() implies #[trigger] r[e[i] as int] is Some by {
        let b = s[i / 2];
        lemma_nibble_range(b);
    }
    assert forall|i: int| 0 <= i < s.len() implies spec_decode(r, e)[i] == s[i] by {
        let b = s[i];
        lemma_nibble_range(b);
        assert(e[2 * i] == t[high_nibble(b) as int]);
        assert(e[2 * i + 1] == t[low_nibble(b) as int]);
        assert(r[e[2 * i] as int] == Some(high_nibble(b)));
        assert(r[e[2 * i + 1] as int] == Some(low_nibble(b)));
        lemma_nibble_recompose(b);
    }
    assert(spec_decode(r, e) =~= s);
}

} // verus!
