use vstd::prelude::*;

use crate::codec::{
    all_mapped, decode_valid, encode, spec_decode, spec_encode, valid_encoded, CodecError,
};
use crate::matrix::{Matrix, ReverseMatrix};
use rayon::iter::ParallelIterator;
use rayon::slice::ParallelSlice;

verus! {

/// A chunk size fit for both transforms: it either covers the whole
/// buffer in one chunk or splits it only at two-byte boundaries.
pub open spec fn chunk_size_ok(len: int, c: int) -> bool {
    c == len || c % 2 == 0
}

/// Chunk size for splitting a buffer of `stream_len` bytes among
/// `workers` workers: the per-worker quotient with its low bit cleared,
/// or the whole buffer when that quotient is 0 or 1.
pub fn chunk_size(stream_len: usize, workers: usize) -> (c: usize)
    requires
        workers >= 1,
    ensures
        chunk_size_ok(stream_len as int, c as int),
        stream_len >= 1 ==> 1 <= c <= stream_len,
        stream_len / workers >= 2 ==> c == stream_len / workers - stream_len / workers % 2,
        stream_len / workers < 2 ==> c == stream_len,
{
    let q = stream_len / workers;
    let even_q = q - q % 2;
    if even_q == 0 {
        stream_len
    } else {
        even_q
    }
}

/// The contiguous chunks of `s` under chunk size `c`: all of length `c`
/// in order, except the last, which holds the remainder.
pub open spec fn spec_chunks(s: Seq<u8>, c: int) -> Seq<Seq<u8>>
    decreases s.len(),
{
    if c < 1 || s.len() == 0 {
        Seq::empty()
    } else if s.len() <= c {
        seq![s]
    } else {
        seq![s.take(c)] + spec_chunks(s.skip(c), c)
    }
}

proof fn lemma_flatten_cons(x: Seq<u8>, rest: Seq<Seq<u8>>)
    ensures
        (seq![x] + rest).flatten() == x + rest.flatten(),
{
    let cs = seq![x] + rest;
    assert(cs.first() == x);
    assert(cs.drop_first() =~= rest);
}

proof fn lemma_encode_concat(t: Seq<u8>, a: Seq<u8>, b: Seq<u8>)
    ensures
        spec_encode(t, a + b) == spec_encode(t, a) + spec_encode(t, b),
{
    let l = spec_encode(t, a + b);
    let r = spec_encode(t, a) + spec_encode(t, b);
    assert forall|i: int| 0 <= i < l.len() implies l[i] == r[i] by {
        if i < 2 * a.len() {
            assert(i / 2 < a.len());
            assert((a + b)[i / 2] == a[i / 2]);
        } else {
            let j = i - 2 * a.len();
            assert(i / 2 == a.len() + j / 2 && i % 2 == j % 2) by (nonlinear_arith)
                requires
                    i == 2 * a.len() + j,
                    j >= 0,
                    a.len() >= 0,
            ;
            assert((a + b)[i / 2] == b[j / 2]);
        }
    }
    assert(l =~= r);
}

proof fn lemma_decode_concat(rv: Seq<Option<u8>>, a: Seq<u8>, b: Seq<u8>)
    requires
        a.len() % 2 == 0,
    ensures
        spec_decode(rv, a + b) == spec_decode(rv, a) + spec_decode(rv, b),
{
    let l = spec_decode(rv, a + b);
    let r = spec_decode(rv, a) + spec_decode(rv, b);
    assert(l.len() == r.len()) by (nonlinear_arith)
        requires
            a.len() % 2 == 0,
            a.len() >= 0,
            b.len() >= 0,
            l.len() == (a.len() + b.len()) / 2,
            r.len() == a.len() / 2 + b.len() / 2,
    ;
    assert forall|i: int| 0 <= i < l.len() implies l[i] == r[i] by {
        if i < a.len() / 2 {
            assert(2 * i + 1 < a.len()) by (nonlinear_arith)
                requires
                    a.len() % 2 == 0,
                    0 <= i < a.len() / 2,
            ;
            assert((a + b)[2 * i] == a[2 * i]);
            assert((a + b)[2 * i + 1] == a[2 * i + 1]);
        } else {
            let j = i - a.len() / 2;
            assert(2 * i == a.len() + 2 * j && 2 * i + 1 == a.len() + (2 * j + 1))
                by (nonlinear_arith)
                requires
                    a.len() % 2 == 0,
                    j == i - a.len() / 2,
            ;
            assert((a + b)[2 * i] == b[2 * j]);
            assert((a + b)[2 * i + 1] == b[2 * j + 1]);
        }
    }
    assert(l =~= r);
}

proof fn lemma_encode_chunks(t: Seq<u8>, s: Seq<u8>, c: int)
    requires
        c >= 1,
    ensures
        spec_chunks(s, c).map_values(|ch: Seq<u8>| spec_encode(t, ch)).flatten() == spec_encode(
            t,
            s,
        ),
    decreases s.len(),
{
    let f = |ch: Seq<u8>| spec_encode(t, ch);
    let cs = spec_chunks(s, c);
    if s.len() == 0 {
        assert(cs.map_values(f).flatten() =~= spec_encode(t, s));
    } else if s.len() <= c {
        assert(cs.map_values(f) =~= seq![f(s)]);
        seq![f(s)].lemma_flatten_one_element();
    } else {
        let rest = spec_chunks(s.skip(c), c);
        assert(cs.map_values(f) =~= seq![f(s.take(c))] + rest.map_values(f));
        lemma_flatten_cons(f(s.take(c)), rest.map_values(f));
        lemma_encode_chunks(t, s.skip(c), c);
        lemma_encode_concat(t, s.take(c), s.skip(c));
        assert(s.take(c) + s.skip(c) =~= s);
    }
}

proof fn lemma_decode_chunks(rv: Seq<Option<u8>>, s: Seq<u8>, c: int)
    requires
        c >= 1,
        s.len() % 2 == 0,
        chunk_size_ok(s.len() as int, c),
    ensures
        spec_chunks(s, c).map_values(|ch: Seq<u8>| spec_decode(rv, ch)).flatten() == spec_decode(
            rv,
            s,
        ),
    decreases s.len(),
{
    let f = |ch: Seq<u8>| spec_decode(rv, ch);
    let cs = spec_chunks(s, c);
    if s.len() == 0 {
        assert(cs.map_values(f).flatten() =~= spec_decode(rv, s));
    } else if s.len() <= c {
        assert(cs.map_values(f) =~= seq![f(s)]);
        seq![f(s)].lemma_flatten_one_element();
    } else {
        let rest = spec_chunks(s.skip(c), c);
        assert(cs.map_values(f) =~= seq![f(s.take(c))] + rest.map_values(f));
        lemma_flatten_cons(f(s.take(c)), rest.map_values(f));
        lemma_decode_chunks(rv, s.skip(c), c);
        lemma_decode_concat(rv, s.take(c), s.skip(c));
        assert(s.take(c) + s.skip(c) =~= s);
    }
}

/// Concatenates the buffers in order into one buffer.
pub fn flatten(parts: &Vec<Vec<u8>>) -> (r: Vec<u8>)
    ensures
        r@ == parts@.map_values(|v: Vec<u8>| v@).flatten(),
{
    let mut out: Vec<u8> = Vec::new();
    let mut i: usize = 0;
    while i < parts.len()
        invariant
            i <= parts@.len(),
            out@ == parts@.take(i as int).map_values(|v: Vec<u8>| v@).flatten(),
        decreases parts@.len() - i,
    {
        let part = &parts[i];
        let mut j: usize = 0;
        while j < part.len()
            invariant
                i < parts@.len(),
                part == parts@[i as int],
                j <= part@.len(),
                out@ == parts@.take(i as int).map_values(|v: Vec<u8>| v@).flatten() + part@.take(
                    j as int,
                ),
            decreases part@.len() - j,
        {
            out.push(part[j]);
            proof {
                assert(part@.take(j + 1) =~= part@.take(j as int) + seq![part@[j as int]]);
            }
            j += 1;
        }
        proof {
            let m0 = parts@.take(i as int).map_values(|v: Vec<u8>| v@);
            let m1 = parts@.take(i + 1).map_values(|v: Vec<u8>| v@);
            assert(m1 =~= m0 + seq![parts@[i as int]@]);
            vstd::seq_lib::lemma_flatten_concat(m0, seq![parts@[i as int]@]);
            seq![parts@[i as int]@].lemma_flatten_one_element();
            assert(part@.take(part@.len() as int) =~= part@);
        }
        i += 1;
    }
    proof {
        assert(parts@.take(parts@.len() as int) =~= parts@);
    }
    out
}

/// Relies on rayon's `par_chunks`, `map` and `collect` on slices: the
/// slice is cut into contiguous, non-overlapping chunks of `csize` bytes
/// in order (only the last may be shorter), each chunk is encoded on a
/// worker, and the per-chunk outputs are collected in chunk order
/// regardless of completion order.
#[verifier::external_body]
fn par_encode_chunks(m: &Matrix, stream: &[u8], csize: usize) -> (r: Vec<Vec<u8>>)
    requires
        m.wf(),
        csize >= 1,
    ensures
        r@.map_values(|v: Vec<u8>| v@) == spec_chunks(stream@, csize as int).map_values(
            |ch: Seq<u8>| spec_encode(m@, ch),
        ),
{
    stream.par_chunks(csize).map(|chunk| encode(m, chunk)).collect()
}

/// Relies on rayon's `par_chunks`, `map` and `collect` on slices, as in
/// `par_encode_chunks`; the chunk size respects two-byte units and the
/// stream is valid, so every chunk meets `decode_valid`'s contract.
#[verifier::external_body]
fn par_decode_chunks(rev: &ReverseMatrix, stream: &[u8], csize: usize) -> (r: Vec<Vec<u8>>)
    requires
        rev.wf(),
        csize >= 1,
        chunk_size_ok(stream@.len() as int, csize as int),
        valid_encoded(rev@, stream@),
    ensures
        r@.map_values(|v: Vec<u8>| v@) == spec_chunks(stream@, csize as int).map_values(
            |ch: Seq<u8>| spec_decode(rev@, ch),
        ),
{
    stream.par_chunks(csize).map(|chunk| decode_valid(rev, chunk)).collect()
}

/// Applies the forward transform chunk-wise across `workers` workers and
/// concatenates the outputs in chunk order; the result never depends on
/// the worker count.
pub fn parallel_encode(m: &Matrix, stream: &[u8], workers: usize) -> (r: Vec<u8>)
    requires
        m.wf(),
        workers >= 1,
    ensures
        r@ == spec_encode(m@, stream@),
        r@.len() == 2 * stream@.len(),
{
    if stream.len() == 0 {
        let r: Vec<u8> = Vec::new();
        proof {
            assert(r@ =~= spec_encode(m@, stream@));
        }
        return r;
    }
    let c = chunk_size(stream.len(), workers);
    let parts = par_encode_chunks(m, stream, c);
    let out = flatten(&parts);
    proof {
        lemma_encode_chunks(m@, stream@, c as int);
    }
    out
}

/// Applies the reverse transform chunk-wise across `workers` workers and
/// concatenates the outputs in chunk order; it accepts and refuses
/// exactly the buffers `decode` does, and on success the result never
/// depends on the worker count.
pub fn parallel_decode(rev: &ReverseMatrix, stream: &[u8], workers: usize) -> (r: Result<
    Vec<u8>,
    CodecError,
>)
    requires
        rev.wf(),
        workers >= 1,
    ensures
        r is Ok <==> valid_encoded(rev@, stream@),
        r is Ok ==> r->Ok_0@ == spec_decode(rev@, stream@),
        r == Err::<Vec<u8>, CodecError>(CodecError::OddLength) <==> stream@.len() % 2 != 0,
        r == Err::<Vec<u8>, CodecError>(CodecError::UnmappedByte) <==> stream@.len() % 2 == 0
            && !all_mapped(rev@, stream@),
{
    if stream.len() % 2 != 0 {
        return Err(CodecError::OddLength);
    }
    if !crate::codec::check_mapped(rev, stream) {
        return Err(CodecError::UnmappedByte);
    }
    if stream.len() == 0 {
        let r: Vec<u8> = Vec::new();
        proof {
            assert(r@ =~= spec_decode(rev@, stream@));
        }
        return Ok(r);
    }
    let c = chunk_size(stream.len(), workers);
    let parts = par_decode_chunks(rev, stream, c);
    let out = flatten(&parts);
    proof {
        lemma_decode_chunks(rev@, stream@, c as int);
    }
    Ok(out)
}

} // verus!
