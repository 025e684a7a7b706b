//! Big- and little-endian encodings of the integer types that appear in the
//! wire format and in guest linear memory.

use vstd::prelude::*;

verus! {

/// Big-endian bytes of a `u32`.
pub open spec fn u32_be(x: u32) -> Seq<u8> {
    seq![
        ((x >> 24) & 0xff) as u8,
        ((x >> 16) & 0xff) as u8,
        ((x >> 8) & 0xff) as u8,
        (x & 0xff) as u8,
    ]
}

/// Big-endian bytes of a `u64`.
pub open spec fn u64_be(x: u64) -> Seq<u8> {
    seq![
        ((x >> 56) & 0xff) as u8,
        ((x >> 48) & 0xff) as u8,
        ((x >> 40) & 0xff) as u8,
        ((x >> 32) & 0xff) as u8,
        ((x >> 24) & 0xff) as u8,
        ((x >> 16) & 0xff) as u8,
        ((x >> 8) & 0xff) as u8,
        (x & 0xff) as u8,
    ]
}

/// Little-endian bytes of a `u64`, the in-memory form of amounts, slot
/// numbers, heights and balances.
pub open spec fn u64_le(x: u64) -> Seq<u8> {
    seq![
        (x & 0xff) as u8,
        ((x >> 8) & 0xff) as u8,
        ((x >> 16) & 0xff) as u8,
        ((x >> 24) & 0xff) as u8,
        ((x >> 32) & 0xff) as u8,
        ((x >> 40) & 0xff) as u8,
        ((x >> 48) & 0xff) as u8,
        ((x >> 56) & 0xff) as u8,
    ]
}

/// Big-endian bytes of an `i32`, as its two's-complement `u32`.
pub open spec fn i32_be(x: i32) -> Seq<u8> {
    u32_be(x as u32)
}

/// Append the big-endian bytes of `x` to `out`.
pub fn push_u32_be(out: &mut Vec<u8>, x: u32)
    ensures
        final(out)@ == old(out)@ + u32_be(x),
{
    out.push(((x >> 24) & 0xff) as u8);
    out.push(((x >> 16) & 0xff) as u8);
    out.push(((x >> 8) & 0xff) as u8);
    out.push((x & 0xff) as u8);
    proof {
        assert(out@ =~= old(out)@ + u32_be(x));
    }
}

/// Append the big-endian bytes of `x` to `out`.
pub fn push_u64_be(out: &mut Vec<u8>, x: u64)
    ensures
        final(out)@ == old(out)@ + u64_be(x),
{
    out.push(((x >> 56) & 0xff) as u8);
    out.push(((x >> 48) & 0xff) as u8);
    out.push(((x >> 40) & 0xff) as u8);
    out.push(((x >> 32) & 0xff) as u8);
    out.push(((x >> 24) & 0xff) as u8);
    out.push(((x >> 16) & 0xff) as u8);
    out.push(((x >> 8) & 0xff) as u8);
    out.push((x & 0xff) as u8);
    proof {
        assert(out@ =~= old(out)@ + u64_be(x));
    }
}

/// Append the little-endian bytes of `x` to `out`.
pub fn push_u64_le(out: &mut Vec<u8>, x: u64)
    ensures
        final(out)@ == old(out)@ + u64_le(x),
{
    out.push((x & 0xff) as u8);
    out.push(((x >> 8) & 0xff) as u8);
    out.push(((x >> 16) & 0xff) as u8);
    out.push(((x >> 24) & 0xff) as u8);
    out.push(((x >> 32) & 0xff) as u8);
    out.push(((x >> 40) & 0xff) as u8);
    out.push(((x >> 48) & 0xff) as u8);
    out.push(((x >> 56) & 0xff) as u8);
    proof {
        assert(out@ =~= old(out)@ + u64_le(x));
    }
}

/// Append the big-endian bytes of `x` to `out`.
pub fn push_i32_be(out: &mut Vec<u8>, x: i32)
    ensures
        final(out)@ == old(out)@ + i32_be(x),
{
    push_u32_be(out, x as u32);
}

/// Append a copy of `src` to `out`.
pub fn push_bytes(out: &mut Vec<u8>, src: &[u8])
    ensures
        final(out)@ == old(out)@ + src@,
{
    let mut i: usize = 0;
    while i < src.len()
        invariant
            i <= src@.len(),
            out@ == old(out)@ + src@.subrange(0, i as int),
        decreases src@.len() - i,
    {
        out.push(src[i]);
        i = i + 1;
        proof {
            assert(out@ =~= old(out)@ + src@.subrange(0, i as int));
        }
    }
    proof {
        assert(src@.subrange(0, src@.len() as int) =~= src@);
    }
}

/// Concatenation of `f` applied to the elements of `s` from index `i` on.
pub open spec fn concat_bytes_from<T>(s: Seq<T>, f: spec_fn(T) -> Seq<u8>, i: int) -> Seq<u8>
    decreases s.len() - i,
{
    if i < 0 || i >= s.len() {
        seq![]
    } else {
        f(s[i]) + concat_bytes_from(s, f, i + 1)
    }
}

/// Concatenation of `f` applied to the elements of `s` before index `i`.
pub open spec fn concat_bytes_upto<T>(s: Seq<T>, f: spec_fn(T) -> Seq<u8>, i: int) -> Seq<u8>
    decreases i,
{
    if i <= 0 || i > s.len() {
        seq![]
    } else {
        concat_bytes_upto(s, f, i - 1) + f(s[i - 1])
    }
}

/// The concatenation over all of `s` splits at any index into the part
/// before it and the part from it on.
pub proof fn lemma_concat_bytes_split<T>(s: Seq<T>, f: spec_fn(T) -> Seq<u8>, i: int)
    requires
        0 <= i <= s.len(),
    ensures
        concat_bytes_from(s, f, 0) == concat_bytes_upto(s, f, i) + concat_bytes_from(s, f, i),
    decreases i,
{
    if i == 0 {
        assert(concat_bytes_upto(s, f, 0) + concat_bytes_from(s, f, 0) =~= concat_bytes_from(
            s,
            f,
            0,
        ));
    } else {
        lemma_concat_bytes_split(s, f, i - 1);
        assert(concat_bytes_upto(s, f, i - 1) + (f(s[i - 1]) + concat_bytes_from(s, f, i))
            =~= concat_bytes_upto(s, f, i) + concat_bytes_from(s, f, i));
    }
}

/// `dst` with the bytes of `src` written at position `at`; positions outside
/// `at .. at + src.len()` keep their old value.
pub open spec fn splice(dst: Seq<u8>, at: int, src: Seq<u8>) -> Seq<u8> {
    Seq::new(
        dst.len(),
        |i: int| if at <= i < at + src.len() {
            src[i - at]
        } else {
            dst[i]
        },
    )
}

/// Copy `n` bytes of `src`, starting at `src_from`, into `dest` starting at
/// position `at`.
pub fn copy_into(dest: &mut Vec<u8>, at: usize, src: &[u8], src_from: usize, n: usize)
    requires
        at + n <= old(dest)@.len(),
        src_from + n <= src@.len(),
    ensures
        final(dest)@ == splice(old(dest)@, at as int, src@.subrange(
            src_from as int,
            src_from + n,
        )),
{
    let mut i: usize = 0;
    let dlen = dest.len();
    let slen = src.len();
    proof {
        assert(dest@ =~= splice(old(dest)@, at as int, src@.subrange(
            src_from as int,
            src_from as int,
        )));
    }
    while i < n
        invariant
            i <= n,
            at + n <= dlen,
            src_from + n <= slen,
            dlen == old(dest)@.len(),
            slen == src@.len(),
            dest@.len() == old(dest)@.len(),
            dest@ == splice(old(dest)@, at as int, src@.subrange(src_from as int, src_from + i)),
        decreases n - i,
    {
        dest[at + i] = src[src_from + i];
        i = i + 1;
        proof {
            assert(dest@ =~= splice(old(dest)@, at as int, src@.subrange(
                src_from as int,
                src_from + i,
            )));
        }
    }
    proof {
        assert(dest@ =~= splice(old(dest)@, at as int, src@.subrange(src_from as int, src_from + n)));
    }
}

/// Append a copy of the vector `src` to `out`.
pub fn push_vec(out: &mut Vec<u8>, src: &Vec<u8>)
    ensures
        final(out)@ == old(out)@ + src@,
{
    push_bytes(out, src.as_slice());
}

} // verus!
