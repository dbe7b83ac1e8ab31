//! Byte-level primitives shared by the table codec and the container:
//! big-endian and little-endian integer fields, NUL-terminated strings,
//! and sector alignment.
//!
//! All multi-byte values inside a table are big-endian; the outer container
//! framing is little-endian.

use vstd::prelude::*;

use crate::error::CpkError;

verus! {

// ---------------------------------------------------------------------------
// Big-endian fields.
// ---------------------------------------------------------------------------

/// The two big-endian bytes of `x`.
pub open spec fn spec_be16_bytes(x: u16) -> Seq<u8> {
    seq![(x / 0x100) as u8, (x % 0x100) as u8]
}

/// The four big-endian bytes of `x`.
pub open spec fn spec_be32_bytes(x: u32) -> Seq<u8> {
    seq![
        (x / 0x1000000) as u8,
        ((x / 0x10000) % 0x100) as u8,
        ((x / 0x100) % 0x100) as u8,
        (x % 0x100) as u8,
    ]
}

/// The eight big-endian bytes of `x`.
pub open spec fn spec_be64_bytes(x: u64) -> Seq<u8> {
    spec_be32_bytes((x / 0x100000000) as u32) + spec_be32_bytes((x % 0x100000000) as u32)
}

/// The value of two bytes read big-endian.
pub open spec fn spec_be16(s: Seq<u8>) -> int
    recommends
        s.len() == 2,
{
    s[0] * 0x100 + s[1]
}

/// The value of four bytes read big-endian.
pub open spec fn spec_be32(s: Seq<u8>) -> int
    recommends
        s.len() == 4,
{
    ((s[0] * 0x100 + s[1]) * 0x100 + s[2]) * 0x100 + s[3]
}

/// The value of eight bytes read big-endian.
pub open spec fn spec_be64(s: Seq<u8>) -> int
    recommends
        s.len() == 8,
{
    spec_be32(s.subrange(0, 4)) * 0x100000000 + spec_be32(s.subrange(4, 8))
}

/// A big-endian field read back gives the integer it was written from.
pub proof fn lemma_be16_roundtrip(x: u16)
    ensures
        spec_be16(spec_be16_bytes(x)) == x,
        0 <= spec_be16(spec_be16_bytes(x)) <= u16::MAX,
{
    assert((x / 0x100) as u8 * 0x100 + (x % 0x100) as u8 == x) by (bit_vector);
}

/// A big-endian field read back gives the integer it was written from.
pub proof fn lemma_be32_roundtrip(x: u32)
    ensures
        spec_be32(spec_be32_bytes(x)) == x,
{
    assert((((x / 0x1000000) as u8 * 0x100 + ((x / 0x10000) % 0x100) as u8) * 0x100 + ((x
        / 0x100) % 0x100) as u8) * 0x100 + (x % 0x100) as u8 == x) by (bit_vector);
}

/// A 64-bit value splits into its high and low 32-bit halves.
pub proof fn lemma_u64_split(x: u64)
    ensures
        0 <= x / 0x100000000 < 0x100000000,
        0 <= x % 0x100000000 < 0x100000000,
        x == (x / 0x100000000) * 0x100000000 + (x % 0x100000000),
{
    vstd::arithmetic::div_mod::lemma_fundamental_div_mod(x as int, 0x100000000);
    vstd::arithmetic::div_mod::lemma_mod_bound(x as int, 0x100000000);
    vstd::arithmetic::mul::lemma_mul_is_commutative(0x100000000, x as int / 0x100000000);
}

/// A big-endian field read back gives the integer it was written from.
pub proof fn lemma_be64_roundtrip(x: u64)
    ensures
        spec_be64(spec_be64_bytes(x)) == x,
{
    lemma_u64_split(x);
    let hi = (x / 0x100000000) as u32;
    let lo = (x % 0x100000000) as u32;
    assert(spec_be64_bytes(x).subrange(0, 4) =~= spec_be32_bytes(hi));
    assert(spec_be64_bytes(x).subrange(4, 8) =~= spec_be32_bytes(lo));
    lemma_be32_roundtrip(hi);
    lemma_be32_roundtrip(lo);
}

/// Any four big-endian bytes denote a value in `u32` range.
pub proof fn lemma_be32_range(s: Seq<u8>)
    requires
        s.len() == 4,
    ensures
        0 <= spec_be32(s) <= u32::MAX,
{
}

/// Reads the big-endian 16-bit field at `pos`.
pub fn be16_at(data: &[u8], pos: usize) -> (r: u16)
    requires
        pos + 2 <= data@.len(),
    ensures
        r == spec_be16(data@.subrange(pos as int, pos + 2)),
{
    let s = data[pos] as u16 * 0x100 + data[pos + 1] as u16;
    proof {
        let b = data@.subrange(pos as int, pos + 2);
        assert(b[0] == data@[pos as int] && b[1] == data@[pos + 1]);
    }
    s
}

/// Reads the big-endian 32-bit field at `pos`.
pub fn be32_at(data: &[u8], pos: usize) -> (r: u32)
    requires
        pos + 4 <= data@.len(),
    ensures
        r == spec_be32(data@.subrange(pos as int, pos + 4)),
{
    let s = ((data[pos] as u32 * 0x100 + data[pos + 1] as u32) * 0x100 + data[pos + 2] as u32)
        * 0x100 + data[pos + 3] as u32;
    proof {
        let b = data@.subrange(pos as int, pos + 4);
        assert(b[0] == data@[pos as int] && b[1] == data@[pos + 1] && b[2] == data@[pos + 2]
            && b[3] == data@[pos + 3]);
    }
    s
}

/// Reads the big-endian 64-bit field at `pos`.
pub fn be64_at(data: &[u8], pos: usize) -> (r: u64)
    requires
        pos + 8 <= data@.len(),
    ensures
        r == spec_be64(data@.subrange(pos as int, pos + 8)),
{
    let _n = data.len();
    let hi = be32_at(data, pos);
    let lo = be32_at(data, pos + 4);
    proof {
        let b = data@.subrange(pos as int, pos + 8);
        assert(b.subrange(0, 4) =~= data@.subrange(pos as int, pos + 4));
        assert(b.subrange(4, 8) =~= data@.subrange(pos + 4, pos + 8));
        lemma_be32_range(b.subrange(0, 4));
        lemma_be32_range(b.subrange(4, 8));
    }
    hi as u64 * 0x100000000 + lo as u64
}

/// Appends the big-endian bytes of `x`.
pub fn push_be16(out: &mut Vec<u8>, x: u16)
    ensures
        final(out)@ == old(out)@ + spec_be16_bytes(x),
{
    out.push((x / 0x100) as u8);
    out.push((x % 0x100) as u8);
    proof {
        assert(out@ =~= old(out)@ + spec_be16_bytes(x));
    }
}

/// Appends the big-endian bytes of `x`.
pub fn push_be32(out: &mut Vec<u8>, x: u32)
    ensures
        final(out)@ == old(out)@ + spec_be32_bytes(x),
{
    out.push((x / 0x1000000) as u8);
    out.push(((x / 0x10000) % 0x100) as u8);
    out.push(((x / 0x100) % 0x100) as u8);
    out.push((x % 0x100) as u8);
    proof {
        assert(out@ =~= old(out)@ + spec_be32_bytes(x));
    }
}

/// Appends the big-endian bytes of `x`.
pub fn push_be64(out: &mut Vec<u8>, x: u64)
    ensures
        final(out)@ == old(out)@ + spec_be64_bytes(x),
{
    push_be32(out, (x / 0x100000000) as u32);
    push_be32(out, (x % 0x100000000) as u32);
    proof {
        assert(out@ =~= old(out)@ + spec_be64_bytes(x));
    }
}

// ---------------------------------------------------------------------------
// Little-endian fields (container framing and compressed-payload header).
// ---------------------------------------------------------------------------

/// The value of four bytes read little-endian.
pub open spec fn spec_le32(s: Seq<u8>) -> int
    recommends
        s.len() == 4,
{
    ((s[3] * 0x100 + s[2]) * 0x100 + s[1]) * 0x100 + s[0]
}

/// The value of eight bytes read little-endian.
pub open spec fn spec_le64(s: Seq<u8>) -> int
    recommends
        s.len() == 8,
{
    spec_le32(s.subrange(4, 8)) * 0x100000000 + spec_le32(s.subrange(0, 4))
}

/// The four little-endian bytes of `x`.
pub open spec fn spec_le32_bytes(x: u32) -> Seq<u8> {
    seq![
        (x % 0x100) as u8,
        ((x / 0x100) % 0x100) as u8,
        ((x / 0x10000) % 0x100) as u8,
        (x / 0x1000000) as u8,
    ]
}

/// The eight little-endian bytes of `x`.
pub open spec fn spec_le64_bytes(x: u64) -> Seq<u8> {
    spec_le32_bytes((x % 0x100000000) as u32) + spec_le32_bytes((x / 0x100000000) as u32)
}

/// A little-endian field read back gives the integer it was written from.
pub proof fn lemma_le32_roundtrip(x: u32)
    ensures
        spec_le32(spec_le32_bytes(x)) == x,
{
    assert((((x / 0x1000000) as u8 * 0x100 + ((x / 0x10000) % 0x100) as u8) * 0x100 + ((x
        / 0x100) % 0x100) as u8) * 0x100 + (x % 0x100) as u8 == x) by (bit_vector);
}

/// A little-endian field read back gives the integer it was written from.
pub proof fn lemma_le64_roundtrip(x: u64)
    ensures
        spec_le64(spec_le64_bytes(x)) == x,
{
    lemma_u64_split(x);
    let hi = (x / 0x100000000) as u32;
    let lo = (x % 0x100000000) as u32;
    assert(spec_le64_bytes(x).subrange(0, 4) =~= spec_le32_bytes(lo));
    assert(spec_le64_bytes(x).subrange(4, 8) =~= spec_le32_bytes(hi));
    lemma_le32_roundtrip(hi);
    lemma_le32_roundtrip(lo);
}

/// Reads the little-endian 32-bit field at `pos`.
pub fn le32_at(data: &[u8], pos: usize) -> (r: u32)
    requires
        pos + 4 <= data@.len(),
    ensures
        r == spec_le32(data@.subrange(pos as int, pos + 4)),
{
    let _n = data.len();
    let s = ((data[pos + 3] as u32 * 0x100 + data[pos + 2] as u32) * 0x100 + data[pos + 1] as u32)
        * 0x100 + data[pos] as u32;
    proof {
        let b = data@.subrange(pos as int, pos + 4);
        assert(b[0] == data@[pos as int] && b[1] == data@[pos + 1] && b[2] == data@[pos + 2]
            && b[3] == data@[pos + 3]);
    }
    s
}

/// Reads the little-endian 64-bit field at `pos`.
pub fn le64_at(data: &[u8], pos: usize) -> (r: u64)
    requires
        pos + 8 <= data@.len(),
    ensures
        r == spec_le64(data@.subrange(pos as int, pos + 8)),
{
    let _n = data.len();
    let lo = le32_at(data, pos);
    let hi = le32_at(data, pos + 4);
    proof {
        let b = data@.subrange(pos as int, pos + 8);
        assert(b.subrange(0, 4) =~= data@.subrange(pos as int, pos + 4));
        assert(b.subrange(4, 8) =~= data@.subrange(pos + 4, pos + 8));
    }
    hi as u64 * 0x100000000 + lo as u64
}

/// Appends the little-endian bytes of `x`.
pub fn push_le32(out: &mut Vec<u8>, x: u32)
    ensures
        final(out)@ == old(out)@ + spec_le32_bytes(x),
{
    out.push((x % 0x100) as u8);
    out.push(((x / 0x100) % 0x100) as u8);
    out.push(((x / 0x10000) % 0x100) as u8);
    out.push((x / 0x1000000) as u8);
    proof {
        assert(out@ =~= old(out)@ + spec_le32_bytes(x));
    }
}

/// Appends the little-endian bytes of `x`.
pub fn push_le64(out: &mut Vec<u8>, x: u64)
    ensures
        final(out)@ == old(out)@ + spec_le64_bytes(x),
{
    push_le32(out, (x % 0x100000000) as u32);
    push_le32(out, (x / 0x100000000) as u32);
    proof {
        assert(out@ =~= old(out)@ + spec_le64_bytes(x));
    }
}

// ---------------------------------------------------------------------------
// Mirrored little/big-endian field pairs.
// ---------------------------------------------------------------------------

/// Reads a 16-bit field stored twice, little-endian then big-endian.
/// The two copies disagreeing is a fatal structural error.
pub fn read_u16bi(data: &[u8], pos: usize) -> (r: Result<u16, CpkError>)
    ensures
        pos + 4 <= data@.len() && spec_be16(data@.subrange(pos + 2, pos + 4)) == spec_be16(
            seq![data@[pos + 1], data@[pos as int]],
        ) ==> r == Ok::<u16, CpkError>(spec_be16(data@.subrange(pos + 2, pos + 4)) as u16),
        pos + 4 <= data@.len() && spec_be16(data@.subrange(pos + 2, pos + 4)) != spec_be16(
            seq![data@[pos + 1], data@[pos as int]],
        ) ==> r == Err::<u16, CpkError>(CpkError::BadMarker),
        pos + 4 > data@.len() ==> r == Err::<u16, CpkError>(CpkError::OutOfBounds),
        r is Ok ==> pos + 4 <= data@.len(),
{
    if data.len() < 4 || pos > data.len() - 4 {
        return Err(CpkError::OutOfBounds);
    }
    let le = data[pos] as u16 + data[pos + 1] as u16 * 0x100;
    let be = be16_at(data, pos + 2);
    if le != be {
        return Err(CpkError::BadMarker);
    }
    Ok(be)
}

/// Reads a 32-bit field stored twice, little-endian then big-endian.
/// The two copies disagreeing is a fatal structural error.
pub fn read_u32bi(data: &[u8], pos: usize) -> (r: Result<u32, CpkError>)
    ensures
        pos + 8 <= data@.len() && spec_le32(data@.subrange(pos as int, pos + 4)) == spec_be32(
            data@.subrange(pos + 4, pos + 8),
        ) ==> r == Ok::<u32, CpkError>(spec_be32(data@.subrange(pos + 4, pos + 8)) as u32),
        pos + 8 <= data@.len() && spec_le32(data@.subrange(pos as int, pos + 4)) != spec_be32(
            data@.subrange(pos + 4, pos + 8),
        ) ==> r == Err::<u32, CpkError>(CpkError::BadMarker),
        pos + 8 > data@.len() ==> r == Err::<u32, CpkError>(CpkError::OutOfBounds),
{
    if data.len() < 8 || pos > data.len() - 8 {
        return Err(CpkError::OutOfBounds);
    }
    let le = le32_at(data, pos);
    let be = be32_at(data, pos + 4);
    proof {
        lemma_be32_range(data@.subrange(pos + 4, pos + 8));
    }
    if le != be {
        return Err(CpkError::BadMarker);
    }
    Ok(be)
}

/// Appends a 16-bit field twice, little-endian then big-endian.
pub fn write_u16bi(out: &mut Vec<u8>, x: u16)
    ensures
        final(out)@ == old(out)@ + seq![(x % 0x100) as u8, (x / 0x100) as u8] + spec_be16_bytes(x),
{
    out.push((x % 0x100) as u8);
    out.push((x / 0x100) as u8);
    push_be16(out, x);
    proof {
        assert(out@ =~= old(out)@ + seq![(x % 0x100) as u8, (x / 0x100) as u8]
            + spec_be16_bytes(x));
    }
}

/// Appends a 32-bit field twice, little-endian then big-endian.
pub fn write_u32bi(out: &mut Vec<u8>, x: u32)
    ensures
        final(out)@ == old(out)@ + spec_le32_bytes(x) + spec_be32_bytes(x),
{
    push_le32(out, x);
    push_be32(out, x);
    proof {
        assert(out@ =~= old(out)@ + spec_le32_bytes(x) + spec_be32_bytes(x));
    }
}

// ---------------------------------------------------------------------------
// NUL-terminated strings.
// ---------------------------------------------------------------------------

/// The bytes of the NUL-terminated string starting at `p`, or an error if
/// no terminator lies inside the buffer.
pub open spec fn spec_cstr(data: Seq<u8>, p: int) -> Result<Seq<u8>, CpkError>
    decreases data.len() - p,
{
    if p < 0 || p >= data.len() {
        Err(CpkError::OutOfBounds)
    } else if data[p] == 0 {
        Ok(Seq::empty())
    } else {
        match spec_cstr(data, p + 1) {
            Ok(s) => Ok(seq![data[p]] + s),
            Err(e) => Err(e),
        }
    }
}

/// Reads the NUL-terminated string at `pos`; the terminator is not part
/// of the result.
pub fn read_cstring(data: &[u8], pos: usize) -> (r: Result<Vec<u8>, CpkError>)
    ensures
        match r {
            Ok(s) => spec_cstr(data@, pos as int) == Ok::<Seq<u8>, CpkError>(s@),
            Err(e) => spec_cstr(data@, pos as int) == Err::<Seq<u8>, CpkError>(e),
        },
        r is Ok ==> forall|i: int| 0 <= i < r->Ok_0@.len() ==> r->Ok_0@[i] != 0,
{
    let mut out: Vec<u8> = Vec::new();
    let mut p = pos;
    proof {
        if spec_cstr(data@, pos as int) is Ok {
            assert(out@ + spec_cstr(data@, pos as int)->Ok_0 =~= spec_cstr(
                data@,
                pos as int,
            )->Ok_0);
        }
    }
    loop
        invariant
            pos <= p,
            p <= usize::MAX,
            forall|i: int| 0 <= i < out@.len() ==> out@[i] != 0,
            (match spec_cstr(data@, pos as int) {
                Ok(s) => spec_cstr(data@, p as int) is Ok && s == out@ + spec_cstr(
                    data@,
                    p as int,
                )->Ok_0,
                Err(e) => spec_cstr(data@, p as int) == Err::<Seq<u8>, CpkError>(e),
            }),
        decreases data@.len() - p,
    {
        if p >= data.len() {
            return Err(CpkError::OutOfBounds);
        }
        let b = data[p];
        if b == 0 {
            proof {
                assert(out@ + Seq::<u8>::empty() =~= out@);
            }
            return Ok(out);
        }
        let ghost prev = out@;
        out.push(b);
        p = p + 1;
        proof {
            if spec_cstr(data@, pos as int) is Ok {
                let tail = spec_cstr(data@, p as int);
                assert(tail is Ok);
                assert(spec_cstr(data@, p - 1)->Ok_0 == seq![b] + tail->Ok_0);
                assert((prev + seq![b]) + tail->Ok_0 =~= prev + (seq![b] + tail->Ok_0));
            }
        }
    }
}

/// Appends the bytes of `s`.
pub fn write_string(out: &mut Vec<u8>, s: &[u8])
    ensures
        final(out)@ == old(out)@ + s@,
{
    let mut i: usize = 0;
    while i < s.len()
        invariant
            i <= s@.len(),
            out@ == old(out)@ + s@.subrange(0, i as int),
        decreases s@.len() - i,
    {
        out.push(s[i]);
        i = i + 1;
        proof {
            assert(out@ =~= old(out)@ + s@.subrange(0, i as int));
        }
    }
    proof {
        assert(out@ =~= old(out)@ + s@);
    }
}

/// Appends the bytes of `s` followed by the NUL terminator.
pub fn write_cstring(out: &mut Vec<u8>, s: &[u8])
    ensures
        final(out)@ == old(out)@ + s@ + seq![0u8],
{
    write_string(out, s);
    out.push(0);
    proof {
        assert(out@ =~= old(out)@ + s@ + seq![0u8]);
    }
}

/// Copies the fixed-width field of `n` bytes at `pos`.
pub fn read_string_n(data: &[u8], pos: usize, n: usize) -> (r: Result<Vec<u8>, CpkError>)
    ensures
        pos + n <= data@.len() ==> (r is Ok && r->Ok_0@ == data@.subrange(pos as int, pos + n)),
        pos + n > data@.len() ==> r == Err::<Vec<u8>, CpkError>(CpkError::OutOfBounds),
{
    if data.len() < n || pos > data.len() - n {
        return Err(CpkError::OutOfBounds);
    }
    let mut out: Vec<u8> = Vec::new();
    let mut i: usize = 0;
    while i < n
        invariant
            i <= n,
            pos + n <= data@.len(),
            out@ == data@.subrange(pos as int, pos + i),
        decreases n - i,
    {
        out.push(data[pos + i]);
        i = i + 1;
        proof {
            assert(out@ =~= data@.subrange(pos as int, pos + i));
        }
    }
    Ok(out)
}

/// Whether a byte is ASCII whitespace: tab, line feed, vertical tab,
/// form feed, carriage return or space.
pub open spec fn spec_is_ws(b: u8) -> bool {
    b == 0x09 || b == 0x0A || b == 0x0B || b == 0x0C || b == 0x0D || b == 0x20
}

/// `s` with every trailing ASCII whitespace byte removed.
pub open spec fn spec_trim_ws(s: Seq<u8>) -> Seq<u8>
    decreases s.len(),
{
    if s.len() > 0 && spec_is_ws(s[s.len() - 1]) {
        spec_trim_ws(s.drop_last())
    } else {
        s
    }
}

/// Copies the fixed-width field of `n` bytes at `pos` and strips
/// trailing ASCII whitespace.
pub fn read_string_trim(data: &[u8], pos: usize, n: usize) -> (r: Result<Vec<u8>, CpkError>)
    ensures
        pos + n <= data@.len() ==> (r is Ok && r->Ok_0@ == spec_trim_ws(
            data@.subrange(pos as int, pos + n),
        )),
        pos + n > data@.len() ==> r == Err::<Vec<u8>, CpkError>(CpkError::OutOfBounds),
{
    let mut out = match read_string_n(data, pos, n) {
        Ok(v) => v,
        Err(e) => {
            return Err(e);
        },
    };
    loop
        invariant
            pos + n <= data@.len(),
            spec_trim_ws(out@) == spec_trim_ws(data@.subrange(pos as int, pos + n)),
        decreases out@.len(),
    {
        let len = out.len();
        if len == 0 {
            return Ok(out);
        }
        let b = out[len - 1];
        if !(b == 0x09 || b == 0x0A || b == 0x0B || b == 0x0C || b == 0x0D || b == 0x20) {
            return Ok(out);
        }
        proof {
            assert(out@.drop_last() =~= out@.subrange(0, out@.len() - 1));
        }
        out.pop();
    }
}

/// Appends `s` padded with spaces up to width `n`.
pub fn write_string_pad(out: &mut Vec<u8>, s: &[u8], n: usize)
    requires
        s@.len() <= n,
    ensures
        final(out)@ == old(out)@ + s@ + Seq::new((n - s@.len()) as nat, |i: int| 0x20u8),
{
    write_string(out, s);
    let mut i: usize = s.len();
    while i < n
        invariant
            s@.len() <= i <= n,
            out@ == old(out)@ + s@ + Seq::new((i - s@.len()) as nat, |j: int| 0x20u8),
        decreases n - i,
    {
        out.push(0x20);
        i = i + 1;
        proof {
            assert(out@ =~= old(out)@ + s@ + Seq::new((i - s@.len()) as nat, |j: int| 0x20u8));
        }
    }
}

// ---------------------------------------------------------------------------
// Alignment and zero padding.
// ---------------------------------------------------------------------------

/// `x` rounded up to the next multiple of `a`.
pub open spec fn spec_align_up(x: int, a: int) -> int
    recommends
        a > 0,
{
    ((x + a - 1) / a) * a
}

/// The rounded value moves less than one granule and never down.
pub proof fn lemma_align_up(x: int, a: int)
    requires
        a > 0,
        x >= 0,
    ensures
        x <= spec_align_up(x, a) < x + a,
        spec_align_up(x, a) % a == 0,
{
    let q = (x + a - 1) / a;
    let r = (x + a - 1) % a;
    vstd::arithmetic::div_mod::lemma_fundamental_div_mod(x + a - 1, a);
    vstd::arithmetic::div_mod::lemma_mod_bound(x + a - 1, a);
    vstd::arithmetic::mul::lemma_mul_is_commutative(a, q);
    assert(x + a - 1 == q * a + r);
    vstd::arithmetic::div_mod::lemma_mod_multiples_basic(q, a);
}

/// Rounds `x` up to a multiple of `a`.
pub fn align_up(x: u64, a: u64) -> (r: u64)
    requires
        a > 0,
        x + a <= u64::MAX,
    ensures
        r == spec_align_up(x as int, a as int),
        x <= r < x + a,
        r % a == 0,
{
    proof {
        lemma_align_up(x as int, a as int);
    }
    ((x + a - 1) / a) * a
}

/// Rounds `x` up to a multiple of `a`, in wide arithmetic.
pub fn align_up_wide(x: u128, a: u128) -> (r: u128)
    requires
        a > 0,
        x + a <= u128::MAX,
    ensures
        r == spec_align_up(x as int, a as int),
        x <= r < x + a,
{
    proof {
        lemma_align_up(x as int, a as int);
    }
    ((x + a - 1) / a) * a
}

/// Appends `n` zero bytes.
pub fn push_zeros(out: &mut Vec<u8>, n: usize)
    ensures
        final(out)@ == old(out)@ + Seq::new(n as nat, |i: int| 0u8),
{
    let mut i: usize = 0;
    while i < n
        invariant
            i <= n,
            out@ == old(out)@ + Seq::new(i as nat, |j: int| 0u8),
        decreases n - i,
    {
        out.push(0);
        i = i + 1;
        proof {
            assert(out@ =~= old(out)@ + Seq::new(i as nat, |j: int| 0u8));
        }
    }
}

/// Extends `out` with zeros so that its length is exactly `target`.
pub fn pad_to(out: &mut Vec<u8>, target: usize)
    requires
        old(out)@.len() <= target,
    ensures
        final(out)@ == old(out)@ + Seq::new((target - old(out)@.len()) as nat, |i: int| 0u8),
        final(out)@.len() == target,
{
    let n = target - out.len();
    push_zeros(out, n);
}

} // verus!
