//! Decompressor for the back-to-front LZ77-style codec used for payloads
//! inside the archive.
//!
//! A compressed buffer carries a little-endian 32-bit decompressed size at
//! byte offset 8 and a little-endian 32-bit offset at byte offset 12 that
//! locates a 0x100-byte verbatim block. The output starts with that block
//! and is then filled from its high addresses downward by a bitstream read
//! backward from the end of the input.

use vstd::prelude::*;

use crate::bits::{spec_bits_val, tail_bits, take_bits, BitSource};
use crate::bytes::spec_le32;
use crate::error::CpkError;

verus! {

/// Lengths at least this large can never be copied: the write cursor
/// would run below the start of the output before the copy ends.
pub open spec fn spec_len_cap() -> nat {
    0x100000100
}

/// The unbounded 8-bit continuation of a back-reference length: each
/// chunk is added to `acc`; a chunk of 255 continues, anything else stops.
pub open spec fn spec_cont_len(bits: Seq<bool>, acc: nat) -> Option<(nat, Seq<bool>)>
    decreases bits.len(),
{
    match take_bits(bits, 8) {
        Option::None => Option::None,
        Option::Some((v, rest)) => {
            if v == 255 {
                spec_cont_len(rest, acc + 255)
            } else {
                Option::Some((acc + v, rest))
            }
        },
    }
}

/// The continuation only ever adds to its accumulator.
pub proof fn lemma_cont_len_min(bits: Seq<bool>, acc: nat)
    ensures
        spec_cont_len(bits, acc) is Some ==> spec_cont_len(bits, acc)->Some_0.0 >= acc,
    decreases bits.len(),
{
    match take_bits(bits, 8) {
        Option::None => {},
        Option::Some((v, rest)) => {
            if v == 255 {
                lemma_cont_len_min(rest, acc + 255);
            }
        },
    }
}

/// A back-reference length: base 3, then chained variable-width
/// extensions at widths 2, 3, 5 and 8. Each level's value is added to
/// the length; a level below its maximum stops the chain. If all four
/// levels saturate, the 8-bit continuation takes over.
pub open spec fn spec_backref_len(bits: Seq<bool>) -> Option<(nat, Seq<bool>)> {
    match take_bits(bits, 2) {
        Option::None => Option::None,
        Option::Some((l1, b1)) => {
            if l1 != 3 {
                Option::Some(((3 + l1) as nat, b1))
            } else {
                match take_bits(b1, 3) {
                    Option::None => Option::None,
                    Option::Some((l2, b2)) => {
                        if l2 != 7 {
                            Option::Some(((6 + l2) as nat, b2))
                        } else {
                            match take_bits(b2, 5) {
                                Option::None => Option::None,
                                Option::Some((l3, b3)) => {
                                    if l3 != 31 {
                                        Option::Some(((13 + l3) as nat, b3))
                                    } else {
                                        match take_bits(b3, 8) {
                                            Option::None => Option::None,
                                            Option::Some((l4, b4)) => {
                                                if l4 != 255 {
                                                    Option::Some(((44 + l4) as nat, b4))
                                                } else {
                                                    spec_cont_len(b4, 299)
                                                }
                                            },
                                        }
                                    }
                                },
                            }
                        }
                    },
                }
            }
        },
    }
}

/// Back-reference lengths are at least the base length 3.
pub proof fn lemma_backref_len_min(bits: Seq<bool>)
    ensures
        spec_backref_len(bits) is Some ==> spec_backref_len(bits)->Some_0.0 >= 3,
{
    match take_bits(bits, 2) {
        Option::None => {},
        Option::Some((l1, b1)) => {
            if l1 == 3 {
                match take_bits(b1, 3) {
                    Option::None => {},
                    Option::Some((l2, b2)) => {
                        if l2 == 7 {
                            match take_bits(b2, 5) {
                                Option::None => {},
                                Option::Some((l3, b3)) => {
                                    if l3 == 31 {
                                        match take_bits(b3, 8) {
                                            Option::None => {},
                                            Option::Some((l4, b4)) => {
                                                if l4 == 255 {
                                                    lemma_cont_len_min(b4, 299);
                                                }
                                            },
                                        }
                                    }
                                },
                            }
                        }
                    },
                }
            }
        },
    }
}

/// Saturating all four chained levels falls through to the unbounded
/// 8-bit continuation with the saturated base length, instead of
/// terminating early at any level.
pub proof fn lemma_backref_len_saturated(bits: Seq<bool>)
    requires
        take_bits(bits, 2) is Some,
        take_bits(bits, 2)->Some_0.0 == 3,
        take_bits(take_bits(bits, 2)->Some_0.1, 3) is Some,
        take_bits(take_bits(bits, 2)->Some_0.1, 3)->Some_0.0 == 7,
        take_bits(take_bits(take_bits(bits, 2)->Some_0.1, 3)->Some_0.1, 5) is Some,
        take_bits(take_bits(take_bits(bits, 2)->Some_0.1, 3)->Some_0.1, 5)->Some_0.0 == 31,
        take_bits(
            take_bits(take_bits(take_bits(bits, 2)->Some_0.1, 3)->Some_0.1, 5)->Some_0.1,
            8,
        ) is Some,
        take_bits(
            take_bits(take_bits(take_bits(bits, 2)->Some_0.1, 3)->Some_0.1, 5)->Some_0.1,
            8,
        )->Some_0.0 == 255,
    ensures
        spec_backref_len(bits) == spec_cont_len(
            take_bits(
                take_bits(take_bits(take_bits(bits, 2)->Some_0.1, 3)->Some_0.1, 5)->Some_0.1,
                8,
            )->Some_0.1,
            299,
        ),
{
}

/// Copies `n` bytes backward inside `res`: each step writes `res[src]`
/// to `res[wpos]` and moves both cursors down one byte. Running either
/// cursor out of the buffer is a decode failure.
pub open spec fn spec_copy(res: Seq<u8>, wpos: int, src: int, n: nat) -> Option<Seq<u8>>
    decreases n,
{
    if n == 0 {
        Option::Some(res)
    } else if wpos < 0 || src < 0 || wpos >= res.len() || src >= res.len() {
        Option::None
    } else {
        spec_copy(res.update(wpos, res[src]), wpos - 1, src - 1, (n - 1) as nat)
    }
}

/// A successful copy keeps the buffer length.
pub proof fn lemma_copy_len(res: Seq<u8>, wpos: int, src: int, n: nat)
    ensures
        spec_copy(res, wpos, src, n) is Some ==> spec_copy(res, wpos, src, n)->Some_0.len()
            == res.len(),
    decreases n,
{
    if n > 0 && !(wpos < 0 || src < 0 || wpos >= res.len() || src >= res.len()) {
        lemma_copy_len(res.update(wpos, res[src]), wpos - 1, src - 1, (n - 1) as nat);
    }
}

/// A copy longer than the room below the write cursor fails.
pub proof fn lemma_copy_too_long(res: Seq<u8>, wpos: int, src: int, n: nat)
    requires
        n > 0,
        n > wpos + 1,
    ensures
        spec_copy(res, wpos, src, n) is None,
    decreases n,
{
    if n > 0 && !(wpos < 0 || src < 0 || wpos >= res.len() || src >= res.len()) {
        lemma_copy_too_long(res.update(wpos, res[src]), wpos - 1, src - 1, (n - 1) as nat);
    }
}

#[via_fn]
proof fn spec_run_decreases(bits: Seq<bool>, res: Seq<u8>, len: nat, size: nat, output_end: int) {
    if len < size {
        match take_bits(bits, 1) {
            Option::None => {},
            Option::Some((b, bits1)) => {
                if b == 1 {
                    match take_bits(bits1, 13) {
                        Option::None => {},
                        Option::Some((d, bits2)) => {
                            lemma_backref_len_min(bits2);
                        },
                    }
                }
            },
        }
    }
}

/// The backward-growing decode loop. One control bit chooses between a
/// back-reference (copy `n` bytes from `d + 3` bytes ahead of the write
/// cursor) and a literal byte; the loop ends when `len` reaches the
/// target decompressed size.
pub open spec fn spec_run(
    bits: Seq<bool>,
    res: Seq<u8>,
    len: nat,
    size: nat,
    output_end: int,
) -> Option<Seq<u8>>
    decreases size - len,
    via spec_run_decreases
{
    if len >= size {
        Option::Some(res)
    } else {
        match take_bits(bits, 1) {
            Option::None => Option::None,
            Option::Some((b, bits1)) => {
                if b == 1 {
                    match take_bits(bits1, 13) {
                        Option::None => Option::None,
                        Option::Some((d, bits2)) => {
                            match spec_backref_len(bits2) {
                                Option::None => Option::None,
                                Option::Some((n, bits3)) => {
                                    match spec_copy(
                                        res,
                                        output_end - len,
                                        output_end - len + 3 + d,
                                        n,
                                    ) {
                                        Option::None => Option::None,
                                        Option::Some(res2) => spec_run(
                                            bits3,
                                            res2,
                                            if len + n >= size {
                                                size
                                            } else {
                                                len + n
                                            },
                                            size,
                                            output_end,
                                        ),
                                    }
                                },
                            }
                        },
                    }
                } else {
                    match take_bits(bits1, 8) {
                        Option::None => Option::None,
                        Option::Some((v, bits2)) => spec_run(
                            bits2,
                            res.update(output_end - len, v as u8),
                            len + 1,
                            size,
                            output_end,
                        ),
                    }
                }
            },
        }
    }
}

/// The decompressed image of `data`: the 0x100-byte verbatim block, then
/// `size` bytes filled backward by the decode loop, or the error a
/// corrupt stream runs into.
pub open spec fn spec_crilayla(data: Seq<u8>) -> Result<Seq<u8>, CpkError> {
    if data.len() < 0x10 {
        Err(CpkError::OutOfBounds)
    } else {
        let size = spec_le32(data.subrange(8, 0xc));
        let header = spec_le32(data.subrange(0xc, 0x10));
        if size + 0x100 > usize::MAX {
            Err(CpkError::TooLarge)
        } else if header + 0x110 > data.len() {
            Err(CpkError::OutOfBounds)
        } else if data.len() < 0x101 {
            Err(CpkError::OutOfBounds)
        } else {
            let res0 = Seq::new(
                (size + 0x100) as nat,
                |i: int|
                    if i < 0x100 {
                        data[header + 0x10 + i]
                    } else {
                        0u8
                    },
            );
            let bits0 = tail_bits(data, data.len() - 0x100);
            match spec_run(bits0, res0, 0, size as nat, 0x100 + size - 1) {
                Option::Some(out) => Ok(out),
                Option::None => Err(CpkError::OutOfBounds),
            }
        }
    }
}

/// Reads one back-reference length from the bit source.
///
/// Lengths that reach `spec_len_cap` cannot be copied by any stream this
/// decoder accepts, so the read reports the corrupt stream as soon as
/// the accumulated length passes the cap.
fn read_backref_len(src: &mut BitSource, data: &[u8]) -> (r: Result<u64, CpkError>)
    requires
        old(src).wf(data@),
    ensures
        final(src).wf(data@),
        match r {
            Ok(n) => {
                &&& spec_backref_len(old(src).bits(data@)) == Option::Some(
                    (n as nat, final(src).bits(data@)),
                )
                &&& 3 <= n < spec_len_cap()
            },
            Err(e) => {
                &&& e == CpkError::OutOfBounds
                &&& (spec_backref_len(old(src).bits(data@)) is None || spec_backref_len(
                    old(src).bits(data@),
                )->Some_0.0 >= spec_len_cap())
            },
        },
{
    let ghost bits0 = old(src).bits(data@);
    let l1 = match src.take(data, 2) {
        Ok(v) => v,
        Err(_) => {
            return Err(CpkError::OutOfBounds);
        },
    };
    proof {
        vstd::arithmetic::power2::lemma2_to64();
    }
    if l1 != 3 {
        return Ok(3 + l1);
    }
    let l2 = match src.take(data, 3) {
        Ok(v) => v,
        Err(_) => {
            return Err(CpkError::OutOfBounds);
        },
    };
    if l2 != 7 {
        return Ok(6 + l2);
    }
    let l3 = match src.take(data, 5) {
        Ok(v) => v,
        Err(_) => {
            return Err(CpkError::OutOfBounds);
        },
    };
    if l3 != 31 {
        return Ok(13 + l3);
    }
    let l4 = match src.take(data, 8) {
        Ok(v) => v,
        Err(_) => {
            return Err(CpkError::OutOfBounds);
        },
    };
    if l4 != 255 {
        return Ok(44 + l4);
    }
    // All four levels saturated: unbounded 8-bit continuation.
    let mut acc: u64 = 299;
    loop
        invariant
            src.wf(data@),
            299 <= acc < spec_len_cap() + 255,
            spec_cont_len(src.bits(data@), acc as nat) == spec_backref_len(bits0),
        decreases src.bits(data@).len(),
    {
        if acc >= 0x100000100 {
            proof {
                lemma_cont_len_min(src.bits(data@), acc as nat);
            }
            return Err(CpkError::OutOfBounds);
        }
        let v = match src.take(data, 8) {
            Ok(v) => v,
            Err(_) => {
                return Err(CpkError::OutOfBounds);
            },
        };
        acc = acc + v;
        if v != 255 {
            if acc >= 0x100000100 {
                return Err(CpkError::OutOfBounds);
            }
            return Ok(acc);
        }
    }
}

/// Decompresses a complete compressed payload.
///
/// The output holds the 0x100-byte verbatim block followed by the
/// decompressed bytes; a corrupt stream or a size beyond the machine's
/// buffer limit is reported, never a partial result.
#[verifier::rlimit(100)]
pub fn crilayla_decompress(data: &[u8]) -> (r: Result<Vec<u8>, CpkError>)
    ensures
        match r {
            Ok(out) => spec_crilayla(data@) == Ok::<Seq<u8>, CpkError>(out@),
            Err(e) => spec_crilayla(data@) == Err::<Seq<u8>, CpkError>(e),
        },
{
    let dlen = data.len();
    if dlen < 0x10 {
        return Err(CpkError::OutOfBounds);
    }
    let size32 = crate::bytes::le32_at(data, 8);
    let header32 = crate::bytes::le32_at(data, 0xc);
    if size32 as u64 + 0x100 > usize::MAX as u64 {
        return Err(CpkError::TooLarge);
    }
    let size = size32 as usize;
    if header32 as u64 + 0x110 > dlen as u64 {
        return Err(CpkError::OutOfBounds);
    }
    let header = header32 as usize;
    if dlen < 0x101 {
        return Err(CpkError::OutOfBounds);
    }

    // The verbatim block, then zeroes to be filled backward.
    let mut res: Vec<u8> = Vec::new();
    let mut i: usize = 0;
    while i < 0x100
        invariant
            i <= 0x100,
            res@ == data@.subrange(header + 0x10, header + 0x10 + i),
        decreases 0x100 - i,
    {
        res.push(data[header + 0x10 + i]);
        i = i + 1;
        proof {
            assert(res@ =~= data@.subrange(header + 0x10, header + 0x10 + i));
        }
    }
    crate::bytes::push_zeros(&mut res, size);
    let ghost res0 = Seq::new(
        (size32 + 0x100) as nat,
        |j: int|
            if j < 0x100 {
                data@[header32 + 0x10 + j]
            } else {
                0u8
            },
    );
    proof {
        assert(res@ =~= res0);
    }

    let output_end: usize = 0x100 + size - 1;
    let mut src = BitSource::new(data, dlen - 0x100);
    let ghost bits0 = src.bits(data@);
    let mut len: usize = 0;

    while len < size
        invariant
            src.wf(data@),
            len <= output_end + 1,
            res@.len() == 0x100 + size,
            spec_run(src.bits(data@), res@, len as nat, size as nat, output_end as int)
                == spec_run(bits0, res0, 0, size as nat, output_end as int),
        decreases output_end + 1 - len,
    {
        let ghost b_s = src.bits(data@);
        let ghost r_s = res@;
        let ghost l_s = len as nat;
        proof {
            vstd::arithmetic::power2::lemma2_to64();
        }
        let bit = match src.take(data, 1) {
            Ok(v) => v,
            Err(_) => {
                return Err(CpkError::OutOfBounds);
            },
        };
        if bit == 1 {
            let d = match src.take(data, 13) {
                Ok(v) => v,
                Err(_) => {
                    return Err(CpkError::OutOfBounds);
                },
            };
            let ghost bl_bits = src.bits(data@);
            let n = match read_backref_len(&mut src, data) {
                Ok(v) => v,
                Err(_) => {
                    proof {
                        if spec_backref_len(bl_bits) is Some {
                            lemma_backref_len_min(bl_bits);
                            lemma_copy_too_long(
                                res@,
                                output_end - len,
                                output_end - len + 3 + d as int,
                                spec_backref_len(bl_bits)->Some_0.0,
                            );
                        }
                    }
                    return Err(CpkError::OutOfBounds);
                },
            };
            let ghost b3 = src.bits(data@);
            // Copy n bytes backward from d + 3 bytes ahead of the cursor.
            let mut srcpos: u64 = (output_end - len) as u64 + 3 + d;
            if srcpos >= res.len() as u64 {
                return Err(CpkError::OutOfBounds);
            }
            let ghost res_in = res@;
            let ghost len_in = len;
            let ghost src_in = srcpos;
            let mut k: u64 = 0;
            while k < n
                invariant
                    k <= n,
                    res@.len() == 0x100 + size,
                    len == len_in + k,
                    len <= output_end + 1,
                    srcpos as int == output_end - len + 3 + d,
                    srcpos < res@.len(),
                    spec_copy(res_in, output_end - len_in, src_in as int, n as nat)
                        == spec_copy(res@, output_end - len, srcpos as int, (n - k) as nat),
                decreases n - k,
            {
                if len > output_end {
                    proof {
                        assert(spec_copy(res@, output_end - len, srcpos as int, (n - k) as nat)
                            is None);
                    }
                    return Err(CpkError::OutOfBounds);
                }
                let b = res[srcpos as usize];
                res.set(output_end - len, b);
                srcpos = srcpos - 1;
                len = len + 1;
                k = k + 1;
            }
            proof {
                assert(spec_copy(res@, output_end - len, srcpos as int, 0) == Option::Some(res@));
                assert(spec_copy(res_in, output_end - len_in, src_in as int, n as nat)
                    == Option::Some(res@));
                let capped: nat = if l_s + n >= size as nat { size as nat } else { (l_s + n) as nat };
                assert(spec_run(b_s, r_s, l_s, size as nat, output_end as int) == spec_run(
                    b3,
                    res@,
                    capped,
                    size as nat,
                    output_end as int,
                ));
                if len >= size {
                    assert(spec_run(b3, res@, capped, size as nat, output_end as int)
                        == Option::Some(res@));
                    assert(spec_run(b3, res@, len as nat, size as nat, output_end as int)
                        == Option::Some(res@));
                }
            }
        } else {
            let v = match src.take(data, 8) {
                Ok(v) => v,
                Err(_) => {
                    return Err(CpkError::OutOfBounds);
                },
            };
            res.set(output_end - len, v as u8);
            len = len + 1;
            proof {
                assert(spec_run(b_s, r_s, l_s, size as nat, output_end as int) == spec_run(
                    src.bits(data@),
                    res@,
                    len as nat,
                    size as nat,
                    output_end as int,
                ));
            }
        }
    }
    Ok(res)
}

} // verus!
