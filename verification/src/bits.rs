//! Backward bit source: a stateful cursor that yields bits from a byte
//! buffer scanned from high to low address, most-significant bit first
//! within each byte.
//!
//! The cursor's whole behaviour is specified against an abstract bit
//! sequence, so the compressed-stream decoder can be stated over plain
//! sequences of booleans.

use vstd::prelude::*;

use crate::error::CpkError;

verus! {

/// Whether bit `k` (counted from the least significant end) of `b` is set.
pub open spec fn spec_bit(b: u8, k: u8) -> bool
    recommends
        k < 8,
{
    (b >> k) & 1u8 == 1u8
}

/// The eight bits of a byte, most significant first.
pub open spec fn byte_bits(b: u8) -> Seq<bool> {
    Seq::new(8, |i: int| spec_bit(b, (7 - i) as u8))
}

/// The low `r` bits of a byte, most significant of them first.
pub open spec fn low_bits(b: u8, r: nat) -> Seq<bool>
    recommends
        r <= 8,
{
    Seq::new(r, |i: int| spec_bit(b, (r - 1 - i) as u8))
}

/// The bits still to come from the bytes `data[0 .. avail]`, reading
/// bytes from the top address downward.
pub open spec fn tail_bits(data: Seq<u8>, avail: int) -> Seq<bool>
    decreases avail,
{
    if avail <= 0 {
        Seq::empty()
    } else {
        byte_bits(data[avail - 1]) + tail_bits(data, avail - 1)
    }
}

/// The unsigned value of a bit string, most significant bit first.
pub open spec fn spec_bits_val(s: Seq<bool>) -> nat
    decreases s.len(),
{
    if s.len() == 0 {
        0
    } else {
        2 * spec_bits_val(s.drop_last()) + (if s.last() {
            1nat
        } else {
            0nat
        })
    }
}

/// A bit string of length `n` denotes a value below `pow2(n)`.
pub proof fn lemma_bits_val_bound(s: Seq<bool>)
    ensures
        spec_bits_val(s) < vstd::arithmetic::power2::pow2(s.len()),
    decreases s.len(),
{
    if s.len() == 0 {
        vstd::arithmetic::power2::lemma2_to64();
    } else {
        lemma_bits_val_bound(s.drop_last());
        vstd::arithmetic::power2::lemma_pow2_unfold(s.len() as nat);
    }
}

/// Reading `n` bits from the front of a bit string: the value of the
/// prefix and the remaining suffix, or nothing if fewer than `n` bits
/// are left.
pub open spec fn take_bits(bits: Seq<bool>, n: nat) -> Option<(nat, Seq<bool>)> {
    if bits.len() >= n {
        Some((spec_bits_val(bits.take(n as int)), bits.skip(n as int)))
    } else {
        None
    }
}

/// Backward cursor over a byte buffer. `avail` counts the bytes not yet
/// loaded (the next byte to load is `data[avail - 1]`); `cur` holds the
/// partially consumed byte with `rem` bits still unread.
pub struct BitSource {
    pub avail: usize,
    pub cur: u8,
    pub rem: u8,
}

impl BitSource {
    /// The cursor stays inside the buffer.
    pub open spec fn wf(self, data: Seq<u8>) -> bool {
        self.rem <= 8 && self.avail <= data.len()
    }

    /// The bits the cursor has yet to yield.
    pub open spec fn bits(self, data: Seq<u8>) -> Seq<bool> {
        low_bits(self.cur, self.rem as nat) + tail_bits(data, self.avail as int)
    }

    /// A fresh cursor that will read `data[avail - 1]` first.
    pub fn new(data: &[u8], avail: usize) -> (r: BitSource)
        requires
            avail <= data@.len(),
        ensures
            r.wf(data@),
            r.bits(data@) == tail_bits(data@, avail as int),
    {
        let r = BitSource { avail, cur: 0, rem: 0 };
        proof {
            assert(low_bits(0u8, 0) =~= Seq::<bool>::empty());
            assert(r.bits(data@) =~= tail_bits(data@, avail as int));
        }
        r
    }

    /// Yields the next `count` bits as an unsigned integer, most
    /// significant bit first. Running the cursor below the start of the
    /// buffer is a decode failure, not a soft value.
    pub fn take(&mut self, data: &[u8], count: usize) -> (r: Result<u64, CpkError>)
        requires
            old(self).wf(data@),
            count <= 32,
        ensures
            final(self).wf(data@),
            match r {
                Ok(v) => {
                    &&& take_bits(old(self).bits(data@), count as nat) == Some(
                        (v as nat, final(self).bits(data@)),
                    )
                    &&& v < vstd::arithmetic::power2::pow2(count as nat)
                },
                Err(e) => {
                    &&& e == CpkError::OutOfBounds
                    &&& take_bits(old(self).bits(data@), count as nat) is None
                },
            },
    {
        let ghost bits0 = old(self).bits(data@);
        let mut acc: u64 = 0;
        let mut i: usize = 0;
        proof {
            vstd::arithmetic::power2::lemma2_to64();
            assert(bits0.take(0) =~= Seq::<bool>::empty());
        }
        while i < count
            invariant
                i <= count,
                self.wf(data@),
                bits0.len() >= i,
                self.bits(data@) =~= bits0.skip(i as int),
                acc == spec_bits_val(bits0.take(i as int)),
                acc < vstd::arithmetic::power2::pow2(i as nat),
            decreases count - i,
        {
            if self.rem == 0 {
                if self.avail == 0 {
                    proof {
                        assert(low_bits(self.cur, 0) =~= Seq::<bool>::empty());
                        assert(tail_bits(data@, 0) =~= Seq::<bool>::empty());
                        assert(self.bits(data@).len() == 0);
                        assert(bits0.len() == i);
                    }
                    return Err(CpkError::OutOfBounds);
                }
                let ghost before = self.bits(data@);
                let b = data[self.avail - 1];
                self.cur = b;
                self.avail = self.avail - 1;
                self.rem = 8;
                proof {
                    assert(low_bits(b, 8) =~= byte_bits(b));
                    assert(low_bits(old(self).cur, 0) =~= Seq::<bool>::empty());
                    assert(self.bits(data@) =~= before);
                }
            }
            let ghost pre = self.bits(data@);
            let k = self.rem - 1;
            let bit = ((self.cur >> k) & 1) == 1;
            self.rem = k;
            proof {
                assert(pre.len() > 0);
                assert(pre[0] == spec_bit(self.cur, k));
                assert(self.bits(data@) =~= pre.skip(1));
                assert(bits0.skip(i as int) =~= pre);
                assert(bits0[i as int] == pre[0]);
            }
            acc = acc * 2 + (if bit {
                1
            } else {
                0
            });
            i = i + 1;
            proof {
                assert(bits0.take(i as int).drop_last() =~= bits0.take(i - 1));
                assert(bits0.take(i as int).last() == bits0[i - 1]);
                assert(bits0.skip(i as int) =~= pre.skip(1));
                vstd::arithmetic::power2::lemma_pow2_unfold(i as nat);
            }
        }
        proof {
            assert(bits0.take(count as int) =~= bits0.take(count as int));
        }
        Ok(acc)
    }
}

} // verus!
