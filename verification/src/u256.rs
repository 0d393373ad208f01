//! A 256-bit unsigned integer carried as four 64-bit limbs.

use vstd::prelude::*;

verus! {

/// A 256-bit unsigned value, least significant limb first.
#[derive(Debug, Clone, Copy, PartialEq, Eq, Structural)]
pub struct U256 {
    /// Bits 0 to 63.
    pub l0: u64,
    /// Bits 64 to 127.
    pub l1: u64,
    /// Bits 128 to 191.
    pub l2: u64,
    /// Bits 192 to 255.
    pub l3: u64,
}

impl U256 {
    /// The number the limbs denote.
    pub open spec fn spec_value(self) -> int {
        self.l0 + self.l1 * 0x1_0000_0000_0000_0000 + self.l2 * 0x1_0000_0000_0000_0000
            * 0x1_0000_0000_0000_0000 + self.l3 * 0x1_0000_0000_0000_0000 * 0x1_0000_0000_0000_0000
            * 0x1_0000_0000_0000_0000
    }

    /// The zero value.
    pub fn zero() -> (r: U256)
        ensures
            r == (U256 { l0: 0, l1: 0, l2: 0, l3: 0 }),
            r.spec_value() == 0,
    {
        U256 { l0: 0, l1: 0, l2: 0, l3: 0 }
    }

    /// The value of a 64-bit number.
    pub fn from_u64(v: u64) -> (r: U256)
        ensures
            r == (U256 { l0: v, l1: 0, l2: 0, l3: 0 }),
            r.spec_value() == v,
    {
        U256 { l0: v, l1: 0, l2: 0, l3: 0 }
    }

    /// The low 64 bits.
    pub fn low_u64(&self) -> (r: u64)
        ensures
            r == self.l0,
    {
        self.l0
    }
}

/// The big-endian bytes of a 64-bit number.
pub open spec fn spec_be8(x: u64) -> Seq<u8> {
    Seq::new(8, |i: int| ((x >> ((7 - i) * 8)) & 0xff) as u8)
}

/// The thirty-two big-endian bytes of a 256-bit value.
pub open spec fn spec_u256_be(v: U256) -> Seq<u8> {
    spec_be8(v.l3) + spec_be8(v.l2) + spec_be8(v.l1) + spec_be8(v.l0)
}

/// Appends the eight big-endian bytes of a 64-bit number.
fn push_be8(out: &mut Vec<u8>, x: u64)
    ensures
        final(out)@ == old(out)@ + spec_be8(x),
{
    let ghost init = out@;
    let mut i: usize = 0;
    while i < 8
        invariant
            i <= 8,
            out@ == init + spec_be8(x).take(i as int),
        decreases 8 - i,
    {
        let shift: u64 = ((7 - i) * 8) as u64;
        let b: u8 = ((x >> shift) & 0xff) as u8;
        out.push(b);
        proof {
            assert(spec_be8(x)[i as int] == b);
            assert(spec_be8(x).take(i + 1) =~= spec_be8(x).take(i as int).push(b));
            assert(out@ =~= init + spec_be8(x).take(i + 1));
        }
        i = i + 1;
    }
    proof {
        assert(spec_be8(x).take(8) =~= spec_be8(x));
    }
}

/// The value as thirty-two big-endian bytes.
pub fn u256_to_be_bytes(v: &U256) -> (r: Vec<u8>)
    ensures
        r@ == spec_u256_be(*v),
{
    let mut out: Vec<u8> = Vec::new();
    proof {
        assert(out@ =~= Seq::<u8>::empty());
    }
    push_be8(&mut out, v.l3);
    push_be8(&mut out, v.l2);
    push_be8(&mut out, v.l1);
    push_be8(&mut out, v.l0);
    proof {
        assert(out@ =~= spec_u256_be(*v));
    }
    out
}

} // verus!
