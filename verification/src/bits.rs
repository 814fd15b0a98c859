//! Bit-level helpers shared by the decoder and the executor.

use vstd::prelude::*;

verus! {

/// The mask of the `n` lowest bits of a 32-bit word (every bit when `n >= 32`).
pub open spec fn low_mask(n: u32) -> u32 {
    if n >= 32 {
        0xFFFF_FFFFu32
    } else {
        !(0xFFFF_FFFFu32 << n)
    }
}

/// Bit `i` of `x` (bit 0 is the least significant one).
pub open spec fn bit(x: u32, i: u32) -> bool {
    (x >> i) & 1u32 == 1u32
}

/// The `len`-bit field of `x` that starts at bit `lo`, moved down to bit 0.
pub open spec fn field(x: u32, lo: u32, len: u32) -> u32 {
    (x >> lo) & low_mask(len)
}

/// The low `size` bits of `data`, read as a two's-complement number and widened to 32 bits:
/// the bits below `size` are kept and every bit above takes the value of bit `size - 1`.
pub open spec fn sign_extend_spec(data: u32, size: u32) -> u32 {
    if bit(data, (size - 1) as u32) {
        data | !low_mask(size)
    } else {
        data & low_mask(size)
    }
}

/// Sign-extends the low `size` bits of `data` to a full 32-bit word.
pub fn sign_extend32(data: u32, size: u32) -> (r: u32)
    requires
        0 < size <= 32,
    ensures
        r == sign_extend_spec(data, size),
        forall|i: u32|
            #![trigger bit(r, i)]
            i < 32 ==> bit(r, i) == if i < size {
                bit(data, i)
            } else {
                bit(data, (size - 1) as u32)
            },
{
    let shamt = 32 - size;
    let r = (((data << shamt) as i32) >> shamt) as u32;
    assert(r == sign_extend_spec(data, size)) by (bit_vector)
        requires
            shamt == 32 - size,
            0 < size <= 32,
            r == (((data << shamt) as i32) >> shamt) as u32,
    ;
    assert(forall|i: u32|
        #![trigger bit(r, i)]
        i < 32 ==> bit(r, i) == if i < size {
            bit(data, i)
        } else {
            bit(data, (size - 1) as u32)
        }) by (bit_vector)
        requires
            0 < size <= 32,
            r == sign_extend_spec(data, size),
    ;
    r
}

} // verus!
