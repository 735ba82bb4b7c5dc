//! Bit sets as PackageKit passes them: bit `n` stands for the enumeration value `n`.

use vstd::arithmetic::power2::pow2;
use vstd::bits::lemma_u64_shr_is_div;
use vstd::prelude::*;

verus! {

/// A set of enumeration values below 64, one bit each.
pub type PkBitfield = u64;

/// Whether the enumeration value `val` is a member of `bitfield`.
pub open spec fn has_bit(bitfield: PkBitfield, val: u32) -> bool {
    (bitfield >> val) & 1 == 1
}

/// The set that holds `val` alone.
pub fn pk_bitfield_value(val: u32) -> (bits: PkBitfield)
    requires
        val < 64,
    ensures
        bits == 1u64 << val,
        forall|other: u32| other < 64 ==> (#[trigger] has_bit(bits, other) <==> other == val),
{
    let bits: u64 = 1u64 << val;
    assert forall|other: u32| other < 64 implies (#[trigger] has_bit(bits, other) <==> other == val) by {
        assert(((1u64 << val) >> other) & 1 == 1 <==> other == val) by (bit_vector)
            requires
                val < 64,
                other < 64,
        ;
    }
    bits
}

/// Whether `enum_val` is a member of `bitfield`.
pub fn pk_bitfield_contain(bitfield: PkBitfield, enum_val: u32) -> (found: bool)
    requires
        enum_val < 64,
    ensures
        found == has_bit(bitfield, enum_val),
{
    let bits: u64 = pk_bitfield_value(enum_val);
    assert((bitfield & (1u64 << enum_val)) > 0 <==> (bitfield >> enum_val) & 1 == 1) by (bit_vector)
        requires
            enum_val < 64,
    ;
    (bitfield & bits) > 0
}

/// The union of two sets holds what either of them holds.
pub proof fn union_has_both(a: PkBitfield, b: PkBitfield, val: u32)
    requires
        val < 64,
    ensures
        has_bit(a | b, val) <==> has_bit(a, val) || has_bit(b, val),
{
    assert(((a | b) >> val) & 1 == 1 <==> (a >> val) & 1 == 1 || (b >> val) & 1 == 1)
        by (bit_vector)
        requires
            val < 64,
    ;
}

/// A value is a member exactly if its power of two is in the binary expansion of the set.
pub proof fn members_are_binary_digits(bitfield: PkBitfield, val: u32)
    requires
        val < 64,
    ensures
        has_bit(bitfield, val) <==> (bitfield as nat / pow2(val as nat)) % 2 == 1,
{
    lemma_u64_shr_is_div(bitfield, val as u64);
    let shifted = bitfield >> (val as u64);
    assert(shifted == bitfield >> val);
    assert(shifted & 1 == shifted % 2) by (bit_vector);
}

} // verus!
