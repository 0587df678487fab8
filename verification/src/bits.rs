//! Bit and alignment arithmetic shared by all the codecs.
use vstd::prelude::*;

verus! {

use vstd::arithmetic::div_mod::lemma_fundamental_div_mod;
use vstd::arithmetic::div_mod::lemma_mod_multiples_basic;
use vstd::arithmetic::div_mod::lemma_mod_self_0;
use vstd::arithmetic::div_mod::lemma_small_mod;
use vstd::bits::lemma_usize_pow2_no_overflow;
use vstd::bits::lemma_usize_shl_is_mul;
use vstd::bits::low_bits_mask;

/// Return whether `i` has this flag set.
///
/// The flag value can be a combination of several flags; the result says
/// whether `i` has all the combined flags.
pub fn has_flag(i: u8, flag: u8) -> (r: bool)
    ensures
        r == (i & flag == flag),
{
    i & flag == flag
}

/// Return a mask for this number of bits: exactly the `bit_size` low bits set.
pub fn mask(bit_size: usize) -> (r: usize)
    requires
        bit_size < usize::BITS,
    ensures
        r == low_bits_mask(bit_size as nat),
{
    proof {
        lemma_usize_pow2_no_overflow(bit_size as nat);
        lemma_usize_shl_is_mul(1, bit_size);
    }
    (1usize << bit_size) - 1
}

/// Return the number of bytes to pad from `ofs` to `alignment`: zero when
/// `ofs` is already aligned, else what brings it up to the next multiple.
pub fn pad(ofs: usize, alignment: usize) -> (r: usize)
    requires
        alignment > 0,
    ensures
        r == (alignment - ofs % alignment) % (alignment as int),
        (ofs + r) % (alignment as int) == 0,
        r < alignment,
{
    let r = (alignment - (ofs % alignment)) % alignment;
    proof {
        let a = alignment as int;
        let q = ofs as int / a;
        let m = ofs as int % a;
        lemma_fundamental_div_mod(ofs as int, a);
        assert(ofs as int == a * q + m);
        if m == 0 {
            lemma_mod_self_0(a);
            assert(r as int == 0);
            lemma_mod_multiples_basic(q, a);
            assert((q * a) % a == 0);
            assert(ofs as int + r as int == q * a);
        } else {
            lemma_small_mod((a - m) as nat, a as nat);
            assert(r as int == a - m);
            lemma_mod_multiples_basic(q + 1, a);
            assert(((q + 1) * a) % a == 0);
            assert((q + 1) * a == q * a + a) by (nonlinear_arith);
            assert(ofs as int + r as int == (q + 1) * a);
        }
        assert((ofs as int + r as int) % a == 0);
    }
    r
}

} // verus!
