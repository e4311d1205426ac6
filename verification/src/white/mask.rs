//! Prefix masks: the first bits of an address.

use vstd::arithmetic::div_mod::*;
use vstd::arithmetic::mul::*;
use vstd::arithmetic::power2::*;
use vstd::bits::*;
use vstd::prelude::*;

verus! {

/// `address` with all but its first `prefix` of `width` bits cleared.
pub open spec fn network_base(address: nat, width: nat, prefix: nat) -> nat {
    (address - address % pow2((width - prefix) as nat)) as nat
}

/// Whether `a` and `b` have the same first `prefix` of `width` bits.
pub open spec fn same_prefix(a: nat, b: nat, width: nat, prefix: nat) -> bool {
    a / pow2((width - prefix) as nat) == b / pow2((width - prefix) as nat)
}

proof fn lemma_shl_128(x: u128, shift: u128)
    requires
        shift < 128,
        x * pow2(shift as nat) <= u128::MAX,
    ensures
        (x << shift) == x * pow2(shift as nat),
    decreases shift,
{
    if shift == 0 {
        assert(x << 0u128 == x) by (bit_vector);
        lemma2_to64();
    } else {
        let less = (shift - 1) as u128;
        lemma_pow2_unfold(shift as nat);
        lemma_pow2_pos(less as nat);
        let half = x * pow2(less as nat);
        assert(x * (2 * pow2(less as nat)) == 2 * half) by (nonlinear_arith)
            requires
                half == x * pow2(less as nat),
        ;
        assert(half >= 0) by (nonlinear_arith)
            requires
                half == x * pow2(less as nat),
        ;
        lemma_shl_128(x, less);
        let y = x << less;
        assert(x << shift == (x << less) << 1u128) by (bit_vector)
            requires
                0 < shift < 128,
                less == shift - 1,
        ;
        assert(y <= 0x7fff_ffff_ffff_ffff_ffff_ffff_ffff_ffffu128 ==> (y << 1u128) == 2 * y)
            by (bit_vector);
    }
}

proof fn lemma_floor(a: nat, d: nat)
    requires
        d > 0,
    ensures
        (a / d) * d == a - a % d,
{
    lemma_fundamental_div_mod(a as int, d as int);
    lemma_mul_is_commutative((a / d) as int, d as int);
}

proof fn lemma_keep_high_32(a: u32, s: u32)
    requires
        s < 32,
    ensures
        (a & (0xffff_ffffu32 << s)) == a - a % (pow2(s as nat) as u32),
        a as nat % pow2(s as nat) == a % (pow2(s as nat) as u32),
        pow2(s as nat) <= u32::MAX,
{
    lemma_u32_pow2_no_overflow(s as nat);
    lemma_u32_shr_is_div(a, s);
    lemma_floor(a as nat, pow2(s as nat));
    lemma_u32_shl_is_mul(a >> s, s);
    assert(a & (0xffff_ffffu32 << s) == (a >> s) << s) by (bit_vector);
}

proof fn lemma_pow2_under_128(s: nat)
    requires
        s < 128,
    ensures
        0 < pow2(s) <= u128::MAX,
        pow2(128) == u128::MAX + 1,
{
    lemma_pow2_adds(64, 64);
    lemma2_to64();
    lemma2_to64_rest();
    assert(pow2(64) * pow2(64) == 0x1_0000_0000_0000_0000_0000_0000_0000_0000);
    lemma_pow2_strictly_increases(s, 128);
    lemma_pow2_pos(s);
}

proof fn lemma_keep_high_128(a: u128, s: u128)
    requires
        s < 128,
    ensures
        (a & (0xffff_ffff_ffff_ffff_ffff_ffff_ffff_ffffu128 << s)) == a - a as nat % pow2(s as nat),
{
    lemma_pow2_under_128(s as nat);
    lemma_u128_shr_is_div(a, s);
    lemma_floor(a as nat, pow2(s as nat));
    lemma_shl_128(a >> s, s);
    assert(a & (0xffff_ffff_ffff_ffff_ffff_ffff_ffff_ffffu128 << s) == (a >> s) << s)
        by (bit_vector);
}

/// All ones, with the low `s` of `width` bits cleared.
proof fn lemma_all_ones(s: nat, width: nat)
    requires
        s <= width,
    ensures
        (pow2(width) - 1) as nat % pow2(s) == pow2(s) - 1,
{
    lemma_pow2_pos(s);
    lemma_pow2_pos((width - s) as nat);
    lemma_pow2_adds(s, (width - s) as nat);
    let d = pow2(s) as int;
    let k = pow2((width - s) as nat) as int;
    assert(d * k - 1 == (k - 1) * d + (d - 1)) by (nonlinear_arith);
    lemma_fundamental_div_mod_converse(d * k - 1, d, k - 1, d - 1);
}

/// The mask that keeps the first `prefix` bits of an IPv4 address.
pub fn v4_mask(prefix: u8) -> (r: u32)
    requires
        prefix <= 32,
    ensures
        r == pow2(32) - pow2((32 - prefix) as nat),
        forall|a: u32| #[trigger] (a & r) == network_base(a as nat, 32, prefix as nat),
{
    proof {
        lemma2_to64();
    }
    if prefix == 0 {
        assert forall|a: u32| #[trigger] (a & 0u32) == network_base(a as nat, 32, 0) by {
            assert(a & 0u32 == 0) by (bit_vector);
            lemma_small_mod(a as nat, pow2(32));
        }
        0
    } else {
        let s: u32 = 32 - prefix as u32;
        let r: u32 = 0xffff_ffffu32 << s;
        proof {
            assert forall|a: u32| #[trigger] (a & r) == network_base(a as nat, 32, prefix as nat) by {
                lemma_keep_high_32(a, s);
            }
            lemma_keep_high_32(u32::MAX, s);
            assert(0xffff_ffffu32 & r == r) by (bit_vector);
            lemma_all_ones(s as nat, 32);
        }
        r
    }
}

/// The mask that keeps the first `prefix` bits of an IPv6 address.
pub fn v6_mask(prefix: u8) -> (r: u128)
    requires
        prefix <= 128,
    ensures
        r == pow2(128) - pow2((128 - prefix) as nat),
        forall|a: u128| #[trigger] (a & r) == network_base(a as nat, 128, prefix as nat),
{
    proof {
        lemma_pow2_under_128(0);
    }
    if prefix == 0 {
        assert forall|a: u128| #[trigger] (a & 0u128) == network_base(a as nat, 128, 0) by {
            assert(a & 0u128 == 0) by (bit_vector);
            lemma_small_mod(a as nat, pow2(128));
        }
        0
    } else {
        let s: u128 = 128 - prefix as u128;
        let r: u128 = 0xffff_ffff_ffff_ffff_ffff_ffff_ffff_ffffu128 << s;
        proof {
            assert forall|a: u128| #[trigger] (a & r) == network_base(a as nat, 128, prefix as nat) by {
                lemma_keep_high_128(a, s);
            }
            lemma_keep_high_128(u128::MAX, s);
            assert(0xffff_ffff_ffff_ffff_ffff_ffff_ffff_ffffu128 & r == r) by (bit_vector);
            lemma_all_ones(s as nat, 128);
            lemma_pow2_under_128(s as nat);
        }
        r
    }
}

/// An address lies in a network, given by its base, if and only if both share the prefix.
pub proof fn lemma_base_decides_prefix(a: nat, base: nat, width: nat, prefix: nat)
    requires
        prefix <= width,
        base % pow2((width - prefix) as nat) == 0,
    ensures
        network_base(a, width, prefix) == base <==> same_prefix(a, base, width, prefix),
{
    let d = pow2((width - prefix) as nat);
    lemma_pow2_pos((width - prefix) as nat);
    lemma_floor(a, d);
    lemma_floor(base, d);
    if network_base(a, width, prefix) == base {
        assert((a / d) * d == (base / d) * d);
        assert(a / d == base / d) by (nonlinear_arith)
            requires
                (a / d) * d == (base / d) * d,
                d > 0,
        ;
    }
}

/// Clearing the low bits keeps the prefix and leaves a base.
pub proof fn lemma_base_is_base(a: nat, width: nat, prefix: nat)
    requires
        prefix <= width,
    ensures
        network_base(a, width, prefix) <= a,
        network_base(a, width, prefix) % pow2((width - prefix) as nat) == 0,
        same_prefix(a, network_base(a, width, prefix), width, prefix),
{
    let d = pow2((width - prefix) as nat);
    lemma_pow2_pos((width - prefix) as nat);
    lemma_floor(a, d);
    lemma_mod_multiples_basic((a / d) as int, d as int);
    lemma_div_multiples_vanish((a / d) as int, d as int);
    lemma_mul_is_commutative((a / d) as int, d as int);
}

/// The whole of a number below `pow2(width)` lies in its low `width` bits.
pub proof fn lemma_below_pow2(a: nat, width: nat)
    requires
        width == 32 && a <= u32::MAX || width == 128 && a <= u128::MAX,
    ensures
        a / pow2(width) == 0,
{
    lemma2_to64();
    lemma_pow2_under_128(0);
    lemma_basic_div(a as int, pow2(width) as int);
}

} // verus!
