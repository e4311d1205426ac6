//! Big-endian numbers.

use vstd::arithmetic::div_mod::lemma_div_denominator;
use vstd::arithmetic::power::{lemma_pow0, lemma_pow_positive, pow};
use vstd::prelude::*;

verus! {

/// The `n` bytes of `x`, most significant first.
pub open spec fn be(x: nat, n: nat) -> Seq<u8>
    decreases n,
{
    if n == 0 {
        Seq::empty()
    } else {
        be(x / 256, (n - 1) as nat).push((x % 256) as u8)
    }
}

/// The number with the bytes `s`, most significant first.
pub open spec fn unbe(s: Seq<u8>) -> nat
    decreases s.len(),
{
    if s.len() == 0 {
        0
    } else {
        unbe(s.drop_last()) * 256 + s.last() as nat
    }
}

/// How many numbers `n` bytes can hold.
pub open spec fn pow256(n: nat) -> nat
    decreases n,
{
    if n == 0 {
        1
    } else {
        256 * pow256((n - 1) as nat)
    }
}

/// Reading back the bytes of a number that fits gives the number.
pub proof fn lemma_unbe_be(x: nat, n: nat)
    requires
        x < pow256(n),
    ensures
        unbe(be(x, n)) == x,
        be(x, n).len() == n,
    decreases n,
{
    if n > 0 {
        lemma_unbe_be(x / 256, (n - 1) as nat);
        assert(be(x, n).drop_last() == be(x / 256, (n - 1) as nat));
    }
}

pub proof fn lemma_unbe_bound(s: Seq<u8>)
    ensures
        unbe(s) < pow256(s.len()),
    decreases s.len(),
{
    if s.len() > 0 {
        lemma_unbe_bound(s.drop_last());
    }
}

pub proof fn lemma_pow256(n: nat)
    requires
        n <= 16,
    ensures
        pow256(2) == 0x1_0000,
        pow256(4) == 0x1_0000_0000,
        pow256(16) == 0x1_0000_0000_0000_0000_0000_0000_0000_0000,
        pow256(n) <= 0x1_0000_0000_0000_0000_0000_0000_0000_0000,
{
    reveal_with_fuel(pow256, 17);
}

/// Appends the `n` bytes of `x`.
pub fn put_be(buf: &mut Vec<u8>, x: u128, n: usize)
    ensures
        final(buf)@ == old(buf)@ + be(x as nat, n as nat),
    decreases n,
{
    if n > 0 {
        let ghost start = buf@;
        put_be(buf, x / 256, n - 1);
        buf.push((x % 256) as u8);
        assert(start + be((x / 256) as nat, (n - 1) as nat).push((x % 256) as u8) == buf@);
    } else {
        assert(buf@ + Seq::<u8>::empty() == buf@);
    }
}

/// The number in the `n` bytes at `from`.
pub fn get_be(buf: &[u8], from: usize, n: usize) -> (r: u128)
    requires
        n <= 16,
        from + n <= buf@.len(),
    ensures
        r == unbe(buf@.subrange(from as int, from + n)),
        r < pow256(n as nat),
{
    let total: usize = buf.len();
    let mut r: u128 = 0;
    let mut i: usize = 0;
    while i < n
        invariant
            i <= n <= 16,
            from + n <= buf@.len() == total,
            r == unbe(buf@.subrange(from as int, from + i)),
        decreases n - i,
    {
        proof {
            let more = buf@.subrange(from as int, from + i + 1);
            assert(more.drop_last() == buf@.subrange(from as int, from + i));
            lemma_unbe_bound(more);
            lemma_pow256((i + 1) as nat);
        }
        r = r * 256 + buf[from + i] as u128;
        i = i + 1;
    }
    proof {
        lemma_unbe_bound(buf@.subrange(from as int, from + n));
    }
    r
}

/// A number in bytes has its digits to the base 256, the most significant first: each byte is
/// what remains of the number once the places behind it are taken off.
pub proof fn law_bytes_are_the_digits(x: nat, n: nat, i: int)
    requires
        0 <= i < n,
    ensures
        be(x, n).len() == n,
        be(x, n)[i] == x as int / pow(256, (n - 1 - i) as nat) % 256,
    decreases n,
{
    lemma_be_len(x, n);
    lemma_be_len(x / 256, (n - 1) as nat);
    if i == n - 1 {
        lemma_pow0(256);
    } else {
        let k = (n - 2 - i) as nat;
        law_bytes_are_the_digits(x / 256, (n - 1) as nat, i);
        lemma_pow_positive(256, k);
        lemma_div_denominator(x as int, 256, pow(256, k));
        reveal(pow);
    }
}

proof fn lemma_be_len(x: nat, n: nat)
    ensures
        be(x, n).len() == n,
    decreases n,
{
    if n > 0 {
        lemma_be_len(x / 256, (n - 1) as nat);
    }
}

/// Reading a further byte moves the number up by one place.
pub proof fn law_bytes_are_read_as_digits(s: Seq<u8>, next: u8)
    ensures
        unbe(Seq::empty()) == 0,
        unbe(s.push(next)) == unbe(s) * 256 + next,
{
    assert(s.push(next).drop_last() == s);
}

/// Numbers of two bytes: the high byte, then the low byte.
pub proof fn law_two_bytes(x: u16, high: u8, low: u8)
    ensures
        be(x as nat, 2) == seq![(x / 256) as u8, (x % 256) as u8],
        unbe(seq![high, low]) == high * 256 + low,
{
    reveal_with_fuel(be, 3);
    let s = seq![high, low];
    assert(s == Seq::<u8>::empty().push(high).push(low));
    law_bytes_are_read_as_digits(Seq::empty(), high);
    law_bytes_are_read_as_digits(Seq::<u8>::empty().push(high), low);
}

/// The bytes of a number that was read are the bytes that it was read from.
pub proof fn law_bytes_are_kept(s: Seq<u8>)
    ensures
        be(unbe(s), s.len()) == s,
    decreases s.len(),
{
    if s.len() > 0 {
        law_bytes_are_kept(s.drop_last());
        let high = unbe(s.drop_last());
        assert((high * 256 + s.last() as nat) / 256 == high);
        assert((high * 256 + s.last() as nat) % 256 == s.last());
        assert(s == s.drop_last().push(s.last()));
    } else {
        assert(s == Seq::<u8>::empty());
    }
}

} // verus!
