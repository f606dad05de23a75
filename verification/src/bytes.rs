//! Unsigned integers in network byte order.

use vstd::arithmetic::div_mod::lemma_div_denominator;
use vstd::arithmetic::power::{lemma_pow0, lemma_pow_positive, pow};
use vstd::prelude::*;

verus! {

/// The `n` low base-256 digits of `x`, most significant first.
pub open spec fn be_bytes(x: nat, n: nat) -> Seq<u8>
    decreases n,
{
    if n == 0 {
        Seq::empty()
    } else {
        be_bytes(x / 256, (n - 1) as nat).push((x % 256) as u8)
    }
}

/// The number whose base-256 digits are `s`, most significant first.
pub open spec fn be_value(s: Seq<u8>) -> nat
    decreases s.len(),
{
    if s.len() == 0 {
        0
    } else {
        be_value(s.drop_last()) * 256 + s.last() as nat
    }
}

/// `256` to the power `n`: how many numbers `n` bytes can tell apart.
pub open spec fn radix(n: nat) -> nat
    decreases n,
{
    if n == 0 {
        1
    } else {
        256 * radix((n - 1) as nat)
    }
}

/// An integer takes exactly the bytes it is given.
pub broadcast proof fn lemma_be_bytes_len(x: nat, n: nat)
    ensures
        #[trigger] be_bytes(x, n).len() == n,
    decreases n,
{
    if n > 0 {
        lemma_be_bytes_len(x / 256, (n - 1) as nat);
    }
}

/// Reading back what was written gives the number, as long as it fits.
pub proof fn law_be_round_trip(x: nat, n: nat)
    requires
        x < radix(n),
    ensures
        be_value(be_bytes(x, n)) == x,
    decreases n,
{
    if n > 0 {
        let m = (n - 1) as nat;
        assert(x / 256 < radix(m));
        law_be_round_trip(x / 256, m);
        assert(be_bytes(x, n).drop_last() =~= be_bytes(x / 256, m));
    }
}

/// Numbers of at most 8 bytes: the bounds of the fixed-width types.
pub proof fn lemma_radix_values()
    ensures
        radix(1) == 0x100,
        radix(2) == 0x1_0000,
        radix(4) == 0x1_0000_0000,
        radix(8) == 0x1_0000_0000_0000_0000,
        radix(16) == 0x1_0000_0000_0000_0000_0000_0000_0000_0000,
{
    reveal_with_fuel(radix, 17);
}

/// Append `x` as 2 bytes.
pub fn put_u16(out: &mut Vec<u8>, x: u16)
    ensures
        final(out)@ == old(out)@ + be_bytes(x as nat, 2),
{
    reveal_with_fuel(be_bytes, 3);
    out.push((x / 256) as u8);
    out.push((x % 256) as u8);
}

proof fn lemma_be_bytes_split(x: nat, a: nat, b: nat)
    ensures
        be_bytes(x, a + b) == be_bytes(x / radix(b), a) + be_bytes(x % radix(b), b),
    decreases b,
{
    lemma_radix_positive(b);
    if b == 0 {
        assert(be_bytes(x % 1, 0) =~= Seq::<u8>::empty());
        assert(be_bytes(x, a) + Seq::<u8>::empty() =~= be_bytes(x, a));
    } else {
        let m = (b - 1) as nat;
        lemma_radix_positive(m);
        lemma_be_bytes_split(x / 256, a, m);
        let r = radix(m);
        assert((x / 256) / r == x / (256 * r)) by (nonlinear_arith)
            requires
                r > 0,
        ;
        assert((x % (256 * r)) / 256 == (x / 256) % r && (x % (256 * r)) % 256 == x % 256) by {
            vstd::arithmetic::div_mod::lemma_mod_breakdown(x as int, 256, r as int);
            let q = ((x / 256) % r) as int;
            let t = (x % 256) as int;
            assert(x % (256 * r) == 256 * q + t);
        }
        assert(be_bytes(x, a + b) == be_bytes(x / 256, (a + m) as nat).push((x % 256) as u8));
        assert(be_bytes(x % radix(b), b) == be_bytes((x / 256) % r, m).push((x % 256) as u8));
        assert(be_bytes(x / radix(b), a) + be_bytes(x % radix(b), b) =~= (be_bytes(
            x / radix(b),
            a,
        ) + be_bytes((x / 256) % r, m)).push((x % 256) as u8));
    }
}

proof fn lemma_radix_positive(n: nat)
    ensures
        radix(n) > 0,
    decreases n,
{
    if n > 0 {
        lemma_radix_positive((n - 1) as nat);
    }
}

/// Append `x` as 4 bytes.
pub fn put_u32(out: &mut Vec<u8>, x: u32)
    ensures
        final(out)@ == old(out)@ + be_bytes(x as nat, 4),
{
    proof {
        lemma_be_bytes_split(x as nat, 2, 2);
        lemma_radix_values();
    }
    put_u16(out, (x / 0x1_0000) as u16);
    put_u16(out, (x % 0x1_0000) as u16);
}

/// Append `x` as 8 bytes.
pub fn put_u64(out: &mut Vec<u8>, x: u64)
    ensures
        final(out)@ == old(out)@ + be_bytes(x as nat, 8),
{
    proof {
        lemma_be_bytes_split(x as nat, 4, 4);
        lemma_radix_values();
    }
    put_u32(out, (x / 0x1_0000_0000) as u32);
    put_u32(out, (x % 0x1_0000_0000) as u32);
}

/// Append `x` as 16 bytes.
pub fn put_u128(out: &mut Vec<u8>, x: u128)
    ensures
        final(out)@ == old(out)@ + be_bytes(x as nat, 16),
{
    proof {
        lemma_be_bytes_split(x as nat, 8, 8);
        lemma_radix_values();
    }
    put_u64(out, (x / 0x1_0000_0000_0000_0000) as u64);
    put_u64(out, (x % 0x1_0000_0000_0000_0000) as u64);
}

/// Byte `i` of `n` is the digit of `x` that stands for 256 to the power
/// `n - 1 - i`.
pub proof fn law_be_digits(x: nat, n: nat, i: int)
    requires
        0 <= i < n,
    ensures
        be_bytes(x, n).len() == n,
        be_bytes(x, n)[i] == (x as int / pow(256, (n - 1 - i) as nat)) % 256,
    decreases n,
{
    lemma_be_bytes_len(x, n);
    let m = (n - 1) as nat;
    lemma_be_bytes_len(x / 256, m);
    if i == m {
        lemma_pow0(256);
        assert(x as int / 1 == x);
    } else {
        let e = (m - 1 - i) as nat;
        law_be_digits(x / 256, m, i);
        lemma_pow_positive(256, e);
        assert(pow(256, e + 1) == 256 * pow(256, e)) by {
            reveal(pow);
        }
        lemma_div_denominator(x as int, 256, pow(256, e));
    }
}

/// Reading bytes: none make 0, and each byte more makes 256 times what was read
/// before it, and the byte.
pub proof fn law_be_value_step(s: Seq<u8>, b: u8)
    ensures
        be_value(Seq::<u8>::empty()) == 0,
        be_value(s.push(b)) == 256 * be_value(s) + b,
{
    assert(s.push(b).drop_last() =~= s);
}

} // verus!
