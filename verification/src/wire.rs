//! Fixed-width integers on the wire.

use vstd::prelude::*;

verus! {

/// The number that `s` spells in base 256, most significant byte first.
pub open spec fn be_value(s: Seq<u8>) -> nat
    decreases s.len(),
{
    if s.len() == 0 {
        0
    } else {
        be_value(s.drop_last()) * 256 + s.last() as nat
    }
}

/// The last `width` base-256 digits of `n`, most significant byte first.
pub open spec fn be_bytes(n: nat, width: nat) -> Seq<u8>
    decreases width,
{
    if width == 0 {
        Seq::empty()
    } else {
        be_bytes(n / 256, (width - 1) as nat).push((n % 256) as u8)
    }
}

/// How many numbers `width` bytes can tell apart.
pub open spec fn capacity(width: nat) -> nat
    decreases width,
{
    if width == 0 {
        1
    } else {
        256 * capacity((width - 1) as nat)
    }
}

pub proof fn lemma_capacities()
    ensures
        capacity(1) == 0x100,
        capacity(2) == 0x1_0000,
        capacity(4) == 0x1_0000_0000,
        capacity(8) == 0x1_0000_0000_0000_0000,
{
    reveal_with_fuel(capacity, 9);
}

pub proof fn lemma_capacity_monotonic(a: nat, b: nat)
    requires
        a <= b,
    ensures
        capacity(a) <= capacity(b),
    decreases b,
{
    if a < b {
        lemma_capacity_monotonic(a, (b - 1) as nat);
    }
}

pub broadcast proof fn lemma_be_bytes_len(n: nat, width: nat)
    ensures
        #[trigger] be_bytes(n, width).len() == width,
    decreases width,
{
    if width > 0 {
        lemma_be_bytes_len(n / 256, (width - 1) as nat);
    }
}

pub proof fn lemma_be_value_bound(s: Seq<u8>)
    ensures
        be_value(s) < capacity(s.len()),
    decreases s.len(),
{
    if s.len() > 0 {
        lemma_be_value_bound(s.drop_last());
    }
}

/// Law: reading back a number that fits its field gives the number.
pub proof fn law_number_comes_back(n: nat, width: nat)
    requires
        n < capacity(width),
    ensures
        be_value(be_bytes(n, width)) == n,
    decreases width,
{
    lemma_be_bytes_len(n, width);
    if width > 0 {
        law_number_comes_back(n / 256, (width - 1) as nat);
        let rest = be_bytes(n / 256, (width - 1) as nat);
        assert(be_bytes(n, width).drop_last() =~= rest);
    }
}

/// Law: writing out the number that some bytes spell gives those bytes.
pub proof fn law_bytes_come_back(s: Seq<u8>)
    ensures
        be_bytes(be_value(s), s.len()) == s,
    decreases s.len(),
{
    if s.len() > 0 {
        law_bytes_come_back(s.drop_last());
        let n = be_value(s);
        assert(n / 256 == be_value(s.drop_last()));
        assert(n % 256 == s.last() as nat);
        assert(be_bytes(n, s.len()) =~= s);
    }
}

/// Only the last `width` digits of a number reach the wire.
pub proof fn lemma_be_bytes_truncate(n: nat, width: nat)
    ensures
        be_bytes(n % capacity(width), width) == be_bytes(n, width),
    decreases width,
{
    if width > 0 {
        let c = capacity((width - 1) as nat);
        lemma_capacity_monotonic(0, (width - 1) as nat);
        let m = n % (256 * c);
        vstd::arithmetic::div_mod::lemma_mod_breakdown(n as int, 256, c as int);
        // n % (256 * c) == 256 * ((n / 256) % c) + n % 256
        assert(m == 256 * ((n / 256) % c) + n % 256);
        assert(m / 256 == (n / 256) % c);
        assert(m % 256 == n % 256);
        lemma_be_bytes_truncate(n / 256, (width - 1) as nat);
    }
}

/// Reading on behind what was read.
pub broadcast proof fn lemma_take_behind<A>(s: Seq<A>, i: int, n: int)
    requires
        0 <= i,
        0 <= n,
        i + n <= s.len(),
    ensures
        #[trigger] s.skip(i).take(n) == s.subrange(i, i + n),
{
    assert(s.skip(i).take(n) =~= s.subrange(i, i + n));
}

/// Going on behind what was passed.
pub broadcast proof fn lemma_skip_behind<A>(s: Seq<A>, i: int, n: int)
    requires
        0 <= i,
        0 <= n,
        i + n <= s.len(),
    ensures
        #[trigger] s.skip(i).skip(n) == s.skip(i + n),
{
    assert(s.skip(i).skip(n) =~= s.skip(i + n));
}

pub broadcast group group_reading {
    lemma_take_behind,
    lemma_skip_behind,
    lemma_be_bytes_len,
}

/// Appends the last `width` bytes of `n`, most significant first.
pub fn push_be(buf: &mut Vec<u8>, n: u64, width: usize)
    ensures
        final(buf)@ == old(buf)@ + be_bytes(n as nat, width as nat),
    decreases width,
{
    if width > 0 {
        push_be(buf, n / 256, width - 1);
        buf.push((n % 256) as u8);
        assert(buf@ =~= old(buf)@ + be_bytes(n as nat, width as nat));
    } else {
        assert(buf@ =~= old(buf)@ + be_bytes(n as nat, width as nat));
    }
}

/// Reads the bytes from `from` up to `to` as one number, most significant first.
pub fn read_be(bytes: &[u8], from: usize, to: usize) -> (n: u64)
    requires
        from <= to <= bytes@.len(),
        to - from <= 8,
    ensures
        n == be_value(bytes@.subrange(from as int, to as int)),
        n < capacity((to - from) as nat),
{
    let mut acc: u64 = 0;
    let mut i: usize = from;
    proof {
        lemma_capacities();
    }
    while i < to
        invariant
            from <= i <= to <= bytes@.len(),
            to - from <= 8,
            acc == be_value(bytes@.subrange(from as int, i as int)),
            capacity(8) == 0x1_0000_0000_0000_0000,
        decreases to - i,
    {
        let ghost next = bytes@.subrange(from as int, i + 1);
        proof {
            assert(next.drop_last() =~= bytes@.subrange(from as int, i as int));
            lemma_be_value_bound(next);
            lemma_capacity_monotonic(next.len(), 8);
            assert(next.last() == bytes@[i as int]);
        }
        acc = acc * 256 + bytes[i] as u64;
        i = i + 1;
    }
    proof {
        lemma_be_value_bound(bytes@.subrange(from as int, to as int));
    }
    acc
}

/// Law: a number is written digit by digit in base 256, the most significant digit first.
pub proof fn law_digits_in_order(n: nat, width: nat, i: int)
    requires
        0 <= i < width,
    ensures
        be_bytes(n, width).len() == width,
        be_bytes(n, width)[i] == (n as int / vstd::arithmetic::power::pow(
            256,
            (width - 1 - i) as nat,
        )) % 256,
    decreases width,
{
    lemma_be_bytes_len(n, width);
    lemma_be_bytes_len(n / 256, (width - 1) as nat);
    vstd::arithmetic::power::lemma_pow0(256);
    if i < width - 1 {
        law_digits_in_order(n / 256, (width - 1) as nat, i);
        let k = (width - 2 - i) as nat;
        let p = vstd::arithmetic::power::pow(256, k);
        vstd::arithmetic::power::lemma_pow_positive(256, k);
        assert(vstd::arithmetic::power::pow(256, k + 1) == 256 * p) by {
            reveal(vstd::arithmetic::power::pow);
        }
        vstd::arithmetic::div_mod::lemma_div_denominator(n as int, 256, p);
    }
}

/// Law: two bytes, four bytes and eight bytes, read as numbers, are the sum of their digits by
/// weight.
pub proof fn law_digits_by_weight(s: Seq<u8>)
    ensures
        s.len() == 1 ==> be_value(s) == s[0],
        s.len() == 2 ==> be_value(s) == 0x100 * s[0] + s[1],
        s.len() == 4 ==> be_value(s) == 0x100_0000 * s[0] + 0x1_0000 * s[1] + 0x100 * s[2] + s[3],
        s.len() == 8 ==> be_value(s) == 0x1_0000_0000 * (0x100_0000 * s[0] + 0x1_0000 * s[1] + 0x100
            * s[2] + s[3]) + 0x100_0000 * s[4] + 0x1_0000 * s[5] + 0x100 * s[6] + s[7],
{
    reveal_with_fuel(be_value, 9);
}

} // verus!
