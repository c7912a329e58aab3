//! Numbers as bytes: the big-endian payload lengths of headers and the
//! little-endian bits of binary floating-point payloads.

use vstd::prelude::*;

verus! {

/// 256 to the power `width`.
pub open spec fn pow256(width: nat) -> nat
    decreases width,
{
    if width == 0 {
        1
    } else {
        256 * pow256((width - 1) as nat)
    }
}

/// The powers of 256 that the header forms use.
pub proof fn lemma_pow256_values()
    ensures
        pow256(0) == 1,
        pow256(1) == 0x100,
        pow256(2) == 0x1_0000,
        pow256(4) == 0x1_0000_0000,
        pow256(8) == 0x1_0000_0000_0000_0000,
{
    reveal_with_fuel(pow256, 9);
}

/// The powers of 256 grow with the exponent.
pub proof fn lemma_pow256_monotonic(a: nat, b: nat)
    requires
        a <= b,
    ensures
        pow256(a) <= pow256(b),
    decreases b,
{
    if a < b {
        lemma_pow256_monotonic(a, (b - 1) as nat);
    }
}

/// The big-endian representation of `n` in exactly `width` bytes (the low
/// `width` bytes of `n`, most significant first).
pub open spec fn be_bytes(n: nat, width: nat) -> Seq<u8>
    decreases width,
{
    if width == 0 {
        Seq::empty()
    } else {
        be_bytes(n / 256, (width - 1) as nat).push((n % 256) as u8)
    }
}

/// The number that `bytes` hold in big-endian order.
pub open spec fn be_value(bytes: Seq<u8>) -> nat
    decreases bytes.len(),
{
    if bytes.len() == 0 {
        0
    } else {
        be_value(bytes.drop_last()) * 256 + bytes.last() as nat
    }
}

/// `be_bytes` yields exactly `width` bytes.
pub proof fn lemma_be_bytes_len(n: nat, width: nat)
    ensures
        be_bytes(n, width).len() == width,
    decreases width,
{
    if width > 0 {
        lemma_be_bytes_len(n / 256, (width - 1) as nat);
    }
}

/// A big-endian number of `bytes.len()` bytes is below 256 to that power.
pub proof fn lemma_be_value_bound(bytes: Seq<u8>)
    ensures
        be_value(bytes) < pow256(bytes.len()),
    decreases bytes.len(),
{
    if bytes.len() > 0 {
        lemma_be_value_bound(bytes.drop_last());
    }
}

/// Reading back the big-endian bytes of a number that fits gives the number.
pub proof fn lemma_be_round_trip(n: nat, width: nat)
    requires
        n < pow256(width),
    ensures
        be_value(be_bytes(n, width)) == n,
    decreases width,
{
    if width > 0 {
        let front = be_bytes(n / 256, (width - 1) as nat);
        lemma_be_bytes_len(n / 256, (width - 1) as nat);
        lemma_be_round_trip(n / 256, (width - 1) as nat);
        assert(be_bytes(n, width).drop_last() =~= front);
    }
}

/// Appends the big-endian representation of `n` in `width` bytes to `out`.
pub fn push_be(out: &mut Vec<u8>, n: u64, width: u8)
    ensures
        final(out)@ == old(out)@ + be_bytes(n as nat, width as nat),
    decreases width,
{
    if width > 0 {
        push_be(out, n / 256, width - 1);
        out.push((n % 256) as u8);
        assert(final(out)@ =~= old(out)@ + be_bytes(n as nat, width as nat));
    } else {
        assert(out@ =~= old(out)@ + be_bytes(n as nat, width as nat));
    }
}

/// Reads the big-endian number held in `bytes[start..start + width]`.
pub fn read_be(bytes: &[u8], start: usize, width: usize) -> (n: u64)
    requires
        width <= 8,
        start + width <= bytes@.len(),
    ensures
        n == be_value(bytes@.subrange(start as int, start + width)),
{
    let len: usize = bytes.len();
    let mut n: u64 = 0;
    let mut i: usize = 0;
    while i < width
        invariant
            i <= width <= 8,
            start + width <= len == bytes@.len(),
            n == be_value(bytes@.subrange(start as int, start + i)),
        decreases width - i,
    {
        proof {
            let read = bytes@.subrange(start as int, start + i);
            let next = bytes@.subrange(start as int, start + i + 1);
            lemma_be_value_bound(read);
            lemma_be_value_bound(next);
            lemma_pow256_values();
            lemma_pow256_monotonic(next.len(), 8);
            assert(next.drop_last() =~= read);
        }
        n = n * 256 + bytes[start + i] as u64;
        i = i + 1;
    }
    n
}

/// The little-endian representation of `n` in exactly `width` bytes (the low
/// `width` bytes of `n`, least significant first).
pub open spec fn le_bytes(n: nat, width: nat) -> Seq<u8>
    decreases width,
{
    if width == 0 {
        Seq::empty()
    } else {
        seq![(n % 256) as u8] + le_bytes(n / 256, (width - 1) as nat)
    }
}

/// The number that `bytes` hold in little-endian order.
pub open spec fn le_value(bytes: Seq<u8>) -> nat
    decreases bytes.len(),
{
    if bytes.len() == 0 {
        0
    } else {
        bytes[0] as nat + 256 * le_value(bytes.subrange(1, bytes.len() as int))
    }
}

/// `le_bytes` yields exactly `width` bytes.
pub proof fn lemma_le_bytes_len(n: nat, width: nat)
    ensures
        le_bytes(n, width).len() == width,
    decreases width,
{
    if width > 0 {
        lemma_le_bytes_len(n / 256, (width - 1) as nat);
    }
}

/// A little-endian number of `bytes.len()` bytes is below 256 to that power.
pub proof fn lemma_le_value_bound(bytes: Seq<u8>)
    ensures
        le_value(bytes) < pow256(bytes.len()),
    decreases bytes.len(),
{
    if bytes.len() > 0 {
        lemma_le_value_bound(bytes.subrange(1, bytes.len() as int));
    }
}

/// Reading back the little-endian bytes of a number that fits gives the
/// number.
pub proof fn lemma_le_round_trip(n: nat, width: nat)
    requires
        n < pow256(width),
    ensures
        le_value(le_bytes(n, width)) == n,
    decreases width,
{
    if width > 0 {
        let tail = le_bytes(n / 256, (width - 1) as nat);
        lemma_le_bytes_len(n / 256, (width - 1) as nat);
        lemma_le_round_trip(n / 256, (width - 1) as nat);
        let all = le_bytes(n, width);
        assert(all.subrange(1, all.len() as int) =~= tail);
    }
}

/// Appends the little-endian representation of `n` in `width` bytes to `out`.
pub fn push_le(out: &mut Vec<u8>, n: u64, width: u8)
    ensures
        final(out)@ == old(out)@ + le_bytes(n as nat, width as nat),
    decreases width,
{
    if width > 0 {
        out.push((n % 256) as u8);
        let ghost mid = out@;
        push_le(out, n / 256, width - 1);
        assert(final(out)@ =~= old(out)@ + le_bytes(n as nat, width as nat));
    } else {
        assert(out@ =~= old(out)@ + le_bytes(n as nat, width as nat));
    }
}

/// Reads the little-endian number held in `bytes[start..start + width]`.
pub fn read_le(bytes: &[u8], start: usize, width: usize) -> (n: u64)
    requires
        width <= 8,
        start + width <= bytes@.len(),
    ensures
        n == le_value(bytes@.subrange(start as int, start + width)),
    decreases width,
{
    if width == 0 {
        0
    } else {
        let len: usize = bytes.len();
        let rest: u64 = read_le(bytes, start + 1, width - 1);
        proof {
            let all = bytes@.subrange(start as int, start + width);
            let tail = bytes@.subrange(start + 1, start + width);
            assert(all.subrange(1, all.len() as int) =~= tail);
            lemma_le_value_bound(tail);
            lemma_pow256_values();
            lemma_pow256_monotonic(tail.len(), 7);
            reveal_with_fuel(pow256, 8);
        }
        bytes[start] as u64 + 256 * rest
    }
}

} // verus!
