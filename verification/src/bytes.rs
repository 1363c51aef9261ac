//! Fixed-width little-endian integers as byte sequences.

use vstd::prelude::*;

verus! {

/// 256 to the power `n`.
pub open spec fn pow256(n: nat) -> nat
    decreases n,
{
    if n == 0 {
        1
    } else {
        256 * pow256((n - 1) as nat)
    }
}

/// The `width` low bytes of `value`, least significant first.
pub open spec fn le_bytes(value: nat, width: nat) -> Seq<u8>
    decreases width,
{
    if width == 0 {
        Seq::empty()
    } else {
        seq![(value % 256) as u8] + le_bytes(value / 256, (width - 1) as nat)
    }
}

/// The number that `bytes` spell, least significant byte first.
pub open spec fn le_value(bytes: Seq<u8>) -> nat
    decreases bytes.len(),
{
    if bytes.len() == 0 {
        0
    } else {
        bytes[0] as nat + 256 * le_value(bytes.drop_first())
    }
}

/// The powers of 256 are positive and do not fall.
pub proof fn lemma_pow256_grows(m: nat, n: nat)
    requires
        m <= n,
    ensures
        0 < pow256(m) <= pow256(n),
    decreases n,
{
    if n == 0 {
    } else if m == n {
        lemma_pow256_grows((m - 1) as nat, (n - 1) as nat);
    } else {
        lemma_pow256_grows(m, (n - 1) as nat);
    }
}

/// The powers of 256 at the widths the wire format uses.
pub proof fn lemma_pow256_widths()
    ensures
        pow256(1) == 0x100,
        pow256(2) == 0x1_0000,
        pow256(4) == 0x1_0000_0000,
        pow256(8) == 0x1_0000_0000_0000_0000,
        pow256(16) == 0x1_0000_0000_0000_0000_0000_0000_0000_0000,
{
    reveal_with_fuel(pow256, 17);
}

/// A number written in `width` bytes takes `width` bytes.
pub proof fn lemma_le_bytes_len(value: nat, width: nat)
    ensures
        le_bytes(value, width).len() == width,
    decreases width,
{
    if width > 0 {
        lemma_le_bytes_len(value / 256, (width - 1) as nat);
    }
}

/// What bytes spell is below 256 to the power of their number.
pub proof fn lemma_le_value_bound(bytes: Seq<u8>)
    ensures
        le_value(bytes) < pow256(bytes.len()),
    decreases bytes.len(),
{
    if bytes.len() > 0 {
        lemma_le_value_bound(bytes.drop_first());
    }
}

/// Reading back the bytes of a number that fits gives the number.
pub proof fn lemma_le_value_of_bytes(value: nat, width: nat)
    requires
        value < pow256(width),
    ensures
        le_value(le_bytes(value, width)) == value,
    decreases width,
{
    if width > 0 {
        let rest = le_bytes(value / 256, (width - 1) as nat);
        lemma_le_value_of_bytes(value / 256, (width - 1) as nat);
        assert(le_bytes(value, width).drop_first() =~= rest);
    }
}

/// Writing the number that bytes spell gives the bytes back.
pub proof fn lemma_le_bytes_of_value(bytes: Seq<u8>)
    ensures
        le_bytes(le_value(bytes), bytes.len()) == bytes,
    decreases bytes.len(),
{
    if bytes.len() > 0 {
        let rest = bytes.drop_first();
        lemma_le_bytes_of_value(rest);
        let v = le_value(bytes);
        assert(v % 256 == bytes[0] as nat && v / 256 == le_value(rest));
        assert(le_bytes(v, bytes.len()) =~= bytes);
    } else {
        assert(le_bytes(le_value(bytes), bytes.len()) =~= bytes);
    }
}

/// Appends the `width` low bytes of `value`, least significant first.
pub fn put_le(w: &mut Vec<u8>, value: u128, width: usize)
    ensures
        final(w)@ == old(w)@ + le_bytes(value as nat, width as nat),
{
    let mut rest: u128 = value;
    let mut done: usize = 0;
    while done < width
        invariant
            done <= width,
            old(w)@ + le_bytes(value as nat, width as nat) == w@ + le_bytes(
                rest as nat,
                (width - done) as nat,
            ),
        decreases width - done,
    {
        let ghost before = w@;
        w.push((rest % 256) as u8);
        proof {
            let tail = le_bytes((rest / 256) as nat, (width - done - 1) as nat);
            assert(le_bytes(rest as nat, (width - done) as nat) == seq![(rest % 256) as u8] + tail);
            assert(before + (seq![(rest % 256) as u8] + tail) =~= w@ + tail);
        }
        rest = rest / 256;
        done = done + 1;
    }
    assert(w@ + le_bytes(rest as nat, 0) =~= w@);
}

/// Reads the `width` bytes of `data` from `pos` on as a number, least
/// significant byte first.
pub fn get_le(data: &[u8], pos: usize, width: usize) -> (value: u128)
    requires
        width <= 16,
        pos + width <= data@.len(),
    ensures
        value as nat == le_value(data@.subrange(pos as int, pos + width)),
{
    let mut value: u128 = 0;
    let mut left: usize = width;
    let len = data.len();
    assert(data@.subrange(pos + width, pos + width) =~= Seq::empty());
    proof {
        lemma_pow256_widths();
    }
    while left > 0
        invariant
            left <= width <= 16,
            pos + width <= data@.len() == len,
            value as nat == le_value(data@.subrange(pos + left, pos + width)),
            value < pow256((width - left) as nat),
            pow256(16) == 0x1_0000_0000_0000_0000_0000_0000_0000_0000,
        decreases left,
    {
        let byte = data[pos + left - 1];
        proof {
            let longer = data@.subrange(pos + left - 1, pos + width);
            assert(longer.drop_first() =~= data@.subrange(pos + left, pos + width));
            assert(longer[0] == byte);
            lemma_pow256_grows((width - left + 1) as nat, 16);
        }
        value = value * 256 + byte as u128;
        left = left - 1;
    }
    value
}

} // verus!
