//! Byte strings: big-endian numbers and hexadecimal dumps.
use vstd::prelude::*;
use vstd::string::StringExecFns;

use crate::text::{hex_fixed, join, push_hex_fixed};

verus! {

/// The number with these four bytes, the most significant first.
pub open spec fn be32_value(a: u8, b: u8, c: u8, d: u8) -> int {
    a * 0x100_0000 + b * 0x1_0000 + c * 0x100 + d
}

/// The four bytes of `x`, the most significant first.
pub open spec fn be32(x: u32) -> Seq<u8> {
    seq![
        (x / 0x100_0000) as u8,
        (x / 0x1_0000 % 0x100) as u8,
        (x / 0x100 % 0x100) as u8,
        (x % 0x100) as u8,
    ]
}

/// The number in the four bytes of `d` from `i` on.
pub open spec fn u32_at(d: Seq<u8>, i: int) -> u32 {
    be32_value(d[i], d[i + 1], d[i + 2], d[i + 3]) as u32
}

/// Reading the bytes of a number gives the number back.
pub proof fn law_be32_roundtrip(x: u32)
    ensures
        u32_at(be32(x), 0) == x,
{
}

/// `d` holds `x` from `i` on, where its bytes stand there.
pub proof fn lemma_u32_at(d: Seq<u8>, i: int, x: u32)
    requires
        0 <= i,
        i + 4 <= d.len(),
        d.subrange(i, i + 4) == be32(x),
    ensures
        u32_at(d, i) == x,
{
    let s = d.subrange(i, i + 4);
    assert(s[0] == d[i] && s[1] == d[i + 1] && s[2] == d[i + 2] && s[3] == d[i + 3]);
    law_be32_roundtrip(x);
}

/// The bytes in hexadecimal, two digits each, with `sep` between them.
pub open spec fn hex_dump(d: Seq<u8>, sep: Seq<char>) -> Seq<char> {
    join(d.map_values(|b: u8| hex_fixed(b as nat, 2)), sep)
}

/// The number in the four bytes of `d` from `i` on.
pub fn read_u32(d: &[u8], i: usize) -> (x: u32)
    requires
        i + 4 <= d@.len(),
    ensures
        x == u32_at(d@, i as int),
{
    d[i] as u32 * 0x100_0000 + d[i + 1] as u32 * 0x1_0000 + d[i + 2] as u32 * 0x100 + d[i
        + 3] as u32
}

/// Appends the four bytes of `x`.
pub fn push_u32(out: &mut Vec<u8>, x: u32)
    ensures
        final(out)@ == old(out)@ + be32(x),
{
    out.push((x / 0x100_0000) as u8);
    out.push((x / 0x1_0000 % 0x100) as u8);
    out.push((x / 0x100 % 0x100) as u8);
    out.push((x % 0x100) as u8);
    assert(out@ =~= old(out)@ + be32(x));
}

/// Appends some bytes.
pub fn push_bytes(out: &mut Vec<u8>, d: &[u8])
    ensures
        final(out)@ == old(out)@ + d@,
{
    let mut i: usize = 0;
    assert(d@.take(0) =~= Seq::empty());
    assert(out@ =~= old(out)@ + d@.take(0));
    while i < d.len()
        invariant
            i <= d.len(),
            out@ == old(out)@ + d@.take(i as int),
        decreases d.len() - i,
    {
        out.push(d[i]);
        assert(d@.take(i + 1) =~= d@.take(i as int).push(d@[i as int]));
        i = i + 1;
    }
    assert(d@.take(i as int) =~= d@);
}

/// Appends `n` zeros.
pub fn push_zeros(out: &mut Vec<u8>, n: usize)
    ensures
        final(out)@ == old(out)@ + Seq::new(n as nat, |i: int| 0u8),
{
    let mut i: usize = 0;
    assert(out@ =~= old(out)@ + Seq::new(0, |i: int| 0u8));
    while i < n
        invariant
            i <= n,
            out@ == old(out)@ + Seq::new(i as nat, |i: int| 0u8),
        decreases n - i,
    {
        out.push(0);
        i = i + 1;
        assert(out@ =~= old(out)@ + Seq::new(i as nat, |i: int| 0u8));
    }
}

/// Appends the bytes in hexadecimal, two digits each, with `sep` between them.
pub fn push_hex_dump(out: &mut String, d: &[u8], sep: &str)
    ensures
        final(out)@ == old(out)@ + hex_dump(d@, sep@),
{
    let ghost parts = d@.map_values(|b: u8| hex_fixed(b as nat, 2));
    let ghost out0 = out@;
    let mut i: usize = 0;
    assert(parts.take(0) =~= Seq::empty());
    assert(out@ =~= out0 + join(parts.take(0), sep@));
    while i < d.len()
        invariant
            i <= d.len(),
            parts == d@.map_values(|b: u8| hex_fixed(b as nat, 2)),
            out@ == out0 + join(parts.take(i as int), sep@),
        decreases d.len() - i,
    {
        if i > 0 {
            out.append(sep);
        }
        push_hex_fixed(out, d[i] as u64, 2);
        proof {
            assert(parts.take(i + 1).drop_last() =~= parts.take(i as int));
            assert(parts.take(i + 1).last() == parts[i as int]);
            if i == 0 {
                assert(out@ =~= out0 + parts[0]);
                assert(parts.take(1)[0] == parts[0]);
            } else {
                assert(out@ =~= out0 + (join(parts.take(i as int), sep@) + sep@ + parts[i as int]));
            }
        }
        i = i + 1;
    }
    assert(parts.take(i as int) =~= parts);
}

} // verus!
