//! Sequence numbers: `u32` counters that wrap from `u32::MAX` to 0.
use vstd::prelude::*;

verus! {

/// How many sequence numbers there are.
pub const SEQ_SPACE: u64 = 0x1_0000_0000;

/// Half of the sequence space: numbers closer than this have an order.
pub const SEQ_HALF: u64 = 0x8000_0000;

/// How far `a` lies ahead of `base`, going up and wrapping at the end of the space.
pub open spec fn offset(a: u32, base: u32) -> int {
    if a >= base {
        a - base
    } else {
        a - base + SEQ_SPACE
    }
}

/// `a` comes after `b`: it lies ahead of it by less than half of the space.
pub open spec fn after(a: u32, b: u32) -> bool {
    0 < offset(a, b) < SEQ_HALF
}

/// Wrapping subtraction gives the offset.
pub proof fn lemma_wrapping_sub_is_offset(a: u32, b: u32)
    ensures
        a.wrapping_sub(b) == offset(a, b),
{
}

fn is_positive_as_i32(x: u32) -> (r: bool)
    ensures
        r == (0 < x < SEQ_HALF),
{
    assert((x as i32 > 0) == (0 < x && x < 0x8000_0000)) by (bit_vector);
    (x as i32) > 0
}

/// Whether `a` comes after `b` in sequence space. Works across the wraparound as long as the two
/// are less than 2^31 apart.
pub fn seq_after(a: u32, b: u32) -> (r: bool)
    ensures
        r == after(a, b),
{
    proof {
        lemma_wrapping_sub_is_offset(a, b);
    }
    is_positive_as_i32(a.wrapping_sub(b))
}

/// Whether `a` does not come after `b`.
pub fn seq_before_or_eq(a: u32, b: u32) -> (r: bool)
    ensures
        r == !after(a, b),
{
    !seq_after(a, b)
}

/// Whether `a` comes strictly before `b`.
pub fn seq_before(a: u32, b: u32) -> (r: bool)
    ensures
        r == after(b, a),
{
    proof {
        lemma_wrapping_sub_is_offset(b, a);
    }
    is_positive_as_i32(b.wrapping_sub(a))
}

/// No number comes after itself, and of two numbers at most one comes after the other.
pub proof fn law_after_is_asymmetric(a: u32, b: u32)
    ensures
        !after(a, a),
        !(after(a, b) && after(b, a)),
{
}

/// Of two different numbers one comes after the other, unless they are exactly half the space
/// apart.
pub proof fn law_after_is_total_within_half(a: u32, b: u32)
    requires
        a != b,
        offset(a, b) != SEQ_HALF,
    ensures
        after(a, b) || after(b, a),
{
}

/// Within a window of less than half the space, starting at `base`, "comes after" is the order of
/// the offsets; so there it is transitive, whether or not the window spans the wraparound.
pub proof fn law_after_is_offset_order_in_window(a: u32, b: u32, base: u32)
    requires
        offset(a, base) < SEQ_HALF,
        offset(b, base) < SEQ_HALF,
    ensures
        after(a, b) <==> offset(a, base) > offset(b, base),
{
}

/// Adding less than half the space to a number, with wraparound, gives a number that comes after
/// it.
pub proof fn law_advance_comes_after(a: u32, n: u32)
    requires
        0 < n < SEQ_HALF,
    ensures
        after(a.wrapping_add(n), a),
{
}

} // verus!
