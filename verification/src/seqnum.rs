//! TCP sequence-number arithmetic, modulo 2^32.
//!
//! RFC793 sequence numbers live on a circle of size 2^32: every comparison
//! must be wraparound-aware, never a plain unsigned comparison. Everything
//! here is stated in terms of the modular distance from one sequence number
//! to another.

use vstd::prelude::*;

verus! {

/// The size of the TCP sequence-number space.
pub const SEQ_SPACE: u64 = 0x1_0000_0000;

/// `a + n` on the sequence-number circle.
pub open spec fn seq_add(a: u32, n: int) -> u32 {
    (((a + n) % (SEQ_SPACE as int)) as u32)
}

/// The distance travelled going forward from `a` to `b` on the circle,
/// always in `[0, 2^32)`.
pub open spec fn seq_dist(a: u32, b: u32) -> int {
    ((b - a) % (SEQ_SPACE as int))
}

/// `x` lies in the half-open window `[start, start + len)` modulo 2^32.
pub open spec fn in_window(start: u32, len: u16, x: u32) -> bool {
    seq_dist(start, x) < len
}

/// `x` lies in the half-open interval `(lo, hi]` modulo 2^32, the RFC793
/// acceptance range for an acknowledgment number given `lo = snd.una` and
/// `hi = snd.nxt`. Empty when `lo == hi` (nothing in flight).
pub open spec fn in_ack_range(lo: u32, hi: u32, x: u32) -> bool {
    1 <= seq_dist(lo, x) && seq_dist(lo, x) <= seq_dist(lo, hi)
}

/// `(d % 2^32)` for a sum or difference of two `u32` values, written
/// without `%`.
proof fn lemma_mod_identity(d: int)
    requires
        -(SEQ_SPACE as int) < d < 2 * (SEQ_SPACE as int),
    ensures
        d % (SEQ_SPACE as int) == if d < 0 {
            (d + SEQ_SPACE)
        } else if d < SEQ_SPACE {
            d
        } else {
            (d - SEQ_SPACE)
        },
{
    assert(d % (SEQ_SPACE as int) == if d < 0 {
        (d + SEQ_SPACE)
    } else if d < SEQ_SPACE {
        d
    } else {
        (d - SEQ_SPACE)
    }) by (nonlinear_arith)
        requires
            -(SEQ_SPACE as int) < d < 2 * (SEQ_SPACE as int),
    ;
}

/// Distances from a common origin add up along the circle: if `x` is no
/// further from `lo` than `hi` is, the remaining distance from `x` to
/// `hi` is the difference. In particular two points at the same distance
/// from `lo` coincide.
pub proof fn lemma_dist_split(lo: u32, x: u32, hi: u32)
    requires
        seq_dist(lo, x) <= seq_dist(lo, hi),
    ensures
        seq_dist(x, hi) == seq_dist(lo, hi) - seq_dist(lo, x),
{
    lemma_mod_identity(x - lo);
    lemma_mod_identity(hi - lo);
    lemma_mod_identity(hi - x);
}

/// Advancing by `n` lands exactly `n` forward on the circle.
pub proof fn lemma_dist_of_add(a: u32, n: u32)
    ensures
        seq_dist(a, seq_add(a, n as int)) == n,
{
    lemma_mod_identity(a + n);
    lemma_mod_identity(seq_add(a, n as int) - a);
}

/// Advance a sequence number by `n`, wrapping at 2^32.
pub fn seq_advance(a: u32, n: u32) -> (r: u32)
    ensures
        r == seq_add(a, n as int),
{
    proof {
        lemma_mod_identity(a + n);
    }
    a.wrapping_add(n)
}

/// The forward distance from `a` to `b` on the circle.
pub fn seq_distance(a: u32, b: u32) -> (r: u32)
    ensures
        r == seq_dist(a, b),
{
    proof {
        lemma_mod_identity(b - a);
    }
    b.wrapping_sub(a)
}

/// The RFC793 segment-acceptability test: does sequence number `x` fall in
/// the receive window `[start, start + len)` modulo 2^32?
pub fn seq_in_window(start: u32, len: u16, x: u32) -> (r: bool)
    ensures
        r == in_window(start, len, x),
{
    seq_distance(start, x) < (len as u32)
}

/// The RFC793 acknowledgment-acceptability test: does `x` fall in
/// `(lo, hi]` modulo 2^32?
pub fn seq_in_ack_range(lo: u32, hi: u32, x: u32) -> (r: bool)
    ensures
        r == in_ack_range(lo, hi, x),
{
    let dx = seq_distance(lo, x);
    let dh = seq_distance(lo, hi);
    1 <= dx && dx <= dh
}

} // verus!
