//! Bookkeeping of the renderer that does not touch the GPU: how a track is
//! broken into line segments, how staging buffers grow, and when the surface
//! needs reconfiguring.

use vstd::prelude::*;
use vstd::arithmetic::div_mod::lemma_fundamental_div_mod_converse;

verus! {

/// Whether `n` is a power of two.
pub open spec fn is_power_of_two(n: int) -> bool
    decreases n,
{
    if n <= 0 {
        false
    } else if n == 1 {
        true
    } else {
        n % 2 == 0 && is_power_of_two(n / 2)
    }
}

/// Two to the power `k`.
pub open spec fn two_to_the(k: nat) -> int
    decreases k,
{
    if k == 0 {
        1
    } else {
        2 * two_to_the((k - 1) as nat)
    }
}

/// The powers of two are exactly the numbers `2^k`.
pub proof fn lemma_powers_of_two(k: nat)
    ensures
        is_power_of_two(two_to_the(k)),
    decreases k,
{
    if k > 0 {
        lemma_powers_of_two((k - 1) as nat);
        assert(two_to_the(k) / 2 == two_to_the((k - 1) as nat));
    }
}

/// Every power of two is `2^k` for some `k`, which this returns.
pub proof fn lemma_power_of_two_exponent(n: int) -> (k: nat)
    requires
        is_power_of_two(n),
    ensures
        n == two_to_the(k),
    decreases n,
{
    if n == 1 {
        0
    } else {
        let k = lemma_power_of_two_exponent(n / 2);
        (k + 1) as nat
    }
}

/// The largest power of two a `usize` holds.
pub open spec fn largest_usize_power_of_two() -> int {
    usize::MAX as int / 2 + 1
}

/// `usize::next_power_of_two`: the smallest power of two greater than or
/// equal to `n` (1 for 0). The standard library documents exactly that, and a
/// panic (in debug builds) when the result would not fit, which `requires`
/// rules out.
#[verifier::external_body]
fn next_power_of_two(n: usize) -> (power: usize)
    requires
        n <= largest_usize_power_of_two(),
    ensures
        is_power_of_two(power as int),
        n <= power,
        power == 1 || power / 2 < n,
{
    n.next_power_of_two()
}

/// The capacity a staging buffer of `capacity` elements must have to receive
/// `needed` elements: unchanged if they fit, otherwise the smallest power of
/// two that holds them, so growth is geometric and reallocation rare. Either
/// way the buffer then holds what it was grown for, and it never shrinks.
pub fn grow_capacity(capacity: usize, needed: usize) -> (grown: usize)
    requires
        needed <= largest_usize_power_of_two(),
    ensures
        needed <= grown,
        capacity <= grown,
        needed <= capacity ==> grown == capacity,
        needed > capacity ==> is_power_of_two(grown as int) && needed <= grown && (grown == 1 || grown / 2 < needed),
{
    if needed > capacity {
        next_power_of_two(needed)
    } else {
        capacity
    }
}

/// Number of line segments drawn for a track of `point_count` points: one
/// between each pair of neighbours, plus the closing one back to the start
/// for a closed track. A track of fewer than two points draws nothing.
pub open spec fn track_segment_count(point_count: int, closed: bool) -> int {
    if point_count < 2 {
        0
    } else if closed {
        point_count
    } else {
        point_count - 1
    }
}

/// Entry `k` of a track's line list: segment `k / 2` joins point `k / 2` to
/// the next point, wrapping round to point 0 after the last.
pub open spec fn track_line_index(point_count: int, k: int) -> int {
    if k % 2 == 0 {
        k / 2
    } else {
        (k / 2 + 1) % point_count
    }
}

/// The point indices of a track laid out as a line list: segment `s` joins
/// point `s` to point `s + 1`, wrapping round to point 0 on a closed track.
pub fn track_line_indices(point_count: usize, closed: bool) -> (indices: Vec<usize>)
    requires
        2 * point_count <= usize::MAX,
    ensures
        indices@.len() == 2 * track_segment_count(point_count as int, closed),
        forall|k: int| 0 <= k < indices@.len() ==> indices@[k] == track_line_index(point_count as int, k),
{
    let segments: usize = if point_count < 2 {
        0
    } else if closed {
        point_count
    } else {
        point_count - 1
    };
    let mut indices: Vec<usize> = Vec::new();
    let mut index: usize = 0;
    while index < segments
        invariant
            2 * point_count <= usize::MAX,
            segments == track_segment_count(point_count as int, closed),
            index <= segments,
            indices@.len() == 2 * index,
            forall|k: int| 0 <= k < indices@.len() ==> indices@[k] == track_line_index(point_count as int, k),
        decreases segments - index,
    {
        indices.push(index);
        indices.push((index + 1) % point_count);
        assert(track_line_index(point_count as int, 2 * index) == index);
        assert(track_line_index(point_count as int, 2 * index + 1) == (index + 1) % (point_count as int));
        index += 1;
    }
    indices
}

/// Each segment of a track joins a point to the next one: segment `s` runs
/// from point `s` to point `s + 1`, and only the closing segment of a closed
/// track runs from the last point back to point 0.
pub proof fn lemma_track_segments_join_neighbours(point_count: int, closed: bool, s: int)
    requires
        point_count >= 2,
        0 <= s < track_segment_count(point_count, closed),
    ensures
        track_line_index(point_count, 2 * s) == s,
        track_line_index(point_count, 2 * s + 1) == if s + 1 < point_count {
            s + 1
        } else {
            0
        },
        s + 1 == point_count ==> closed,
{
    lemma_fundamental_div_mod_converse(2 * s, 2, s, 0);
    lemma_fundamental_div_mod_converse(2 * s + 1, 2, s, 1);
    if s + 1 < point_count {
        lemma_fundamental_div_mod_converse(s + 1, point_count, 0, s + 1);
    } else {
        lemma_fundamental_div_mod_converse(s + 1, point_count, 1, 0);
    }
}

/// Whether a resize request calls for reconfiguring the surface: not for a
/// zero-sized window (what a minimised window reports), and not when the size
/// is unchanged.
pub fn needs_reconfigure(width: u32, height: u32, current_width: u32, current_height: u32) -> (reconfigure: bool)
    ensures
        reconfigure <==> width != 0 && height != 0 && (width != current_width || height != current_height),
{
    !(width == 0 || height == 0 || (width == current_width && height == current_height))
}

} // verus!
