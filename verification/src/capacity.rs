//! Capacity arithmetic: powers of two and the growth policy of the chunk list.
//!
//! A new chunk is sized to the larger of twice the capacity of the chunk it
//! replaces and the least power of two that holds the batch that asked for it.
//! Every computation here is checked: a capacity that does not fit in `usize`
//! is reported as `None`, never wrapped.

use vstd::arithmetic::power2::is_pow2;
use vstd::prelude::*;

verus! {

/// Size in bytes that the first chunk of a default arena aims for.
pub const INITIAL_SIZE: usize = 1024;

/// Least capacity a chunk is ever given. Growth doubles, so it must not be 0.
pub const MIN_CAPACITY: usize = 1;

/// The least power of two that is at least `n` (1 for `n == 0`).
pub open spec fn next_power_of_two(n: nat) -> nat
    decreases n,
{
    if n <= 1 {
        1
    } else {
        2 * next_power_of_two((n + 1) / 2)
    }
}

/// The capacity of the chunk that replaces one of capacity `capacity` when
/// `additional` more elements are asked for.
pub open spec fn grown_capacity(capacity: nat, additional: nat) -> nat {
    if 2 * capacity >= next_power_of_two(additional) {
        2 * capacity
    } else {
        next_power_of_two(additional)
    }
}

/// The capacity of the first chunk of an arena asked to hold `n` elements.
pub open spec fn initial_capacity(n: nat) -> nat {
    if n >= MIN_CAPACITY {
        n
    } else {
        MIN_CAPACITY as nat
    }
}

/// The capacity hint of a default arena whose elements take `size` bytes:
/// as many elements as fit into [`INITIAL_SIZE`] bytes.
pub open spec fn default_capacity_hint(size: nat) -> nat {
    if size <= 1 {
        INITIAL_SIZE as nat
    } else {
        INITIAL_SIZE as nat / size
    }
}

/// `next_power_of_two(n)` is at least `n`.
pub proof fn lemma_next_power_of_two_covers(n: nat)
    ensures
        n <= next_power_of_two(n),
    decreases n,
{
    if n > 1 {
        lemma_next_power_of_two_covers((n + 1) / 2);
    }
}

/// `next_power_of_two(n)` is a power of two.
pub proof fn lemma_next_power_of_two_is_power(n: nat)
    ensures
        is_pow2(next_power_of_two(n) as int),
    decreases n,
{
    reveal(is_pow2);
    if n > 1 {
        lemma_next_power_of_two_is_power((n + 1) / 2);
    }
}

/// From 2 on, half of `next_power_of_two(n)` is below `n`: the power chosen
/// is no larger than it has to be.
pub proof fn lemma_next_power_of_two_tight(n: nat)
    requires
        n >= 2,
    ensures
        next_power_of_two(n) % 2 == 0,
        next_power_of_two(n) / 2 < n,
    decreases n,
{
    let half: nat = (n + 1) / 2;
    if half >= 2 {
        lemma_next_power_of_two_tight(half);
    } else {
        assert(next_power_of_two(half) == 1);
    }
}

/// Of two distinct powers of two, the larger is at least twice the smaller.
pub proof fn lemma_powers_of_two_are_spread(a: int, b: int)
    requires
        is_pow2(a),
        is_pow2(b),
        a < b,
    ensures
        2 * a <= b,
    decreases b,
{
    reveal(is_pow2);
    if a > 1 {
        lemma_powers_of_two_are_spread(a / 2, b / 2);
    }
}

/// `next_power_of_two(n)` is the least power of two that is at least `n`.
pub proof fn lemma_next_power_of_two_least(n: nat, p: int)
    requires
        is_pow2(p),
        n <= p,
    ensures
        next_power_of_two(n) <= p,
{
    reveal(is_pow2);
    lemma_next_power_of_two_is_power(n);
    if n >= 2 && p < next_power_of_two(n) {
        lemma_next_power_of_two_tight(n);
        lemma_powers_of_two_are_spread(p, next_power_of_two(n) as int);
    }
}

/// A chunk that replaces another has at least twice its capacity, and room
/// for the batch that asked for it; it has less than twice that room unless
/// doubling gave more. Growth for a single element is plain doubling.
pub proof fn lemma_grown_capacity_bounds(capacity: nat, additional: nat)
    ensures
        grown_capacity(capacity, additional) >= 2 * capacity,
        grown_capacity(capacity, additional) >= additional,
        capacity >= 1 ==> grown_capacity(capacity, additional) == 2 * capacity || grown_capacity(
            capacity,
            additional,
        ) < 2 * additional,
        capacity >= 1 ==> grown_capacity(capacity, 1) == 2 * capacity,
{
    lemma_next_power_of_two_covers(additional);
    if additional >= 2 {
        lemma_next_power_of_two_tight(additional);
    }
}

/// The least power of two that is at least `n`, or `None` where it does not
/// fit in `usize`.
pub fn checked_next_power_of_two(n: usize) -> (r: Option<usize>)
    ensures
        next_power_of_two(n as nat) <= usize::MAX ==> r == Some(next_power_of_two(n as nat) as usize),
        next_power_of_two(n as nat) > usize::MAX ==> r is None,
{
    let mut power: usize = 1;
    let mut left: usize = n;
    while left > 1
        invariant
            power >= 1,
            next_power_of_two(n as nat) == power * next_power_of_two(left as nat),
        decreases left,
    {
        let ghost half: nat = ((left + 1) / 2) as nat;
        assert(next_power_of_two(half) >= 1) by {
            lemma_next_power_of_two_covers(half);
        }
        assert(power * (2 * next_power_of_two(half)) == (power * 2) * next_power_of_two(half)
            && (power * 2) * next_power_of_two(half) >= power * 2) by (nonlinear_arith)
            requires
                next_power_of_two(half) >= 1,
                power >= 1,
        ;
        match power.checked_mul(2) {
            Some(doubled) => {
                power = doubled;
            },
            None => {
                return None;
            },
        }
        left = left - left / 2;
    }
    assert(power * 1 == power) by (nonlinear_arith);
    Some(power)
}

/// The capacity that growth gives, or `None` where doubling or the power of
/// two overflows.
pub fn checked_grown_capacity(capacity: usize, additional: usize) -> (r: Option<usize>)
    ensures
        grown_capacity(capacity as nat, additional as nat) <= usize::MAX ==> r == Some(
            grown_capacity(capacity as nat, additional as nat) as usize,
        ),
        grown_capacity(capacity as nat, additional as nat) > usize::MAX ==> r is None,
{
    match (capacity.checked_mul(2), checked_next_power_of_two(additional)) {
        (Some(double_cap), Some(required_cap)) => {
            if double_cap >= required_cap {
                Some(double_cap)
            } else {
                Some(required_cap)
            }
        },
        _ => None,
    }
}

} // verus!
