//! Ring-index arithmetic shared by the receive and transmit queues.
//!
//! Every descriptor ring has a power-of-two number of entries, so advancing
//! an index wraps with a mask instead of a division.

use vstd::prelude::*;
use vstd::arithmetic::div_mod::{lemma_small_mod, lemma_mod_self_0, lemma_mod_bound};

verus! {

/// True when `n` is a nonzero power of two.
pub open spec fn is_pow2(n: u32) -> bool {
    n > 0 && (n & ((n - 1) as u32)) == 0
}

/// The slot after `i` in a ring of `n` entries, for an in-range `i`.
pub open spec fn wrap_spec(i: int, n: int) -> int {
    if i + 1 == n { 0int } else { i + 1 }
}

/// Advancing an in-range index is addition modulo the ring size.
pub proof fn lemma_wrap_is_mod(i: int, n: int)
    requires
        0 <= i < n,
    ensures
        wrap_spec(i, n) == (i + 1) % n,
{
    if i + 1 == n {
        lemma_mod_self_0(n);
    } else {
        lemma_small_mod((i + 1) as nat, n as nat);
    }
}

/// Masking an in-range value with `size - 1` keeps it unchanged when `size`
/// is a power of two.
pub proof fn lemma_pow2_mask_id(x: u32, size: u32)
    requires
        is_pow2(size),
        x < size,
    ensures
        (x & ((size - 1) as u32)) == x,
{
    assert(((size & ((size - 1) as u32)) == 0 && x < size) ==> ((x & ((size - 1) as u32)) == x)) by (bit_vector);
}

/// The distance from `from` to `to` walking forward around a ring of
/// `size` entries.
pub open spec fn ring_distance(from: int, to: int, size: int) -> int {
    (to - from) % size
}

/// Advancing the slot `j` positions after `a` lands on the slot `j + 1`
/// positions after `a`.
pub proof fn lemma_wrap_next(a: int, j: int, n: int)
    requires
        n > 0,
        a >= 0,
        j >= 0,
    ensures
        wrap_spec((a + j) % n, n) == (a + j + 1) % n,
{
    let m = (a + j) % n;
    lemma_mod_bound(a + j, n);
    vstd::arithmetic::div_mod::lemma_add_mod_noop(a + j, 1, n);
    if n == 1 {
        lemma_small_mod(0nat, 1nat);
    } else {
        lemma_small_mod(1nat, n as nat);
        if m + 1 == n {
            lemma_mod_self_0(n);
            lemma_small_mod(0nat, n as nat);
        } else {
            lemma_small_mod((m + 1) as nat, n as nat);
        }
    }
}

/// A distance within the first turn of the ring is plain subtraction.
pub proof fn lemma_ring_distance_small(from: int, j: int, n: int)
    requires
        n > 0,
        from >= 0,
        0 <= j < n,
    ensures
        ring_distance(from, (from + j) % n, n) == j,
{
    lemma_mod_bound(from + j, n);
    vstd::arithmetic::div_mod::lemma_sub_mod_noop(from + j, from, n);
    lemma_small_mod(j as nat, n as nat);
    assert(((from + j) % n - from % n) % n == j % n);
    vstd::arithmetic::div_mod::lemma_sub_mod_noop((from + j) % n, from, n);
    assert(((from + j) % n % n - from % n) % n == ((from + j) % n - from) % n);
    vstd::arithmetic::div_mod::lemma_mod_twice(from + j, n);
}

/// Walking the distance from `from` to `p` forward from `from` reaches `p`.
pub proof fn lemma_slot_of_distance(from: int, p: int, n: int)
    requires
        n > 0,
        0 <= from < n,
        0 <= p < n,
    ensures
        (from + ring_distance(from, p, n)) % n == p,
{
    let d = ring_distance(from, p, n);
    vstd::arithmetic::div_mod::lemma_mod_twice(p - from, n);
    vstd::arithmetic::div_mod::lemma_add_mod_noop(from, p - from, n);
    lemma_small_mod(from as nat, n as nat);
    assert((from % n + (p - from) % n) % n == (p) % n);
    lemma_small_mod(p as nat, n as nat);
    vstd::arithmetic::div_mod::lemma_add_mod_noop(from, d, n);
    lemma_mod_bound(p - from, n);
    lemma_small_mod(d as nat, n as nat);
}

/// Walking `j` further slots adds `j` to the distance, modulo the ring.
pub proof fn lemma_ring_distance_add(from: int, a: int, j: int, n: int)
    requires
        n > 0,
        0 <= from < n,
        0 <= a < n,
        j >= 0,
    ensures
        ring_distance(from, (a + j) % n, n) == (ring_distance(from, a, n) + j) % n,
{
    vstd::arithmetic::div_mod::lemma_mod_twice(a + j, n);
    vstd::arithmetic::div_mod::lemma_sub_mod_noop((a + j) % n, from, n);
    vstd::arithmetic::div_mod::lemma_sub_mod_noop(a + j, from, n);
    vstd::arithmetic::div_mod::lemma_mod_twice(a - from, n);
    vstd::arithmetic::div_mod::lemma_add_mod_noop(a - from, j, n);
    assert((a + j - from) % n == ((a - from) % n + j % n) % n);
    vstd::arithmetic::div_mod::lemma_add_mod_noop((a - from) % n, j, n);
    vstd::arithmetic::div_mod::lemma_mod_twice((a - from) % n + j, n);
}

/// Moving the start of a walk `k` slots forward shortens the distance by
/// `k`, modulo the ring.
pub proof fn lemma_ring_distance_from_shift(from: int, k: int, to: int, n: int)
    requires
        n > 0,
        0 <= from < n,
        0 <= to < n,
        0 <= k < n,
    ensures
        ring_distance((from + k) % n, to, n) == (ring_distance(from, to, n) - k) % n,
{
    vstd::arithmetic::div_mod::lemma_mod_twice(from + k, n);
    vstd::arithmetic::div_mod::lemma_sub_mod_noop(to, (from + k) % n, n);
    vstd::arithmetic::div_mod::lemma_sub_mod_noop(to, from + k, n);
    vstd::arithmetic::div_mod::lemma_mod_twice(to - from, n);
    vstd::arithmetic::div_mod::lemma_sub_mod_noop(to - from, k, n);
    assert((to - from - k) % n == ((to - from) % n - k % n) % n);
    lemma_small_mod(k as nat, n as nat);
    vstd::arithmetic::div_mod::lemma_sub_mod_noop((to - from) % n, k, n);
    vstd::arithmetic::div_mod::lemma_mod_twice((to - from) % n - k, n);
    vstd::arithmetic::div_mod::lemma_sub_mod_noop((to - from) % n, k % n, n);
}

/// Only a slot itself is at distance zero from itself.
pub proof fn lemma_ring_distance_zero(from: int, to: int, n: int)
    requires
        n > 0,
        0 <= from < n,
        0 <= to < n,
    ensures
        (ring_distance(from, to, n) == 0) <==> (from == to),
{
    if from == to {
        lemma_mod_self_0(n);
        lemma_small_mod(0nat, n as nat);
    } else if ring_distance(from, to, n) == 0 {
        lemma_slot_of_distance(from, to, n);
        lemma_small_mod(from as nat, n as nat);
    }
}

/// The next slot after `index` in a ring of `ring_size` entries.
pub fn wrap_ring(index: u32, ring_size: u32) -> (r: u32)
    requires
        is_pow2(ring_size),
        index < ring_size,
    ensures
        r == wrap_spec(index as int, ring_size as int),
        r == (index + 1) as int % ring_size as int,
        r < ring_size,
{
    proof {
        lemma_wrap_is_mod(index as int, ring_size as int);
        if index + 1 == ring_size {
            assert(((ring_size & ((ring_size - 1) as u32)) == 0) ==> ((((ring_size - 1) as u32 + 1) as u32 & ((ring_size - 1) as u32)) == 0)) by (bit_vector);
        } else {
            lemma_pow2_mask_id((index + 1) as u32, ring_size);
        }
    }
    (index + 1) & (ring_size - 1)
}

} // verus!
