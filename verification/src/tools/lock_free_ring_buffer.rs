//! Slot protocol of the lock-free ring buffer: the index arithmetic, and the
//! decision a producer or a consumer takes from the push or pop index and the
//! slot sequence number it read. The atomic loads, stores and
//! compare-and-swap retries that feed these decisions run outside the library.

use vstd::arithmetic::div_mod::{lemma_mod_add_multiples_vanish, lemma_mod_multiples_vanish};
use vstd::arithmetic::power2::{
    lemma_pow2_adds, lemma_pow2_strictly_increases, lemma_pow2_unfold, pow2,
};
use vstd::layout::unsigned_int_max_values;
use vstd::bits::{
    lemma_usize_low_bits_mask_is_mod, lemma_usize_pow2_no_overflow, lemma_usize_shl_is_mul,
    low_bits_mask,
};
use vstd::prelude::*;

verus! {

/// Number of slots of a ring of `2^pow2n` slots.
pub open spec fn ring_size(pow2n: nat) -> nat {
    pow2(pow2n)
}

/// `index + step`, wrapping around at the end of `usize`.
pub open spec fn wrapped_add(index: usize, step: usize) -> usize {
    if index + step > usize::MAX {
        (index + step - usize::MAX - 1) as usize
    } else {
        (index + step) as usize
    }
}

/// How far `to` is ahead of `from`, going forward on the wrapping index
/// circle of `usize`.
pub open spec fn forward_distance(to: usize, from: usize) -> nat {
    if to >= from {
        (to - from) as nat
    } else {
        (to - from + usize::MAX + 1) as nat
    }
}

/// `to` is behind `from`: reaching `to` going forward from `from` would take
/// more than half the index circle (the signed difference `to - from` is
/// negative).
pub open spec fn is_behind(to: usize, from: usize) -> bool {
    forward_distance(to, from) > usize::MAX / 2
}

/// What a producer does after reading the push index and the sequence number
/// of the slot it points to.
#[derive(PartialEq, Eq, Structural, Debug, Clone, Copy)]
pub enum EnqueueStep {
    /// The slot is free on this lap: move the push index from the position
    /// read to `next_index`; once that succeeds, write the item and publish
    /// `next_index` as the slot's sequence number.
    Claim { next_index: usize },
    /// The slot still holds the item of the previous lap: the buffer is full.
    Full,
    /// Another producer took the position: read the push index again.
    Retry,
}

/// What a consumer does after reading the pop index and the sequence number
/// of the slot it points to.
#[derive(PartialEq, Eq, Structural, Debug, Clone, Copy)]
pub enum DequeueStep {
    /// The slot holds the item of this lap: move the pop index from the
    /// position read to `next_index`; once that succeeds, read the item and
    /// publish `released` as the slot's sequence number, which frees the slot
    /// for the next lap.
    Claim { next_index: usize, released: usize },
    /// The slot has not been written on this lap: the buffer is empty.
    Empty,
    /// Another consumer took the position: read the pop index again.
    Retry,
}

/// The producer's decision for a slot of sequence number `sequence` read at
/// push position `write_index`.
pub open spec fn enqueue_decision(sequence: usize, write_index: usize) -> EnqueueStep {
    if sequence == write_index {
        EnqueueStep::Claim { next_index: wrapped_add(write_index, 1) }
    } else if is_behind(sequence, write_index) {
        EnqueueStep::Full
    } else {
        EnqueueStep::Retry
    }
}

/// The consumer's decision for a slot of sequence number `sequence` read at
/// pop position `read_index`, in a ring of `capacity` slots.
pub open spec fn dequeue_decision(sequence: usize, read_index: usize, capacity: usize) -> DequeueStep {
    let expected = wrapped_add(read_index, 1);
    if sequence == expected {
        DequeueStep::Claim { next_index: expected, released: wrapped_add(read_index, capacity) }
    } else if is_behind(sequence, expected) {
        DequeueStep::Empty
    } else {
        DequeueStep::Retry
    }
}

/// Number of slots of a ring of `2^pow2n` slots.
pub fn ring_capacity(pow2n: usize) -> (r: usize)
    requires
        pow2n < usize::BITS,
    ensures
        r == ring_size(pow2n as nat),
        r > 0,
{
    proof {
        lemma_usize_pow2_no_overflow(pow2n as nat);
        lemma_usize_shl_is_mul(1, pow2n);
    }
    1usize << pow2n
}

/// Index of the slot that position `position` falls on, in a ring of
/// `2^pow2n` slots.
pub fn slot_index(position: usize, pow2n: usize) -> (r: usize)
    requires
        pow2n < usize::BITS,
    ensures
        r == (position as nat) % ring_size(pow2n as nat),
        r < ring_size(pow2n as nat),
{
    let mask = ring_capacity(pow2n) - 1;
    proof {
        lemma_usize_low_bits_mask_is_mod(position, pow2n as nat);
        assert(mask == low_bits_mask(pow2n as nat) as usize);
    }
    position & mask
}

/// Decides what a producer does with the slot of sequence number `sequence`
/// that the push position `write_index` points to.
pub fn enqueue_step(sequence: usize, write_index: usize) -> (r: EnqueueStep)
    ensures
        r == enqueue_decision(sequence, write_index),
{
    let distance = sequence.wrapping_sub(write_index);
    if distance == 0 {
        EnqueueStep::Claim { next_index: write_index.wrapping_add(1) }
    } else if distance > usize::MAX / 2 {
        EnqueueStep::Full
    } else {
        EnqueueStep::Retry
    }
}

/// Decides what a consumer does with the slot of sequence number `sequence`
/// that the pop position `read_index` points to, in a ring of `capacity`
/// slots.
pub fn dequeue_step(sequence: usize, read_index: usize, capacity: usize) -> (r: DequeueStep)
    ensures
        r == dequeue_decision(sequence, read_index, capacity),
{
    let expected = read_index.wrapping_add(1);
    let distance = sequence.wrapping_sub(expected);
    if distance == 0 {
        DequeueStep::Claim { next_index: expected, released: read_index.wrapping_add(capacity) }
    } else if distance > usize::MAX / 2 {
        DequeueStep::Empty
    } else {
        DequeueStep::Retry
    }
}

/// A producer that claims position `p` publishes a sequence number with
/// which the consumer at position `p` claims the item: a written slot is
/// readable.
pub proof fn law_written_slot_is_readable(p: usize, capacity: usize)
    ensures
        enqueue_decision(p, p) == (EnqueueStep::Claim { next_index: wrapped_add(p, 1) }),
        dequeue_decision(wrapped_add(p, 1), p, capacity) == (DequeueStep::Claim {
            next_index: wrapped_add(p, 1),
            released: wrapped_add(p, capacity),
        }),
{
}

/// The sequence number a consumer at position `p` releases lets the producer
/// one lap ahead, at position `p + capacity`, claim the slot: a read slot is
/// writable on the next lap.
pub proof fn law_read_slot_is_writable_next_lap(p: usize, capacity: usize)
    ensures
        enqueue_decision(wrapped_add(p, capacity), wrapped_add(p, capacity)) == (EnqueueStep::Claim {
            next_index: wrapped_add(wrapped_add(p, capacity), 1),
        }),
{
}

/// A consumer at position `p` of a slot not yet written on this lap (its
/// sequence number is still `p`) finds the buffer empty.
pub proof fn law_unwritten_slot_reads_empty(p: usize, capacity: usize)
    ensures
        dequeue_decision(p, p, capacity) == DequeueStep::Empty,
{
}

/// A producer one lap ahead of a written slot that no consumer has read yet
/// (its sequence number is still `p + 1`) finds the buffer full, in a ring of
/// at least two slots.
pub proof fn law_unread_slot_reads_full(p: usize, capacity: usize)
    requires
        2 <= capacity <= usize::MAX / 2 + 1,
    ensures
        enqueue_decision(wrapped_add(p, 1), wrapped_add(p, capacity)) == EnqueueStep::Full,
{
}

/// A ring of `2^pow2n` slots, with `pow2n` below the bit width, has room for
/// the laws above: at most half the index circle plus one.
pub proof fn lemma_ring_size_bounded(pow2n: nat)
    requires
        pow2n < usize::BITS,
    ensures
        1 <= ring_size(pow2n) <= usize::MAX / 2 + 1,
{
    lemma_usize_pow2_no_overflow(pow2n);
    let top = (usize::BITS - 1) as nat;
    unsigned_int_max_values();
    lemma_pow2_unfold(usize::BITS as nat);
    if pow2n < top {
        lemma_pow2_strictly_increases(pow2n, top);
    }
}

/// Positions one lap apart fall on the same slot.
pub proof fn law_lap_shares_slot(p: usize, pow2n: nat)
    requires
        pow2n < usize::BITS,
    ensures
        (wrapped_add(p, ring_size(pow2n) as usize) as nat) % ring_size(pow2n) == (p as nat)
            % ring_size(pow2n),
{
    let c = ring_size(pow2n);
    lemma_ring_size_bounded(pow2n);
    if p + c > usize::MAX {
        let laps = pow2((usize::BITS - pow2n) as nat);
        unsigned_int_max_values();
        lemma_pow2_adds(pow2n, (usize::BITS - pow2n) as nat);
        assert(usize::MAX + 1 == c * laps);
        assert(wrapped_add(p, c as usize) == p + c - c * laps);
        lemma_mod_multiples_vanish(1 - laps, p as int, c as int);
        assert(c * (1 - laps) + p == p + c - c * laps) by (nonlinear_arith);
    } else {
        lemma_mod_add_multiples_vanish(p as int, c as int);
    }
}

} // verus!
