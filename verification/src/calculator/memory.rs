//! The store of named memory slots.

use vstd::prelude::*;
use vstd::hash_map::StringHashMap;
use crate::calculator::number::{computes, total, BinOp, Bits, ZERO};

verus! {

/// The number in the slot `name` of the store `slots`: positive zero for a
/// slot that was never written.
pub open spec fn recall(slots: Map<Seq<char>, Bits>, name: Seq<char>) -> Bits {
    if slots.contains_key(name) {
        slots[name]
    } else {
        ZERO
    }
}

/// The number that the slot `name` holds after `delta` was accumulated into
/// it, when sums are formed by `g`. A slot that was never written takes
/// `delta` as it is.
pub open spec fn accumulated(
    slots: Map<Seq<char>, Bits>,
    name: Seq<char>,
    delta: Bits,
    g: spec_fn(BinOp, Bits, Bits) -> Bits,
) -> Bits {
    if slots.contains_key(name) {
        g(BinOp::Add, slots[name], delta)
    } else {
        delta
    }
}

/// The store after `delta` was accumulated into the slot `name`.
pub open spec fn accumulate(
    slots: Map<Seq<char>, Bits>,
    name: Seq<char>,
    delta: Bits,
    g: spec_fn(BinOp, Bits, Bits) -> Bits,
) -> Map<Seq<char>, Bits> {
    slots.insert(name, accumulated(slots, name, delta, g))
}

/// Named memory slots. Each name has at most one number; a name that was
/// never written stands for positive zero.
pub struct Memory {
    slots: StringHashMap<Bits>,
}

impl View for Memory {
    type V = Map<Seq<char>, Bits>;

    closed spec fn view(&self) -> Map<Seq<char>, Bits> {
        self.slots@
    }
}

impl Memory {
    /// A store in which no slot was written.
    pub fn new() -> (memory: Memory)
        ensures
            memory@ == Map::<Seq<char>, Bits>::empty(),
    {
        Memory { slots: StringHashMap::new() }
    }

    /// The number in the slot `slot_name`.
    pub fn get(&self, slot_name: &str) -> (value: Bits)
        ensures
            value == recall(self@, slot_name@),
    {
        match self.slots.get(slot_name) {
            Some(value) => *value,
            None => ZERO,
        }
    }

    /// Accumulates `delta` into the slot `slot_name` and returns what the
    /// slot then holds: the sum of its number and `delta`, or `delta` itself
    /// if the slot was never written. No other slot changes.
    pub fn add<F: Fn(BinOp, Bits, Bits) -> Bits>(
        &mut self,
        slot_name: &str,
        delta: Bits,
        arith: &F,
    ) -> (value: Bits)
        requires
            total(arith),
        ensures
            final(self)@ == old(self)@.insert(slot_name@, value),
            !old(self)@.contains_key(slot_name@) ==> value == delta,
            old(self)@.contains_key(slot_name@) ==> call_ensures(
                *arith,
                (BinOp::Add, old(self)@[slot_name@], delta),
                value,
            ),
            forall|g: spec_fn(BinOp, Bits, Bits) -> Bits| #[trigger]
                computes(arith, g) ==> value == accumulated(old(self)@, slot_name@, delta, g)
                    && final(self)@ == accumulate(old(self)@, slot_name@, delta, g),
    {
        let value = match self.slots.get(slot_name) {
            Some(stored) => arith(BinOp::Add, *stored, delta),
            None => delta,
        };
        self.slots.insert(slot_name.to_owned(), value);
        value
    }
}

/// A slot that was never written reads as positive zero.
pub proof fn lemma_unwritten_is_zero(slots: Map<Seq<char>, Bits>, name: Seq<char>)
    requires
        !slots.contains_key(name),
    ensures
        recall(slots, name) == ZERO,
        recall(Map::<Seq<char>, Bits>::empty(), name) == ZERO,
{
}

/// Accumulating `d1` and then `d2` into a slot that was never written leaves
/// the sum of `d1` and `d2` there, and that sum is what the second
/// accumulation returns.
pub proof fn lemma_accumulate_twice(
    slots: Map<Seq<char>, Bits>,
    name: Seq<char>,
    d1: Bits,
    d2: Bits,
    g: spec_fn(BinOp, Bits, Bits) -> Bits,
)
    requires
        !slots.contains_key(name),
    ensures
        accumulated(slots, name, d1, g) == d1,
        accumulated(accumulate(slots, name, d1, g), name, d2, g) == g(BinOp::Add, d1, d2),
        recall(accumulate(accumulate(slots, name, d1, g), name, d2, g), name) == g(
            BinOp::Add,
            d1,
            d2,
        ),
{
}

/// Accumulating into a slot adds to what it holds, and what it then holds is
/// what reading it gives; every other slot reads as before.
pub proof fn lemma_accumulate_then_recall(
    slots: Map<Seq<char>, Bits>,
    name: Seq<char>,
    other: Seq<char>,
    delta: Bits,
    g: spec_fn(BinOp, Bits, Bits) -> Bits,
)
    ensures
        recall(accumulate(slots, name, delta, g), name) == accumulated(slots, name, delta, g),
        slots.contains_key(name) ==> accumulated(slots, name, delta, g) == g(
            BinOp::Add,
            recall(slots, name),
            delta,
        ),
        other != name ==> recall(accumulate(slots, name, delta, g), other) == recall(slots, other),
{
}

/// The sum of `deltas` from left to right when sums are formed by `g`: the
/// first as it is, and each further one added to the sum of those before it.
/// Positive zero where there is none.
pub open spec fn sum_of(deltas: Seq<Bits>, g: spec_fn(BinOp, Bits, Bits) -> Bits) -> Bits
    decreases deltas.len(),
{
    if deltas.len() == 0 {
        ZERO
    } else if deltas.len() == 1 {
        deltas[0]
    } else {
        g(BinOp::Add, sum_of(deltas.drop_last(), g), deltas.last())
    }
}

/// The store after each of `deltas` was accumulated into the slot `name`,
/// one after the other.
pub open spec fn accumulate_all(
    slots: Map<Seq<char>, Bits>,
    name: Seq<char>,
    deltas: Seq<Bits>,
    g: spec_fn(BinOp, Bits, Bits) -> Bits,
) -> Map<Seq<char>, Bits>
    decreases deltas.len(),
{
    if deltas.len() == 0 {
        slots
    } else {
        accumulate(accumulate_all(slots, name, deltas.drop_last(), g), name, deltas.last(), g)
    }
}

/// Accumulating any number of deltas, one after the other, into a slot that
/// was never written: the last accumulation returns the sum of all of them
/// from left to right, and that sum is what the slot then holds. No other
/// slot changes.
pub proof fn lemma_accumulate_many(
    slots: Map<Seq<char>, Bits>,
    name: Seq<char>,
    other: Seq<char>,
    deltas: Seq<Bits>,
    g: spec_fn(BinOp, Bits, Bits) -> Bits,
)
    requires
        !slots.contains_key(name),
    ensures
        deltas.len() > 0 ==> accumulate_all(slots, name, deltas, g).contains_key(name),
        deltas.len() > 0 ==> accumulated(
            accumulate_all(slots, name, deltas.drop_last(), g),
            name,
            deltas.last(),
            g,
        ) == sum_of(deltas, g),
        recall(accumulate_all(slots, name, deltas, g), name) == sum_of(deltas, g),
        other != name ==> recall(accumulate_all(slots, name, deltas, g), other) == recall(
            slots,
            other,
        ),
    decreases deltas.len(),
{
    if deltas.len() > 0 {
        lemma_accumulate_many(slots, name, other, deltas.drop_last(), g);
        if deltas.len() == 1 {
            assert(deltas.drop_last().len() == 0);
        }
    }
}

} // verus!
