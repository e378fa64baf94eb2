//! The key slot through which the keyboard hands keys to a program waiting for input.

use vstd::prelude::*;

verus! {

/// The last key delivered and not yet taken.
pub struct KeySlot {
    pub key: Option<char>,
}

/// An empty key slot.
pub fn new_key_slot() -> (slot: KeySlot)
    ensures
        slot.key is None,
{
    KeySlot { key: None }
}

/// The slot after a key is delivered: it holds that key, whatever it held before.
pub open spec fn delivered(slot: KeySlot, key: char) -> KeySlot {
    KeySlot { key: Some(key) }
}

/// Taking from a slot: the key it held, if any, and the slot left empty.
pub open spec fn taken(slot: KeySlot) -> (KeySlot, Option<char>) {
    (KeySlot { key: None }, slot.key)
}

/// Delivers a key, replacing any key not yet taken.
pub fn set_key(slot: &mut KeySlot, key: char)
    ensures
        *final(slot) == delivered(*old(slot), key),
{
    slot.key = Some(key);
}

/// Takes the key delivered, if any, emptying the slot: one poll of `input`, which waits for
/// the next interrupt while this returns `None`.
pub fn take_key(slot: &mut KeySlot) -> (k: Option<char>)
    ensures
        (*final(slot), k) == taken(*old(slot)),
{
    let k = slot.key;
    slot.key = None;
    k
}

/// A key delivered is the key taken next, and only once: a second take finds nothing.
pub proof fn lemma_set_then_take(slot: KeySlot, key: char)
    ensures
        taken(delivered(slot, key)).1 == Some(key),
        taken(taken(delivered(slot, key)).0).1 is None,
{
}

} // verus!
