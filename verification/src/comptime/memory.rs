use std::collections::HashMap;

use vstd::prelude::*;

use crate::cli::commands::package::publish::decimal;
use crate::text::decimal_text;

verus! {

broadcast use vstd::std_specs::hash::group_hash_axioms;

/// A pointer to a value in `VirtualMemory`. Pointers are only handed out by
/// `VirtualMemory::store`, and the numeric address inside cannot be read by other code.
#[derive(Debug, Clone, Copy, PartialEq, Eq, Structural)]
pub struct VirtualPointer(usize);

impl VirtualPointer {
    /// The address this pointer points to.
    pub closed spec fn address(&self) -> usize {
        self.0
    }

    /// The address this pointer points to, written in decimal.
    pub fn to_text(&self) -> (res: String)
        ensures
            res@ == decimal(self.address() as nat),
    {
        decimal_text(self.0)
    }

}

/// Every address below `a` is used, so there are at least `a` addresses in use.
proof fn lemma_used_prefix(used: Set<usize>, a: nat)
    requires
        used.finite(),
        a <= usize::MAX + 1,
        forall|b: usize| b < a ==> used.contains(b),
    ensures
        a <= used.len(),
    decreases a,
{
    if a > 0 {
        let last = (a - 1) as usize;
        assert(used.contains(last));
        lemma_used_prefix(used.remove(last), (a - 1) as nat);
    }
}

/// An object in virtual memory: a value together with the address it is stored at, which is
/// `None` until it is stored.
pub struct MemoryObject<T> {
    pub object: T,
    pub address: Option<VirtualPointer>,
}

/// A virtual memory, which holds the values that are fully known at compile time. Values are
/// reached through the `VirtualPointer`s that `store` hands out, and each stored object records
/// its own address.
pub struct VirtualMemory<T> {
    /// The stored objects by address.
    memory: HashMap<usize, MemoryObject<T>>,
}

impl<T> View for VirtualMemory<T> {
    type V = Map<usize, MemoryObject<T>>;

    closed spec fn view(&self) -> Map<usize, MemoryObject<T>> {
        self.memory@
    }
}

impl<T> VirtualMemory<T> {
    /// Creates an empty virtual memory.
    pub fn empty() -> (res: Self)
        ensures
            res@ == Map::<usize, MemoryObject<T>>::empty(),
    {
        VirtualMemory { memory: HashMap::new() }
    }

    /// The first address in virtual memory that holds no value; it is where `store` puts the
    /// next value. Should values ever be removed, their addresses are used again.
    pub fn next_unused_virtual_address(&self) -> (res: usize)
        ensures
            !self@.contains_key(res),
            forall|a: usize| a < res ==> self@.contains_key(a),
    {
        proof {
            assert(vstd::std_specs::hash::spec_hash_map_len(&self.memory) == self@.len());
        }
        let mut next: usize = 0;
        while self.memory.contains_key(&next)
            invariant
                self@.dom().finite(),
                self@.len() <= usize::MAX,
                next <= self@.len(),
                forall|a: usize| a < next ==> self@.contains_key(a),
            decreases self@.len() - next,
        {
            proof {
                lemma_used_prefix(self@.dom(), next as nat + 1);
            }
            next = next + 1;
        }
        next
    }

    /// Stores an object in virtual memory at the first unused address, records that address in
    /// the object, and returns a pointer to it.
    pub fn store(&mut self, value: MemoryObject<T>) -> (res: VirtualPointer)
        ensures
            !old(self)@.contains_key(res.address()),
            forall|a: usize| a < res.address() ==> old(self)@.contains_key(a),
            final(self)@ == old(self)@.insert(
                res.address(),
                MemoryObject { object: value.object, address: Some(res) },
            ),
    {
        let address = self.next_unused_virtual_address();
        let mut value = value;
        value.address = Some(VirtualPointer(address));
        self.memory.insert(address, value);
        VirtualPointer(address)
    }

    /// The object that a pointer points to.
    pub fn get(&self, address: &VirtualPointer) -> (res: &MemoryObject<T>)
        requires
            self@.contains_key(address.address()),
        ensures
            *res == self@[address.address()],
    {
        self.memory.get(&address.0).unwrap()
    }

    /// Moves the object at the first location to the second, overwriting and deleting any object
    /// that was stored there, and records the new address in it; the first location is left empty.
    pub fn move_overwrite(
        &mut self,
        location_of_value_to_move: VirtualPointer,
        destination_to_overwrite: VirtualPointer,
    )
        requires
            old(self)@.contains_key(location_of_value_to_move.address()),
        ensures
            final(self)@ == old(self)@.remove(location_of_value_to_move.address()).insert(
                destination_to_overwrite.address(),
                MemoryObject {
                    object: old(self)@[location_of_value_to_move.address()].object,
                    address: Some(destination_to_overwrite),
                },
            ),
    {
        let mut value = self.memory.remove(&location_of_value_to_move.0).unwrap();
        value.address = Some(destination_to_overwrite);
        self.memory.insert(destination_to_overwrite.0, value);
    }
}

/// What is stored is read back: after `store` put an object at the address of `pointer`, `get`
/// on that pointer gives the object, which records that very pointer, and every other address
/// holds what it held before.
pub proof fn law_stored_value_is_read_back<T>(
    before: Map<usize, MemoryObject<T>>,
    after: Map<usize, MemoryObject<T>>,
    pointer: VirtualPointer,
    value: T,
    other: usize,
)
    requires
        after == before.insert(pointer.address(), MemoryObject { object: value, address: Some(pointer) }),
    ensures
        after.contains_key(pointer.address()),
        after[pointer.address()].object == value,
        after[pointer.address()].address == Some(pointer),
        other != pointer.address() ==> (after.contains_key(other) == before.contains_key(other)),
        other != pointer.address() && before.contains_key(other) ==> after[other] == before[other],
{
}

/// Storing never overwrites: the address a value is stored at held no value, so two stores into
/// the same memory hand out different pointers.
pub proof fn law_stores_hand_out_distinct_pointers<T>(
    before: Map<usize, MemoryObject<T>>,
    middle: Map<usize, MemoryObject<T>>,
    first: VirtualPointer,
    second: VirtualPointer,
    value: MemoryObject<T>,
)
    requires
        middle == before.insert(first.address(), value),
        !middle.contains_key(second.address()),
    ensures
        first != second,
{
}

} // verus!
