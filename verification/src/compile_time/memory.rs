use std::collections::HashMap;

use vstd::prelude::*;

verus! {

broadcast use vstd::std_specs::hash::group_hash_axioms;

/// Why a value could not be written into virtual memory.
#[derive(Debug, Clone, Copy, PartialEq, Eq, Structural)]
pub enum MemoryError {
    /// `insert` was given an address that already holds a value.
    AddressInUse(usize),
    /// `overwrite` was given an address that holds no value.
    AddressUnused(usize),
}

/// The values known at compile time, each at the virtual address that it carries.
pub struct VirtualMemory<T> {
    /// The stored values by address.
    memory: HashMap<usize, T>,
}

impl<T> View for VirtualMemory<T> {
    type V = Map<usize, T>;

    closed spec fn view(&self) -> Map<usize, T> {
        self.memory@
    }
}

impl<T> VirtualMemory<T> {
    /// Creates an empty virtual memory.
    pub fn new() -> (res: Self)
        ensures
            res@ == Map::<usize, T>::empty(),
    {
        VirtualMemory { memory: HashMap::new() }
    }

    /// The value at an address, if one is stored there.
    pub fn get(&self, address: usize) -> (res: Option<&T>)
        ensures
            self@.contains_key(address) ==> res == Some(&self@[address]),
            !self@.contains_key(address) ==> res is None,
    {
        self.memory.get(&address)
    }

    /// Stores a value at a new address; an address that already holds a value is refused.
    pub fn insert(&mut self, address: usize, value: T) -> (res: Result<(), MemoryError>)
        ensures
            old(self)@.contains_key(address) ==> res == Err::<(), MemoryError>(MemoryError::AddressInUse(address))
                && final(self)@ == old(self)@,
            !old(self)@.contains_key(address) ==> res is Ok && final(self)@ == old(self)@.insert(address, value),
    {
        if self.get(address).is_some() {
            return Err(MemoryError::AddressInUse(address));
        }
        self.memory.insert(address, value);
        Ok(())
    }

    /// Replaces the value at an address that holds one; an address that holds no value is refused.
    pub fn overwrite(&mut self, address: usize, value: T) -> (res: Result<(), MemoryError>)
        ensures
            !old(self)@.contains_key(address) ==> res == Err::<(), MemoryError>(MemoryError::AddressUnused(address))
                && final(self)@ == old(self)@,
            old(self)@.contains_key(address) ==> res is Ok && final(self)@ == old(self)@.insert(address, value),
    {
        if self.get(address).is_none() {
            return Err(MemoryError::AddressUnused(address));
        }
        self.memory.insert(address, value);
        Ok(())
    }
}

} // verus!
