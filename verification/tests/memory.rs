use cabin::compile_time::memory::{MemoryError, VirtualMemory as AddressedMemory};
use cabin::comptime::memory::{MemoryObject, VirtualMemory};
use cabin::parser::expressions::literals::group::{GroupIdCounter, GroupType};

fn object<T>(value: T) -> MemoryObject<T> {
    MemoryObject { object: value, address: None }
}

#[test]
fn stored_values_are_read_back() {
    let mut memory = VirtualMemory::empty();
    let first = memory.store(object("one".to_string()));
    let second = memory.store(object("two".to_string()));
    assert_ne!(first, second);
    assert_eq!(memory.get(&first).object, "one");
    assert_eq!(memory.get(&first).address, Some(first));
    assert_eq!(memory.get(&second).object, "two");
    assert_eq!(memory.get(&second).address, Some(second));
    assert_eq!(memory.next_unused_virtual_address(), 2);
}

#[test]
fn empty_memory_uses_address_zero() {
    let memory: VirtualMemory<u8> = VirtualMemory::empty();
    assert_eq!(memory.next_unused_virtual_address(), 0);
}

#[test]
fn moved_value_frees_its_address() {
    let mut memory = VirtualMemory::empty();
    let first = memory.store(object(10u32));
    let second = memory.store(object(20u32));
    memory.move_overwrite(first, second);
    assert_eq!(memory.get(&second).object, 10);
    assert_eq!(memory.get(&second).address, Some(second));
    assert_eq!(memory.next_unused_virtual_address(), 0);
    let third = memory.store(object(30u32));
    assert_eq!(third, first);
    assert_eq!(memory.get(&third).object, 30);
}

#[test]
fn insert_refuses_used_address() {
    let mut memory = AddressedMemory::new();
    assert_eq!(memory.insert(3, 'a'), Ok(()));
    assert_eq!(memory.insert(3, 'b'), Err(MemoryError::AddressInUse(3)));
    assert_eq!(memory.get(3), Some(&'a'));
    assert_eq!(memory.get(4), None);
}

#[test]
fn overwrite_needs_used_address() {
    let mut memory = AddressedMemory::new();
    assert_eq!(memory.overwrite(5, 1i64), Err(MemoryError::AddressUnused(5)));
    memory.insert(5, 1i64).unwrap();
    assert_eq!(memory.overwrite(5, 2i64), Ok(()));
    assert_eq!(memory.get(5), Some(&2));
}

#[test]
fn group_ids_count_up() {
    let mut counter = GroupIdCounter::new();
    assert_eq!(counter.next_unused_group_id(), 0);
    assert_eq!(counter.next_unused_group_id(), 1);
    assert_eq!(counter.next_unused_group_id(), 2);
    assert_ne!(GroupType::Group, GroupType::Either);
}
