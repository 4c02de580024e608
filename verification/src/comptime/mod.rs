/// The virtual memory that holds the values known at compile time.
pub mod memory;
