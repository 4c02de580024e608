/// Detection of circular dependencies between the variables of compile-time code.
pub mod type_tree;

/// Built-in functions of the language and the C code they become.
pub mod builtin;

/// The virtual memory that holds the values known at compile time.
pub mod memory;
