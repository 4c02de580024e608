pub mod variable_reference;
pub mod group;
