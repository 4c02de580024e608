pub mod name;
