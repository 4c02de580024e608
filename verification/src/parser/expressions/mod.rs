pub mod either;
pub mod function_call;
pub mod function_declaration;
pub mod group;
pub mod literal;
pub mod literals;
pub mod name;
pub mod object;
pub mod operators;
pub mod parameter;
pub mod util;
