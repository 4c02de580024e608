pub mod theme;
pub mod commands;
