pub mod config_files;
pub mod context;
pub mod scope;
pub mod traits;
pub mod macros;
