/// Creating new projects.
pub mod new;

/// Package management: versions of projects.
pub mod package;
