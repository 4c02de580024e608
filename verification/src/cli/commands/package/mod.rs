/// Publishing a new version of a project.
pub mod publish;
