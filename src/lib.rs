pub mod classify;
pub mod cli;
pub mod dbfile;
pub mod package;
pub mod repo;
pub mod retention;
pub mod version;
pub mod workflow;
