//! The core of a safer `rm(1)`: classifying paths, running them through removal policies, walking
//! directory trees in post-order and reporting what became of each visited object.
//!
//! Everything that touches the file system or the terminal is left to the caller: the library
//! says what it needs to know next (the metadata of a path, whether a directory is empty, the
//! user's answer, a directory listing) and what should be done (remove, move to the trash,
//! report), and it is handed back what came of it.

pub mod cli;
pub mod fs;
pub mod walk;
pub mod lang;
pub mod rm;
pub mod run;
pub mod transform;
