//! Finding and clearing the profiling artifacts that builds leave in a cargo
//! registry cache.
//!
//! The library decides and its caller acts. The caller lists directories and
//! deletes files, and hands what came of it to a [`cleaner::Cleaner`], which
//! says what to do next and what to tell the user.
//!
//! - [`names`]: the fixed names of the cache layout, and matching a file name
//!   against a prefix or a suffix.
//! - [`listing`]: directory listings as plain values, and what is picked
//!   from them: the mirror directory, its folders, the artifacts.
//! - [`stage`]: the cleaner as a state machine over plain values.
//! - [`cleaner`]: the executable cleaner, which follows that state machine.
//! - [`disk`]: a disk as the cleaner meets it, and a whole run against one.
//! - [`guarantees`]: what a whole run does, proved of every disk.

pub mod names;
pub mod listing;
pub mod stage;
pub mod cleaner;
pub mod disk;
pub mod guarantees;
