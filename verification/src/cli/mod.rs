//! The rules of the command line: what its arguments mean, what it refuses, and what it
//! shows.
pub mod args;
pub mod keys;
pub mod run;
pub mod show;
