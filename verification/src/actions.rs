//! The actions of the command line, as far as they decide anything.

pub mod sync;
