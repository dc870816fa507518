//! The commands of the program, as far as they decide anything.

pub mod dashboard;
