//! Everything this library takes on trust from the crates it is built on.
//! Each item names the outside function or type that it stands for, and says
//! what is believed of it without proof.

pub mod iter;
pub mod mem;
pub mod sync;
pub mod tui;
