//! A virtual machine for programs of 32-bit instruction words: eight
//! registers, a store of memory segments, and fourteen operations.

pub mod bitshift;
pub mod io;
pub mod load;
pub mod machine;
pub mod memory;
pub mod operations;
