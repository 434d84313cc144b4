//! Guest physical memory.

pub mod debugger;
pub mod layout;
pub mod memory;
pub mod object;
