//! Guest memory as a collection of mapped regions, and the moving of bytes in
//! and out of it.

pub mod io;
pub mod mmap;
