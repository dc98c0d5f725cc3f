//! Support library of a small bare-metal kernel: a page frame allocator,
//! a reader for flattened device trees, and register-level UART drivers.

pub mod drivers;
pub mod fdt;
pub mod io;
pub mod memory;
