//! Inline, mid-function and vtable hooks for 32-bit x86 processes on Windows.

pub mod kernel;
pub mod memory;
pub mod system;
pub mod word;
pub mod x86;
