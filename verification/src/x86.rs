//! Hooks on x86 code.

pub mod chain;
pub mod code;
pub mod context;
pub mod decoding;
pub mod details;
pub mod effect;
pub mod exchange;
pub mod install;
pub mod installed;
pub mod passage;
pub mod patch;
pub mod processor;
pub mod prologue;
pub mod redirect;
pub mod registry;
pub mod remove;
pub mod resume;
pub mod threads;
pub mod undo;
pub mod vtable;

pub use crate::x86::context::{EFlags, UnsafetyHookContext};
pub use crate::x86::details::{HookDetails, UnsafetyHookError};
pub use crate::x86::registry::{HookList, UnsafetyHook};
