//! What is known of an installed hook, and what can keep one from being installed.

use vstd::prelude::*;

verus! {

/// Why a hook was not installed.
#[derive(Debug, Clone, Copy, PartialEq, Eq)]
pub enum UnsafetyHookError {
    /// The code at the target could not be decoded.
    InvalidInstructions,
    /// There was no memory for the relocated code.
    VirtualAllocFailed,
    /// The protection of the target could not be changed; holds the code of the error.
    VirtualProtectFailed(u32),
    /// Code could not be encoded.
    EncodingFailed,
    /// The other threads could not be suspended.
    SuspendFailed,
}

/// An installed hook: where it is, what it replaced, and where the code it
/// displaced can be reached.
pub struct HookDetails {
    /// Address of the bytes that were replaced.
    pub target_addr: u32,
    /// Address that still runs the original: memory allocated for relocated code,
    /// or the function that a call or a vtable entry pointed to.
    pub alloc_addr: u32,
    /// The bytes that were replaced; empty once the hook is removed.
    pub orig_bytes: Vec<u8>,
    /// Whether `alloc_addr` is memory that was allocated for the hook.
    pub is_jmp: bool,
}

/// A model of [`HookDetails`].
#[verifier::ext_equal]
pub struct Hook {
    pub target_addr: u32,
    pub alloc_addr: u32,
    pub orig_bytes: Seq<u8>,
    pub is_jmp: bool,
}

impl View for HookDetails {
    type V = Hook;

    open spec fn view(&self) -> Hook {
        Hook {
            target_addr: self.target_addr,
            alloc_addr: self.alloc_addr,
            orig_bytes: self.orig_bytes@,
            is_jmp: self.is_jmp,
        }
    }
}

impl HookDetails {
    /// Address that still runs the original.
    pub fn original_addr(&self) -> (address: u32)
        ensures
            address == self@.alloc_addr,
    {
        self.alloc_addr
    }
}

/// The model of what came of installing a hook.
pub open spec fn outcome_of(outcome: Result<HookDetails, UnsafetyHookError>) -> Result<
    Hook,
    UnsafetyHookError,
> {
    match outcome {
        Ok(hook) => Ok(hook@),
        Err(error) => Err(error),
    }
}

/// The model of a hook says of it what it says itself, and that of an outcome is the hook's or
/// the very error.
pub proof fn law_models_say_what_hooks_say(hook: HookDetails, error: UnsafetyHookError)
    ensures
        hook@.target_addr == hook.target_addr,
        hook@.alloc_addr == hook.alloc_addr,
        hook@.orig_bytes == hook.orig_bytes@,
        hook@.is_jmp == hook.is_jmp,
        outcome_of(Ok(hook)) == Ok::<Hook, UnsafetyHookError>(hook@),
        outcome_of(Err(error)) == Err::<Hook, UnsafetyHookError>(error),
{
}

} // verus!
