//! Putting a hook into code while nothing else runs there.

use vstd::prelude::*;

use crate::system;
use crate::system::{Program, Reply, Request, World};
use crate::x86::code;
use crate::x86::details;
use crate::x86::details::{Hook, HookDetails, UnsafetyHookError};
use crate::x86::redirect;
use crate::x86::redirect::{Redirect, RedirectStage};

verus! {

/// How much memory is allocated for relocated code.
pub const BLOCK_LEN: usize = 1024;

/// What a patch puts at its target.
#[derive(Debug, Clone, Copy, PartialEq, Eq)]
pub enum PatchKind {
    /// A call to the detour in place of a call.
    Call,
    /// A jump to the detour.
    Jump,
    /// A jump to code that hands the registers to the detour.
    Mid,
}

/// How far a patch has come.
#[derive(Debug, Clone, Copy, PartialEq, Eq)]
pub enum PatchStage {
    /// Makes a call writable.
    CallUnprotect,
    /// Reads the call.
    CallRead { old: u32 },
    /// Writes the new call.
    CallWrite { old: u32, function: u32 },
    /// Makes the processor see it.
    CallFlush { old: u32, function: u32 },
    /// Gives the call its protection back.
    CallReprotect { old: u32, function: u32 },
    /// Reads the bytes that are to be replaced.
    Read,
    /// Allocates memory for the relocated code.
    Allocate,
    /// Writes the relocated code.
    Relocate { memory: u32 },
    /// Writes the jump.
    Redirect { memory: u32, redirect: Redirect },
    /// The patch was given up.
    Failed { error: UnsafetyHookError },
    /// The patch is in place; the original can be reached at `address`.
    Done { address: u32 },
}

/// Replaces the `len` bytes at `target` so that `detour` gets to run.
pub struct Patch {
    pub target: u32,
    pub detour: u32,
    pub len: usize,
    pub kind: PatchKind,
    /// The instructions that have to move.
    pub instructions: Vec<Vec<u8>>,
    /// The bytes that are replaced, once they have been read.
    pub original: Vec<u8>,
    pub stage: PatchStage,
}

/// A model of [`Patch`].
#[verifier::ext_equal]
pub struct PatchModel {
    pub target: u32,
    pub detour: u32,
    pub len: usize,
    pub kind: PatchKind,
    pub instructions: Seq<Seq<u8>>,
    pub original: Seq<u8>,
    pub stage: PatchStage,
}

impl View for Patch {
    type V = PatchModel;

    open spec fn view(&self) -> PatchModel {
        PatchModel {
            target: self.target,
            detour: self.detour,
            len: self.len,
            kind: self.kind,
            instructions: code::parts_of(self.instructions@),
            original: self.original@,
            stage: self.stage,
        }
    }
}

impl PatchModel {
    /// The same patch at another stage.
    pub open spec fn at(self, stage: PatchStage) -> PatchModel {
        PatchModel { stage, ..self }
    }

    /// Whether there is room for the branch, and what was read is what is replaced.
    pub open spec fn valid(self) -> bool {
        match self.stage {
            PatchStage::CallUnprotect | PatchStage::CallRead { .. } | PatchStage::CallWrite { .. }
            | PatchStage::CallFlush { .. } | PatchStage::CallReprotect { .. } => self.len
                == code::BRANCH_LEN,
            PatchStage::Read | PatchStage::Allocate | PatchStage::Relocate { .. } => self.len
                >= code::BRANCH_LEN,
            PatchStage::Redirect { redirect, .. } => redirect.valid() && redirect.pending() is Some,
            _ => true,
        }
    }

    /// The code that is put into the memory allocated at `memory`.
    pub open spec fn block(self, memory: u32) -> Seq<u8> {
        match self.kind {
            PatchKind::Mid => code::mid_code(
                self.instructions,
                self.target,
                self.detour,
                memory,
                self.len as nat,
            ),
            _ => code::trampoline(self.instructions, self.target, memory, self.len as nat),
        }
    }

    /// Where the target is made to continue.
    pub open spec fn destination(self, memory: u32) -> u32 {
        match self.kind {
            PatchKind::Mid => memory,
            _ => self.detour,
        }
    }

    /// The jump to the destination, about to be written.
    pub open spec fn redirection(self, memory: u32) -> Redirect {
        Redirect {
            target: self.target,
            to: self.destination(memory),
            len: self.len,
            stage: RedirectStage::Unprotect,
        }
    }

    /// The stage that follows from how far the jump has come.
    pub open spec fn redirecting(self, memory: u32, redirect: Redirect) -> PatchModel {
        match redirect.stage {
            RedirectStage::Failed { code } => self.at(
                PatchStage::Failed { error: UnsafetyHookError::VirtualProtectFailed(code) },
            ),
            RedirectStage::Done => self.at(PatchStage::Done { address: memory }),
            _ => self.at(PatchStage::Redirect { memory, redirect }),
        }
    }

    /// What came of the patch.
    pub open spec fn outcome(self) -> Option<Result<Hook, UnsafetyHookError>> {
        match self.stage {
            PatchStage::Done { address } => Some(
                Ok(
                    Hook {
                        target_addr: self.target,
                        alloc_addr: address,
                        orig_bytes: self.original,
                        is_jmp: self.kind != PatchKind::Call,
                    },
                ),
            ),
            PatchStage::Failed { error } => Some(Err(error)),
            _ => None,
        }
    }
}

/// The stage that follows a refused change of protection.
pub open spec fn refused(code: u32) -> PatchStage {
    PatchStage::Failed { error: UnsafetyHookError::VirtualProtectFailed(code) }
}

impl Program for PatchModel {
    open spec fn pending(self) -> Option<Request<Seq<u8>>> {
        match self.stage {
            PatchStage::CallUnprotect => Some(
                Request::Protect {
                    address: self.target,
                    len: code::BRANCH_LEN,
                    protection: system::PAGE_EXECUTE_READWRITE,
                },
            ),
            PatchStage::CallRead { .. } => Some(
                Request::Read { address: self.target, len: code::BRANCH_LEN },
            ),
            PatchStage::CallWrite { .. } => Some(
                Request::Write {
                    address: self.target,
                    data: code::branch(code::CALL, self.target, self.detour),
                },
            ),
            PatchStage::CallFlush { .. } => Some(
                Request::Flush { address: self.target, len: code::BRANCH_LEN },
            ),
            PatchStage::CallReprotect { old, .. } => Some(
                Request::Protect { address: self.target, len: code::BRANCH_LEN, protection: old },
            ),
            PatchStage::Read => Some(Request::Read { address: self.target, len: self.len }),
            PatchStage::Allocate => Some(
                Request::Allocate {
                    len: BLOCK_LEN,
                    kind: system::MEM_COMMIT | system::MEM_RESERVE,
                    protection: system::PAGE_EXECUTE_READWRITE,
                },
            ),
            PatchStage::Relocate { memory } => Some(
                Request::Write { address: memory, data: self.block(memory) },
            ),
            PatchStage::Redirect { redirect, .. } => redirect.pending(),
            _ => None,
        }
    }

    open spec fn resumed(self, reply: Reply<Seq<u8>>) -> PatchModel {
        match self.stage {
            PatchStage::CallUnprotect => match reply {
                Reply::Protection(Ok(old)) => self.at(PatchStage::CallRead { old }),
                Reply::Protection(Err(code)) => self.at(refused(code)),
                _ => self,
            },
            PatchStage::CallRead { old } => PatchModel {
                original: reply->Data_0,
                stage: PatchStage::CallWrite {
                    old,
                    function: code::branch_target(reply->Data_0, self.target),
                },
                ..self
            },
            PatchStage::CallWrite { old, function } => self.at(
                PatchStage::CallFlush { old, function },
            ),
            PatchStage::CallFlush { old, function } => match reply {
                Reply::Status(Ok(_)) => self.at(PatchStage::CallReprotect { old, function }),
                Reply::Status(Err(code)) => self.at(refused(code)),
                _ => self,
            },
            PatchStage::CallReprotect { function, .. } => match reply {
                Reply::Protection(Ok(_)) => self.at(PatchStage::Done { address: function }),
                Reply::Protection(Err(code)) => self.at(refused(code)),
                _ => self,
            },
            PatchStage::Read => PatchModel {
                original: reply->Data_0,
                stage: PatchStage::Allocate,
                ..self
            },
            PatchStage::Allocate => match reply {
                Reply::Address(Some(memory)) => self.at(PatchStage::Relocate { memory }),
                _ => self.at(
                    PatchStage::Failed { error: UnsafetyHookError::VirtualAllocFailed },
                ),
            },
            PatchStage::Relocate { memory } => self.redirecting(memory, self.redirection(memory)),
            PatchStage::Redirect { memory, redirect } => self.redirecting(
                memory,
                redirect.resumed(reply),
            ),
            _ => self,
        }
    }
}

impl Patch {
    /// The request that waits for a reply.
    pub fn request(&self) -> (request: Option<Request<Vec<u8>>>)
        requires
            self@.valid(),
        ensures
            request is Some == self@.pending() is Some,
            request is Some ==> request->0@ == self@.pending()->0,
    {
        match self.stage {
            PatchStage::CallUnprotect => Some(
                Request::Protect {
                    address: self.target,
                    len: code::BRANCH_LEN,
                    protection: system::PAGE_EXECUTE_READWRITE,
                },
            ),
            PatchStage::CallRead { .. } => Some(
                Request::Read { address: self.target, len: code::BRANCH_LEN },
            ),
            PatchStage::CallWrite { .. } => Some(
                Request::Write {
                    address: self.target,
                    data: code::make_branch(code::CALL, self.target, self.detour),
                },
            ),
            PatchStage::CallFlush { .. } => Some(
                Request::Flush { address: self.target, len: code::BRANCH_LEN },
            ),
            PatchStage::CallReprotect { old, .. } => Some(
                Request::Protect { address: self.target, len: code::BRANCH_LEN, protection: old },
            ),
            PatchStage::Read => Some(Request::Read { address: self.target, len: self.len }),
            PatchStage::Allocate => Some(
                Request::Allocate {
                    len: BLOCK_LEN,
                    kind: system::MEM_COMMIT | system::MEM_RESERVE,
                    protection: system::PAGE_EXECUTE_READWRITE,
                },
            ),
            PatchStage::Relocate { memory } => {
                let data: Vec<u8> = match self.kind {
                    PatchKind::Mid => code::make_mid_code(
                        &self.instructions,
                        self.target,
                        self.detour,
                        memory,
                        self.len,
                    ),
                    PatchKind::Call | PatchKind::Jump => code::make_trampoline(
                        &self.instructions,
                        self.target,
                        memory,
                        self.len,
                    ),
                };
                Some(Request::Write { address: memory, data })
            },
            PatchStage::Redirect { redirect, .. } => redirect.request(),
            PatchStage::Failed { .. } | PatchStage::Done { .. } => None,
        }
    }

    /// Goes on with the reply to the pending request.
    pub fn advance(&mut self, reply: Reply<Vec<u8>>)
        requires
            old(self)@.valid(),
            old(self)@.pending() matches Some(request) && system::answers(request, reply@),
        ensures
            final(self)@ == old(self)@.resumed(reply@),
            final(self)@.valid(),
    {
        match self.stage {
            PatchStage::CallUnprotect => {
                if let Reply::Protection(result) = reply {
                    self.stage = match result {
                        Ok(old) => PatchStage::CallRead { old },
                        Err(code) => refuse(code),
                    };
                }
            },
            PatchStage::CallRead { old } => {
                if let Reply::Data(data) = reply {
                    let function: u32 = code::follow_branch(&data, self.target);
                    self.original = data;
                    self.stage = PatchStage::CallWrite { old, function };
                }
            },
            PatchStage::CallWrite { old, function } => {
                self.stage = PatchStage::CallFlush { old, function };
            },
            PatchStage::CallFlush { old, function } => {
                if let Reply::Status(result) = reply {
                    self.stage = match result {
                        Ok(_) => PatchStage::CallReprotect { old, function },
                        Err(code) => refuse(code),
                    };
                }
            },
            PatchStage::CallReprotect { function, .. } => {
                if let Reply::Protection(result) = reply {
                    self.stage = match result {
                        Ok(_) => PatchStage::Done { address: function },
                        Err(code) => refuse(code),
                    };
                }
            },
            PatchStage::Read => {
                if let Reply::Data(data) = reply {
                    self.original = data;
                    self.stage = PatchStage::Allocate;
                }
            },
            PatchStage::Allocate => {
                if let Reply::Address(result) = reply {
                    self.stage = match result {
                        Some(memory) => PatchStage::Relocate { memory },
                        None => PatchStage::Failed { error: UnsafetyHookError::VirtualAllocFailed },
                    };
                }
            },
            PatchStage::Relocate { memory } => {
                let to: u32 = match self.kind {
                    PatchKind::Mid => memory,
                    PatchKind::Call | PatchKind::Jump => self.detour,
                };
                let redirect: Redirect = HookDetails::redirect_jmp(self.target, to, self.len);
                self.stage = PatchStage::Redirect { memory, redirect };
            },
            PatchStage::Redirect { memory, redirect } => {
                let mut redirect: Redirect = redirect;
                redirect.advance(&reply);
                self.stage = match redirect.stage {
                    RedirectStage::Failed { code } => refuse(code),
                    RedirectStage::Done => PatchStage::Done { address: memory },
                    _ => PatchStage::Redirect { memory, redirect },
                };
            },
            PatchStage::Failed { .. } | PatchStage::Done { .. } => {},
        }
    }
}

impl Patch {
    /// Whether the patch has ended.
    pub fn is_ended(&self) -> (ended: bool)
        ensures
            ended == self@.outcome() is Some,
    {
        match self.stage {
            PatchStage::Failed { .. } | PatchStage::Done { .. } => true,
            _ => false,
        }
    }

    /// What came of a patch that has ended.
    pub fn finish(self) -> (outcome: Result<HookDetails, UnsafetyHookError>)
        requires
            self@.outcome() is Some,
        ensures
            details::outcome_of(outcome) == self@.outcome()->0,
    {
        match self.stage {
            PatchStage::Done { address } => Ok(
                HookDetails {
                    target_addr: self.target,
                    alloc_addr: address,
                    orig_bytes: self.original,
                    is_jmp: match self.kind {
                        PatchKind::Call => false,
                        PatchKind::Jump | PatchKind::Mid => true,
                    },
                },
            ),
            PatchStage::Failed { error } => Err(error),
            _ => Err(UnsafetyHookError::InvalidInstructions),
        }
    }
}

/// The stage that follows a refused change of protection.
fn refuse(code: u32) -> (stage: PatchStage)
    ensures
        stage == refused(code),
{
    PatchStage::Failed { error: UnsafetyHookError::VirtualProtectFailed(code) }
}

impl HookDetails {
    /// Begins to make the call at `target` call `detour`.
    pub fn call(target: u32, detour: u32) -> (patch: Patch)
        ensures
            patch@ == (PatchModel {
                target,
                detour,
                len: code::BRANCH_LEN,
                kind: PatchKind::Call,
                instructions: Seq::empty(),
                original: Seq::empty(),
                stage: PatchStage::CallUnprotect,
            }),
            patch@.valid(),
    {
        let patch: Patch = Patch {
            target,
            detour,
            len: code::BRANCH_LEN,
            kind: PatchKind::Call,
            instructions: Vec::new(),
            original: Vec::new(),
            stage: PatchStage::CallUnprotect,
        };
        assert(code::parts_of(patch.instructions@) =~= Seq::empty());
        patch
    }

    /// Begins to move the `instructions`, which are the `len` bytes at `target`, and to
    /// put a jump in their place: to `detour`, or, with `mid`, to code that hands the
    /// registers to `detour` first.
    pub fn jmp(
        target: u32,
        detour: u32,
        len: usize,
        instructions: Vec<Vec<u8>>,
        mid: bool,
    ) -> (patch: Patch)
        requires
            len >= code::BRANCH_LEN,
        ensures
            patch@ == (PatchModel {
                target,
                detour,
                len,
                kind: if mid {
                    PatchKind::Mid
                } else {
                    PatchKind::Jump
                },
                instructions: code::parts_of(instructions@),
                original: Seq::empty(),
                stage: PatchStage::Read,
            }),
            patch@.valid(),
    {
        Patch {
            target,
            detour,
            len,
            kind: if mid {
                PatchKind::Mid
            } else {
                PatchKind::Jump
            },
            instructions,
            original: Vec::new(),
            stage: PatchStage::Read,
        }
    }
}

impl PatchModel {
    /// The bytes at the target, in the process as it was.
    pub open spec fn displaced(self, before: World) -> Seq<u8> {
        system::load(before.memory, self.target, self.len as nat)
    }

    /// The process with the new call in place of the old one.
    pub open spec fn called(self, before: World) -> World {
        World {
            memory: system::store(
                before.memory,
                self.target,
                code::branch(code::CALL, self.target, self.detour),
            ),
            ..before
        }
    }

    /// The process with the relocated code in memory allocated at `memory`.
    pub open spec fn relocated(self, before: World, memory: u32) -> World {
        let allocated = before.allocated(memory, BLOCK_LEN as nat);
        World { memory: system::store(before.memory, memory, self.block(memory)), ..allocated }
    }

    /// What the process is at this stage, where it was `before` the first.
    #[verifier::opaque]
    pub open spec fn holds(self, before: World, now: World) -> bool {
        let range = (self.target, self.len as nat);
        let old_protection = (before.protection)(range);
        let open = before.protected(range, system::PAGE_EXECUTE_READWRITE);
        let original = self.displaced(before);
        let function = code::branch_target(original, self.target);
        match self.stage {
            PatchStage::CallUnprotect => now == before,
            PatchStage::CallRead { old } => now == open && old == old_protection,
            PatchStage::CallWrite { old, function: found } => {
                &&& now == open
                &&& old == old_protection
                &&& self.original == original
                &&& found == function
            },
            PatchStage::CallFlush { old, function: found }
            | PatchStage::CallReprotect { old, function: found } => {
                &&& now == self.called(open)
                &&& old == old_protection
                &&& self.original == original
                &&& found == function
            },
            PatchStage::Read => now == before,
            PatchStage::Allocate => now == before && self.original == original,
            PatchStage::Relocate { memory } => {
                &&& now == before.allocated(memory, BLOCK_LEN as nat)
                &&& before.has_room_at(memory, BLOCK_LEN as nat)
                &&& self.original == original
            },
            PatchStage::Redirect { memory, redirect } => {
                &&& before.has_room_at(memory, BLOCK_LEN as nat)
                &&& self.original == original
                &&& redirect == self.redirection(memory).at(redirect.stage)
                &&& redirect.holds(self.relocated(before, memory), now)
            },
            PatchStage::Done { address } => {
                &&& self.original == original
                &&& if self.kind == PatchKind::Call {
                    address == function && now == self.called(before)
                } else {
                    &&& before.has_room_at(address, BLOCK_LEN as nat)
                    &&& self.redirection(address).at(RedirectStage::Done).holds(
                        self.relocated(before, address),
                        now,
                    )
                }
            },
            PatchStage::Failed { error } => if self.kind == PatchKind::Call {
                &&& error is VirtualProtectFailed
                &&& now == before.refused() || now == self.called(open).refused()
            } else if error == UnsafetyHookError::VirtualAllocFailed {
                now == before
            } else {
                &&& error is VirtualProtectFailed
                &&& exists|memory: u32| #[trigger]
                    before.has_room_at(memory, BLOCK_LEN as nat) && now == self.relocated(
                        before,
                        memory,
                    ).refused()
            },
        }
    }

    /// Whether the stage is one that a patch of this kind goes through.
    pub open spec fn consistent(self) -> bool {
        match self.stage {
            PatchStage::CallUnprotect | PatchStage::CallRead { .. } | PatchStage::CallWrite { .. }
            | PatchStage::CallFlush { .. } | PatchStage::CallReprotect { .. } => self.kind
                == PatchKind::Call,
            PatchStage::Read | PatchStage::Allocate | PatchStage::Relocate { .. }
            | PatchStage::Redirect { .. } => self.kind != PatchKind::Call,
            _ => true,
        }
    }
}

/// Whatever the system replies, a patch changes nothing but the target and memory that
/// was not in use; the stage says what is in them. In the end either the relocated code
/// and the jump to it are in place, or the new call is, and the bytes that they replaced
/// are known; or the patch has failed.
pub proof fn law_patch_changes_the_target_and_new_memory_alone(
    patch: PatchModel,
    before: World,
    now: World,
    reply: Reply<Seq<u8>>,
)
    requires
        patch.valid(),
        patch.consistent(),
        patch.holds(before, now),
        patch.pending() is Some,
        now.admits(patch.pending()->0, reply),
    ensures
        patch.resumed(reply).valid(),
        patch.resumed(reply).consistent(),
        patch.resumed(reply).holds(before, now.after(patch.pending()->0, reply)),
{
    reveal(PatchModel::holds);
    let next = now.after(patch.pending()->0, reply);
    match patch.stage {
        PatchStage::CallReprotect { .. } => {
            if reply->Protection_0 is Ok {
                assert(next.protection =~= before.protection);
            }
        },
        PatchStage::Redirect { memory, redirect } => {
            let base = patch.relocated(before, memory);
            redirect::law_redirection_changes_the_target_alone(redirect, base, now, reply);
            let redirected = redirect.resumed(reply);
            assert(redirected.holds(base, next));
            assert(redirected == patch.redirection(memory).at(redirected.stage));
        },
        _ => {},
    }
}

/// The relocated code fits into the memory that is allocated for it, where the
/// displaced instructions come from a window of code.
pub proof fn law_relocated_code_fits_its_block(patch: PatchModel, memory: u32)
    requires
        code::joined(patch.instructions).len() <= crate::x86::prologue::WINDOW_LEN,
    ensures
        patch.block(memory).len() <= BLOCK_LEN,
{
    code::law_trampoline_returns_after_the_patch(
        patch.instructions,
        patch.target,
        memory,
        patch.len as nat,
    );
    code::law_mid_code_holds_the_displaced_instructions(
        patch.instructions,
        patch.target,
        patch.detour,
        memory,
        patch.len as nat,
    );
}

} // verus!
