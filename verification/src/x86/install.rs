//! Installing a hook in code, from reading the code to what came of it.

use vstd::prelude::*;

use crate::system;
use crate::system::{Program, Reply, Request};
use crate::word;
use crate::x86::code;
use crate::x86::details;
use crate::x86::details::{Hook, HookDetails, UnsafetyHookError};
use crate::x86::patch::{Patch, PatchKind, PatchModel, PatchStage};
use crate::x86::prologue;
use crate::x86::threads::{SuspendThreads, ThreadStage, Threads};

verus! {

/// How long the other threads may run before they are looked at again.
pub const BACK_OFF_MILLIS: u64 = 1;

/// How far an installation has come.
#[derive(Debug, Clone, Copy, PartialEq, Eq)]
pub enum InstallStage {
    /// Reads the code at the target.
    Code,
    /// Suspends the other threads.
    Suspend,
    /// Asks whether one of them is where the hook goes.
    Check,
    /// Resumes them because one is.
    BackOff,
    /// Gives it time to leave.
    Sleep,
    /// Reads the opcode at the target.
    Opcode,
    /// Patches the target.
    Patch,
    /// Resumes the other threads.
    Release,
    /// The installation was given up before the target was touched.
    Failed { error: UnsafetyHookError },
    /// The patch has ended, and the other threads run.
    Done,
}

/// Installs a hook at `target`.
pub struct Install {
    pub target: u32,
    pub detour: u32,
    /// Whether the hook hands the registers to its detour.
    pub mid: bool,
    /// Total length of the instructions that have to move.
    pub len: usize,
    /// Those instructions, until the patch takes them over.
    pub instructions: Vec<Vec<u8>>,
    /// The other threads.
    pub threads: SuspendThreads,
    /// The patch, once it has begun.
    pub patch: Option<Patch>,
    pub stage: InstallStage,
}

/// A model of [`Install`].
#[verifier::ext_equal]
pub struct InstallModel {
    pub target: u32,
    pub detour: u32,
    pub mid: bool,
    pub len: usize,
    pub instructions: Seq<Seq<u8>>,
    pub threads: Threads,
    pub patch: Option<PatchModel>,
    pub stage: InstallStage,
}

impl View for Install {
    type V = InstallModel;

    open spec fn view(&self) -> InstallModel {
        InstallModel {
            target: self.target,
            detour: self.detour,
            mid: self.mid,
            len: self.len,
            instructions: code::parts_of(self.instructions@),
            threads: self.threads@,
            patch: match self.patch {
                Some(patch) => Some(patch@),
                None => None,
            },
            stage: self.stage,
        }
    }
}

impl InstallModel {
    /// The same installation at another stage.
    pub open spec fn at(self, stage: InstallStage) -> InstallModel {
        InstallModel { stage, ..self }
    }

    /// The start of installing a hook.
    pub open spec fn start(target: u32, detour: u32, mid: bool) -> InstallModel {
        InstallModel {
            target,
            detour,
            mid,
            len: 0,
            instructions: Seq::empty(),
            threads: Threads::start(),
            patch: None,
            stage: InstallStage::Code,
        }
    }

    /// The first address after the instructions that have to move.
    pub open spec fn end(self) -> u32 {
        word::wrap(self.target + self.len)
    }

    /// Begins the patch, which takes the instructions over.
    pub open spec fn patching(self, patch: PatchModel) -> InstallModel {
        InstallModel {
            instructions: Seq::empty(),
            patch: Some(patch),
            stage: InstallStage::Patch,
            ..self
        }
    }

    /// The patch that moves the instructions, about to begin.
    pub open spec fn jump(self) -> PatchModel {
        PatchModel {
            target: self.target,
            detour: self.detour,
            len: self.len,
            kind: if self.mid {
                PatchKind::Mid
            } else {
                PatchKind::Jump
            },
            instructions: self.instructions,
            original: Seq::empty(),
            stage: PatchStage::Read,
        }
    }

    /// The patch that replaces a call, about to begin.
    pub open spec fn call(self) -> PatchModel {
        PatchModel {
            target: self.target,
            detour: self.detour,
            len: code::BRANCH_LEN,
            kind: PatchKind::Call,
            instructions: Seq::empty(),
            original: Seq::empty(),
            stage: PatchStage::CallUnprotect,
        }
    }

    /// Suspends the other threads.
    pub open spec fn suspending(self) -> InstallModel {
        InstallModel { threads: Threads::start(), stage: InstallStage::Suspend, ..self }
    }

    /// Goes on from the code at the target: it must be decoded, and then the other threads
    /// are suspended.
    pub open spec fn with_code(self, window: Seq<u8>) -> InstallModel {
        match prologue::displaced(window, 0) {
            None => self.at(
                InstallStage::Failed { error: UnsafetyHookError::InvalidInstructions },
            ),
            Some(instructions) => InstallModel {
                len: code::joined(instructions).len() as usize,
                instructions,
                ..self
            }.suspending(),
        }
    }

    /// Goes on from how far suspending the threads has come.
    pub open spec fn with_threads(self, threads: Threads) -> InstallModel {
        match threads.stage {
            ThreadStage::Failed => InstallModel { threads, ..self }.at(
                InstallStage::Failed { error: UnsafetyHookError::SuspendFailed },
            ),
            ThreadStage::Held => self.with_check(threads.checking(self.target, self.end())),
            _ => InstallModel { threads, stage: InstallStage::Suspend, ..self },
        }
    }

    /// Goes on from how far the question where the threads are has come. A hook that hands
    /// over the registers moves the instructions whatever they are.
    pub open spec fn with_check(self, threads: Threads) -> InstallModel {
        match threads.stage {
            ThreadStage::Checked { hit } => if hit {
                self.with_back_off(threads.releasing())
            } else if self.mid {
                InstallModel { threads, ..self.patching(self.jump()) }
            } else {
                InstallModel { threads, stage: InstallStage::Opcode, ..self }
            },
            _ => InstallModel { threads, stage: InstallStage::Check, ..self },
        }
    }

    /// Goes on from how far resuming the threads for another attempt has come.
    pub open spec fn with_back_off(self, threads: Threads) -> InstallModel {
        InstallModel {
            threads,
            stage: if threads.stage == ThreadStage::Released {
                InstallStage::Sleep
            } else {
                InstallStage::BackOff
            },
            ..self
        }
    }

    /// Goes on from how far the patch has come.
    pub open spec fn with_patch(self, patch: PatchModel) -> InstallModel {
        let known = InstallModel { patch: Some(patch), ..self };
        if patch.outcome() is None {
            known
        } else {
            known.with_release(self.threads.releasing())
        }
    }

    /// Goes on from how far resuming the threads has come.
    pub open spec fn with_release(self, threads: Threads) -> InstallModel {
        InstallModel {
            threads,
            stage: if threads.stage == ThreadStage::Released {
                InstallStage::Done
            } else {
                InstallStage::Release
            },
            ..self
        }
    }

    /// What came of the installation.
    pub open spec fn outcome(self) -> Option<Result<Hook, UnsafetyHookError>> {
        match self.stage {
            InstallStage::Failed { error } => Some(Err(error)),
            InstallStage::Done => self.patch->0.outcome(),
            _ => None,
        }
    }

    /// What every stage keeps.
    pub open spec fn valid(self) -> bool {
        match self.stage {
            InstallStage::Suspend => {
                &&& self.len >= code::BRANCH_LEN
                &&& self.threads.valid()
                &&& self.threads.is_suspending()
            },
            InstallStage::Check => {
                &&& self.len >= code::BRANCH_LEN
                &&& self.threads.valid()
                &&& self.threads.stage is Check
            },
            InstallStage::BackOff => {
                &&& self.len >= code::BRANCH_LEN
                &&& self.threads.valid()
                &&& self.threads.is_releasing()
            },
            InstallStage::Sleep => self.len >= code::BRANCH_LEN,
            InstallStage::Opcode => self.len >= code::BRANCH_LEN,
            InstallStage::Patch => {
                &&& self.patch is Some
                &&& self.patch->0.valid()
                &&& self.patch->0.outcome() is None
            },
            InstallStage::Release => {
                &&& self.threads.valid()
                &&& self.threads.is_releasing()
                &&& self.patch is Some
                &&& self.patch->0.outcome() is Some
            },
            InstallStage::Done => self.patch is Some && self.patch->0.outcome() is Some,
            _ => true,
        }
    }
}

impl Program for InstallModel {
    open spec fn pending(self) -> Option<Request<Seq<u8>>> {
        match self.stage {
            InstallStage::Code => Some(
                Request::Read { address: self.target, len: prologue::WINDOW_LEN },
            ),
            InstallStage::Suspend | InstallStage::Check | InstallStage::BackOff
            | InstallStage::Release => self.threads.pending(),
            InstallStage::Sleep => Some(Request::Sleep { millis: BACK_OFF_MILLIS }),
            InstallStage::Opcode => Some(Request::Read { address: self.target, len: 1 }),
            InstallStage::Patch => self.patch->0.pending(),
            _ => None,
        }
    }

    open spec fn resumed(self, reply: Reply<Seq<u8>>) -> InstallModel {
        match self.stage {
            InstallStage::Code => self.with_code(reply->Data_0),
            InstallStage::Suspend => self.with_threads(self.threads.resumed(reply)),
            InstallStage::Check => self.with_check(self.threads.resumed(reply)),
            InstallStage::BackOff => self.with_back_off(self.threads.resumed(reply)),
            InstallStage::Sleep => self.suspending(),
            InstallStage::Opcode => if reply->Data_0[0] == code::CALL && self.len
                == code::BRANCH_LEN {
                self.patching(self.call())
            } else {
                self.patching(self.jump())
            },
            InstallStage::Patch => self.with_patch(self.patch->0.resumed(reply)),
            InstallStage::Release => self.with_release(self.threads.resumed(reply)),
            _ => self,
        }
    }
}

impl Install {
    fn start(target: u32, detour: u32, mid: bool) -> (install: Install)
        ensures
            install@ == InstallModel::start(target, detour, mid),
            install@.valid(),
    {
        let install: Install = Install {
            target,
            detour,
            mid,
            len: 0,
            instructions: Vec::new(),
            threads: SuspendThreads::suspend_all_threads(),
            patch: None,
            stage: InstallStage::Code,
        };
        assert(code::parts_of(install.instructions@) =~= Seq::empty());
        install
    }

    /// The request that waits for a reply.
    pub fn request(&self) -> (request: Option<Request<Vec<u8>>>)
        requires
            self@.valid(),
        ensures
            request is Some == self@.pending() is Some,
            request is Some ==> request->0@ == self@.pending()->0,
    {
        match self.stage {
            InstallStage::Code => Some(
                Request::Read { address: self.target, len: prologue::WINDOW_LEN },
            ),
            InstallStage::Suspend | InstallStage::Check | InstallStage::BackOff
            | InstallStage::Release => self.threads.request(),
            InstallStage::Sleep => Some(Request::Sleep { millis: BACK_OFF_MILLIS }),
            InstallStage::Opcode => Some(Request::Read { address: self.target, len: 1 }),
            InstallStage::Patch => match &self.patch {
                Some(patch) => patch.request(),
                None => None,
            },
            InstallStage::Failed { .. } | InstallStage::Done => None,
        }
    }

    /// Goes on with the reply to the pending request.
    pub fn advance(&mut self, reply: Reply<Vec<u8>>)
        requires
            old(self)@.valid(),
            old(self)@.pending() matches Some(request) && system::answers(request, reply@),
        ensures
            final(self)@ == old(self)@.resumed(reply@),
            final(self)@.valid(),
            old(self).stage is Code ==> {
                &&& final(self).stage is Failed == prologue::is_undecodable(reply@->Data_0, 0)
                &&& prologue::stands_alone(reply@->Data_0)
            },
    {
        match self.stage {
            InstallStage::Code => {
                if let Reply::Data(window) = reply {
                    self.take_code(&window);
                }
            },
            InstallStage::Suspend => {
                self.threads.advance(&reply);
                self.after_suspend();
            },
            InstallStage::Check => {
                self.threads.advance(&reply);
                self.after_check();
            },
            InstallStage::BackOff => {
                self.threads.advance(&reply);
                self.after_back_off();
            },
            InstallStage::Sleep => {
                self.threads = SuspendThreads::suspend_all_threads();
                self.stage = InstallStage::Suspend;
            },
            InstallStage::Opcode => {
                if let Reply::Data(opcode) = reply {
                    self.take_opcode(opcode[0]);
                }
            },
            InstallStage::Patch => {
                self.advance_patch(reply);
            },
            InstallStage::Release => {
                self.threads.advance(&reply);
                self.after_release();
            },
            InstallStage::Failed { .. } | InstallStage::Done => {},
        }
    }

    /// What came of an installation that has ended.
    pub fn finish(self) -> (outcome: Result<HookDetails, UnsafetyHookError>)
        requires
            self@.valid(),
            self@.outcome() is Some,
        ensures
            details::outcome_of(outcome) == self@.outcome()->0,
    {
        match self.stage {
            InstallStage::Failed { error } => Err(error),
            _ => match self.patch {
                Some(patch) => patch.finish(),
                None => Err(UnsafetyHookError::InvalidInstructions),
            },
        }
    }

    fn take_code(&mut self, window: &Vec<u8>)
        requires
            old(self).stage is Code,
        ensures
            final(self)@ == old(self)@.with_code(window@),
            final(self)@.valid(),
            final(self).stage is Failed == prologue::is_undecodable(window@, 0),
            prologue::stands_alone(window@),
    {
        match HookDetails::get_hook_len(window) {
            None => {
                self.stage = InstallStage::Failed { error: UnsafetyHookError::InvalidInstructions };
            },
            Some((len, instructions)) => {
                proof {
                    prologue::law_displaced_instructions_are_the_start_of_the_code(window@);
                }
                self.len = len;
                self.instructions = instructions;
                self.threads = SuspendThreads::suspend_all_threads();
                self.stage = InstallStage::Suspend;
            },
        }
    }

    fn begin_jump(&mut self)
        requires
            old(self).len >= code::BRANCH_LEN,
        ensures
            final(self)@ == old(self)@.patching(old(self)@.jump()),
            final(self)@.valid(),
    {
        let mut instructions: Vec<Vec<u8>> = Vec::new();
        std::mem::swap(&mut instructions, &mut self.instructions);
        self.patch = Some(
            HookDetails::jmp(self.target, self.detour, self.len, instructions, self.mid),
        );
        self.stage = InstallStage::Patch;
        assert(code::parts_of(self.instructions@) =~= Seq::empty());
    }

    fn take_opcode(&mut self, opcode: u8)
        requires
            old(self).len >= code::BRANCH_LEN,
        ensures
            final(self)@ == (if opcode == code::CALL && old(self).len == code::BRANCH_LEN {
                old(self)@.patching(old(self)@.call())
            } else {
                old(self)@.patching(old(self)@.jump())
            }),
            final(self)@.valid(),
    {
        if opcode == code::CALL && self.len == code::BRANCH_LEN {
            self.instructions = Vec::new();
            self.patch = Some(HookDetails::call(self.target, self.detour));
            self.stage = InstallStage::Patch;
            assert(code::parts_of(self.instructions@) =~= Seq::empty());
        } else {
            self.begin_jump();
        }
    }

    fn advance_patch(&mut self, reply: Reply<Vec<u8>>)
        requires
            old(self).stage is Patch,
            old(self)@.valid(),
            old(self)@.patch->0.pending() matches Some(request) && system::answers(
                request,
                reply@,
            ),
        ensures
            final(self)@ == old(self)@.with_patch(old(self)@.patch->0.resumed(reply@)),
            final(self)@.valid(),
    {
        if let Some(mut patch) = self.patch.take() {
            patch.advance(reply);
            let ended: bool = patch.is_ended();
            self.patch = Some(patch);
            if ended {
                self.threads.resume_all_threads();
                self.after_release();
            }
        }
    }

    fn after_suspend(&mut self)
        requires
            old(self).stage is Suspend,
            old(self).len >= code::BRANCH_LEN,
            old(self).threads@.valid(),
            old(self).threads@.is_suspending() || old(self).threads.stage is Held
                || old(self).threads.stage is Failed,
        ensures
            final(self)@ == old(self)@.with_threads(old(self).threads@),
            final(self)@.valid(),
    {
        match self.threads.stage {
            ThreadStage::Failed => {
                self.stage = InstallStage::Failed { error: UnsafetyHookError::SuspendFailed };
            },
            ThreadStage::Held => {
                let end: u32 = word::offset(self.target, self.len);
                self.threads.any_thread_in_range(self.target, end);
                self.after_check();
            },
            _ => {},
        }
    }

    fn after_check(&mut self)
        requires
            old(self).len >= code::BRANCH_LEN,
            old(self).threads@.valid(),
            old(self).threads.stage is Check || old(self).threads.stage is Checked,
        ensures
            final(self)@ == old(self)@.with_check(old(self).threads@),
            final(self)@.valid(),
    {
        match self.threads.stage {
            ThreadStage::Checked { hit } => {
                if hit {
                    self.threads.resume_all_threads();
                    self.after_back_off();
                } else if self.mid {
                    self.begin_jump();
                } else {
                    self.stage = InstallStage::Opcode;
                }
            },
            _ => {
                self.stage = InstallStage::Check;
            },
        }
    }

    fn after_back_off(&mut self)
        requires
            old(self).len >= code::BRANCH_LEN,
            old(self).threads@.valid(),
            old(self).threads@.is_releasing() || old(self).threads.stage is Released,
        ensures
            final(self)@ == old(self)@.with_back_off(old(self).threads@),
            final(self)@.valid(),
    {
        match self.threads.stage {
            ThreadStage::Released => {
                self.stage = InstallStage::Sleep;
            },
            _ => {
                self.stage = InstallStage::BackOff;
            },
        }
    }

    fn after_release(&mut self)
        requires
            old(self).threads@.valid(),
            old(self).threads@.is_releasing() || old(self).threads.stage is Released,
            old(self)@.patch is Some,
            old(self)@.patch->0.outcome() is Some,
        ensures
            final(self)@ == old(self)@.with_release(old(self).threads@),
            final(self)@.valid(),
    {
        match self.threads.stage {
            ThreadStage::Released => {
                self.stage = InstallStage::Done;
            },
            _ => {
                self.stage = InstallStage::Release;
            },
        }
    }
}

impl HookDetails {
    /// Begins to install an inline hook: a jump at `target` to `detour`, or, where
    /// `target` holds a call, a call of `detour`.
    pub fn create_hook(target: u32, detour: u32) -> (install: Install)
        ensures
            install@ == InstallModel::start(target, detour, false),
            install@.valid(),
    {
        Install::start(target, detour, false)
    }

    /// Begins to install a mid-function hook: `detour` gets the registers as they are at
    /// `target`, and may change them, the stack pointer and the instruction pointer too. The
    /// displaced instructions, whatever they are, run with what it left, and after them the
    /// thread goes on at the instruction pointer that it left.
    ///
    /// A changed instruction pointer is kept in the memory of the hook while the displaced
    /// instructions run, so no two passes for which it was changed to different addresses may
    /// overlap, in several threads or in one. Where it was left alone, passes may overlap.
    pub fn mid(target: u32, detour: u32) -> (install: Install)
        ensures
            install@ == InstallModel::start(target, detour, true),
            install@.valid(),
    {
        Install::start(target, detour, true)
    }
}

} // verus!
