//! What installing a hook does to a process.

use vstd::prelude::*;

use crate::system;
use crate::system::{Program, Reply, Request, World};
use crate::word;
use crate::x86::code;
use crate::x86::details::{Hook, UnsafetyHookError};
use crate::x86::install::{InstallModel, InstallStage};
use crate::x86::patch;
use crate::x86::patch::{PatchKind, PatchModel};
use crate::x86::prologue;
use crate::x86::threads;
use crate::x86::threads::{Search, ThreadStage, Threads};

verus! {

/// The process `now` with the threads and handles of the process `before`.
pub open spec fn aside_from_threads(before: World, now: World) -> World {
    World { suspended: before.suspended, open: before.open, ..now }
}

impl InstallModel {
    /// The code at the target before the installation.
    pub open spec fn window(self, before: World) -> Seq<u8> {
        system::load(before.memory, self.target, prologue::WINDOW_LEN as nat)
    }

    /// Whether what is known of the instructions at the target is so.
    pub open spec fn knows(self, before: World) -> bool {
        &&& prologue::displaced(self.window(before), 0) == Some(self.instructions)
        &&& self.len == code::joined(self.instructions).len()
    }

    /// Whether a patch is the one that belongs to this installation: a call is replaced
    /// where there is one, and otherwise the whole instructions that a jump displaces
    /// are moved.
    pub open spec fn owns(self, before: World, patch: PatchModel) -> bool {
        let found = prologue::displaced(self.window(before), 0);
        &&& patch.valid()
        &&& patch.consistent()
        &&& patch.target == self.target
        &&& patch.detour == self.detour
        &&& found is Some
        &&& patch.len == code::joined(found->0).len()
        &&& patch.len == self.len
        &&& patch.kind == PatchKind::Mid <==> self.mid
        &&& patch.kind == PatchKind::Call ==> patch.len == code::BRANCH_LEN
        &&& patch.kind == PatchKind::Call <==> !self.mid && (before.memory)(self.target)
            == code::CALL && patch.len == code::BRANCH_LEN
        &&& patch.kind != PatchKind::Call ==> patch.instructions == found->0
    }

    /// The stage of the threads that belongs to the stage of the installation.
    pub open spec fn has_threads_at(self) -> bool {
        match self.stage {
            InstallStage::Code => self.threads == Threads::start(),
            InstallStage::Sleep => self.threads.stage == ThreadStage::Released,
            InstallStage::Opcode => !self.mid && self.threads.stage == ThreadStage::Checked {
                hit: false,
            },
            InstallStage::Patch => self.threads.stage == ThreadStage::Checked { hit: false },
            InstallStage::Failed { error } => self.threads == Threads::start() || (
            self.threads.stage == ThreadStage::Failed && self.threads.handles.len() == 0),
            InstallStage::Done => self.threads.stage == ThreadStage::Released,
            _ => true,
        }
    }

    /// What the process is at this stage, where it was `before` the first.
    pub open spec fn holds(self, before: World, now: World) -> bool {
        let quiet = aside_from_threads(before, now);
        &&& self.valid()
        &&& self.threads.valid()
        &&& self.has_threads_at()
        &&& now == self.threads.world(quiet)
        &&& match self.stage {
            InstallStage::Code => quiet == before,
            InstallStage::Failed { error } => {
                let decoded = prologue::displaced(self.window(before), 0) is Some;
                &&& quiet == before
                &&& error == if decoded {
                    UnsafetyHookError::SuspendFailed
                } else {
                    UnsafetyHookError::InvalidInstructions
                }
            },
            InstallStage::Patch | InstallStage::Release | InstallStage::Done => {
                &&& self.owns(before, self.patch->0)
                &&& self.patch->0.holds(before, quiet)
            },
            _ => quiet == before && self.knows(before),
        }
    }
}

/// Requests that have nothing to do with threads are answered, and change the process,
/// the same way whatever threads are suspended and handles are open.
proof fn lemma_threads_do_not_matter(
    before: World,
    now: World,
    request: Request<Seq<u8>>,
    reply: Reply<Seq<u8>>,
)
    requires
        !(request is Snapshot || request is OpenThread || request is SuspendThread
            || request is ResumeThread || request is CloseHandle),
        now.admits(request, reply),
    ensures
        aside_from_threads(before, now).admits(request, reply),
        aside_from_threads(before, now).after(request, reply) == aside_from_threads(
            before,
            now.after(request, reply),
        ),
        now.after(request, reply).suspended == now.suspended,
        now.after(request, reply).open == now.open,
{
}

/// Nothing of a patch has to do with threads.
proof fn lemma_patch_leaves_threads_alone(patch: PatchModel)
    requires
        patch.pending() is Some,
    ensures
        ({
            let request = patch.pending()->0;
            !(request is Snapshot || request is OpenThread || request is SuspendThread
                || request is ResumeThread || request is CloseHandle || request is ThreadContext)
        }),
{
}

/// Held threads that are about to be asked where they are, or resumed, are still held.
proof fn lemma_held_threads(held: Threads, world: World, start: u32, end: u32)
    requires
        held.valid(),
        held.stage is Held || held.stage is Checked,
    ensures
        held.checking(start, end).valid(),
        held.checking(start, end).world(world) == held.world(world),
        held.releasing().valid(),
        held.releasing().world(world) == held.world(world),
{
    assert(held.handles.skip(0) =~= held.handles);
    if held.handles.len() == 0 {
        assert(held.handles =~= Seq::empty());
    }
}

proof fn lemma_threads_step(
    install: InstallModel,
    before: World,
    now: World,
    reply: Reply<Seq<u8>>,
)
    requires
        install.holds(before, now),
        install.pending() is Some,
        now.admits(install.pending()->0, reply),
        install.stage is Suspend || install.stage is Check || install.stage is BackOff
            || install.stage is Release,
    ensures
        ({
            let next = now.after(install.pending()->0, reply);
            let threads = install.threads.resumed(reply);
            &&& threads.valid()
            &&& aside_from_threads(before, next) == aside_from_threads(before, now)
            &&& next == threads.world(aside_from_threads(before, next))
        }),
{
    let quiet = aside_from_threads(before, now);
    let next = now.after(install.pending()->0, reply);
    threads::law_threads_are_accounted_for(install.threads, quiet, reply);
    assert(aside_from_threads(before, next) == quiet);
}

proof fn lemma_code(install: InstallModel, before: World, now: World, reply: Reply<Seq<u8>>)
    requires
        install.holds(before, now),
        install.stage is Code,
        install.pending() is Some,
        now.admits(install.pending()->0, reply),
    ensures
        install.resumed(reply).holds(before, now.after(install.pending()->0, reply)),
{
    let request = install.pending()->0;
    reveal(PatchModel::holds);
    lemma_threads_do_not_matter(before, now, request, reply);
    let window = install.window(before);
    assert(reply->Data_0 == window);
    if prologue::displaced(window, 0) is Some {
        prologue::law_displaced_instructions_are_the_start_of_the_code(window);
    }
}

proof fn lemma_suspend(install: InstallModel, before: World, now: World, reply: Reply<Seq<u8>>)
    requires
        install.holds(before, now),
        install.stage is Suspend,
        install.pending() is Some,
        now.admits(install.pending()->0, reply),
    ensures
        install.resumed(reply).holds(before, now.after(install.pending()->0, reply)),
{
    let quiet = aside_from_threads(before, now);
    let end = install.end();
    let threads = install.threads.resumed(reply);
    reveal(PatchModel::holds);
    lemma_threads_step(install, before, now, reply);
    if threads.stage is Held {
        lemma_held_threads(threads, quiet, install.target, end);
        let checking = threads.checking(install.target, end);
        if checking.stage is Checked {
            lemma_held_threads(checking, quiet, install.target, end);
        }
    }
}

proof fn lemma_check(install: InstallModel, before: World, now: World, reply: Reply<Seq<u8>>)
    requires
        install.holds(before, now),
        install.stage is Check,
        install.pending() is Some,
        now.admits(install.pending()->0, reply),
    ensures
        install.resumed(reply).holds(before, now.after(install.pending()->0, reply)),
{
    let quiet = aside_from_threads(before, now);
    let threads = install.threads.resumed(reply);
    reveal(PatchModel::holds);
    lemma_threads_step(install, before, now, reply);
    if threads.stage is Checked {
        lemma_held_threads(threads, quiet, install.target, install.end());
    }
}

proof fn lemma_back_off(install: InstallModel, before: World, now: World, reply: Reply<Seq<u8>>)
    requires
        install.holds(before, now),
        install.stage is BackOff,
        install.pending() is Some,
        now.admits(install.pending()->0, reply),
    ensures
        install.resumed(reply).holds(before, now.after(install.pending()->0, reply)),
{
    lemma_threads_step(install, before, now, reply);
}

proof fn lemma_sleep(install: InstallModel, before: World, now: World, reply: Reply<Seq<u8>>)
    requires
        install.holds(before, now),
        install.stage is Sleep,
        install.pending() is Some,
        now.admits(install.pending()->0, reply),
    ensures
        install.resumed(reply).holds(before, now.after(install.pending()->0, reply)),
{
    let request = install.pending()->0;
    lemma_threads_do_not_matter(before, now, request, reply);
}

proof fn lemma_opcode(install: InstallModel, before: World, now: World, reply: Reply<Seq<u8>>)
    requires
        install.holds(before, now),
        install.stage is Opcode,
        install.pending() is Some,
        now.admits(install.pending()->0, reply),
    ensures
        install.resumed(reply).holds(before, now.after(install.pending()->0, reply)),
{
    let request = install.pending()->0;
    reveal(PatchModel::holds);
    lemma_threads_do_not_matter(before, now, request, reply);
}

proof fn lemma_patch(install: InstallModel, before: World, now: World, reply: Reply<Seq<u8>>)
    requires
        install.holds(before, now),
        install.stage is Patch,
        install.pending() is Some,
        now.admits(install.pending()->0, reply),
    ensures
        install.resumed(reply).holds(before, now.after(install.pending()->0, reply)),
{
    let quiet = aside_from_threads(before, now);
    let request = install.pending()->0;
    let next = now.after(request, reply);
    let patch = install.patch->0;
    lemma_patch_leaves_threads_alone(patch);
    lemma_threads_do_not_matter(before, now, request, reply);
    patch::law_patch_changes_the_target_and_new_memory_alone(patch, before, quiet, reply);
    lemma_held_threads(install.threads, aside_from_threads(before, next), 0, 0);
}

proof fn lemma_release(install: InstallModel, before: World, now: World, reply: Reply<Seq<u8>>)
    requires
        install.holds(before, now),
        install.stage is Release,
        install.pending() is Some,
        now.admits(install.pending()->0, reply),
    ensures
        install.resumed(reply).holds(before, now.after(install.pending()->0, reply)),
{
    lemma_threads_step(install, before, now, reply);
}

/// Whatever the system replies, an installation goes from one stage to the next with the
/// process being what that stage says.
pub proof fn law_installation_is_accounted_for(
    install: InstallModel,
    before: World,
    now: World,
    reply: Reply<Seq<u8>>,
)
    requires
        install.holds(before, now),
        install.pending() is Some,
        now.admits(install.pending()->0, reply),
    ensures
        install.resumed(reply).holds(before, now.after(install.pending()->0, reply)),
{
    match install.stage {
        InstallStage::Code => lemma_code(install, before, now, reply),
        InstallStage::Suspend => lemma_suspend(install, before, now, reply),
        InstallStage::Check => lemma_check(install, before, now, reply),
        InstallStage::BackOff => lemma_back_off(install, before, now, reply),
        InstallStage::Sleep => lemma_sleep(install, before, now, reply),
        InstallStage::Opcode => lemma_opcode(install, before, now, reply),
        InstallStage::Patch => lemma_patch(install, before, now, reply),
        InstallStage::Release => lemma_release(install, before, now, reply),
        _ => {},
    }
}

proof fn lemma_installation_run(
    install: InstallModel,
    before: World,
    now: World,
    replies: Seq<Reply<Seq<u8>>>,
)
    requires
        install.holds(before, now),
        system::possible(install, now, replies),
    ensures
        system::run(install, now, replies).0.holds(
            before,
            system::run(install, now, replies).1,
        ),
    decreases replies.len(),
{
    if replies.len() > 0 {
        let reply = replies.first();
        law_installation_is_accounted_for(install, before, now, reply);
        lemma_installation_run(
            install.resumed(reply),
            before,
            now.after(install.pending()->0, reply),
            replies.drop_first(),
        );
    }
}

pub(crate) proof fn lemma_no_handles(world: World)
    ensures
        threads::with_handles(world, Seq::empty(), Seq::empty()) == world,
{
    broadcast use vstd::seq_lib::group_to_multiset_ensures;
    broadcast use vstd::multiset::group_multiset_axioms;

    let same = threads::with_handles(world, Seq::empty(), Seq::empty());
    assert(same.suspended =~= world.suspended);
    assert(same.open =~= world.open);
}

pub(crate) proof fn lemma_installation_from_the_start(
    target: u32,
    detour: u32,
    mid: bool,
    before: World,
    replies: Seq<Reply<Seq<u8>>>,
)
    requires
        system::possible(InstallModel::start(target, detour, mid), before, replies),
    ensures
        ({
            let (install, now) = system::run(
                InstallModel::start(target, detour, mid),
                before,
                replies,
            );
            &&& install.holds(before, now)
            &&& install.target == target
            &&& install.detour == detour
            &&& install.mid == mid
        }),
{
    let start = InstallModel::start(target, detour, mid);
    lemma_no_handles(before);
    assert(start.holds(before, before));
    lemma_installation_run(start, before, before, replies);
    lemma_installation_keeps_its_target(start, before, replies);
}

/// Once an installation has ended, no thread is suspended and no handle open on its
/// account.
proof fn lemma_ended_installation_holds_no_thread(
    install: InstallModel,
    before: World,
    now: World,
)
    requires
        install.holds(before, now),
        install.outcome() is Some,
    ensures
        now == aside_from_threads(before, now),
{
    assert(install.threads.suspended() =~= Seq::empty());
    assert(install.threads.open() =~= Seq::empty());
    lemma_no_handles(aside_from_threads(before, now));
}

/// The whole instructions at `target` that a jump there displaces.
pub open spec fn displaced_at(world: World, target: u32) -> Option<Seq<Seq<u8>>> {
    prologue::displaced(system::load(world.memory, target, prologue::WINDOW_LEN as nat), 0)
}

/// Whether an inline hook at `target` replaces a call.
pub open spec fn replaces_call(world: World, target: u32) -> bool {
    &&& (world.memory)(target) == code::CALL
    &&& code::joined(displaced_at(world, target)->0).len() == code::BRANCH_LEN
}

/// The code that a hook on the instructions `parts` at `target` keeps at `address`.
pub open spec fn block(
    parts: Seq<Seq<u8>>,
    target: u32,
    detour: u32,
    mid: bool,
    address: u32,
) -> Seq<u8> {
    let len = code::joined(parts).len();
    if mid {
        code::mid_code(parts, target, detour, address, len)
    } else {
        code::trampoline(parts, target, address, len)
    }
}

/// Whether a hook is in place in the process `now`, where it was not in the process
/// `before`: the bytes it replaced are known, every other thread runs again, and nothing
/// else has changed. A hook that replaces a call calls the detour instead, and gives the
/// function that was called; any other has a jump over whole instructions, and keeps them,
/// relocated, in memory that was not in use.
pub open spec fn in_place(
    target: u32,
    detour: u32,
    mid: bool,
    hook: Hook,
    before: World,
    now: World,
) -> bool {
    let parts = displaced_at(before, target)->0;
    let len = code::joined(parts).len();
    &&& displaced_at(before, target) is Some
    &&& hook.target_addr == target
    &&& hook.orig_bytes == system::load(before.memory, target, len)
    &&& hook.is_jmp == (mid || !replaces_call(before, target))
    &&& now.suspended == before.suspended
    &&& now.open == before.open
    &&& now.refusals >= before.refusals
    &&& now.refusals == before.refusals ==> now.protection == before.protection
    &&& if hook.is_jmp {
        let to = if mid {
            hook.alloc_addr
        } else {
            detour
        };
        let code = block(parts, target, detour, mid, hook.alloc_addr);
        let allocated = before.allocated(hook.alloc_addr, patch::BLOCK_LEN as nat);
        &&& before.has_room_at(hook.alloc_addr, patch::BLOCK_LEN as nat)
        &&& now.memory == system::store(
            system::store(before.memory, hook.alloc_addr, code),
            target,
            code::jump_patch(target, to, len),
        )
        &&& now.mapped == allocated.mapped
        &&& now.allocations == allocated.allocations
    } else {
        &&& hook.alloc_addr == code::branch_target(hook.orig_bytes, target)
        &&& now.memory == system::store(
            before.memory,
            target,
            code::branch(code::CALL, target, detour),
        )
        &&& now.mapped == before.mapped
        &&& now.allocations == before.allocations
    }
}

/// An installation that succeeds, after whatever replies, leaves its hook in place and
/// nothing else changed.
pub proof fn law_successful_installation_is_in_place(
    target: u32,
    detour: u32,
    mid: bool,
    before: World,
    replies: Seq<Reply<Seq<u8>>>,
)
    requires
        system::possible(InstallModel::start(target, detour, mid), before, replies),
    ensures
        ({
            let (install, now) = system::run(
                InstallModel::start(target, detour, mid),
                before,
                replies,
            );
            install.outcome() matches Some(Ok(hook)) ==> in_place(
                target,
                detour,
                mid,
                hook,
                before,
                now,
            )
        }),
{
    lemma_installation_from_the_start(target, detour, mid, before, replies);
    let (install, now) = system::run(InstallModel::start(target, detour, mid), before, replies);
    if let Some(Ok(hook)) = install.outcome() {
        reveal(PatchModel::holds);
        lemma_ended_installation_holds_no_thread(install, before, now);
    }
}

proof fn lemma_installation_keeps_its_target(
    install: InstallModel,
    world: World,
    replies: Seq<Reply<Seq<u8>>>,
)
    ensures
        ({
            let later = system::run(install, world, replies).0;
            &&& later.target == install.target
            &&& later.detour == install.detour
            &&& later.mid == install.mid
        }),
    decreases replies.len(),
{
    if replies.len() > 0 && install.pending() is Some {
        let reply = replies.first();
        lemma_installation_keeps_its_target(
            install.resumed(reply),
            world.after(install.pending()->0, reply),
            replies.drop_first(),
        );
    }
}

/// A patch that failed to move instructions changed no memory that was in use.
proof fn lemma_failed_jump(patch: PatchModel, before: World, now: World)
    requires
        patch.holds(before, now),
        patch.stage is Failed,
        patch.kind != PatchKind::Call,
        code::joined(patch.instructions).len() <= prologue::WINDOW_LEN,
    ensures
        forall|at: u32| (before.mapped)(at) ==> #[trigger] (now.memory)(at) == (before.memory)(at),
{
    reveal(PatchModel::holds);
    if now != before {
        let memory = choose|memory: u32| #[trigger]
            before.has_room_at(memory, patch::BLOCK_LEN as nat) && now == patch.relocated(
                before,
                memory,
            ).refused();
        patch::law_relocated_code_fits_its_block(patch, memory);
        assert forall|at: u32| (before.mapped)(at) implies #[trigger] (now.memory)(at) == (
        before.memory)(at) by {
            assert(!system::within(at, memory, patch::BLOCK_LEN as nat));
        }
    }
}

/// What can come of a patch that failed.
proof fn lemma_failed_patch(install: InstallModel, before: World, now: World)
    requires
        install.holds(before, now),
        install.stage is Done,
        install.patch->0.stage is Failed,
        now == aside_from_threads(before, now),
    ensures
        ({
            let error = install.patch->0.stage->error;
            ||| error == UnsafetyHookError::VirtualAllocFailed && now == before && (install.mid
                || !replaces_call(before, install.target))
            ||| error is VirtualProtectFailed && now.refusals == before.refusals + 1
        }),
        displaced_at(before, install.target) is Some,
        install.mid || !replaces_call(before, install.target) ==> forall|at: u32|
            (before.mapped)(at) ==> #[trigger] (now.memory)(at) == (before.memory)(at),
{
    let patch = install.patch->0;
    prologue::law_displaced_instructions_are_the_start_of_the_code(install.window(before));
    if patch.kind != PatchKind::Call {
        lemma_failed_jump(patch, before, now);
    }
    reveal(PatchModel::holds);
}

/// An installation that fails, after whatever replies, leaves every other thread running
/// and no handle open. It fails with `InvalidInstructions` exactly where the code at the
/// target cannot be decoded, and with `VirtualProtectFailed` exactly where something was
/// refused. Otherwise the threads could not be suspended, or there was no memory, which no
/// call that is replaced asks for. But for a refusal, the process is unchanged; and where
/// no call was to be replaced, what memory held at addresses in use is unchanged in any
/// case.
pub proof fn law_failed_installation_leaves_the_target(
    target: u32,
    detour: u32,
    mid: bool,
    before: World,
    replies: Seq<Reply<Seq<u8>>>,
)
    requires
        system::possible(InstallModel::start(target, detour, mid), before, replies),
    ensures
        ({
            let (install, now) = system::run(
                InstallModel::start(target, detour, mid),
                before,
                replies,
            );
            let decoded = displaced_at(before, target) is Some;
            install.outcome() matches Some(Err(error)) ==> {
                &&& now.suspended == before.suspended
                &&& now.open == before.open
                &&& error == UnsafetyHookError::InvalidInstructions <==> !decoded
                &&& error is VirtualProtectFailed <==> now.refusals > before.refusals
                &&& error is VirtualProtectFailed || now == before
                &&& error == UnsafetyHookError::VirtualAllocFailed ==> mid || !replaces_call(
                    before,
                    target,
                )
                &&& error != UnsafetyHookError::EncodingFailed
                &&& mid || !replaces_call(before, target) ==> forall|at: u32| (before.mapped)(at)
                    ==> #[trigger] (now.memory)(at) == (before.memory)(at)
            }
        }),
{
    lemma_installation_from_the_start(target, detour, mid, before, replies);
    let (install, now) = system::run(InstallModel::start(target, detour, mid), before, replies);
    if let Some(Err(error)) = install.outcome() {
        lemma_ended_installation_holds_no_thread(install, before, now);
        if install.stage is Done {
            lemma_failed_patch(install, before, now);
        }
    }
}

/// The code that a hook keeps fits into the memory that is allocated for it, with room for
/// a word behind it.
pub(crate) proof fn lemma_block_fits(
    before: World,
    target: u32,
    detour: u32,
    mid: bool,
    address: u32,
)
    requires
        displaced_at(before, target) is Some,
    ensures
        block(displaced_at(before, target)->0, target, detour, mid, address).len()
            <= code::SLOT_OFFSET,
{
    let parts = displaced_at(before, target)->0;
    let len = code::joined(parts).len();
    let window = system::load(before.memory, target, prologue::WINDOW_LEN as nat);
    prologue::law_displaced_instructions_are_the_start_of_the_code(window);
    code::law_trampoline_returns_after_the_patch(parts, target, address, len);
    code::law_mid_code_holds_the_displaced_instructions(parts, target, detour, address, len);
}

/// A hook that is in place takes effect, where the target was in use: the target holds
/// the jump or the call, which leads where it should, and the relocated instructions are
/// in the memory of the hook, with room behind them.
pub proof fn law_installed_hook_takes_effect(
    target: u32,
    detour: u32,
    mid: bool,
    hook: Hook,
    before: World,
    now: World,
)
    requires
        in_place(target, detour, mid, hook, before, now),
        forall|at: u32| #[trigger]
            system::within(at, target, hook.orig_bytes.len()) ==> (before.mapped)(at),
    ensures
        ({
            let parts = displaced_at(before, target)->0;
            let code = block(parts, target, detour, mid, hook.alloc_addr);
            let patched = system::load(now.memory, target, hook.orig_bytes.len());
            &&& code::is_near_branch(patched)
            &&& code::branch_target(patched, target) == if mid {
                hook.alloc_addr
            } else {
                detour
            }
            &&& hook.is_jmp ==> system::load(now.memory, hook.alloc_addr, code.len()) == code
            &&& hook.is_jmp ==> code.len() <= code::SLOT_OFFSET < patch::BLOCK_LEN
            &&& code::joined(parts) == hook.orig_bytes
        }),
{
    let parts = displaced_at(before, target)->0;
    let len = code::joined(parts).len();
    let window = system::load(before.memory, target, prologue::WINDOW_LEN as nat);
    prologue::law_displaced_instructions_are_the_start_of_the_code(window);
    assert(window.take(len as int) =~= hook.orig_bytes);
    if hook.is_jmp {
        let to = if mid {
            hook.alloc_addr
        } else {
            detour
        };
        let code = block(parts, target, detour, mid, hook.alloc_addr);
        let jump = code::jump_patch(target, to, len);
        let moved = system::store(before.memory, hook.alloc_addr, code);
        code::law_patched_target_continues_at_the_detour(target, to, len);
        lemma_block_fits(before, target, detour, mid, hook.alloc_addr);
        system::law_written_data_reads_back(moved, target, jump);
        system::law_written_data_reads_back(before.memory, hook.alloc_addr, code);
        assert(system::apart(target, jump.len(), hook.alloc_addr, code.len())) by {
            assert forall|at: u32| #[trigger] system::within(at, target, jump.len()) implies !(
            system::within(at, hook.alloc_addr, code.len())) by {
                assert((before.mapped)(at));
                assert(!system::within(at, hook.alloc_addr, patch::BLOCK_LEN as nat));
            }
        }
        system::law_writing_leaves_other_ranges_alone(
            moved,
            target,
            jump,
            hook.alloc_addr,
            code.len(),
        );
    } else {
        let call = code::branch(code::CALL, target, detour);
        code::law_branch_leads_to_its_target(code::CALL, target, detour);
        system::law_written_data_reads_back(before.memory, target, call);
    }
}

impl InstallModel {
    /// Whether the threads said what they must have said for the installation to be at
    /// this stage.
    pub open spec fn heard(self, said: Seq<(usize, Reply<Seq<u8>>)>) -> bool {
        match self.stage {
            InstallStage::Suspend => self.threads.stage is Ids || self.threads.stage is Snapshot
                || said.len() == 0,
            InstallStage::Check => {
                &&& self.threads.stage matches ThreadStage::Check { start, end, index }
                &&& start == self.target
                &&& end == self.end()
                &&& threads::are_elsewhere(said, self.threads.handles, index as int, start, end)
            },
            InstallStage::Opcode | InstallStage::Patch => threads::are_elsewhere(
                said,
                self.threads.handles,
                self.threads.handles.len() as int,
                self.target,
                self.end(),
            ),
            InstallStage::BackOff | InstallStage::Sleep => threads::one_is_there(
                said,
                self.target,
                self.end(),
            ),
            _ => true,
        }
    }
}

impl InstallModel {
    /// Whether the threads were searched for as they must have been for the installation to
    /// be at this stage.
    pub open spec fn has_searched(self, search: Search) -> bool {
        match self.stage {
            InstallStage::Suspend | InstallStage::Check | InstallStage::Opcode
            | InstallStage::Patch => self.threads.has_searched(search),
            _ => true,
        }
    }
}

proof fn lemma_search_step(install: InstallModel, search: Search, reply: Reply<Seq<u8>>)
    requires
        install.valid(),
        install.threads.valid(),
        install.stage is Opcode || install.stage is Patch ==> install.threads.stage is Checked,
        install.has_searched(search),
        install.pending() is Some,
        system::fits(install.pending()->0, reply),
    ensures
        install.resumed(reply).has_searched(search.noted(install.pending(), reply)),
{
    if install.stage is Suspend || install.stage is Check {
        threads::lemma_search_step(install.threads, search, reply);
    } else if install.stage is Patch {
        lemma_patch_leaves_threads_alone(install.patch->0);
    }
}

proof fn lemma_search_run(
    install: InstallModel,
    before: World,
    now: World,
    search: Search,
    replies: Seq<Reply<Seq<u8>>>,
)
    requires
        install.holds(before, now),
        install.has_searched(search),
        system::possible(install, now, replies),
    ensures
        system::run(install, now, replies).0.has_searched(
            threads::searched(install, search, replies),
        ),
    decreases replies.len(),
{
    if replies.len() > 0 {
        let reply = replies.first();
        law_installation_is_accounted_for(install, before, now, reply);
        lemma_search_step(install, search, reply);
        lemma_search_run(
            install.resumed(reply),
            before,
            now.after(install.pending()->0, reply),
            search.noted(install.pending(), reply),
            replies.drop_first(),
        );
    }
}

proof fn lemma_heard_step(
    install: InstallModel,
    said: Seq<(usize, Reply<Seq<u8>>)>,
    reply: Reply<Seq<u8>>,
)
    requires
        install.valid(),
        install.threads.valid(),
        install.heard(said),
        install.pending() is Some,
        system::fits(install.pending()->0, reply),
    ensures
        install.resumed(reply).heard(threads::noted(install.pending(), said, reply)),
{
    let heard = threads::noted(install.pending(), said, reply);
    if install.stage is Patch {
        lemma_patch_leaves_threads_alone(install.patch->0);
    }
    if install.stage is Check && threads::places_within(reply, install.target, install.end()) {
        assert(heard.last() == (install.pending()->0->ThreadContext_handle, reply));
        assert(threads::one_is_there(heard, install.target, install.end()));
    }
}

pub(crate) proof fn lemma_heard_run(
    install: InstallModel,
    before: World,
    now: World,
    said: Seq<(usize, Reply<Seq<u8>>)>,
    replies: Seq<Reply<Seq<u8>>>,
)
    requires
        install.holds(before, now),
        install.heard(said),
        system::possible(install, now, replies),
    ensures
        system::run(install, now, replies).0.heard(threads::said(install, said, replies)),
    decreases replies.len(),
{
    if replies.len() > 0 {
        let reply = replies.first();
        law_installation_is_accounted_for(install, before, now, reply);
        lemma_heard_step(install, said, reply);
        lemma_heard_run(
            install.resumed(reply),
            before,
            now.after(install.pending()->0, reply),
            threads::noted(install.pending(), said, reply),
            replies.drop_first(),
        );
    }
}

/// While a hook is written, be it an inline or a mid-function hook, every other thread that
/// was listed for the process in the last search and could be opened is suspended, and no
/// thread but those. Each of them was asked where it is since they were looked for, and none
/// said that it is among the instructions that the hook displaces.
pub proof fn law_other_threads_are_suspended_while_patching(
    target: u32,
    detour: u32,
    mid: bool,
    before: World,
    search: Search,
    replies: Seq<Reply<Seq<u8>>>,
)
    requires
        system::possible(InstallModel::start(target, detour, mid), before, replies),
    ensures
        ({
            let start = InstallModel::start(target, detour, mid);
            let (install, now) = system::run(start, before, replies);
            let handles = install.threads.handles;
            let len = code::joined(displaced_at(before, target)->0).len();
            install.pending() matches Some(request) && request is Write ==> {
                &&& now.suspended == before.suspended.add(handles.to_multiset())
                &&& now.open == before.open.add(handles.to_multiset())
                &&& threads::searched(start, search, replies).is_complete(handles)
                &&& threads::are_elsewhere(
                    threads::said(start, Seq::empty(), replies),
                    handles,
                    handles.len() as int,
                    target,
                    word::wrap(target + len),
                )
            }
        }),
{
    let start = InstallModel::start(target, detour, mid);
    lemma_installation_from_the_start(target, detour, mid, before, replies);
    lemma_no_handles(before);
    assert(start.holds(before, before));
    lemma_search_run(start, before, before, search, replies);
    lemma_heard_run(start, before, before, Seq::empty(), replies);
}

} // verus!
