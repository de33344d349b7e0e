//! What installing a hook comes to: the bytes that are in memory, what went wrong where it
//! failed, and what it waits for.

use vstd::prelude::*;

use crate::system;
use crate::system::{Program, Reply, Request, World};
use crate::word;
use crate::x86::code;
use crate::x86::details::{Hook, UnsafetyHookError};
use crate::x86::effect;
use crate::x86::install::{InstallModel, InstallStage};
use crate::x86::patch;
use crate::x86::patch::{PatchModel, PatchStage};
use crate::x86::prologue;
use crate::x86::threads;
use crate::x86::threads::{Search, ThreadStage};

verus! {

/// Whether the instructions at a target are whole, stand one behind the other, and take up
/// `len` bytes.
pub open spec fn are_whole(
    before: World,
    target: u32,
    parts: Seq<Seq<u8>>,
    len: int,
) -> bool {
    let window = system::load(before.memory, target, 64);
    &&& forall|i: int|
        0 <= i < parts.len() ==> #[trigger] prologue::is_in_the_way(window, parts, i)
    &&& 5 <= len == code::offset(parts, parts.len() as int)
}

/// Whether `len` bytes at a target hold a jump to `to`, and then instructions that do
/// nothing.
pub open spec fn jumps(now: World, target: u32, to: u32, len: int) -> bool {
    &&& (now.memory)(target) == 0xE9
    &&& code::destination(system::load(now.memory, target, 5), target as int) == to
    &&& forall|i: int|
        5 <= i < len ==> (now.memory)(#[trigger] word::wrap(target + i)) == 0x90
}

/// Whether memory is the same but for `len` bytes at a target, and a block of memory that was
/// not in use.
pub open spec fn is_same_but_for(
    before: World,
    now: World,
    target: u32,
    len: int,
    block: Option<u32>,
) -> bool {
    &&& forall|at: u32| #[trigger]
        (now.memory)(at) == (before.memory)(at) || (at - target) % 0x1_0000_0000 < len || (
        block matches Some(address) && (at - address) % 0x1_0000_0000 < 1024)
    &&& block matches Some(address) ==> before.has_room_at(address, 1024)
    &&& now.suspended == before.suspended
    &&& now.open == before.open
    &&& now.allocations == match block {
        Some(address) => before.allocations.insert(address, 1024),
        None => before.allocations,
    }
}

/// What is known of a target from a hook that is in place there.
proof fn lemma_whole(target: u32, detour: u32, mid: bool, hook: Hook, before: World, now: World)
    requires
        effect::in_place(target, detour, mid, hook, before, now),
    ensures
        ({
            let parts = effect::displaced_at(before, target)->0;
            let len = hook.orig_bytes.len() as int;
            &&& are_whole(before, target, parts, len)
            &&& len <= 64
            &&& len == code::joined(parts).len()
            &&& hook.orig_bytes == system::load(before.memory, target, len as nat)
        }),
{
    let parts = effect::displaced_at(before, target)->0;
    let window = system::load(before.memory, target, 64);
    prologue::law_every_displaced_part_is_one_whole_instruction(window);
    code::law_joined_instructions_stand_one_after_the_other(parts);
}

proof fn lemma_jumps(memory: spec_fn(u32) -> u8, target: u32, to: u32, len: nat, now: World)
    requires
        5 <= len <= 0x1_0000_0000,
        now.memory == system::store(memory, target, code::jump_patch(target, to, len)),
    ensures
        jumps(now, target, to, len as int),
{
    let jump = code::jump_patch(target, to, len);
    code::law_patch_is_a_jump_and_nothing(target, to, len);
    assert forall|i: int| 0 <= i < len implies (now.memory)(#[trigger] word::wrap(target + i))
        == jump[i] by {
        assert(system::distance(target, word::wrap(target + i)) == i);
    }
    assert(word::wrap(target + 0) == target);
    let five = system::load(now.memory, target, 5);
    assert(five[0] == jump[0]);
    assert(five[1] == jump[1]);
    assert(five[2] == jump[2]);
    assert(five[3] == jump[3]);
    assert(five[4] == jump[4]);
}

proof fn lemma_same(
    before: World,
    now: World,
    target: u32,
    jump: Seq<u8>,
    address: u32,
    code: Seq<u8>,
)
    requires
        code.len() <= 1024,
        now.memory == system::store(
            system::store(before.memory, address, code),
            target,
            jump,
        ),
    ensures
        forall|at: u32| #[trigger]
            (now.memory)(at) == (before.memory)(at) || (at - target) % 0x1_0000_0000 < jump.len()
                || (at - address) % 0x1_0000_0000 < 1024,
{
}

/// An inline hook that is installed, after whatever replies. It records its target and the
/// bytes that were there, which are whole instructions and no more of them than a jump needs.
/// Where they are one near call, the target now calls the detour, the hook knows what was
/// called, and no other byte has changed. Otherwise the target jumps to the detour; memory
/// that was not in use does, one after the other, what the displaced instructions did, and
/// jumps to the first byte behind them; and no byte has changed but at the target and there.
pub proof fn law_inline_hook_is_in_memory(
    target: u32,
    detour: u32,
    before: World,
    replies: Seq<Reply<Seq<u8>>>,
)
    requires
        system::possible(InstallModel::start(target, detour, false), before, replies),
        system::run(InstallModel::start(target, detour, false), before, replies).0.outcome()
            matches Some(Ok(hook)) && forall|at: u32| #[trigger]
            system::within(at, target, hook.orig_bytes.len()) ==> (before.mapped)(at),
    ensures
        ({
            let (install, now) = system::run(
                InstallModel::start(target, detour, false),
                before,
                replies,
            );
            let hook = install.outcome()->0->Ok_0;
            let parts = effect::displaced_at(before, target)->0;
            let len = hook.orig_bytes.len() as int;
            let held = system::load(before.memory, target, 5);
            let address = hook.alloc_addr;
            let moved = system::load(now.memory, address, (len + 5) as nat);
            &&& are_whole(before, target, parts, len)
            &&& hook.target_addr == target
            &&& hook.orig_bytes == system::load(before.memory, target, len as nat)
            &&& hook.is_jmp == !(held[0] == 0xE8 && len == 5)
            &&& if hook.is_jmp {
                &&& jumps(now, target, detour, len)
                &&& forall|i: int|
                    0 <= i < parts.len() ==> #[trigger] code::is_done_by(
                        parts,
                        i,
                        target,
                        moved,
                        0,
                        address,
                    )
                &&& moved[len] == 0xE9
                &&& code::destination(moved.skip(len), address + len) == (target + len)
                    % 0x1_0000_0000
                &&& is_same_but_for(before, now, target, len, Some(address))
            } else {
                &&& address == code::destination(held, target as int)
                &&& (now.memory)(target) == 0xE8
                &&& code::destination(system::load(now.memory, target, 5), target as int) == detour
                &&& is_same_but_for(before, now, target, 5, None)
            }
        }),
{
    let (install, now) = system::run(InstallModel::start(target, detour, false), before, replies);
    let hook = install.outcome()->0->Ok_0;
    effect::law_successful_installation_is_in_place(target, detour, false, before, replies);
    lemma_whole(target, detour, false, hook, before, now);
    effect::law_installed_hook_takes_effect(target, detour, false, hook, before, now);
    let parts = effect::displaced_at(before, target)->0;
    let len = hook.orig_bytes.len();
    assert(word::wrap(target + 0) == target);
    if hook.is_jmp {
        let code = code::trampoline(parts, target, hook.alloc_addr, len);
        let jump = code::jump_patch(target, detour, len);
        code::law_trampoline_does_what_was_displaced(parts, target, hook.alloc_addr, len);
        code::law_patch_is_a_jump_and_nothing(target, detour, len);
        lemma_jumps(
            system::store(before.memory, hook.alloc_addr, code),
            target,
            detour,
            len,
            now,
        );
        lemma_same(before, now, target, jump, hook.alloc_addr, code);
    } else {
        let held = system::load(before.memory, target, 5);
        let call = code::branch(code::CALL, target, detour);
        code::law_branch_ends_at_its_destination(0xE8, target, detour);
        system::law_written_data_reads_back(before.memory, target, call);
        assert(system::load(now.memory, target, 5)[0] == call[0]);
        code::lemma_destination(held, target as int);
        assert(held == hook.orig_bytes);
    }
}

/// A mid-function hook that is installed, after whatever replies. It records its target and
/// the bytes that were there, which are whole instructions and no more of them than a jump
/// needs. The target jumps to memory that was not in use, which holds the code of the hook; in
/// two places, one for either way of leaving, that does, one after the other, what the
/// displaced instructions did. No byte has changed but at the target and there.
pub proof fn law_mid_function_hook_is_in_memory(
    target: u32,
    detour: u32,
    before: World,
    replies: Seq<Reply<Seq<u8>>>,
)
    requires
        system::possible(InstallModel::start(target, detour, true), before, replies),
        system::run(InstallModel::start(target, detour, true), before, replies).0.outcome()
            matches Some(Ok(hook)) && forall|at: u32| #[trigger]
            system::within(at, target, hook.orig_bytes.len()) ==> (before.mapped)(at),
    ensures
        ({
            let (install, now) = system::run(
                InstallModel::start(target, detour, true),
                before,
                replies,
            );
            let hook = install.outcome()->0->Ok_0;
            let parts = effect::displaced_at(before, target)->0;
            let len = hook.orig_bytes.len() as int;
            let address = hook.alloc_addr;
            let moved = system::load(now.memory, address, (81 + 2 * len) as nat);
            &&& are_whole(before, target, parts, len)
            &&& hook.target_addr == target
            &&& hook.orig_bytes == system::load(before.memory, target, len as nat)
            &&& hook.is_jmp
            &&& jumps(now, target, address, len)
            &&& moved == code::mid_code(parts, target, detour, address, len as nat)
            &&& forall|i: int|
                0 <= i < parts.len() ==> #[trigger] code::is_done_by(
                    parts,
                    i,
                    target,
                    moved,
                    50,
                    address,
                )
            &&& forall|i: int|
                0 <= i < parts.len() ==> #[trigger] code::is_done_by(
                    parts,
                    i,
                    target,
                    moved,
                    75 + len,
                    address,
                )
            &&& is_same_but_for(before, now, target, len, Some(address))
        }),
{
    let (install, now) = system::run(InstallModel::start(target, detour, true), before, replies);
    let hook = install.outcome()->0->Ok_0;
    effect::law_successful_installation_is_in_place(target, detour, true, before, replies);
    lemma_whole(target, detour, true, hook, before, now);
    effect::law_installed_hook_takes_effect(target, detour, true, hook, before, now);
    let parts = effect::displaced_at(before, target)->0;
    let len = hook.orig_bytes.len();
    let code = code::mid_code(parts, target, detour, hook.alloc_addr, len);
    let jump = code::jump_patch(target, hook.alloc_addr, len);
    code::law_mid_code_does_what_was_displaced(parts, target, detour, hook.alloc_addr, len);
    code::law_patch_is_a_jump_and_nothing(target, hook.alloc_addr, len);
    lemma_jumps(
        system::store(before.memory, hook.alloc_addr, code),
        target,
        hook.alloc_addr,
        len,
        now,
    );
    lemma_same(before, now, target, jump, hook.alloc_addr, code);
}

/// While an installation writes, what it writes to can be written: the target, which it has
/// made so, or memory that was not in use and was allocated for the hook.
pub proof fn law_code_is_written_while_it_is_writable(
    target: u32,
    detour: u32,
    mid: bool,
    before: World,
    replies: Seq<Reply<Seq<u8>>>,
)
    requires
        system::possible(InstallModel::start(target, detour, mid), before, replies),
    ensures
        ({
            let (install, now) = system::run(
                InstallModel::start(target, detour, mid),
                before,
                replies,
            );
            install.pending() matches Some(Request::Write { address, data }) ==> {
                ||| address == target && (now.protection)((target, data.len())) == 0x40
                ||| before.has_room_at(address, 1024) && now.allocations
                    == before.allocations.insert(address, 1024) && data.len() <= 1024
            }
        }),
{
    let (install, now) = system::run(InstallModel::start(target, detour, mid), before, replies);
    effect::lemma_installation_from_the_start(target, detour, mid, before, replies);
    if install.pending() is Some && install.pending()->0 is Write {
        reveal(PatchModel::holds);
        let patch = install.patch->0;
        let window = system::load(before.memory, target, 64);
        prologue::law_displaced_instructions_are_the_start_of_the_code(window);
        match patch.stage {
            PatchStage::Relocate { memory } => {
                patch::law_relocated_code_fits_its_block(patch, memory);
            },
            PatchStage::Redirect { redirect, .. } => {
                code::law_patch_is_a_jump_and_nothing(target, redirect.to, redirect.len as nat);
            },
            _ => {
                code::law_branch_ends_at_its_destination(0xE8, target, detour);
            },
        }
    }
}

/// An installation waits only where one of the other threads said that it is among the
/// instructions to be displaced; and while it waits, every thread runs and the process is as
/// it was.
pub proof fn law_installation_waits_for_a_thread_in_the_way(
    target: u32,
    detour: u32,
    mid: bool,
    before: World,
    replies: Seq<Reply<Seq<u8>>>,
)
    requires
        system::possible(InstallModel::start(target, detour, mid), before, replies),
    ensures
        ({
            let start = InstallModel::start(target, detour, mid);
            let (install, now) = system::run(start, before, replies);
            let parts = effect::displaced_at(before, target)->0;
            let len = code::offset(parts, parts.len() as int);
            install.pending() matches Some(Request::Sleep { millis }) ==> {
                &&& millis == 1
                &&& now == before
                &&& threads::one_is_there(
                    threads::said(start, Seq::empty(), replies),
                    target,
                    ((target + len) % 0x1_0000_0000) as u32,
                )
            }
        }),
{
    let start = InstallModel::start(target, detour, mid);
    let (install, now) = system::run(start, before, replies);
    effect::lemma_installation_from_the_start(target, detour, mid, before, replies);
    effect::lemma_no_handles(before);
    assert(start.holds(before, before));
    effect::lemma_heard_run(start, before, before, Seq::empty(), replies);
    if install.pending() is Some && install.pending()->0 is Sleep {
        lemma_only_sleep_sleeps(install);
        code::lemma_joined_len(effect::displaced_at(before, target)->0);
        assert(install.threads.suspended() =~= Seq::empty());
        assert(install.threads.open() =~= Seq::empty());
        effect::lemma_no_handles(effect::aside_from_threads(before, now));
    }
}

proof fn lemma_only_sleep_sleeps(install: InstallModel)
    requires
        install.pending() matches Some(request) && request is Sleep,
    ensures
        install.stage is Sleep,
{
}

/// While a hook is written, every thread that is held was asked where it is since the threads
/// were last looked for, in turn, and not one of them said that its instruction pointer is
/// among the bytes that the hook displaces.
pub proof fn law_no_thread_is_in_the_way_while_patching(
    target: u32,
    detour: u32,
    mid: bool,
    before: World,
    replies: Seq<Reply<Seq<u8>>>,
)
    requires
        system::possible(InstallModel::start(target, detour, mid), before, replies),
    ensures
        ({
            let start = InstallModel::start(target, detour, mid);
            let install = system::run(start, before, replies).0;
            let parts = effect::displaced_at(before, target)->0;
            let len = code::offset(parts, parts.len() as int);
            let end = (target + len) % 0x1_0000_0000;
            let handles = install.threads.handles;
            let said = threads::said(start, Seq::empty(), replies);
            install.pending() matches Some(request) && request is Write ==> {
                &&& said.len() == handles.len()
                &&& forall|i: int|
                    0 <= i < handles.len() ==> {
                        &&& (#[trigger] said[i]).0 == handles[i]
                        &&& said[i].1 matches Reply::Context(Some(context)) ==> context.Eip < target
                            || context.Eip >= end
                    }
            }
        }),
{
    effect::law_other_threads_are_suspended_while_patching(
        target,
        detour,
        mid,
        before,
        Search::start(0, 0),
        replies,
    );
    code::lemma_joined_len(effect::displaced_at(before, target)->0);
}

/// The requests that were answered, each with its reply.
pub type Exchange = Seq<(Request<Seq<u8>>, Reply<Seq<u8>>)>;

/// Whether there was no snapshot of the threads, or no thread in it.
pub open spec fn had_no_threads(exchange: Exchange) -> bool {
    exists|i: int|
        0 <= i < exchange.len() && {
            ||| (#[trigger] exchange[i]).0 is Snapshot && exchange[i].1 == Reply::<Seq<u8>>::Handle(
                None,
            )
            ||| exchange[i].0 is FirstThread && exchange[i].1 == Reply::<Seq<u8>>::Thread(None)
        }
}

/// Whether no memory could be allocated.
pub open spec fn had_no_memory(exchange: Exchange) -> bool {
    exists|i: int|
        0 <= i < exchange.len() && (#[trigger] exchange[i]).0 is Allocate && exchange[i].1
            == Reply::<Seq<u8>>::Address(None)
}

/// Whether a change of protection, or making the processor see code, was refused with a code.
pub open spec fn was_refused(exchange: Exchange, error: u32) -> bool {
    exists|i: int|
        0 <= i < exchange.len() && {
            ||| (#[trigger] exchange[i]).0 is Protect && exchange[i].1
                == Reply::<Seq<u8>>::Protection(Err(error))
            ||| exchange[i].0 is Flush && exchange[i].1 == Reply::<Seq<u8>>::Status(Err(error))
        }
}

/// Whether an error is one that comes of this exchange.
pub open spec fn explains(exchange: Exchange, error: UnsafetyHookError) -> bool {
    match error {
        UnsafetyHookError::VirtualAllocFailed => had_no_memory(exchange),
        UnsafetyHookError::VirtualProtectFailed(code) => was_refused(exchange, code),
        UnsafetyHookError::SuspendFailed => had_no_threads(exchange),
        UnsafetyHookError::InvalidInstructions => exchange.len() == 1,
        UnsafetyHookError::EncodingFailed => false,
    }
}

impl InstallModel {
    /// Whether what went wrong so far is explained.
    spec fn is_explained(self, exchange: Exchange) -> bool {
        match self.stage {
            InstallStage::Code => exchange.len() == 0,
            InstallStage::Failed { error } => explains(exchange, error),
            InstallStage::Suspend => self.threads.stage matches ThreadStage::CloseSnapshot {
                listed,
                ..
            } && !listed ==> had_no_threads(exchange),
            InstallStage::Release | InstallStage::Done => self.patch->0.stage
                matches PatchStage::Failed { error } ==> explains(exchange, error) && !(error
                is InvalidInstructions),
            _ => true,
        }
    }
}

proof fn lemma_explained_step(
    install: InstallModel,
    exchange: Exchange,
    before: World,
    now: World,
    reply: Reply<Seq<u8>>,
)
    requires
        install.holds(before, now),
        install.is_explained(exchange),
        install.pending() is Some,
        now.admits(install.pending()->0, reply),
    ensures
        install.resumed(reply).is_explained(exchange.push((install.pending()->0, reply))),
{
    let next = exchange.push((install.pending()->0, reply));
    assert(next.last() == (install.pending()->0, reply));
    assert(forall|i: int| 0 <= i < exchange.len() ==> #[trigger] exchange[i] == next[i]);
    match install.stage {
        InstallStage::Suspend => {
            if install.threads.stage is Snapshot || install.threads.stage is First {
                assert(next[exchange.len() as int] == (install.pending()->0, reply));
            }
        },
        InstallStage::Patch => {
            assert(next[exchange.len() as int] == (install.pending()->0, reply));
        },
        _ => {},
    }
}

proof fn lemma_explained_run(
    install: InstallModel,
    exchange: Exchange,
    before: World,
    now: World,
    replies: Seq<Reply<Seq<u8>>>,
)
    requires
        install.holds(before, now),
        install.is_explained(exchange),
        system::possible(install, now, replies),
    ensures
        system::run(install, now, replies).0.is_explained(
            system::exchanged(install, exchange, replies),
        ),
    decreases replies.len(),
{
    if replies.len() > 0 {
        let reply = replies.first();
        effect::law_installation_is_accounted_for(install, before, now, reply);
        lemma_explained_step(install, exchange, before, now, reply);
        lemma_explained_run(
            install.resumed(reply),
            exchange.push((install.pending()->0, reply)),
            before,
            now.after(install.pending()->0, reply),
            replies.drop_first(),
        );
    }
}

/// An installation that fails says what went wrong. It says that threads could not be
/// suspended only where there was no snapshot of them or no thread in it, that there was no
/// memory only where none could be allocated, and that something was refused, with a code,
/// only where it was refused with that code. It says of code that it cannot be decoded before
/// it asks for anything else. And it goes on until it has come to an end.
pub proof fn law_failed_installation_says_what_went_wrong(
    target: u32,
    detour: u32,
    mid: bool,
    before: World,
    replies: Seq<Reply<Seq<u8>>>,
)
    requires
        system::possible(InstallModel::start(target, detour, mid), before, replies),
    ensures
        ({
            let start = InstallModel::start(target, detour, mid);
            let install = system::run(start, before, replies).0;
            let exchange = system::exchanged(start, Seq::empty(), replies);
            match install.outcome() {
                Some(Err(error)) => explains(exchange, error),
                Some(Ok(_)) => install.pending() is None,
                None => install.pending() is Some,
            }
        }),
{
    let start = InstallModel::start(target, detour, mid);
    effect::lemma_installation_from_the_start(target, detour, mid, before, replies);
    effect::lemma_no_handles(before);
    assert(start.holds(before, before));
    lemma_explained_run(start, Seq::empty(), before, before, replies);
}

} // verus!
