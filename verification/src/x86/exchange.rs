//! What each step of a hook asks the system for, request by request.

use vstd::prelude::*;

use crate::kernel::CONTEXT_X86;
use crate::system::{Program, Reply, Request, ThreadEntry};
use crate::x86::code;
use crate::x86::details::{Hook, UnsafetyHookError};
use crate::x86::install::{Install, InstallModel};
use crate::x86::patch::{Patch, PatchKind, PatchModel, PatchStage};
use crate::x86::prologue;
use crate::x86::redirect::{Redirect, RedirectStage};
use crate::x86::registry;
use crate::x86::registry::{HookList, Removal};
use crate::x86::remove::{Remove, RemoveModel, RemoveStage};
use crate::x86::threads::{SuspendThreads, ThreadStage, Threads};

verus! {

/// Whether a request writes, over `len` bytes at `target`, a jump to `to` and then
/// instructions that do nothing.
pub open spec fn writes_jump(
    request: Option<Request<Seq<u8>>>,
    target: u32,
    to: u32,
    len: usize,
) -> bool {
    &&& request matches Some(Request::Write { address, data })
    &&& address == target
    &&& data.len() == len
    &&& data[0] == 0xE9
    &&& code::destination(data, target as int) == to
    &&& forall|i: int| 5 <= i < len ==> #[trigger] data[i] == 0x90
}

/// A redirection makes the bytes at its target writable, writes the jump over them, makes the
/// processor see it, and gives the bytes the protection back that they had; what comes of the
/// last two makes no difference. Where the bytes cannot be made writable it ends there, and
/// knows why.
pub proof fn law_redirection_request_by_request(
    target: u32,
    to: u32,
    len: usize,
    old: u32,
    status: Result<(), u32>,
    last: Result<u32, u32>,
    error: u32,
)
    requires
        len >= 5,
    ensures
        ({
            let first = Redirect { target, to, len, stage: RedirectStage::Unprotect };
            let second = first.resumed(Reply::Protection(Ok(old)));
            let third = second.resumed(Reply::Done);
            let fourth = third.resumed(Reply::Status(status));
            let ended = fourth.resumed(Reply::Protection(last));
            let refused = first.resumed(Reply::Protection(Err(error)));
            &&& first.pending() == Some(
                Request::<Seq<u8>>::Protect { address: target, len, protection: 0x40 },
            )
            &&& writes_jump(second.pending(), target, to, len)
            &&& third.pending() == Some(Request::<Seq<u8>>::Flush { address: target, len })
            &&& fourth.pending() == Some(
                Request::<Seq<u8>>::Protect { address: target, len, protection: old },
            )
            &&& ended.pending() is None
            &&& ended.stage == RedirectStage::Done
            &&& refused.pending() is None
            &&& refused.stage == RedirectStage::Failed { code: error }
        }),
{
    code::law_patch_is_a_jump_and_nothing(target, to, len as nat);
}

/// Replacing a call makes it writable, reads it, writes a call of the detour, makes the
/// processor see it, and gives it the protection back that it had. The hook knows the bytes
/// of the old call and where it led. Whatever is refused on the way ends it, and it says with
/// which code.
pub proof fn law_replacing_a_call_request_by_request(
    target: u32,
    detour: u32,
    old: u32,
    original: Seq<u8>,
    last: u32,
    error: u32,
)
    requires
        original.len() == 5,
    ensures
        ({
            let first = PatchModel {
                target,
                detour,
                len: 5,
                kind: PatchKind::Call,
                instructions: Seq::empty(),
                original: Seq::empty(),
                stage: PatchStage::CallUnprotect,
            };
            let second = first.resumed(Reply::Protection(Ok(old)));
            let third = second.resumed(Reply::Data(original));
            let fourth = third.resumed(Reply::Done);
            let fifth = fourth.resumed(Reply::Status(Ok(())));
            let ended = fifth.resumed(Reply::Protection(Ok(last)));
            let failed = Some(
                Err::<Hook, UnsafetyHookError>(UnsafetyHookError::VirtualProtectFailed(error)),
            );
            &&& first.pending() == Some(
                Request::<Seq<u8>>::Protect { address: target, len: 5, protection: 0x40 },
            )
            &&& second.pending() == Some(Request::<Seq<u8>>::Read { address: target, len: 5 })
            &&& third.pending() matches Some(Request::Write { address, data })
            &&& address == target
            &&& data.len() == 5
            &&& data[0] == 0xE8
            &&& code::destination(data, target as int) == detour
            &&& fourth.pending() == Some(Request::<Seq<u8>>::Flush { address: target, len: 5 })
            &&& fifth.pending() == Some(
                Request::<Seq<u8>>::Protect { address: target, len: 5, protection: old },
            )
            &&& ended.pending() is None
            &&& ended.outcome() matches Some(Ok(hook))
            &&& hook.target_addr == target
            &&& hook.alloc_addr == code::destination(original, target as int)
            &&& hook.orig_bytes == original
            &&& !hook.is_jmp
            &&& first.resumed(Reply::Protection(Err(error))).outcome() == failed
            &&& fourth.resumed(Reply::Status(Err(error))).outcome() == failed
            &&& fifth.resumed(Reply::Protection(Err(error))).outcome() == failed
        }),
{
    code::law_branch_ends_at_its_destination(0xE8, target, detour);
    code::lemma_destination(original, target as int);
}

/// Moving instructions out of the way of a jump reads them, allocates memory that can be
/// written and executed, writes the code of the hook there, and then redirects the target: an
/// inline hook to the detour, a mid-function hook to its code. The hook knows the bytes that
/// were read and where its memory is. Without memory it ends, and so it does where the target
/// cannot be made writable.
pub proof fn law_moving_instructions_request_by_request(
    target: u32,
    detour: u32,
    len: usize,
    instructions: Seq<Seq<u8>>,
    mid: bool,
    original: Seq<u8>,
    memory: u32,
    old: u32,
    status: Result<(), u32>,
    last: Result<u32, u32>,
    error: u32,
)
    requires
        len >= 5,
    ensures
        ({
            let first = PatchModel {
                target,
                detour,
                len,
                kind: if mid {
                    PatchKind::Mid
                } else {
                    PatchKind::Jump
                },
                instructions,
                original: Seq::empty(),
                stage: PatchStage::Read,
            };
            let second = first.resumed(Reply::Data(original));
            let third = second.resumed(Reply::Address(Some(memory)));
            let fourth = third.resumed(Reply::Done);
            let fifth = fourth.resumed(Reply::Protection(Ok(old)));
            let sixth = fifth.resumed(Reply::Done);
            let seventh = sixth.resumed(Reply::Status(status));
            let ended = seventh.resumed(Reply::Protection(last));
            let code = if mid {
                code::mid_code(instructions, target, detour, memory, len as nat)
            } else {
                code::trampoline(instructions, target, memory, len as nat)
            };
            let to = if mid {
                memory
            } else {
                detour
            };
            &&& first.pending() == Some(Request::<Seq<u8>>::Read { address: target, len })
            &&& second.pending() == Some(
                Request::<Seq<u8>>::Allocate { len: 1024, kind: 0x3000, protection: 0x40 },
            )
            &&& third.pending() == Some(Request::Write { address: memory, data: code })
            &&& fourth.pending() == Some(
                Request::<Seq<u8>>::Protect { address: target, len, protection: 0x40 },
            )
            &&& writes_jump(fifth.pending(), target, to, len)
            &&& sixth.pending() == Some(Request::<Seq<u8>>::Flush { address: target, len })
            &&& seventh.pending() == Some(
                Request::<Seq<u8>>::Protect { address: target, len, protection: old },
            )
            &&& ended.pending() is None
            &&& ended.outcome() matches Some(Ok(hook))
            &&& hook.target_addr == target
            &&& hook.alloc_addr == memory
            &&& hook.orig_bytes == original
            &&& hook.is_jmp
            &&& second.resumed(Reply::Address(None)).outcome() == Some(
                Err::<Hook, UnsafetyHookError>(UnsafetyHookError::VirtualAllocFailed),
            )
            &&& fourth.resumed(Reply::Protection(Err(error))).outcome() == Some(
                Err::<Hook, UnsafetyHookError>(UnsafetyHookError::VirtualProtectFailed(error)),
            )
        }),
{
    let to = if mid {
        memory
    } else {
        detour
    };
    law_redirection_request_by_request(target, to, len, old, status, last, error);
    assert(0x1000u32 | 0x2000u32 == 0x3000u32) by (bit_vector);
}

/// Removing a hook makes the bytes at its target writable, writes those back that it
/// replaced, gives them the protection back that they had, and makes the processor see them.
/// A hook that has memory then gives it back whole. The hook is gone with that, and has
/// nothing left to put back; whatever is refused on the way ends it, and the hook is as it
/// was.
pub proof fn law_removing_request_by_request(hook: Hook, old: u32, last: u32, error: u32)
    requires
        0 < hook.orig_bytes.len() <= usize::MAX,
    ensures
        ({
            let target = hook.target_addr;
            let len = hook.orig_bytes.len() as usize;
            let first = RemoveModel::start(hook);
            let second = first.resumed(Reply::Protection(Ok(old)));
            let third = second.resumed(Reply::Done);
            let fourth = third.resumed(Reply::Protection(Ok(last)));
            let fifth = fourth.resumed(Reply::Status(Ok(())));
            let kept = RemoveModel { hook, stage: RemoveStage::Done { removed: false } };
            let gone = RemoveModel {
                hook: Hook { orig_bytes: Seq::empty(), ..hook },
                stage: RemoveStage::Done { removed: true },
            };
            &&& first.pending() == Some(
                Request::<Seq<u8>>::Protect { address: target, len, protection: 0x40 },
            )
            &&& second.pending() == Some(Request::Write { address: target, data: hook.orig_bytes })
            &&& third.pending() == Some(
                Request::<Seq<u8>>::Protect { address: target, len, protection: old },
            )
            &&& fourth.pending() == Some(Request::<Seq<u8>>::Flush { address: target, len })
            &&& if hook.is_jmp && hook.alloc_addr != 0 {
                &&& fifth.pending() == Some(
                    Request::<Seq<u8>>::Free { address: hook.alloc_addr, len: 0, kind: 0x8000 },
                )
                &&& fifth.resumed(Reply::Done) == gone
            } else {
                fifth == gone
            }
            &&& first.resumed(Reply::Protection(Err(error))) == kept
            &&& third.resumed(Reply::Protection(Err(error))) == kept
            &&& fourth.resumed(Reply::Status(Err(error))) == kept
            &&& kept.pending() is None
            &&& gone.pending() is None
        }),
{
}

/// Whatever stage the work on the threads is at: the snapshot is one of threads, threads are
/// opened for being suspended, resumed, and having their registers read and written, and they
/// are asked for their control registers.
pub proof fn law_threads_are_asked_with_the_same_rights(threads: Threads)
    ensures
        match threads.pending() {
            Some(Request::Snapshot { flags, process }) => flags == 0x4 && process == 0,
            Some(Request::OpenThread { access, inherit, .. }) => access == 0x1A && !inherit,
            Some(Request::ThreadContext { flags, .. }) => flags == 0x1_0001,
            _ => true,
        },
{
    assert(0x2u32 | 0x8u32 | 0x10u32 == 0x1Au32) by (bit_vector);
}

/// Suspending the other threads begins with which process and thread this is. Then a snapshot
/// is taken, and the threads in it are listed. Without a snapshot there is nothing to be done;
/// a snapshot without threads is closed first.
pub proof fn law_search_begins_request_by_request(
    process: u32,
    thread: u32,
    snapshot: usize,
    entry: ThreadEntry,
)
    ensures
        ({
            let first = Threads::start();
            let second = first.resumed(Reply::Ids { process, thread });
            let third = second.resumed(Reply::Handle(Some(snapshot)));
            let empty = third.resumed(Reply::Thread(None));
            let fourth = third.resumed(Reply::Thread(Some(entry)));
            let is_other = entry.owner == process && entry.thread != thread;
            &&& first.pending() == Some(Request::<Seq<u8>>::CurrentIds)
            &&& second.pending() == Some(Request::<Seq<u8>>::Snapshot { flags: 4, process: 0 })
            &&& second.resumed(Reply::Handle(None)).stage == ThreadStage::Failed
            &&& third.pending() == Some(Request::<Seq<u8>>::FirstThread { snapshot })
            &&& empty.pending() == Some(Request::<Seq<u8>>::CloseHandle { handle: snapshot })
            &&& empty.resumed(Reply::Done).stage == ThreadStage::Failed
            &&& fourth.pending() == Some(
                if is_other {
                    Request::<Seq<u8>>::OpenThread {
                        access: 0x1A,
                        inherit: false,
                        thread: entry.thread,
                    }
                } else {
                    Request::<Seq<u8>>::NextThread { snapshot }
                },
            )
        }),
{
    assert(0x2u32 | 0x8u32 | 0x10u32 == 0x1Au32) by (bit_vector);
}

/// Another thread of the process is suspended as soon as it could be opened, and held from
/// then on. Then, or where it could not be opened, the next thread is asked for. Once there is
/// none left, the snapshot is closed, and the threads are held.
pub proof fn law_listing_request_by_request(
    threads: Threads,
    process: u32,
    thread: u32,
    snapshot: usize,
    candidate: u32,
    handle: usize,
    entry: ThreadEntry,
)
    requires
        threads.stage == (ThreadStage::Open { process, thread, snapshot, candidate }),
    ensures
        ({
            let opened = threads.resumed(Reply::Handle(Some(handle)));
            let suspended = opened.resumed(Reply::Done);
            let passed = threads.resumed(Reply::Handle(None));
            let seen = suspended.resumed(Reply::Thread(Some(entry)));
            let listed = suspended.resumed(Reply::Thread(None));
            let held = listed.resumed(Reply::Done);
            &&& threads.pending() == Some(
                Request::<Seq<u8>>::OpenThread {
                    access: 0x1A,
                    inherit: false,
                    thread: candidate,
                },
            )
            &&& opened.pending() == Some(Request::<Seq<u8>>::SuspendThread { handle })
            &&& opened.handles == threads.handles.push(handle)
            &&& suspended.pending() == Some(Request::<Seq<u8>>::NextThread { snapshot })
            &&& suspended.handles == opened.handles
            &&& passed == Threads { handles: threads.handles, ..suspended }
            &&& seen.handles == opened.handles
            &&& seen.pending() == Some(
                if entry.owner == process && entry.thread != thread {
                    Request::<Seq<u8>>::OpenThread {
                        access: 0x1A,
                        inherit: false,
                        thread: entry.thread,
                    }
                } else {
                    Request::<Seq<u8>>::NextThread { snapshot }
                },
            )
            &&& listed.pending() == Some(Request::<Seq<u8>>::CloseHandle { handle: snapshot })
            &&& held == Threads { handles: opened.handles, stage: ThreadStage::Held }
            &&& held.pending() is None
        }),
{
    assert(0x2u32 | 0x8u32 | 0x10u32 == 0x1Au32) by (bit_vector);
}

/// An inline hook replaces what is at the target exactly where that is one near call and
/// nothing else; otherwise it moves the instructions.
pub proof fn law_opcode_decides(install: InstallModel, opcode: u8)
    requires
        install.stage is Opcode,
        install.len >= 5,
    ensures
        ({
            let next = install.resumed(Reply::Data(seq![opcode]));
            let is_call = opcode == 0xE8 && install.len == 5;
            &&& install.pending() == Some(
                Request::<Seq<u8>>::Read { address: install.target, len: 1 },
            )
            &&& next.stage is Patch
            &&& next.patch is Some
            &&& next.patch->0.target == install.target
            &&& next.patch->0.detour == install.detour
            &&& next.patch->0.kind == PatchKind::Call <==> is_call
            &&& next.pending() == Some(
                if is_call {
                    Request::<Seq<u8>>::Protect {
                        address: install.target,
                        len: 5,
                        protection: 0x40,
                    }
                } else {
                    Request::<Seq<u8>>::Read { address: install.target, len: install.len }
                },
            )
        }),
{
}

/// An installation asks what its patch asks for, and hands it the replies. Once the patch has
/// ended, however it did, the threads are resumed, from the first on; without any, the
/// installation has ended with what came of the patch.
pub proof fn law_installation_runs_its_patch(
    install: InstallModel,
    patch: PatchModel,
    reply: Reply<Seq<u8>>,
)
    requires
        install.stage is Patch,
        install.patch == Some(patch),
    ensures
        ({
            let next = install.resumed(reply);
            let went_on = patch.resumed(reply);
            let handles = install.threads.handles;
            &&& install.pending() == patch.pending()
            &&& next.patch == Some(went_on)
            &&& next.threads.handles == handles
            &&& if went_on.outcome() is None {
                next.pending() == went_on.pending() && next.outcome() is None
            } else if handles.len() == 0 {
                next.pending() is None && next.outcome() == went_on.outcome()
            } else {
                next.pending() == Some(Request::<Seq<u8>>::ResumeThread { handle: handles[0] })
            }
        }),
{
}

/// In the end each thread is resumed and its handle closed, one after the other, and what came
/// of the installation is what came of its patch.
pub proof fn law_release_request_by_request(install: InstallModel, index: usize)
    requires
        install.stage is Release,
        install.threads.stage == (ThreadStage::Resume { index }),
        index < install.threads.handles.len() <= usize::MAX,
    ensures
        ({
            let handles = install.threads.handles;
            let handle = handles[index as int];
            let second = install.resumed(Reply::Done);
            let third = second.resumed(Reply::Done);
            &&& install.pending() == Some(Request::<Seq<u8>>::ResumeThread { handle })
            &&& second.pending() == Some(Request::<Seq<u8>>::CloseHandle { handle })
            &&& third.patch == install.patch
            &&& if index + 1 < handles.len() {
                third.pending() == Some(
                    Request::<Seq<u8>>::ResumeThread { handle: handles[index + 1] },
                )
            } else {
                third.pending() is None && third.outcome() == install.patch->0.outcome()
            }
        }),
{
}

/// An installation that finds no other thread goes from the code to the threads, of which
/// there are none to ask, and from there to the target. An inline hook looks at the opcode
/// there first: one near call, and nothing else, is replaced, and instructions are moved
/// otherwise. A mid-function hook moves them in any case. Code that cannot be decoded, and
/// threads that cannot be suspended, end the installation.
pub proof fn law_installation_without_other_threads(
    target: u32,
    detour: u32,
    mid: bool,
    window: Seq<u8>,
    process: u32,
    thread: u32,
    snapshot: usize,
    entry: ThreadEntry,
    opcode: u8,
)
    requires
        !(entry.owner == process && entry.thread != thread),
        window.len() <= usize::MAX,
    ensures
        ({
            let first = InstallModel::start(target, detour, mid);
            let second = first.resumed(Reply::Data(window));
            let third = second.resumed(Reply::Ids { process, thread });
            let fourth = third.resumed(Reply::Handle(Some(snapshot)));
            let fifth = fourth.resumed(Reply::Thread(Some(entry)));
            let sixth = fifth.resumed(Reply::Thread(None));
            let seventh = sixth.resumed(Reply::Done);
            let eighth = seventh.resumed(Reply::Data(seq![opcode]));
            let suspend_failed = Some(
                Err::<Hook, UnsafetyHookError>(UnsafetyHookError::SuspendFailed),
            );
            match prologue::displaced(window, 0) {
                None => second.outcome() == Some(
                    Err::<Hook, UnsafetyHookError>(UnsafetyHookError::InvalidInstructions),
                ),
                Some(parts) => {
                    let len = code::offset(parts, parts.len() as int) as usize;
                    let moving = Some(Request::<Seq<u8>>::Read { address: target, len });
                    let replacing = Some(
                        Request::<Seq<u8>>::Protect { address: target, len: 5, protection: 0x40 },
                    );
                    &&& second.pending() == Some(Request::<Seq<u8>>::CurrentIds)
                    &&& third.resumed(Reply::Handle(None)).outcome() == suspend_failed
                    &&& fourth.resumed(Reply::Thread(None)).resumed(Reply::Done).outcome()
                        == suspend_failed
                    &&& sixth.pending() == Some(
                        Request::<Seq<u8>>::CloseHandle { handle: snapshot },
                    )
                    &&& if mid {
                        seventh.pending() == moving
                    } else {
                        &&& seventh.pending() == Some(
                            Request::<Seq<u8>>::Read { address: target, len: 1 },
                        )
                        &&& eighth.pending() == if opcode == 0xE8 && len == 5 {
                            replacing
                        } else {
                            moving
                        }
                    }
                },
            }
        }),
{
    if prologue::displaced(window, 0) is Some {
        prologue::law_displaced_instructions_are_the_start_of_the_code(window);
        code::lemma_joined_len(prologue::displaced(window, 0)->0);
        code::law_patch_is_a_jump_and_nothing(target, detour, 5);
    }
}

/// An installation asks for what suspending the threads takes, and hands on the replies. As
/// soon as they are held, the first is asked where it is, and the range that matters is that of
/// the instructions to be displaced; without any, the target is turned to.
pub proof fn law_installation_runs_its_search(install: InstallModel, reply: Reply<Seq<u8>>)
    requires
        install.stage is Suspend,
        install.threads.is_suspending(),
        install.len >= 5,
    ensures
        ({
            let next = install.resumed(reply);
            let went_on = install.threads.resumed(reply);
            let handles = went_on.handles;
            let end = ((install.target + install.len) % 0x1_0000_0000) as u32;
            &&& install.pending() == install.threads.pending()
            &&& next.threads.handles == handles
            &&& match went_on.stage {
                ThreadStage::Held => if handles.len() > 0 {
                    &&& next.stage is Check
                    &&& next.threads.stage == ThreadStage::Check {
                        start: install.target,
                        end,
                        index: 0,
                    }
                    &&& next.pending() == Some(
                        Request::<Seq<u8>>::ThreadContext { handle: handles[0], flags: 0x1_0001 },
                    )
                } else {
                    next.pending() == Some(
                        Request::<Seq<u8>>::Read {
                            address: install.target,
                            len: if install.mid {
                                install.len
                            } else {
                                1
                            },
                        },
                    )
                },
                ThreadStage::Failed => next.outcome() == Some(
                    Err::<Hook, UnsafetyHookError>(UnsafetyHookError::SuspendFailed),
                ),
                _ => next.stage is Suspend && next.threads == went_on,
            }
        }),
{
}

/// A thread that says that it is between the ends of the range makes the installation let all
/// threads go, from the first on. One that says that it is elsewhere, or whose registers
/// cannot be had, makes it ask the next; after the last, the target is turned to.
pub proof fn law_check_request_by_request(
    install: InstallModel,
    start: u32,
    end: u32,
    index: usize,
    context: Option<CONTEXT_X86>,
)
    requires
        install.stage is Check,
        install.threads.stage == (ThreadStage::Check { start, end, index }),
        index < install.threads.handles.len() <= usize::MAX,
        install.len >= 5,
    ensures
        ({
            let handles = install.threads.handles;
            let next = install.resumed(Reply::Context(context));
            let is_there = context is Some && context->0.Eip >= start && context->0.Eip < end;
            &&& install.pending() == Some(
                Request::<Seq<u8>>::ThreadContext {
                    handle: handles[index as int],
                    flags: 0x1_0001,
                },
            )
            &&& next.pending() == Some(
                if is_there {
                    Request::<Seq<u8>>::ResumeThread { handle: handles[0] }
                } else if index + 1 < handles.len() {
                    Request::<Seq<u8>>::ThreadContext { handle: handles[index + 1], flags: 0x1_0001 }
                } else if install.mid {
                    Request::<Seq<u8>>::Read { address: install.target, len: install.len }
                } else {
                    Request::<Seq<u8>>::Read { address: install.target, len: 1 }
                },
            )
            &&& is_there <==> next.stage is BackOff
        }),
{
}

/// Letting the threads go resumes each and closes its handle, one after the other. Then a
/// millisecond passes, and the threads are looked for again, from the question which process
/// and thread this is.
pub proof fn law_back_off_request_by_request(install: InstallModel, index: usize)
    requires
        install.stage is BackOff,
        install.threads.stage == (ThreadStage::Resume { index }),
        index < install.threads.handles.len() <= usize::MAX,
    ensures
        ({
            let handles = install.threads.handles;
            let handle = handles[index as int];
            let second = install.resumed(Reply::Done);
            let third = second.resumed(Reply::Done);
            &&& install.pending() == Some(Request::<Seq<u8>>::ResumeThread { handle })
            &&& second.pending() == Some(Request::<Seq<u8>>::CloseHandle { handle })
            &&& third.pending() == Some(
                if index + 1 < handles.len() {
                    Request::<Seq<u8>>::ResumeThread { handle: handles[index + 1] }
                } else {
                    Request::<Seq<u8>>::Sleep { millis: 1 }
                },
            )
            &&& index + 1 == handles.len() ==> third.resumed(Reply::Done).pending() == Some(
                Request::<Seq<u8>>::CurrentIds,
            )
        }),
{
}

/// Each model holds what is held by what it is a model of.
pub proof fn law_models_hold_the_same(
    install: Install,
    patch: Patch,
    threads: SuspendThreads,
    remove: Remove,
    removal: Removal,
    hooks: HookList,
)
    ensures
        install@.target == install.target,
        install@.detour == install.detour,
        install@.mid == install.mid,
        install@.len == install.len,
        install@.instructions == code::parts_of(install.instructions@),
        install@.threads == install.threads@,
        install.patch is Some <==> install@.patch is Some,
        install.patch is Some ==> install@.patch->0 == install.patch->0@,
        install@.stage == install.stage,
        patch@.target == patch.target,
        patch@.detour == patch.detour,
        patch@.len == patch.len,
        patch@.kind == patch.kind,
        patch@.instructions == code::parts_of(patch.instructions@),
        patch@.original == patch.original@,
        patch@.stage == patch.stage,
        threads@.handles == threads.handles@,
        threads@.stage == threads.stage,
        remove@.hook == remove.hook@,
        remove@.stage == remove.stage,
        removal@.rest == registry::models(removal.rest@),
        removal@.twice == removal.twice,
        removal@.retry == removal.retry,
        removal.current is Some <==> removal@.current is Some,
        removal.current is Some ==> removal@.current->0 == removal.current->0@,
        hooks@ == registry::models(hooks.hooks@),
{
}

/// An installation begins with the code at its target, and gives threads that are in the way
/// one millisecond to leave.
pub proof fn law_installation_begins_with_the_code(target: u32, detour: u32, mid: bool)
    ensures
        InstallModel::start(target, detour, mid).pending() == Some(
            Request::<Seq<u8>>::Read { address: target, len: 64 },
        ),
        forall|install: InstallModel| #[trigger]
            install.pending() is Some && install.stage is Sleep ==> install.pending()->0 == (
            Request::<Seq<u8>>::Sleep { millis: 1 }),
{
}

} // verus!
