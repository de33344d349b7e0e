//! Hooks on top of each other.

use vstd::prelude::*;

use crate::system;
use crate::system::World;
use crate::word;
use crate::x86::code;
use crate::x86::details::Hook;
use crate::x86::effect;
use crate::x86::passage;
use crate::x86::prologue;

verus! {

/// The code that an inline hook finds at a target where there is one already: the branch to
/// the older detour.
proof fn lemma_branch_found(
    target: u32,
    detour: u32,
    hook: Hook,
    before: World,
    now: World,
    later: World,
)
    requires
        effect::in_place(target, detour, false, hook, before, now),
        passage::still_holds(later.memory, now, target, hook.orig_bytes.len()),
        forall|at: u32| #[trigger]
            system::within(at, target, hook.orig_bytes.len()) ==> (before.mapped)(at),
    ensures
        ({
            let opcode = if effect::replaces_call(before, target) {
                code::CALL
            } else {
                code::JMP
            };
            &&& hook.orig_bytes.len() >= code::BRANCH_LEN
            &&& system::load(later.memory, target, 5) == code::branch(opcode, target, detour)
        }),
{
    let parts = effect::displaced_at(before, target)->0;
    let len = code::joined(parts).len();
    let window = system::load(before.memory, target, prologue::WINDOW_LEN as nat);
    let patched = system::load(now.memory, target, len);
    let five = system::load(later.memory, target, 5);
    prologue::law_displaced_instructions_are_the_start_of_the_code(window);
    assert forall|i: int| 0 <= i < 5 implies five[i] == patched[i] by {
        assert(five[i] == system::load(later.memory, target, len)[i]);
    }
    if hook.is_jmp {
        let block = effect::block(parts, target, detour, false, hook.alloc_addr);
        let moved = system::store(before.memory, hook.alloc_addr, block);
        let jump = code::jump_patch(target, detour, len);
        code::law_patched_target_continues_at_the_detour(target, detour, len);
        system::law_written_data_reads_back(moved, target, jump);
        assert(five =~= code::branch(code::JMP, target, detour));
    } else {
        let call = code::branch(code::CALL, target, detour);
        code::law_branch_leads_to_its_target(code::CALL, target, detour);
        system::law_written_data_reads_back(before.memory, target, call);
        assert(five =~= call);
    }
}

/// A lone branch, relocated.
proof fn lemma_lone_branch(target: u32, detour: u32, address: u32)
    ensures
        ({
            let jump = code::branch(code::JMP, target, detour);
            let code = code::trampoline(seq![jump], target, address, 5);
            &&& code.len() == 10
            &&& code.take(5) == code::branch(code::JMP, address, detour)
        }),
{
    let jump = code::branch(code::JMP, target, detour);
    let parts = seq![jump];
    let code = code::trampoline(parts, target, address, 5);
    code::law_branch_leads_to_its_target(code::JMP, target, detour);
    reveal_with_fuel(code::joined, 2);
    reveal_with_fuel(code::relocated_all, 2);
    assert(parts.drop_last() =~= Seq::empty());
    assert(code::joined(parts) =~= jump);
    assert(word::wrap(target + 0) == target && word::wrap(address + 0) == address);
    let moved = code::relocated(jump, target, address);
    assert(code::relocated_all(parts, target, address) =~= moved);
    assert(moved =~= code::branch(code::JMP, address, detour));
    code::law_trampoline_returns_after_the_patch(parts, target, address, 5);
    assert(code.take(5) =~= moved);
}

/// Inline hooks on one target chain, newest first: the target leads to the newer detour, and
/// the address that the newer hook gives leads to the older one. It is the older detour
/// itself where the target was a lone call, and else a near jump to it. What happened to the
/// process in between does not matter, as long as the older hook is still there.
pub proof fn law_inline_hooks_chain(
    target: u32,
    older_detour: u32,
    older: Hook,
    before: World,
    between: World,
    newer_detour: u32,
    newer: Hook,
    later: World,
    now: World,
)
    requires
        effect::in_place(target, older_detour, false, older, before, between),
        passage::still_holds(later.memory, between, target, older.orig_bytes.len()),
        effect::in_place(target, newer_detour, false, newer, later, now),
        forall|at: u32| #[trigger]
            system::within(at, target, older.orig_bytes.len()) ==> (before.mapped)(at) && (
            later.mapped)(at),
        prologue::stands_alone(
            system::load(later.memory, target, prologue::WINDOW_LEN as nat),
        ),
    ensures
        ({
            let patched = system::load(now.memory, target, newer.orig_bytes.len());
            let first = system::load(now.memory, newer.alloc_addr, 5);
            &&& code::is_near_branch(patched)
            &&& code::branch_target(patched, target) == newer_detour
            &&& newer.is_jmp == !effect::replaces_call(before, target)
            &&& if effect::replaces_call(before, target) {
                newer.alloc_addr == older_detour
            } else {
                &&& first[0] == code::JMP
                &&& code::is_near_branch(first)
                &&& code::branch_target(first, newer.alloc_addr) == older_detour
            }
        }),
{
    let window = system::load(later.memory, target, prologue::WINDOW_LEN as nat);
    let opcode = if effect::replaces_call(before, target) {
        code::CALL
    } else {
        code::JMP
    };
    let found = code::branch(opcode, target, older_detour);
    lemma_branch_found(target, older_detour, older, before, between, later);
    code::law_branch_leads_to_its_target(opcode, target, older_detour);
    assert(window.take(5) =~= system::load(later.memory, target, 5));
    assert(window[0] == found[0]) by {
        assert(window.take(5)[0] == found[0]);
    }
    let parts = effect::displaced_at(later, target)->0;
    assert(parts == seq![found]);
    assert(code::joined(parts) =~= found) by {
        reveal_with_fuel(code::joined, 2);
        assert(parts.drop_last() =~= Seq::empty());
    }
    assert((later.memory)(target) == found[0]) by {
        assert(word::wrap(target + 0) == target);
        assert(window[0] == (later.memory)(word::wrap(target + 0)));
    }
    assert(effect::replaces_call(later, target) == (opcode == code::CALL));
    assert forall|at: u32| #[trigger]
        system::within(at, target, newer.orig_bytes.len()) implies (later.mapped)(at) by {
        assert(system::within(at, target, older.orig_bytes.len()));
    }
    effect::law_installed_hook_takes_effect(target, newer_detour, false, newer, later, now);
    if opcode == code::JMP {
        let address = newer.alloc_addr;
        let block = effect::block(parts, target, newer_detour, false, address);
        lemma_lone_branch(target, older_detour, address);
        code::law_branch_leads_to_its_target(code::JMP, address, older_detour);
        let first = system::load(now.memory, address, 5);
        assert(first =~= system::load(now.memory, address, block.len()).take(5));
    }
}

} // verus!
