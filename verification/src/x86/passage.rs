//! Where a thread gets to that comes to a hooked target.

use vstd::prelude::*;

use crate::system;
use crate::system::World;
use crate::word;
use crate::x86::code;
use crate::x86::details::Hook;
use crate::x86::effect;
use crate::x86::processor;
use crate::x86::processor::{Instruction, Machine};
use crate::x86::prologue;
use crate::x86::resume;

verus! {

/// Whether a range still holds what it holds in the process `now`, whatever has changed
/// elsewhere.
pub open spec fn still_holds(
    memory: spec_fn(u32) -> u8,
    now: World,
    address: u32,
    len: nat,
) -> bool {
    system::load(memory, address, len) == system::load(now.memory, address, len)
}

/// The bytes that a jump is put into place with are at the target.
proof fn lemma_jump_in_place(
    target: u32,
    detour: u32,
    mid: bool,
    hook: Hook,
    before: World,
    now: World,
)
    requires
        effect::in_place(target, detour, mid, hook, before, now),
        hook.is_jmp,
    ensures
        ({
            let to = if mid {
                hook.alloc_addr
            } else {
                detour
            };
            let patched = system::load(now.memory, target, hook.orig_bytes.len());
            &&& patched.len() >= 5
            &&& resume::has_instruction(
                patched,
                0,
                Instruction::Jump(code::displacement(target, to)),
            )
        }),
{
    let parts = effect::displaced_at(before, target)->0;
    let len = code::joined(parts).len();
    let window = system::load(before.memory, target, prologue::WINDOW_LEN as nat);
    let to = if mid {
        hook.alloc_addr
    } else {
        detour
    };
    let jump = code::jump_patch(target, to, len);
    let moved = system::store(
        before.memory,
        hook.alloc_addr,
        effect::block(parts, target, detour, mid, hook.alloc_addr),
    );
    prologue::law_displaced_instructions_are_the_start_of_the_code(window);
    code::law_patched_target_continues_at_the_detour(target, to, len);
    system::law_written_data_reads_back(moved, target, jump);
    assert(jump.subrange(0, 5) =~= Instruction::Jump(code::displacement(target, to)).bytes());
}

/// A thread that comes to a target with a jump in place of its instructions goes on at the
/// code of the hook, if it is a mid-function hook, and else at the detour. Nothing else
/// changes.
pub proof fn law_thread_leaves_a_hooked_target(
    target: u32,
    detour: u32,
    mid: bool,
    hook: Hook,
    before: World,
    now: World,
    machine: Machine,
    after: Machine,
)
    requires
        effect::in_place(target, detour, mid, hook, before, now),
        hook.is_jmp,
        machine.registers.eip == target,
        still_holds(machine.memory, now, target, hook.orig_bytes.len()),
        machine.steps_to(after),
    ensures
        after == machine.with_eip(
            if mid {
                hook.alloc_addr
            } else {
                detour
            },
        ),
{
    let to = if mid {
        hook.alloc_addr
    } else {
        detour
    };
    let patched = system::load(now.memory, target, hook.orig_bytes.len());
    lemma_jump_in_place(target, detour, mid, hook, before, now);
    assert(processor::has_bytes(machine.memory, target, patched)) by {
        reveal(processor::has_bytes);
    }
    resume::lemma_jump(machine, after, target, patched, 0, target, to);
}

/// A thread that comes to a call that an inline hook replaced calls the detour: it goes on
/// there, with the address after the call on its stack. Nothing else changes.
pub proof fn law_thread_calls_the_detour(
    target: u32,
    detour: u32,
    hook: Hook,
    before: World,
    now: World,
    machine: Machine,
    after: Machine,
)
    requires
        effect::in_place(target, detour, false, hook, before, now),
        !hook.is_jmp,
        machine.registers.eip == target,
        still_holds(machine.memory, now, target, hook.orig_bytes.len()),
        machine.steps_to(after),
    ensures
        after == machine.pushed(seq![word::wrap(target + code::BRANCH_LEN)]).with_eip(detour),
{
    let instruction = Instruction::Call(code::displacement(target, detour));
    let patched = system::load(now.memory, target, hook.orig_bytes.len());
    lemma_call_in_place(target, detour, hook, before, now);
    assert(processor::has_bytes(machine.memory, target, patched)) by {
        reveal(processor::has_bytes);
    }
    processor::lemma_step(machine, after, target, patched, 0, instruction);
    lemma_called(machine, after, target, detour);
}

/// The bytes that a call is replaced with are at the target.
proof fn lemma_call_in_place(target: u32, detour: u32, hook: Hook, before: World, now: World)
    requires
        effect::in_place(target, detour, false, hook, before, now),
        !hook.is_jmp,
    ensures
        ({
            let patched = system::load(now.memory, target, hook.orig_bytes.len());
            &&& patched.len() == 5
            &&& resume::has_instruction(
                patched,
                0,
                Instruction::Call(code::displacement(target, detour)),
            )
        }),
{
    let call = code::branch(code::CALL, target, detour);
    code::law_branch_leads_to_its_target(code::CALL, target, detour);
    system::law_written_data_reads_back(before.memory, target, call);
    assert(call.subrange(0, 5) =~= Instruction::Call(
        code::displacement(target, detour),
    ).bytes());
}

proof fn lemma_called(machine: Machine, after: Machine, target: u32, detour: u32)
    requires
        machine.registers.eip == target,
        machine.performs(Instruction::Call(code::displacement(target, detour)), after),
    ensures
        after == machine.pushed(seq![word::wrap(target + code::BRANCH_LEN)]).with_eip(detour),
{
    let next = machine.past(5);
    assert(after == next.pushed(seq![next.registers.eip]).with_eip(detour)) by {
        reveal(Machine::performs);
    }
}

/// A thread that has run the displaced instructions in a trampoline, whatever they did to
/// registers and stack, goes on after them in the function. Nothing else changes.
pub proof fn law_thread_leaves_a_trampoline(
    target: u32,
    detour: u32,
    hook: Hook,
    before: World,
    now: World,
    machine: Machine,
    after: Machine,
)
    requires
        effect::in_place(target, detour, false, hook, before, now),
        hook.is_jmp,
        processor::has_bytes(
            machine.memory,
            hook.alloc_addr,
            effect::block(
                effect::displaced_at(before, target)->0,
                target,
                detour,
                false,
                hook.alloc_addr,
            ),
        ),
        machine.registers.eip == word::wrap(hook.alloc_addr + hook.orig_bytes.len()),
        machine.steps_to(after),
    ensures
        after == machine.with_eip(word::wrap(target + hook.orig_bytes.len())),
{
    let parts = effect::displaced_at(before, target)->0;
    let len = code::joined(parts).len();
    let code = code::trampoline(parts, target, hook.alloc_addr, len);
    let from = word::wrap(hook.alloc_addr + len);
    let to = word::wrap(target + len);
    code::law_relocation_keeps_the_total_length(parts, target, hook.alloc_addr);
    assert(code.subrange(len as int, len as int + 5) =~= Instruction::Jump(
        code::displacement(from, to),
    ).bytes());
    resume::lemma_jump(machine, after, hook.alloc_addr, code, len as int, from, to);
}

/// A thread that comes to the target of a mid-function hook that is in place, where the
/// target was in use and the stack is apart from the code of the hook, gets to the detour
/// with its registers in memory, field after field, and their address as the argument. As
/// instruction pointer they hold the address after the displaced instructions.
pub proof fn law_mid_hooked_target_leads_to_the_detour(
    target: u32,
    detour: u32,
    hook: Hook,
    before: World,
    now: World,
    trace: Seq<Machine>,
)
    requires
        effect::in_place(target, detour, true, hook, before, now),
        forall|at: u32| #[trigger]
            system::within(at, target, hook.orig_bytes.len()) ==> (before.mapped)(at),
        trace.len() == 10,
        processor::is_trace(trace),
        trace[0].registers.eip == target,
        ({
            let parts = effect::displaced_at(before, target)->0;
            let code = effect::block(parts, target, detour, true, hook.alloc_addr);
            &&& still_holds(trace[0].memory, now, target, hook.orig_bytes.len())
            &&& still_holds(trace[0].memory, now, hook.alloc_addr, code.len())
            &&& system::apart(
                word::wrap(trace[0].registers.esp - processor::STACK_ROOM),
                processor::STACK_ROOM as nat,
                hook.alloc_addr,
                code.len(),
            )
        }),
    ensures
        processor::is_called(
            trace[0].registers,
            trace[0].memory,
            trace[9],
            detour,
            word::wrap(target + hook.orig_bytes.len()),
            hook.alloc_addr,
            effect::block(
                effect::displaced_at(before, target)->0,
                target,
                detour,
                true,
                hook.alloc_addr,
            ),
        ),
{
    let parts = effect::displaced_at(before, target)->0;
    let len = code::joined(parts).len();
    assert(trace[0].steps_to(trace[1]));
    law_thread_leaves_a_hooked_target(
        target,
        detour,
        true,
        hook,
        before,
        now,
        trace[0],
        trace[1],
    );
    effect::law_installed_hook_takes_effect(target, detour, true, hook, before, now);
    assert(processor::has_bytes(
        trace[1].memory,
        hook.alloc_addr,
        code::mid_code(parts, target, detour, hook.alloc_addr, len),
    )) by {
        reveal(processor::has_bytes);
    }
    let rest = trace.skip(1);
    assert forall|i: int, j: int| 0 <= i < j < rest.len() && j == i + 1 implies (
    #[trigger] rest[i].steps_to(rest[j])) by {
        assert(trace[i + 1].steps_to(trace[j + 1]));
    }
    processor::law_detour_gets_the_registers(
        parts,
        target,
        detour,
        hook.alloc_addr,
        len,
        rest,
    );
}

} // verus!
