//! How a thread goes on after the detour of a mid-function hook.

use vstd::prelude::*;

use crate::system;
use crate::word;
use crate::x86::code;
use crate::x86::context::UnsafetyHookContext;
use crate::x86::patch;
use crate::x86::processor;
use crate::x86::processor::{Instruction, Machine};

verus! {

/// Whether a thread is about to run the instruction at an offset of some code at `address`.
pub open spec fn is_at(machine: Machine, address: u32, code: Seq<u8>, offset: int) -> bool {
    &&& processor::has_bytes(machine.memory, address, code)
    &&& machine.registers.eip == word::wrap(address + offset)
}

/// Whether some code has an instruction at an offset.
pub open spec fn has_instruction(code: Seq<u8>, offset: int, instruction: Instruction) -> bool {
    let len = instruction.bytes().len();
    &&& 0 <= offset
    &&& offset + len <= code.len()
    &&& code.subrange(offset, offset + len) == instruction.bytes()
}

/// Whether registers are those of a context, but for the instruction pointer and for the
/// flags that a program cannot change.
pub open spec fn are_taken_over(
    registers: UnsafetyHookContext,
    context: UnsafetyHookContext,
) -> bool {
    &&& registers == (UnsafetyHookContext {
        eip: registers.eip,
        eflags: registers.eflags,
        ..context
    })
    &&& registers.eflags.bits & processor::POPPED_FLAGS == context.eflags.bits
        & processor::POPPED_FLAGS
}

/// The registers that `popad` gets from a context on top of the stack.
proof fn lemma_all_popped(machine: Machine, context: UnsafetyHookContext)
    requires
        processor::has_context(machine.memory, machine.registers.esp, context),
    ensures
        machine.with_all_popped().registers == (UnsafetyHookContext {
            esp: word::wrap(machine.registers.esp + 32),
            eflags: machine.registers.eflags,
            eip: machine.registers.eip,
            ..context
        }),
{
    let esp = machine.registers.esp;
    let words = processor::words_of(context);
    processor::lemma_packed_word(machine.memory, esp, words, 0);
    processor::lemma_packed_word(machine.memory, esp, words, 1);
    processor::lemma_packed_word(machine.memory, esp, words, 2);
    processor::lemma_packed_word(machine.memory, esp, words, 4);
    processor::lemma_packed_word(machine.memory, esp, words, 5);
    processor::lemma_packed_word(machine.memory, esp, words, 6);
    processor::lemma_packed_word(machine.memory, esp, words, 7);
}

/// An instruction that is at its place is performed, and the next is reached.
proof fn lemma_run(
    before: Machine,
    after: Machine,
    address: u32,
    code: Seq<u8>,
    offset: int,
    instruction: Instruction,
)
    requires
        before.steps_to(after),
        is_at(before, address, code, offset),
        has_instruction(code, offset, instruction),
    ensures
        before.performs(instruction, after),
        before.past(instruction.bytes().len()).registers.eip == word::wrap(
            address + offset + instruction.bytes().len(),
        ),
{
    processor::lemma_step(before, after, address, code, offset, instruction);
}

/// The stack pointer that the detour left gets into `eax`.
proof fn lemma_get_esp(
    before: Machine,
    after: Machine,
    address: u32,
    code: Seq<u8>,
    offset: int,
    context: UnsafetyHookContext,
)
    requires
        before.steps_to(after),
        is_at(before, address, code, offset),
        has_instruction(code, offset, Instruction::StackedToEax(12)),
        processor::has_context(before.memory, before.registers.esp, context),
    ensures
        after == before.with_eax(context.esp).with_eip(word::wrap(address + offset + 4)),
{
    let words = processor::words_of(context);
    lemma_run(before, after, address, code, offset, Instruction::StackedToEax(12));
    processor::lemma_packed_word(before.memory, before.registers.esp, words, 3);
    reveal(Machine::performs);
}

/// It is put where the instruction pointer was.
proof fn lemma_put_esp(
    before: Machine,
    after: Machine,
    address: u32,
    code: Seq<u8>,
    offset: int,
    context: UnsafetyHookContext,
)
    requires
        before.steps_to(after),
        is_at(before, address, code, offset),
        has_instruction(code, offset, Instruction::EaxToStacked(36)),
        code.len() <= 0x1_0000_0000,
        processor::has_context(before.memory, before.registers.esp, context),
        before.registers.eax == context.esp,
        system::apart(
            before.registers.esp,
            processor::CONTEXT_LEN as nat,
            address,
            code.len(),
        ),
    ensures
        after.registers == before.with_eip(word::wrap(address + offset + 4)).registers,
        processor::has_context(
            after.memory,
            before.registers.esp,
            UnsafetyHookContext { eip: context.esp, ..context },
        ),
        is_at(after, address, code, offset + 4),
        processor::is_same_outside(
            before.memory,
            after.memory,
            before.registers.esp,
            processor::CONTEXT_LEN as nat,
        ),
{
    let esp = before.registers.esp;
    let place = word::wrap(esp + 36);
    let words = processor::words_of(context);
    let turned = UnsafetyHookContext { eip: context.esp, ..context };
    lemma_run(before, after, address, code, offset, Instruction::EaxToStacked(36));
    assert(after == before.past(4).with_word(place, context.esp)) by {
        reveal(Machine::performs);
    }
    processor::lemma_replaced_word(before.memory, esp, words, 9, context.esp);
    assert(words.update(9, context.esp) =~= processor::words_of(turned));
    assert forall|at: u32|
        !#[trigger] system::within(at, esp, processor::CONTEXT_LEN as nat) implies (after.memory)(
        at,
    ) == (before.memory)(at) by {
        assert(!system::within(at, place, 4));
    }
    processor::lemma_kept(
        before.memory,
        after.memory,
        esp,
        processor::CONTEXT_LEN as nat,
        address,
        code,
    );
}

/// The general-purpose registers are taken over.
proof fn lemma_pop_all(
    before: Machine,
    after: Machine,
    address: u32,
    code: Seq<u8>,
    offset: int,
    context: UnsafetyHookContext,
)
    requires
        before.steps_to(after),
        is_at(before, address, code, offset),
        has_instruction(code, offset, Instruction::PopAll),
        processor::has_context(before.memory, before.registers.esp, context),
    ensures
        after.memory == before.memory,
        after.registers == (UnsafetyHookContext {
            esp: word::wrap(before.registers.esp + 32),
            eflags: before.registers.eflags,
            eip: word::wrap(address + offset + 1),
            ..context
        }),
{
    lemma_run(before, after, address, code, offset, Instruction::PopAll);
    lemma_all_popped(before.past(1), context);
    reveal(Machine::performs);
}

/// The flags are taken over.
proof fn lemma_pop_flags(
    before: Machine,
    after: Machine,
    address: u32,
    code: Seq<u8>,
    offset: int,
    place: u32,
    context: UnsafetyHookContext,
)
    requires
        before.steps_to(after),
        is_at(before, address, code, offset),
        has_instruction(code, offset, Instruction::PopFlags),
        before.registers.esp == word::wrap(place + 32),
        processor::has_context(before.memory, place, context),
    ensures
        after.memory == before.memory,
        after.registers == (UnsafetyHookContext {
            esp: word::wrap(place + 36),
            eflags: after.registers.eflags,
            eip: word::wrap(address + offset + 1),
            ..before.registers
        }),
        after.registers.eflags.bits & processor::POPPED_FLAGS == context.eflags.bits
            & processor::POPPED_FLAGS,
{
    let words = processor::words_of(context);
    lemma_run(before, after, address, code, offset, Instruction::PopFlags);
    processor::lemma_packed_word(before.memory, place, words, 8);
    word::law_steps_add_up(place as int, 32, 0);
    word::law_steps_add_up(place as int, 32, 4);
    reveal(Machine::performs);
}

/// The stack pointer is taken over.
proof fn lemma_pop_esp(
    before: Machine,
    after: Machine,
    address: u32,
    code: Seq<u8>,
    offset: int,
    place: u32,
    context: UnsafetyHookContext,
)
    requires
        before.steps_to(after),
        is_at(before, address, code, offset),
        has_instruction(code, offset, Instruction::PopEsp),
        before.registers.esp == word::wrap(place + 36),
        processor::has_context(before.memory, place, context),
    ensures
        after.memory == before.memory,
        after.registers == (UnsafetyHookContext {
            esp: context.eip,
            eip: word::wrap(address + offset + 1),
            ..before.registers
        }),
{
    let words = processor::words_of(context);
    lemma_run(before, after, address, code, offset, Instruction::PopEsp);
    processor::lemma_packed_word(before.memory, place, words, 9);
    word::law_steps_add_up(place as int, 36, 0);
    reveal(Machine::performs);
}

/// Whether some code, at an offset, takes the registers over.
pub open spec fn restores(code: Seq<u8>, offset: int) -> bool {
    &&& has_instruction(code, offset, Instruction::StackedToEax(12))
    &&& has_instruction(code, offset + 4, Instruction::EaxToStacked(36))
    &&& has_instruction(code, offset + 8, Instruction::PopAll)
    &&& has_instruction(code, offset + 9, Instruction::PopFlags)
    &&& has_instruction(code, offset + 10, Instruction::PopEsp)
}

/// Code that takes the registers over does.
proof fn lemma_restore(
    code: Seq<u8>,
    address: u32,
    offset: int,
    context: UnsafetyHookContext,
    trace: Seq<Machine>,
    i: int,
)
    requires
        is_trace_from(trace, i, 5),
        restores(code, offset),
        code.len() <= 0x1_0000_0000,
        is_at(trace[i], address, code, offset),
        processor::has_context(trace[i].memory, trace[i].registers.esp, context),
        system::apart(
            trace[i].registers.esp,
            processor::CONTEXT_LEN as nat,
            address,
            code.len(),
        ),
    ensures
        is_at(trace[i + 5], address, code, offset + 11),
        are_taken_over(trace[i + 5].registers, context),
        processor::is_same_outside(
            trace[i].memory,
            trace[i + 5].memory,
            trace[i].registers.esp,
            processor::CONTEXT_LEN as nat,
        ),
{
    let place = trace[i].registers.esp;
    let turned = UnsafetyHookContext { eip: context.esp, ..context };
    let (a, b, c, d, e, f) = (
        trace[i],
        trace[i + 1],
        trace[i + 2],
        trace[i + 3],
        trace[i + 4],
        trace[i + 5],
    );
    assert(a.steps_to(b) && b.steps_to(c) && c.steps_to(d) && d.steps_to(e) && e.steps_to(f));
    lemma_get_esp(a, b, address, code, offset, context);
    lemma_put_esp(b, c, address, code, offset + 4, context);
    lemma_pop_all(c, d, address, code, offset + 8, turned);
    lemma_pop_flags(d, e, address, code, offset + 9, place, turned);
    lemma_pop_esp(e, f, address, code, offset + 10, place, turned);
}

/// Whether a thread runs `count` instructions from the state at `i` on.
pub open spec fn is_trace_from(trace: Seq<Machine>, i: int, count: int) -> bool {
    &&& 0 <= i
    &&& i + count < trace.len()
    &&& processor::is_trace(trace)
}

/// What the detour was called with is dropped.
proof fn lemma_drop_argument(
    before: Machine,
    after: Machine,
    address: u32,
    code: Seq<u8>,
    place: u32,
)
    requires
        before.steps_to(after),
        is_at(before, address, code, 22),
        has_instruction(code, 22, Instruction::AddEsp(4)),
        before.registers.esp == word::wrap(place - 4),
    ensures
        after.memory == before.memory,
        after.registers.esp == place,
        after.registers.eip == word::wrap(address + 25),
{
    lemma_run(before, after, address, code, 22, Instruction::AddEsp(4));
    reveal(Machine::performs);
}

/// The instruction pointer is compared.
proof fn lemma_compare(
    before: Machine,
    after: Machine,
    address: u32,
    code: Seq<u8>,
    resume: u32,
    context: UnsafetyHookContext,
)
    requires
        before.steps_to(after),
        is_at(before, address, code, 25),
        has_instruction(code, 25, Instruction::CompareStacked(36, resume)),
        processor::has_context(before.memory, before.registers.esp, context),
    ensures
        after.memory == before.memory,
        after.registers.esp == before.registers.esp,
        after.registers.eip == word::wrap(address + 33),
        processor::is_zero(after.registers.eflags) == (context.eip == resume),
{
    let words = processor::words_of(context);
    let compare = Instruction::CompareStacked(36, resume);
    assert(compare.bytes().len() == 8);
    lemma_run(before, after, address, code, 25, compare);
    processor::lemma_packed_word(before.memory, before.registers.esp, words, 9);
    reveal(Machine::performs);
}

/// Where it was changed, some code is skipped.
proof fn lemma_skip(before: Machine, after: Machine, address: u32, code: Seq<u8>, skip: u32)
    requires
        before.steps_to(after),
        is_at(before, address, code, 33),
        has_instruction(code, 33, Instruction::JumpUnlessEqual(skip)),
    ensures
        after.memory == before.memory,
        after.registers.esp == before.registers.esp,
        after.registers.eip == if processor::is_zero(before.registers.eflags) {
            word::wrap(address + 39)
        } else {
            word::wrap(address + 39 + skip)
        },
{
    let jump = Instruction::JumpUnlessEqual(skip);
    assert(jump.bytes().len() == 6);
    lemma_run(before, after, address, code, 33, jump);
    word::law_steps_add_up(address as int, 39, skip as int);
    reveal(Machine::performs);
}

/// Whether some code, behind the call of the detour, finds out whether the instruction
/// pointer was changed.
pub open spec fn tests(code: Seq<u8>, resume: u32, skip: u32) -> bool {
    &&& has_instruction(code, 22, Instruction::AddEsp(4))
    &&& has_instruction(code, 25, Instruction::CompareStacked(36, resume))
    &&& has_instruction(code, 33, Instruction::JumpUnlessEqual(skip))
}

/// Code that finds out whether the instruction pointer was changed does.
proof fn lemma_test(
    code: Seq<u8>,
    address: u32,
    resume: u32,
    skip: u32,
    place: u32,
    context: UnsafetyHookContext,
    trace: Seq<Machine>,
)
    requires
        is_trace_from(trace, 0, 3),
        tests(code, resume, skip),
        is_at(trace[0], address, code, 22),
        trace[0].registers.esp == word::wrap(place - 4),
        processor::has_context(trace[0].memory, place, context),
    ensures
        trace[3].memory == trace[0].memory,
        trace[3].registers.esp == place,
        is_at(
            trace[3],
            address,
            code,
            if context.eip == resume {
                39
            } else {
                39 + skip
            },
        ),
{
    let (a, b, c, d) = (trace[0], trace[1], trace[2], trace[3]);
    assert(a.steps_to(b) && b.steps_to(c) && c.steps_to(d));
    lemma_drop_argument(a, b, address, code, place);
    lemma_compare(b, c, address, code, resume, context);
    lemma_skip(c, d, address, code, skip);
}

/// The instruction pointer gets into `eax`.
proof fn lemma_get_eip(
    before: Machine,
    after: Machine,
    address: u32,
    code: Seq<u8>,
    offset: int,
    context: UnsafetyHookContext,
)
    requires
        before.steps_to(after),
        is_at(before, address, code, offset),
        has_instruction(code, offset, Instruction::StackedToEax(36)),
        processor::has_context(before.memory, before.registers.esp, context),
    ensures
        after == before.with_eax(context.eip).with_eip(word::wrap(address + offset + 4)),
{
    let words = processor::words_of(context);
    lemma_run(before, after, address, code, offset, Instruction::StackedToEax(36));
    processor::lemma_packed_word(before.memory, before.registers.esp, words, 9);
    reveal(Machine::performs);
}

/// It is kept in the memory of the hook.
proof fn lemma_keep_eip(
    before: Machine,
    after: Machine,
    address: u32,
    code: Seq<u8>,
    offset: int,
    slot: u32,
    context: UnsafetyHookContext,
)
    requires
        before.steps_to(after),
        is_at(before, address, code, offset),
        has_instruction(code, offset, Instruction::EaxTo(slot)),
        code.len() <= code::SLOT_OFFSET,
        slot == word::wrap(address + code::SLOT_OFFSET),
        processor::has_context(before.memory, before.registers.esp, context),
        system::apart(
            before.registers.esp,
            processor::CONTEXT_LEN as nat,
            address,
            patch::BLOCK_LEN as nat,
        ),
    ensures
        after.registers == before.with_eip(word::wrap(address + offset + 5)).registers,
        is_at(after, address, code, offset + 5),
        processor::has_context(after.memory, before.registers.esp, context),
        processor::word_at(after.memory, slot) == before.registers.eax,
        processor::is_same_outside(before.memory, after.memory, slot, 4),
{
    let esp = before.registers.esp;
    let word = before.registers.eax;
    let keep = Instruction::EaxTo(slot);
    assert(keep.bytes().len() == 5);
    lemma_run(before, after, address, code, offset, keep);
    assert(after == before.past(5).with_word(slot, word)) by {
        reveal(Machine::performs);
    }
    lemma_word_stored(before.memory, slot, word);
    lemma_slot_apart(esp, address, slot, code.len());
    processor::lemma_kept(before.memory, after.memory, slot, 4, address, code);
    processor::lemma_kept(
        before.memory,
        after.memory,
        slot,
        4,
        esp,
        processor::packed(processor::words_of(context)),
    );
}

/// A word that was written can be read, and nothing else has changed.
proof fn lemma_word_stored(memory: spec_fn(u32) -> u8, address: u32, word: u32)
    ensures
        processor::word_at(system::store(memory, address, word::bytes(word)), address) == word,
        processor::is_same_outside(
            memory,
            system::store(memory, address, word::bytes(word)),
            address,
            4,
        ),
{
    reveal(processor::word_at);
    word::law_word_survives_its_bytes(word);
    system::law_written_data_reads_back(memory, address, word::bytes(word));
}

/// The word in the memory of a hook is apart from its code and from the stack.
proof fn lemma_slot_apart(esp: u32, address: u32, slot: u32, len: nat)
    requires
        len <= code::SLOT_OFFSET,
        slot == word::wrap(address + code::SLOT_OFFSET),
        system::apart(
            esp,
            processor::CONTEXT_LEN as nat,
            address,
            patch::BLOCK_LEN as nat,
        ),
    ensures
        system::apart(slot, 4, address, len),
        system::apart(slot, 4, esp, processor::CONTEXT_LEN as nat),
{
    assert forall|at: u32| !(#[trigger] system::within(at, slot, 4) && system::within(
        at,
        address,
        len,
    )) by {
        if system::within(at, slot, 4) {
            lemma_in_slot(address, slot, at);
        }
    }
    assert forall|at: u32| !(#[trigger] system::within(at, slot, 4) && system::within(
        at,
        esp,
        processor::CONTEXT_LEN as nat,
    )) by {
        if system::within(at, slot, 4) {
            lemma_in_slot(address, slot, at);
            assert(system::within(at, address, patch::BLOCK_LEN as nat));
            assert(!system::within(at, esp, processor::CONTEXT_LEN as nat));
        }
    }
}

/// How far into the memory of a hook the word lies.
proof fn lemma_in_slot(address: u32, slot: u32, at: u32)
    requires
        slot == word::wrap(address + code::SLOT_OFFSET),
        system::within(at, slot, 4),
    ensures
        code::SLOT_OFFSET <= system::distance(address, at) < patch::BLOCK_LEN,
{
}

/// Whether some code, at an offset, keeps the instruction pointer and takes the registers
/// over.
pub open spec fn keeps(code: Seq<u8>, offset: int, slot: u32) -> bool {
    &&& has_instruction(code, offset, Instruction::StackedToEax(36))
    &&& has_instruction(code, offset + 4, Instruction::EaxTo(slot))
    &&& restores(code, offset + 9)
}

/// Code that keeps the instruction pointer and takes the registers over does.
proof fn lemma_keep(
    code: Seq<u8>,
    address: u32,
    offset: int,
    slot: u32,
    context: UnsafetyHookContext,
    trace: Seq<Machine>,
    i: int,
)
    requires
        is_trace_from(trace, i, 7),
        keeps(code, offset, slot),
        code.len() <= code::SLOT_OFFSET,
        slot == word::wrap(address + code::SLOT_OFFSET),
        is_at(trace[i], address, code, offset),
        processor::has_context(trace[i].memory, trace[i].registers.esp, context),
        system::apart(
            trace[i].registers.esp,
            processor::CONTEXT_LEN as nat,
            address,
            patch::BLOCK_LEN as nat,
        ),
    ensures
        is_at(trace[i + 7], address, code, offset + 20),
        are_taken_over(trace[i + 7].registers, context),
        processor::word_at(trace[i + 7].memory, slot) == context.eip,
        forall|at: u32|
            !#[trigger] system::within(
                at,
                trace[i].registers.esp,
                processor::CONTEXT_LEN as nat,
            ) && !system::within(at, slot, 4) ==> (trace[i + 7].memory)(at) == (
            trace[i].memory)(at),
{
    let esp = trace[i].registers.esp;
    let (a, b, c, d) = (trace[i], trace[i + 1], trace[i + 2], trace[i + 7]);
    assert(a.steps_to(b) && b.steps_to(c));
    lemma_get_eip(a, b, address, code, offset, context);
    lemma_keep_eip(b, c, address, code, offset + 4, slot, context);
    lemma_apart_from_code(esp, address, code.len());
    lemma_restore(code, address, offset + 9, context, trace, i + 2);
    lemma_slot_kept(c.memory, d.memory, esp, address, slot);
}

/// What is apart from the memory of a hook is apart from its code.
proof fn lemma_apart_from_code(esp: u32, address: u32, len: nat)
    requires
        len <= patch::BLOCK_LEN,
        system::apart(
            esp,
            processor::CONTEXT_LEN as nat,
            address,
            patch::BLOCK_LEN as nat,
        ),
    ensures
        system::apart(esp, processor::CONTEXT_LEN as nat, address, len),
{
    assert forall|at: u32| !(#[trigger] system::within(at, esp, processor::CONTEXT_LEN as nat)
        && system::within(at, address, len)) by {
        if system::within(at, address, len) {
            assert(system::within(at, address, patch::BLOCK_LEN as nat));
        }
    }
}

/// What changes on the stack alone leaves what is kept in the memory of a hook.
proof fn lemma_slot_kept(
    before: spec_fn(u32) -> u8,
    after: spec_fn(u32) -> u8,
    esp: u32,
    address: u32,
    slot: u32,
)
    requires
        slot == word::wrap(address + code::SLOT_OFFSET),
        processor::is_same_outside(before, after, esp, processor::CONTEXT_LEN as nat),
        system::apart(
            esp,
            processor::CONTEXT_LEN as nat,
            address,
            patch::BLOCK_LEN as nat,
        ),
    ensures
        processor::word_at(after, slot) == processor::word_at(before, slot),
{
    reveal(processor::word_at);
    let (old, new) = (system::load(before, slot, 4), system::load(after, slot, 4));
    assert forall|i: int| 0 <= i < 4 implies old[i] == new[i] by {
        let at = word::wrap(slot + i);
        word::law_steps_add_up(address as int, code::SLOT_OFFSET as int, i);
        assert(system::distance(address, at) == code::SLOT_OFFSET + i);
        assert(system::within(at, address, patch::BLOCK_LEN as nat));
        assert(!system::within(at, esp, processor::CONTEXT_LEN as nat));
    }
    assert(old =~= new);
}

/// The instructions of a mid-function hook behind the call of its detour.
proof fn lemma_mid_code_returns(
    parts: Seq<Seq<u8>>,
    target: u32,
    detour: u32,
    address: u32,
    len: nat,
)
    ensures
        ({
            let code = code::mid_code(parts, target, detour, address, len);
            let size = code::joined(parts).len() as int;
            let resume = word::wrap(target + len);
            let slot = word::wrap(address + code::SLOT_OFFSET);
            let end = word::wrap(address + code::COPY_OFFSET + size);
            &&& code.len() == 81 + 2 * size
            &&& tests(code, resume, word::wrap(16 + size))
            &&& restores(code, 39)
            &&& has_instruction(
                code,
                50 + size,
                Instruction::Jump(code::displacement(end, resume)),
            )
            &&& keeps(code, 55 + size, slot)
            &&& has_instruction(code, 75 + 2 * size, Instruction::JumpTo(slot))
        }),
{
    let code = code::mid_code(parts, target, detour, address, len);
    let size = code::joined(parts).len() as int;
    let resume = word::wrap(target + len);
    let slot = word::wrap(address + code::SLOT_OFFSET);
    let end = word::wrap(address + code::COPY_OFFSET + size);
    let skip = word::wrap(16 + size);
    code::law_mid_code_holds_the_displaced_instructions(parts, target, detour, address, len);
    code::law_relocation_keeps_the_total_length(
        parts,
        target,
        word::wrap(address + code::COPY_OFFSET),
    );
    code::law_relocation_keeps_the_total_length(
        parts,
        target,
        word::wrap(address + code::changed_copy(size as nat)),
    );
    assert(code.subrange(22, 39) =~= code::test(resume, skip));
    lemma_test_instructions(code, resume, skip);
    assert(code.subrange(39, 50) =~= code::restore());
    lemma_restore_instructions(code, 39);
    assert(code.subrange(50 + size, 55 + size) =~= Instruction::Jump(
        code::displacement(end, resume),
    ).bytes());
    assert(code.subrange(55 + size, 64 + size) =~= code::keep(slot));
    lemma_keep_instructions(code, 55 + size, slot);
    assert(code.subrange(64 + size, 75 + size) =~= code::restore());
    lemma_restore_instructions(code, 64 + size);
    assert(code.subrange(75 + 2 * size, 81 + 2 * size) =~= Instruction::JumpTo(slot).bytes());
}

proof fn lemma_test_instructions(code: Seq<u8>, resume: u32, skip: u32)
    requires
        code.len() >= 39,
        code.subrange(22, 39) == code::test(resume, skip),
    ensures
        tests(code, resume, skip),
{
    let test = code::test(resume, skip);
    assert forall|i: int| 22 <= i < 39 implies code[i] == test[i - 22] by {
        assert(code.subrange(22, 39)[i - 22] == test[i - 22]);
    }
    assert(code.subrange(22, 25) =~= Instruction::AddEsp(4).bytes());
    assert(code.subrange(25, 33) =~= Instruction::CompareStacked(36, resume).bytes());
    assert(code.subrange(33, 39) =~= Instruction::JumpUnlessEqual(skip).bytes());
}

proof fn lemma_restore_instructions(code: Seq<u8>, offset: int)
    requires
        0 <= offset,
        offset + 11 <= code.len(),
        code.subrange(offset, offset + 11) == code::restore(),
    ensures
        restores(code, offset),
{
    let restore = code::restore();
    assert forall|i: int| offset <= i < offset + 11 implies code[i] == restore[i - offset] by {
        assert(code.subrange(offset, offset + 11)[i - offset] == restore[i - offset]);
    }
    assert(code.subrange(offset, offset + 4) =~= Instruction::StackedToEax(12).bytes());
    assert(code.subrange(offset + 4, offset + 8) =~= Instruction::EaxToStacked(36).bytes());
    assert(code.subrange(offset + 8, offset + 9) =~= Instruction::PopAll.bytes());
    assert(code.subrange(offset + 9, offset + 10) =~= Instruction::PopFlags.bytes());
    assert(code.subrange(offset + 10, offset + 11) =~= Instruction::PopEsp.bytes());
}

proof fn lemma_keep_instructions(code: Seq<u8>, offset: int, slot: u32)
    requires
        0 <= offset,
        offset + 9 <= code.len(),
        code.subrange(offset, offset + 9) == code::keep(slot),
    ensures
        has_instruction(code, offset, Instruction::StackedToEax(36)),
        has_instruction(code, offset + 4, Instruction::EaxTo(slot)),
{
    let keep = code::keep(slot);
    assert forall|i: int| offset <= i < offset + 9 implies code[i] == keep[i - offset] by {
        assert(code.subrange(offset, offset + 9)[i - offset] == keep[i - offset]);
    }
    assert(code.subrange(offset, offset + 4) =~= Instruction::StackedToEax(36).bytes());
    assert(code.subrange(offset + 4, offset + 9) =~= Instruction::EaxTo(slot).bytes());
}

/// How many instructions run from the return of a detour to the displaced instructions.
pub open spec fn way_back(changed: bool) -> int {
    if changed {
        10
    } else {
        8
    }
}

/// Offset of the displaced instructions, `size` bytes of them, in the code of a mid-function
/// hook.
pub open spec fn copy_offset(changed: bool, size: nat) -> int {
    if changed {
        code::changed_copy(size) as int
    } else {
        code::COPY_OFFSET as int
    }
}

/// What a detour changed in the registers that it got takes effect: once it has returned,
/// the thread runs the displaced instructions with the general-purpose registers and the
/// stack pointer that it left, and with the flags that it left as far as a program may
/// change them. Nothing changed in memory but where the registers lay and, where the
/// detour changed the instruction pointer, the word that keeps it.
pub proof fn law_changes_of_the_detour_take_effect(
    parts: Seq<Seq<u8>>,
    target: u32,
    detour: u32,
    address: u32,
    len: nat,
    place: u32,
    context: UnsafetyHookContext,
    trace: Seq<Machine>,
)
    requires
        ({
            let code = code::mid_code(parts, target, detour, address, len);
            let changed = context.eip != word::wrap(target + len);
            &&& code.len() <= code::SLOT_OFFSET
            &&& processor::is_trace(trace)
            &&& trace.len() == way_back(changed) + 1
            &&& is_at(trace[0], address, code, code::CAPTURE_LEN as int)
            &&& trace[0].registers.esp == word::wrap(place - 4)
            &&& processor::has_context(trace[0].memory, place, context)
            &&& system::apart(
                place,
                processor::CONTEXT_LEN as nat,
                address,
                patch::BLOCK_LEN as nat,
            )
        }),
    ensures
        ({
            let code = code::mid_code(parts, target, detour, address, len);
            let changed = context.eip != word::wrap(target + len);
            let slot = word::wrap(address + code::SLOT_OFFSET);
            let last = trace.last();
            &&& is_at(last, address, code, copy_offset(changed, code::joined(parts).len()))
            &&& are_taken_over(last.registers, context)
            &&& changed ==> processor::word_at(last.memory, slot) == context.eip
            &&& forall|at: u32|
                !#[trigger] system::within(at, place, processor::CONTEXT_LEN as nat) && !(changed
                    && system::within(at, slot, 4)) ==> (last.memory)(at) == (trace[0].memory)(
                    at,
                )
        }),
{
    lemma_mid_code_returns(parts, target, detour, address, len);
    lemma_way_back(
        code::mid_code(parts, target, detour, address, len),
        address,
        word::wrap(target + len),
        code::joined(parts).len() as int,
        place,
        context,
        trace,
    );
}

/// Code that comes back from a detour in either way does.
proof fn lemma_way_back(
    code: Seq<u8>,
    address: u32,
    resume: u32,
    size: int,
    place: u32,
    context: UnsafetyHookContext,
    trace: Seq<Machine>,
)
    requires
        0 <= size,
        tests(code, resume, word::wrap(16 + size)),
        restores(code, 39),
        keeps(code, 55 + size, word::wrap(address + code::SLOT_OFFSET)),
        code.len() <= code::SLOT_OFFSET,
        processor::is_trace(trace),
        trace.len() == way_back(context.eip != resume) + 1,
        is_at(trace[0], address, code, 22),
        trace[0].registers.esp == word::wrap(place - 4),
        processor::has_context(trace[0].memory, place, context),
        system::apart(
            place,
            processor::CONTEXT_LEN as nat,
            address,
            patch::BLOCK_LEN as nat,
        ),
    ensures
        ({
            let changed = context.eip != resume;
            let slot = word::wrap(address + code::SLOT_OFFSET);
            let last = trace.last();
            &&& is_at(last, address, code, copy_offset(changed, size as nat))
            &&& are_taken_over(last.registers, context)
            &&& changed ==> processor::word_at(last.memory, slot) == context.eip
            &&& forall|at: u32|
                !#[trigger] system::within(at, place, processor::CONTEXT_LEN as nat) && !(changed
                    && system::within(at, slot, 4)) ==> (last.memory)(at) == (trace[0].memory)(
                    at,
                )
        }),
{
    let slot = word::wrap(address + code::SLOT_OFFSET);
    let skip = word::wrap(16 + size);
    assert(is_trace_from(trace, 0, 3));
    lemma_test(code, address, resume, skip, place, context, trace);
    if context.eip == resume {
        assert(is_trace_from(trace, 3, 5));
        lemma_apart_from_code(place, address, code.len());
        lemma_restore(code, address, 39, context, trace, 3);
    } else {
        assert(is_trace_from(trace, 3, 7));
        assert(word::wrap(address + 39 + skip) == word::wrap(address + (55 + size)));
        lemma_keep(code, address, 55 + size, slot, context, trace, 3);
    }
}

/// Once the displaced instructions have run, whatever they did to registers and stack, the
/// thread goes on after the target, or, where the detour changed the instruction pointer,
/// at the address that is kept. Nothing else changes.
pub proof fn law_thread_leaves_the_displaced_instructions(
    parts: Seq<Seq<u8>>,
    target: u32,
    detour: u32,
    address: u32,
    len: nat,
    changed: bool,
    before: Machine,
    after: Machine,
)
    requires
        ({
            let code = code::mid_code(parts, target, detour, address, len);
            let size = code::joined(parts).len();
            is_at(before, address, code, copy_offset(changed, size) + size)
        }),
        before.steps_to(after),
    ensures
        after == before.with_eip(
            if changed {
                processor::word_at(before.memory, word::wrap(address + code::SLOT_OFFSET))
            } else {
                word::wrap(target + len)
            },
        ),
{
    let code = code::mid_code(parts, target, detour, address, len);
    let size = code::joined(parts).len() as int;
    let resume = word::wrap(target + len);
    let slot = word::wrap(address + code::SLOT_OFFSET);
    let end = word::wrap(address + code::COPY_OFFSET + size);
    lemma_mid_code_returns(parts, target, detour, address, len);
    if changed {
        lemma_run(before, after, address, code, 75 + 2 * size, Instruction::JumpTo(slot));
        assert(after == before.past(6).with_eip(processor::word_at(before.memory, slot))) by {
            reveal(Machine::performs);
        }
    } else {
        lemma_jump(before, after, address, code, 50 + size, end, resume);
    }
}

pub(crate) proof fn lemma_jump(
    before: Machine,
    after: Machine,
    address: u32,
    code: Seq<u8>,
    offset: int,
    from: u32,
    to: u32,
)
    requires
        before.steps_to(after),
        is_at(before, address, code, offset),
        from == word::wrap(address + offset),
        has_instruction(code, offset, Instruction::Jump(code::displacement(from, to))),
    ensures
        after == before.with_eip(to),
{
    let jump = Instruction::Jump(code::displacement(from, to));
    assert(jump.bytes().len() == 5);
    lemma_run(before, after, address, code, offset, jump);
    assert(after == before.past(5).with_eip(to)) by {
        reveal(Machine::performs);
    }
}

/// A thread resumes where the detour left the instruction pointer, with all that the
/// displaced instructions, which got the registers that the detour left, made of them:
/// whatever these did to registers and stack, as long as they left the memory of the hook
/// alone.
pub proof fn law_thread_resumes_where_the_detour_left_it(
    parts: Seq<Seq<u8>>,
    target: u32,
    detour: u32,
    address: u32,
    len: nat,
    place: u32,
    context: UnsafetyHookContext,
    trace: Seq<Machine>,
    moved: Machine,
    after: Machine,
)
    requires
        ({
            let code = code::mid_code(parts, target, detour, address, len);
            let changed = context.eip != word::wrap(target + len);
            let size = code::joined(parts).len();
            let slot = word::wrap(address + code::SLOT_OFFSET);
            &&& code.len() <= code::SLOT_OFFSET
            &&& processor::is_trace(trace)
            &&& trace.len() == way_back(changed) + 1
            &&& is_at(trace[0], address, code, code::CAPTURE_LEN as int)
            &&& trace[0].registers.esp == word::wrap(place - 4)
            &&& processor::has_context(trace[0].memory, place, context)
            &&& system::apart(
                place,
                processor::CONTEXT_LEN as nat,
                address,
                patch::BLOCK_LEN as nat,
            )
            &&& is_at(moved, address, code, copy_offset(changed, size) + size)
            &&& processor::word_at(moved.memory, slot) == processor::word_at(
                trace.last().memory,
                slot,
            )
            &&& moved.steps_to(after)
        }),
    ensures
        are_taken_over(trace.last().registers, context),
        after == moved.with_eip(context.eip),
{
    law_changes_of_the_detour_take_effect(
        parts,
        target,
        detour,
        address,
        len,
        place,
        context,
        trace,
    );
    law_thread_leaves_the_displaced_instructions(
        parts,
        target,
        detour,
        address,
        len,
        context.eip != word::wrap(target + len),
        moved,
        after,
    );
}

} // verus!
