//! The instructions that hooks are made of can be told apart, and can all be run.

use vstd::prelude::*;

use crate::system;
use crate::word;
use crate::x86::context::EFlags;
use crate::x86::processor;
use crate::x86::processor::{Instruction, Machine};

verus! {

/// Instructions that lie at one address share their bytes as far as both reach.
proof fn lemma_shared_bytes(
    memory: spec_fn(u32) -> u8,
    address: u32,
    first: Instruction,
    second: Instruction,
)
    requires
        processor::has_bytes(memory, address, first.bytes()),
        processor::has_bytes(memory, address, second.bytes()),
    ensures
        forall|i: int|
            0 <= i < first.bytes().len() && i < second.bytes().len() ==> #[trigger] first.bytes()[i]
                == second.bytes()[i],
{
    reveal(processor::has_bytes);
    let (a, b) = (first.bytes(), second.bytes());
    assert forall|i: int| 0 <= i < a.len() && i < b.len() implies #[trigger] a[i] == b[i] by {
        assert(system::load(memory, address, a.len())[i] == memory(word::wrap(address + i)));
        assert(system::load(memory, address, b.len())[i] == memory(word::wrap(address + i)));
    }
}

proof fn lemma_same_word(first: u32, second: u32)
    requires
        word::bytes(first)[0] == word::bytes(second)[0],
        word::bytes(first)[1] == word::bytes(second)[1],
        word::bytes(first)[2] == word::bytes(second)[2],
        word::bytes(first)[3] == word::bytes(second)[3],
    ensures
        first == second,
{
    word::law_word_survives_its_bytes(first);
    word::law_word_survives_its_bytes(second);
}

/// The number that tells instructions apart: the opcode, and a second byte where there are
/// several with the same.
spec fn kind(instruction: Instruction) -> int {
    match instruction {
        Instruction::Push(_) => 0x68,
        Instruction::PushFlags => 0x9C,
        Instruction::PushAll => 0x60,
        Instruction::StackToEax => 0x89E0,
        Instruction::PushEax => 0x50,
        Instruction::Eax(_) => 0xB8,
        Instruction::CallEax => 0xFFD0,
        Instruction::AddEsp(_) => 0x83C4,
        Instruction::PopAll => 0x61,
        Instruction::PopFlags => 0x9D,
        Instruction::AddStacked(_, _) => 0x8344,
        Instruction::CompareStacked(_, _) => 0x81,
        Instruction::JumpUnlessEqual(_) => 0x0F,
        Instruction::StackedToEax(_) => 0x8B,
        Instruction::EaxToStacked(_) => 0x8944,
        Instruction::EaxTo(_) => 0xA3,
        Instruction::PopEsp => 0x5C,
        Instruction::JumpTo(_) => 0xFF25,
        Instruction::Jump(_) => 0xE9,
        Instruction::Call(_) => 0xE8,
    }
}

proof fn lemma_kind(instruction: Instruction)
    ensures
        ({
            let bytes = instruction.bytes();
            &&& bytes.len() > 0
            &&& if bytes[0] == 0x89 || bytes[0] == 0xFF || bytes[0] == 0x83 {
                bytes.len() >= 2 && kind(instruction) == 0x100 * bytes[0] + bytes[1]
            } else {
                kind(instruction) == bytes[0]
            }
        }),
{
}

/// There is one instruction at an address at the most.
pub proof fn law_instructions_are_told_apart(
    memory: spec_fn(u32) -> u8,
    address: u32,
    first: Instruction,
    second: Instruction,
)
    requires
        processor::has_bytes(memory, address, first.bytes()),
        processor::has_bytes(memory, address, second.bytes()),
    ensures
        first == second,
{
    lemma_shared_bytes(memory, address, first, second);
    lemma_kind(first);
    lemma_kind(second);
    let (a, b) = (first.bytes(), second.bytes());
    assert(a[0] == b[0]);
    if a[0] == 0x89 || a[0] == 0xFF || a[0] == 0x83 {
        assert(a[1] == b[1]);
    }
    assert(kind(first) == kind(second));
    lemma_same_operands(first, second);
}

proof fn lemma_same_operands(first: Instruction, second: Instruction)
    requires
        kind(first) == kind(second),
        forall|i: int|
            0 <= i < first.bytes().len() && i < second.bytes().len() ==> #[trigger] first.bytes()[i]
                == second.bytes()[i],
    ensures
        first == second,
{
    let (a, b) = (first.bytes(), second.bytes());
    match (first, second) {
        (Instruction::Push(x), Instruction::Push(y))
        | (Instruction::Eax(x), Instruction::Eax(y))
        | (Instruction::EaxTo(x), Instruction::EaxTo(y))
        | (Instruction::Jump(x), Instruction::Jump(y))
        | (Instruction::Call(x), Instruction::Call(y)) => {
            assert(a[1] == b[1] && a[2] == b[2] && a[3] == b[3] && a[4] == b[4]);
            lemma_same_word(x, y);
        },
        (Instruction::JumpUnlessEqual(x), Instruction::JumpUnlessEqual(y))
        | (Instruction::JumpTo(x), Instruction::JumpTo(y)) => {
            assert(a[2] == b[2] && a[3] == b[3] && a[4] == b[4] && a[5] == b[5]);
            lemma_same_word(x, y);
        },
        (Instruction::CompareStacked(_, x), Instruction::CompareStacked(_, y)) => {
            assert(a[3] == b[3]);
            assert(a[4] == b[4] && a[5] == b[5] && a[6] == b[6] && a[7] == b[7]);
            lemma_same_word(x, y);
        },
        (Instruction::AddEsp(_), Instruction::AddEsp(_)) => {
            assert(a[2] == b[2]);
        },
        (Instruction::AddStacked(_, _), Instruction::AddStacked(_, _)) => {
            assert(a[3] == b[3] && a[4] == b[4]);
        },
        (Instruction::StackedToEax(_), Instruction::StackedToEax(_))
        | (Instruction::EaxToStacked(_), Instruction::EaxToStacked(_)) => {
            assert(a[3] == b[3]);
        },
        _ => {},
    }
}

/// There is a state that an instruction takes a thread to.
proof fn lemma_can_be_performed(machine: Machine, instruction: Instruction)
    ensures
        exists|after: Machine| #[trigger] machine.performs(instruction, after),
{
    reveal(Machine::performs);
    let r = machine.registers;
    let next = machine.past(instruction.bytes().len());
    let after = match instruction {
        Instruction::Push(word) => next.pushed(seq![word]),
        Instruction::PushFlags => next.pushed(seq![r.eflags.bits & processor::PUSHED_FLAGS]),
        Instruction::PushAll => next.pushed(
            seq![r.edi, r.esi, r.ebp, r.esp, r.ebx, r.edx, r.ecx, r.eax],
        ),
        Instruction::StackToEax => next.with_eax(r.esp),
        Instruction::PushEax => next.pushed(seq![r.eax]),
        Instruction::Eax(word) => next.with_eax(word),
        Instruction::CallEax => next.pushed(seq![next.registers.eip]).with_eip(r.eax),
        Instruction::AddEsp(n) => next.dropped(processor::signed(n)),
        Instruction::PopAll => next.with_all_popped(),
        Instruction::PopFlags => next.dropped(4).with_flags(EFlags { bits: machine.stacked(0) }),
        Instruction::AddStacked(offset, n) => {
            let address = machine.stack_place(offset);
            let sum = word::wrap(
                processor::word_at(machine.memory, address) + processor::signed(n),
            );
            next.with_word(address, sum)
        },
        Instruction::CompareStacked(offset, word) => {
            let there = processor::word_at(machine.memory, machine.stack_place(offset));
            let bits: u32 = if there == word {
                0x40
            } else {
                0
            };
            next.with_flags(EFlags { bits })
        },
        Instruction::JumpUnlessEqual(displacement) => if processor::is_zero(r.eflags) {
            next
        } else {
            next.with_eip(word::wrap(next.registers.eip + displacement))
        },
        Instruction::StackedToEax(offset) => next.with_eax(
            processor::word_at(machine.memory, machine.stack_place(offset)),
        ),
        Instruction::EaxToStacked(offset) => next.with_word(machine.stack_place(offset), r.eax),
        Instruction::EaxTo(address) => next.with_word(address, r.eax),
        Instruction::PopEsp => next.with_esp(machine.stacked(0)),
        Instruction::JumpTo(address) => next.with_eip(
            processor::word_at(machine.memory, address),
        ),
        Instruction::Jump(displacement) => next.with_eip(
            word::wrap(next.registers.eip + displacement),
        ),
        Instruction::Call(displacement) => next.pushed(seq![next.registers.eip]).with_eip(
            word::wrap(next.registers.eip + displacement),
        ),
    };
    assert(0x40u32 & 0x40u32 != 0 && 0u32 & 0x40u32 == 0) by (bit_vector);
    assert(machine.performs(instruction, after));
}

/// A thread can always go on: whatever instruction it is at, there is a state that it takes
/// the thread to.
pub proof fn law_thread_can_go_on(machine: Machine)
    ensures
        exists|after: Machine| #[trigger] machine.steps_to(after),
{
    reveal(Machine::steps_to);
    let at = machine.registers.eip;
    if exists|instruction: Instruction| #[trigger]
        processor::has_bytes(machine.memory, at, instruction.bytes()) {
        let there = choose|instruction: Instruction| #[trigger]
            processor::has_bytes(machine.memory, at, instruction.bytes());
        lemma_can_be_performed(machine, there);
        let after = choose|after: Machine| #[trigger] machine.performs(there, after);
        assert forall|instruction: Instruction|
            processor::has_bytes(
                machine.memory,
                machine.registers.eip,
                instruction.bytes(),
            ) implies #[trigger] machine.performs(instruction, after) by {
            law_instructions_are_told_apart(machine.memory, at, there, instruction);
        }
        assert(machine.steps_to(after));
    } else {
        assert(machine.steps_to(machine));
    }
}

} // verus!
