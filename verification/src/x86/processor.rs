//! What the processor makes of the instructions that hooks are made of, and how a thread
//! gets to the detour of a mid-function hook.

use vstd::prelude::*;

use crate::system;
use crate::word;
use crate::x86::code;
use crate::x86::context::{EFlags, UnsafetyHookContext, NAMED_BITS};

verus! {

/// The flags that are on the stack after `pushfd`: all but two that concern debugging
/// and virtual machines.
pub const PUSHED_FLAGS: u32 = 0xFC_FFFF;

/// The flags that `popfd` changes in a program: those with a name but the interrupt flag,
/// and those for nested tasks (`NT`), for alignment (`AC`) and for identification (`ID`).
pub const POPPED_FLAGS: u32 = 0x24_4DD5;

/// The flag that a comparison sets where what it compares is equal.
pub const ZERO_FLAG: u32 = 0x40;

/// Length of the registers as they lie on the stack.
pub const CONTEXT_LEN: usize = 40;

/// A thread at work: its registers, and the memory that it sees.
pub struct Machine {
    pub registers: UnsafetyHookContext,
    pub memory: spec_fn(u32) -> u8,
}

/// An instruction of the code that a hook is made of.
pub enum Instruction {
    /// `push` of a word.
    Push(u32),
    /// `pushfd`.
    PushFlags,
    /// `pushad`.
    PushAll,
    /// `mov eax, esp`.
    StackToEax,
    /// `push eax`.
    PushEax,
    /// `mov eax` of a word.
    Eax(u32),
    /// `call eax`.
    CallEax,
    /// `add esp` of a signed byte.
    AddEsp(u8),
    /// `popad`.
    PopAll,
    /// `popfd`.
    PopFlags,
    /// `add` of a signed byte to the word on the stack at a signed offset.
    AddStacked(u8, u8),
    /// `cmp` of the word on the stack at a signed offset with a word.
    CompareStacked(u8, u32),
    /// `jne` by a displacement.
    JumpUnlessEqual(u32),
    /// `mov eax` of the word on the stack at a signed offset.
    StackedToEax(u8),
    /// `mov` of `eax` to the word on the stack at a signed offset.
    EaxToStacked(u8),
    /// `mov` of `eax` to an address.
    EaxTo(u32),
    /// `pop esp`.
    PopEsp,
    /// `jmp` to the address at an address.
    JumpTo(u32),
    /// `jmp` by a displacement.
    Jump(u32),
    /// `call` by a displacement.
    Call(u32),
}

impl Instruction {
    /// The bytes of an instruction.
    pub open spec fn bytes(self) -> Seq<u8> {
        match self {
            Instruction::Push(word) => seq![0x68u8] + word::bytes(word),
            Instruction::PushFlags => seq![0x9Cu8],
            Instruction::PushAll => seq![0x60u8],
            Instruction::StackToEax => seq![0x89u8, 0xE0],
            Instruction::PushEax => seq![0x50u8],
            Instruction::Eax(word) => seq![0xB8u8] + word::bytes(word),
            Instruction::CallEax => seq![0xFFu8, 0xD0],
            Instruction::AddEsp(n) => seq![0x83u8, 0xC4, n],
            Instruction::PopAll => seq![0x61u8],
            Instruction::PopFlags => seq![0x9Du8],
            Instruction::AddStacked(offset, n) => seq![0x83u8, 0x44, 0x24, offset, n],
            Instruction::CompareStacked(offset, word) => seq![0x81u8, 0x7C, 0x24, offset]
                + word::bytes(word),
            Instruction::JumpUnlessEqual(displacement) => seq![0x0Fu8, 0x85] + word::bytes(
                displacement,
            ),
            Instruction::StackedToEax(offset) => seq![0x8Bu8, 0x44, 0x24, offset],
            Instruction::EaxToStacked(offset) => seq![0x89u8, 0x44, 0x24, offset],
            Instruction::EaxTo(address) => seq![0xA3u8] + word::bytes(address),
            Instruction::PopEsp => seq![0x5Cu8],
            Instruction::JumpTo(address) => seq![0xFFu8, 0x25] + word::bytes(address),
            Instruction::Jump(displacement) => seq![code::JMP] + word::bytes(displacement),
            Instruction::Call(displacement) => seq![code::CALL] + word::bytes(displacement),
        }
    }
}

/// The number that a signed byte stands for.
pub open spec fn signed(byte: u8) -> int {
    if byte < 0x80 {
        byte as int
    } else {
        byte - 0x100
    }
}

/// Whether the flags say that what was compared is equal.
pub open spec fn is_zero(flags: EFlags) -> bool {
    flags.bits & ZERO_FLAG != 0
}

/// Words one after the other, each with its lowest byte first.
pub open spec fn packed(words: Seq<u32>) -> Seq<u8> {
    Seq::new(4 * words.len(), |i: int| word::bytes(words[i / 4])[i % 4])
}

/// The words of the registers, in the order of their fields.
pub open spec fn words_of(context: UnsafetyHookContext) -> Seq<u32> {
    seq![
        context.edi,
        context.esi,
        context.ebp,
        context.esp,
        context.ebx,
        context.edx,
        context.ecx,
        context.eax,
        context.eflags.bits,
        context.eip,
    ]
}

/// The word at an address.
#[verifier::opaque]
pub open spec fn word_at(memory: spec_fn(u32) -> u8, address: u32) -> u32 {
    word::value(system::load(memory, address, 4)) as u32
}

/// Whether some bytes lie at an address.
#[verifier::opaque]
pub open spec fn has_bytes(memory: spec_fn(u32) -> u8, address: u32, bytes: Seq<u8>) -> bool {
    system::load(memory, address, bytes.len()) == bytes
}

/// Whether registers lie at an address, field after field.
pub open spec fn has_context(
    memory: spec_fn(u32) -> u8,
    address: u32,
    context: UnsafetyHookContext,
) -> bool {
    has_bytes(memory, address, packed(words_of(context)))
}

impl Machine {
    /// Goes on with the next instruction after `len` bytes.
    pub open spec fn past(self, len: nat) -> Machine {
        Machine {
            registers: UnsafetyHookContext {
                eip: word::wrap(self.registers.eip + len),
                ..self.registers
            },
            ..self
        }
    }

    /// Has a word in `eax`.
    pub open spec fn with_eax(self, word: u32) -> Machine {
        Machine { registers: UnsafetyHookContext { eax: word, ..self.registers }, ..self }
    }

    /// Has an instruction pointer.
    pub open spec fn with_eip(self, address: u32) -> Machine {
        Machine { registers: UnsafetyHookContext { eip: address, ..self.registers }, ..self }
    }

    /// Has flags.
    pub open spec fn with_flags(self, eflags: EFlags) -> Machine {
        Machine { registers: UnsafetyHookContext { eflags, ..self.registers }, ..self }
    }

    /// Has a stack pointer.
    pub open spec fn with_esp(self, address: u32) -> Machine {
        Machine { registers: UnsafetyHookContext { esp: address, ..self.registers }, ..self }
    }

    /// The address on the stack at a signed offset.
    pub open spec fn stack_place(self, offset: u8) -> u32 {
        word::wrap(self.registers.esp + signed(offset))
    }

    /// Has a word at an address.
    pub open spec fn with_word(self, address: u32, word: u32) -> Machine {
        Machine { memory: system::store(self.memory, address, word::bytes(word)), ..self }
    }

    /// Has the stack `n` bytes shorter.
    pub open spec fn dropped(self, n: int) -> Machine {
        Machine {
            registers: UnsafetyHookContext {
                esp: word::wrap(self.registers.esp + n),
                ..self.registers
            },
            ..self
        }
    }

    /// Has words on the stack, the first on top.
    pub open spec fn pushed(self, words: Seq<u32>) -> Machine {
        let top = word::wrap(self.registers.esp - 4 * words.len());
        Machine {
            registers: UnsafetyHookContext { esp: top, ..self.registers },
            memory: system::store(self.memory, top, packed(words)),
        }
    }

    /// The word on the stack behind `n` others.
    pub open spec fn stacked(self, n: int) -> u32 {
        word_at(self.memory, word::wrap(self.registers.esp + 4 * n))
    }

    /// Has the registers, other than the stack pointer, that are on the stack.
    pub open spec fn with_all_popped(self) -> Machine {
        Machine {
            registers: UnsafetyHookContext {
                edi: self.stacked(0),
                esi: self.stacked(1),
                ebp: self.stacked(2),
                ebx: self.stacked(4),
                edx: self.stacked(5),
                ecx: self.stacked(6),
                eax: self.stacked(7),
                ..self.registers
            },
            ..self
        }.dropped(32)
    }

    /// Whether an instruction takes the thread to where it is `after`.
    #[verifier::opaque]
    pub open spec fn performs(self, instruction: Instruction, after: Machine) -> bool {
        let r = self.registers;
        let next = self.past(instruction.bytes().len());
        match instruction {
            Instruction::Push(word) => after == next.pushed(seq![word]),
            Instruction::PushFlags => after == next.pushed(seq![r.eflags.bits & PUSHED_FLAGS]),
            Instruction::PushAll => after == next.pushed(
                seq![r.edi, r.esi, r.ebp, r.esp, r.ebx, r.edx, r.ecx, r.eax],
            ),
            Instruction::StackToEax => after == next.with_eax(r.esp),
            Instruction::PushEax => after == next.pushed(seq![r.eax]),
            Instruction::Eax(word) => after == next.with_eax(word),
            Instruction::CallEax => after == next.pushed(seq![next.registers.eip]).with_eip(r.eax),
            Instruction::AddEsp(n) => after == next.dropped(signed(n)).with_flags(
                after.registers.eflags,
            ),
            Instruction::PopAll => after == next.with_all_popped(),
            Instruction::PopFlags => {
                let flags = after.registers.eflags;
                &&& after == next.dropped(4).with_flags(flags)
                &&& flags.bits & POPPED_FLAGS == self.stacked(0) & POPPED_FLAGS
            },
            Instruction::AddStacked(offset, n) => {
                let address = self.stack_place(offset);
                let sum = word::wrap(word_at(self.memory, address) + signed(n));
                after == next.with_word(address, sum).with_flags(after.registers.eflags)
            },
            Instruction::CompareStacked(offset, word) => {
                let flags = after.registers.eflags;
                &&& after == next.with_flags(flags)
                &&& is_zero(flags) == (word_at(self.memory, self.stack_place(offset)) == word)
            },
            Instruction::JumpUnlessEqual(displacement) => after == if is_zero(r.eflags) {
                next
            } else {
                next.with_eip(word::wrap(next.registers.eip + displacement))
            },
            Instruction::StackedToEax(offset) => after == next.with_eax(
                word_at(self.memory, self.stack_place(offset)),
            ),
            Instruction::EaxToStacked(offset) => after == next.with_word(
                self.stack_place(offset),
                r.eax,
            ),
            Instruction::EaxTo(address) => after == next.with_word(address, r.eax),
            Instruction::PopEsp => after == next.with_esp(self.stacked(0)),
            Instruction::JumpTo(address) => after == next.with_eip(word_at(self.memory, address)),
            Instruction::Jump(displacement) => after == next.with_eip(
                word::wrap(next.registers.eip + displacement),
            ),
            Instruction::Call(displacement) => after == next.pushed(
                seq![next.registers.eip],
            ).with_eip(word::wrap(next.registers.eip + displacement)),
        }
    }

    /// Whether the thread can be `after` once it has run the instruction that its
    /// instruction pointer is at.
    #[verifier::opaque]
    pub open spec fn steps_to(self, after: Machine) -> bool {
        forall|instruction: Instruction|
            has_bytes(self.memory, self.registers.eip, instruction.bytes())
                ==> #[trigger] self.performs(instruction, after)
    }
}

/// Whether a thread can pass through these states, one instruction after the other.
pub open spec fn is_trace(trace: Seq<Machine>) -> bool {
    forall|i: int, j: int|
        0 <= i < j < trace.len() && j == i + 1 ==> #[trigger] trace[i].steps_to(trace[j])
}

/// Packing words in two parts is packing them all.
proof fn lemma_packed_parts(first: Seq<u32>, second: Seq<u32>)
    ensures
        packed(first) + packed(second) == packed(first + second),
{
    assert(packed(first) + packed(second) =~= packed(first + second));
}

/// A packed word can be read by itself.
pub(crate) proof fn lemma_packed_word(memory: spec_fn(u32) -> u8, address: u32, words: Seq<u32>, n: int)
    requires
        0 <= n < words.len(),
        has_bytes(memory, address, packed(words)),
    ensures
        word_at(memory, word::wrap(address + 4 * n)) == words[n],
{
    reveal(has_bytes);
    reveal(word_at);
    let four = system::load(memory, word::wrap(address + 4 * n), 4);
    let all = system::load(memory, address, 4 * words.len());
    assert forall|i: int| 0 <= i < 4 implies four[i] == word::bytes(words[n])[i] by {
        word::law_steps_add_up(address as int, 4 * n, i);
        assert(four[i] == all[4 * n + i]);
        assert(all[4 * n + i] == packed(words)[4 * n + i]);
    }
    assert(four =~= word::bytes(words[n]));
    word::law_word_survives_its_bytes(words[n]);
}

/// A packed word can be replaced by itself.
pub(crate) proof fn lemma_replaced_word(
    memory: spec_fn(u32) -> u8,
    address: u32,
    words: Seq<u32>,
    n: int,
    word: u32,
)
    requires
        0 <= n < words.len(),
        4 * words.len() <= 0x1_0000_0000,
        has_bytes(memory, address, packed(words)),
    ensures
        has_bytes(
            system::store(memory, word::wrap(address + 4 * n), word::bytes(word)),
            address,
            packed(words.update(n, word)),
        ),
{
    reveal(has_bytes);
    let place = word::wrap(address + 4 * n);
    let after = system::store(memory, place, word::bytes(word));
    let expected = packed(words.update(n, word));
    let there = system::load(after, address, expected.len());
    let old = system::load(memory, address, packed(words).len());
    assert forall|i: int| 0 <= i < expected.len() implies there[i] == expected[i] by {
        let at = word::wrap(address + i);
        assert(old[i] == packed(words)[i]);
        if 4 * n <= i < 4 * n + 4 {
            assert(system::distance(place, at) == i - 4 * n);
        } else {
            assert(!system::within(at, place, 4));
            assert(i / 4 != n);
        }
    }
    assert(there =~= expected);
}

/// Bytes that lie at an address have their parts there.
proof fn lemma_part(memory: spec_fn(u32) -> u8, address: u32, all: Seq<u8>, offset: int, len: int)
    requires
        has_bytes(memory, address, all),
        0 <= offset,
        0 <= len,
        offset + len <= all.len(),
    ensures
        has_bytes(memory, word::wrap(address + offset), all.subrange(offset, offset + len)),
{
    reveal(has_bytes);
    let part = all.subrange(offset, offset + len);
    let there = system::load(memory, word::wrap(address + offset), part.len());
    let whole = system::load(memory, address, all.len());
    assert forall|i: int| 0 <= i < part.len() implies there[i] == part[i] by {
        word::law_steps_add_up(address as int, offset, i);
        assert(there[i] == whole[offset + i]);
    }
    assert(there =~= part);
}

/// What is pushed lies on top of what was on the stack.
proof fn lemma_pushed(machine: Machine, words: Seq<u32>, below: Seq<u32>)
    requires
        4 * (words.len() + below.len()) <= 0x1_0000_0000,
        has_bytes(machine.memory, machine.registers.esp, packed(below)),
    ensures
        has_bytes(
            machine.pushed(words).memory,
            machine.pushed(words).registers.esp,
            packed(words + below),
        ),
{
    reveal(has_bytes);
    let after = machine.pushed(words);
    let top = after.registers.esp;
    let len = 4 * (words + below).len();
    let stack = system::load(after.memory, top, len);
    let old = system::load(machine.memory, machine.registers.esp, 4 * below.len());
    lemma_packed_parts(words, below);
    assert forall|i: int| 0 <= i < len implies stack[i] == (packed(words) + packed(below))[i] by {
        let at = word::wrap(top + i);
        assert(system::distance(top, at) == i);
        if i >= 4 * words.len() {
            let j = i - 4 * words.len();
            word::law_steps_add_up(machine.registers.esp as int, -(4 * words.len()), i);
            assert(at == word::wrap(machine.registers.esp + j));
            assert(stack[i] == old[j]);
        }
    }
    assert(stack =~= packed(words) + packed(below));
}

/// Whether memory is what it was `before`, outside of a range.
pub open spec fn is_same_outside(
    before: spec_fn(u32) -> u8,
    after: spec_fn(u32) -> u8,
    address: u32,
    len: nat,
) -> bool {
    forall|at: u32| !#[trigger] system::within(at, address, len) ==> after(at) == before(at)
}

/// Pushing onto the part of the stack that is left.
proof fn lemma_push(
    machine: Machine,
    words: Seq<u32>,
    below: Seq<u32>,
    stack: u32,
    left: int,
    room: nat,
    before: spec_fn(u32) -> u8,
)
    requires
        4 * words.len() <= left <= room <= 0x1_0000,
        4 * below.len() == room - left,
        machine.registers.esp == word::wrap(stack + left),
        has_bytes(machine.memory, machine.registers.esp, packed(below)),
        is_same_outside(before, machine.memory, stack, room),
    ensures
        machine.pushed(words).registers.esp == word::wrap(stack + left - 4 * words.len()),
        has_bytes(
            machine.pushed(words).memory,
            machine.pushed(words).registers.esp,
            packed(words + below),
        ),
        is_same_outside(before, machine.pushed(words).memory, stack, room),
{
    lemma_pushed(machine, words, below);
    let top = machine.pushed(words).registers.esp;
    word::law_steps_add_up(stack as int, left, -(4 * words.len()));
    assert forall|at: u32| !#[trigger] system::within(at, stack, room) implies (machine.pushed(
        words,
    ).memory)(at) == before(at) by {
        assert(!system::within(at, top, packed(words).len()));
    }
}

/// Bytes that are apart from all that was changed are still there.
pub(crate) proof fn lemma_kept(
    before: spec_fn(u32) -> u8,
    after: spec_fn(u32) -> u8,
    stack: u32,
    room: nat,
    address: u32,
    bytes: Seq<u8>,
)
    requires
        has_bytes(before, address, bytes),
        bytes.len() <= 0x1_0000_0000,
        system::apart(stack, room, address, bytes.len()),
        is_same_outside(before, after, stack, room),
    ensures
        has_bytes(after, address, bytes),
{
    reveal(has_bytes);
    let there = system::load(after, address, bytes.len());
    assert forall|i: int| 0 <= i < bytes.len() implies there[i] == bytes[i] by {
        let at = word::wrap(address + i);
        assert(system::distance(address, at) == i);
        assert(system::within(at, address, bytes.len()));
        assert(!system::within(at, stack, room));
        assert(system::load(before, address, bytes.len())[i] == bytes[i]);
    }
    assert(there =~= bytes);
}

/// An instruction of code that lies at an address is performed.
pub(crate) proof fn lemma_step(
    before: Machine,
    after: Machine,
    address: u32,
    code: Seq<u8>,
    offset: int,
    instruction: Instruction,
)
    requires
        before.steps_to(after),
        has_bytes(before.memory, address, code),
        before.registers.eip == word::wrap(address + offset),
        0 <= offset,
        offset + instruction.bytes().len() <= code.len(),
        code.subrange(offset, offset + instruction.bytes().len()) == instruction.bytes(),
    ensures
        before.performs(instruction, after),
        before.past(instruction.bytes().len()).registers.eip == word::wrap(
            address + offset + instruction.bytes().len(),
        ),
{
    reveal(Machine::steps_to);
    lemma_part(before.memory, address, code, offset, instruction.bytes().len() as int);
    word::law_steps_add_up(address as int, offset, instruction.bytes().len() as int);
    assert(before.performs(instruction, after));
}

/// Room on the stack that the code of a mid-function hook needs to call its detour.
pub const STACK_ROOM: usize = 48;

/// The registers that the detour of a mid-function hook gets, where the thread arrives
/// with `registers` and goes on at `resume`: they are those of the thread, but for the
/// flags that cannot be pushed and the instruction pointer, which is where the thread goes
/// on.
pub open spec fn captured(registers: UnsafetyHookContext, resume: u32) -> UnsafetyHookContext {
    UnsafetyHookContext {
        eflags: EFlags { bits: registers.eflags.bits & PUSHED_FLAGS },
        eip: resume,
        ..registers
    }
}

/// The registers as they are first saved: the stack pointer is below the two words that
/// were pushed before it.
pub open spec fn saved(registers: UnsafetyHookContext, resume: u32) -> UnsafetyHookContext {
    UnsafetyHookContext { esp: word::wrap(registers.esp - 8), ..captured(registers, resume) }
}

/// The state of a thread on its way to the detour: how far it has come in the code,
/// what it has on the stack, and the registers.
pub open spec fn is_under_way(
    start: Machine,
    now: Machine,
    address: u32,
    code: Seq<u8>,
    offset: int,
    words: Seq<u32>,
) -> bool {
    let stack = word::wrap(start.registers.esp - STACK_ROOM);
    &&& now.registers == (UnsafetyHookContext {
        esp: word::wrap(stack + (STACK_ROOM - 4 * words.len())),
        eip: word::wrap(address + offset),
        eax: now.registers.eax,
        eflags: now.registers.eflags,
        ..start.registers
    })
    &&& 4 * words.len() <= STACK_ROOM
    &&& has_bytes(now.memory, address, code)
    &&& has_bytes(now.memory, now.registers.esp, packed(words))
    &&& is_same_outside(start.memory, now.memory, stack, STACK_ROOM as nat)
}

/// An instruction that pushes takes a thread on its way.
proof fn lemma_push_step(
    start: Machine,
    before: Machine,
    after: Machine,
    address: u32,
    code: Seq<u8>,
    offset: int,
    below: Seq<u32>,
    instruction: Instruction,
    words: Seq<u32>,
)
    requires
        before.steps_to(after),
        is_under_way(start, before, address, code, offset, below),
        system::apart(
            word::wrap(start.registers.esp - STACK_ROOM),
            STACK_ROOM as nat,
            address,
            code.len(),
        ),
        code.len() <= 0x1_0000_0000,
        has_bytes(start.memory, address, code),
        4 * (words + below).len() <= STACK_ROOM,
        0 <= offset,
        offset + instruction.bytes().len() <= code.len(),
        code.subrange(offset, offset + instruction.bytes().len()) == instruction.bytes(),
        before.performs(instruction, after) ==> after == before.past(
            instruction.bytes().len(),
        ).pushed(words),
    ensures
        is_under_way(
            start,
            after,
            address,
            code,
            offset + instruction.bytes().len(),
            words + below,
        ),
        after.registers.eax == before.registers.eax,
        after.registers.eflags == before.registers.eflags,
{
    let stack = word::wrap(start.registers.esp - STACK_ROOM);
    let room = STACK_ROOM as nat;
    let next = before.past(instruction.bytes().len());
    lemma_step(before, after, address, code, offset, instruction);
    lemma_push(next, words, below, stack, room - 4 * below.len(), room, start.memory);
    lemma_kept(start.memory, after.memory, stack, room, address, code);
}

/// An instruction that sets `eax` takes a thread on its way.
proof fn lemma_eax_step(
    start: Machine,
    before: Machine,
    after: Machine,
    address: u32,
    code: Seq<u8>,
    offset: int,
    words: Seq<u32>,
    instruction: Instruction,
    eax: u32,
)
    requires
        before.steps_to(after),
        is_under_way(start, before, address, code, offset, words),
        0 <= offset,
        offset + instruction.bytes().len() <= code.len(),
        code.subrange(offset, offset + instruction.bytes().len()) == instruction.bytes(),
        before.performs(instruction, after) ==> after == before.past(
            instruction.bytes().len(),
        ).with_eax(eax),
    ensures
        is_under_way(start, after, address, code, offset + instruction.bytes().len(), words),
        after.registers.eax == eax,
{
    lemma_step(before, after, address, code, offset, instruction);
}

/// The words on the stack when the detour is about to be called: the address of the
/// registers, and the registers.
pub open spec fn handed_over(registers: UnsafetyHookContext, resume: u32) -> Seq<u32> {
    seq![word::wrap(registers.esp - CONTEXT_LEN)] + words_of(captured(registers, resume))
}

/// Whether some code calls a detour with the registers: the instructions up to the call.
pub open spec fn calls_detour(code: Seq<u8>, resume: u32, detour: u32) -> bool {
    &&& code::CAPTURE_LEN <= code.len() <= 0x1_0000_0000
    &&& code.subrange(0, 5) == Instruction::Push(resume).bytes()
    &&& code.subrange(5, 6) == Instruction::PushFlags.bytes()
    &&& code.subrange(6, 7) == Instruction::PushAll.bytes()
    &&& code.subrange(7, 12) == Instruction::AddStacked(12, 8).bytes()
    &&& code.subrange(12, 14) == Instruction::StackToEax.bytes()
    &&& code.subrange(14, 15) == Instruction::PushEax.bytes()
    &&& code.subrange(15, 20) == Instruction::Eax(detour).bytes()
    &&& code.subrange(20, 22) == Instruction::CallEax.bytes()
}

/// The code of a mid-function hook calls the detour.
proof fn lemma_mid_code_calls_detour(
    parts: Seq<Seq<u8>>,
    target: u32,
    detour: u32,
    address: u32,
    len: nat,
)
    requires
        code::mid_code(parts, target, detour, address, len).len() <= 0x1_0000_0000,
    ensures
        calls_detour(
            code::mid_code(parts, target, detour, address, len),
            word::wrap(target + len),
            detour,
        ),
{
    let code = code::mid_code(parts, target, detour, address, len);
    let resume = word::wrap(target + len);
    let capture = code::capture(resume, detour);
    code::law_mid_code_holds_the_displaced_instructions(parts, target, detour, address, len);
    assert forall|from: int, to: int| 0 <= from <= to <= 22 implies #[trigger] code.subrange(
        from,
        to,
    ) == capture.subrange(from, to) by {
        assert(code.subrange(from, to) =~= code.take(22).subrange(from, to));
    }
    assert(capture.subrange(0, 5) =~= Instruction::Push(resume).bytes());
    assert(capture.subrange(5, 6) =~= Instruction::PushFlags.bytes());
    assert(capture.subrange(6, 7) =~= Instruction::PushAll.bytes());
    assert(capture.subrange(7, 12) =~= Instruction::AddStacked(12, 8).bytes());
    assert(capture.subrange(12, 14) =~= Instruction::StackToEax.bytes());
    assert(capture.subrange(14, 15) =~= Instruction::PushEax.bytes());
    assert(capture.subrange(15, 20) =~= Instruction::Eax(detour).bytes());
    assert(capture.subrange(20, 22) =~= Instruction::CallEax.bytes());
}

/// The first four instructions put the registers on the stack.
proof fn lemma_capture(
    code: Seq<u8>,
    resume: u32,
    detour: u32,
    address: u32,
    trace: Seq<Machine>,
)
    requires
        trace.len() == 9,
        is_trace(trace),
        calls_detour(code, resume, detour),
        is_under_way(trace[0], trace[0], address, code, 0, Seq::empty()),
        system::apart(
            word::wrap(trace[0].registers.esp - STACK_ROOM),
            STACK_ROOM as nat,
            address,
            code.len(),
        ),
    ensures
        is_under_way(
            trace[0],
            trace[4],
            address,
            code,
            12,
            words_of(captured(trace[0].registers, resume)),
        ),
{
    let start = trace[0];
    let r = start.registers;
    let flags = r.eflags.bits & PUSHED_FLAGS;
    assert(trace[0].steps_to(trace[1]) && trace[1].steps_to(trace[2]) && trace[2].steps_to(
        trace[3],
    ) && trace[3].steps_to(trace[4]));
    let push = Instruction::Push(resume);
    assert(push.bytes().len() == 5);
    assert(start.performs(push, trace[1]) ==> trace[1] == start.past(5).pushed(seq![resume])) by {
        reveal(Machine::performs);
    }
    lemma_push_step(
        start,
        start,
        trace[1],
        address,
        code,
        0,
        Seq::empty(),
        push,
        seq![resume],
    );
    assert(seq![resume] + Seq::empty() =~= seq![resume]);
    let push_flags = Instruction::PushFlags;
    assert(trace[1].performs(push_flags, trace[2]) ==> trace[2] == trace[1].past(1).pushed(
        seq![flags],
    )) by {
        reveal(Machine::performs);
    }
    lemma_push_step(
        start,
        trace[1],
        trace[2],
        address,
        code,
        5,
        seq![resume],
        push_flags,
        seq![flags],
    );
    assert(seq![flags] + seq![resume] =~= seq![flags, resume]);
    lemma_push_all(code, resume, address, start, trace[2], trace[3]);
    lemma_correct(code, resume, address, start, trace[3], trace[4]);
}

/// The third of them, which puts all but the flags and the instruction pointer there.
proof fn lemma_push_all(
    code: Seq<u8>,
    resume: u32,
    address: u32,
    start: Machine,
    before: Machine,
    after: Machine,
)
    requires
        before.steps_to(after),
        code::CAPTURE_LEN <= code.len() <= 0x1_0000_0000,
        code.subrange(6, 7) == Instruction::PushAll.bytes(),
        has_bytes(start.memory, address, code),
        is_under_way(
            start,
            before,
            address,
            code,
            6,
            seq![start.registers.eflags.bits & PUSHED_FLAGS, resume],
        ),
        before.registers.eax == start.registers.eax,
        system::apart(
            word::wrap(start.registers.esp - STACK_ROOM),
            STACK_ROOM as nat,
            address,
            code.len(),
        ),
    ensures
        is_under_way(
            start,
            after,
            address,
            code,
            7,
            words_of(saved(start.registers, resume)),
        ),
{
    let r = start.registers;
    let flags = r.eflags.bits & PUSHED_FLAGS;
    let all = seq![r.edi, r.esi, r.ebp, word::wrap(r.esp - 8), r.ebx, r.edx, r.ecx, r.eax];
    assert(before.registers.esp == word::wrap(r.esp - 8));
    let push_all = Instruction::PushAll;
    assert(before.performs(push_all, after) ==> after == before.past(1).pushed(all)) by {
        reveal(Machine::performs);
    }
    lemma_push_step(
        start,
        before,
        after,
        address,
        code,
        6,
        seq![flags, resume],
        push_all,
        all,
    );
    assert(all + seq![flags, resume] =~= words_of(saved(r, resume)));
}

/// The fourth of them, which makes the saved stack pointer that of the thread.
proof fn lemma_correct(
    code: Seq<u8>,
    resume: u32,
    address: u32,
    start: Machine,
    before: Machine,
    after: Machine,
)
    requires
        before.steps_to(after),
        code::CAPTURE_LEN <= code.len() <= 0x1_0000_0000,
        code.subrange(7, 12) == Instruction::AddStacked(12, 8).bytes(),
        has_bytes(start.memory, address, code),
        is_under_way(
            start,
            before,
            address,
            code,
            7,
            words_of(saved(start.registers, resume)),
        ),
        system::apart(
            word::wrap(start.registers.esp - STACK_ROOM),
            STACK_ROOM as nat,
            address,
            code.len(),
        ),
    ensures
        is_under_way(
            start,
            after,
            address,
            code,
            12,
            words_of(captured(start.registers, resume)),
        ),
{
    let esp = before.registers.esp;
    let words = words_of(saved(start.registers, resume));
    let place = word::wrap(esp + 12);
    lemma_step(before, after, address, code, 7, Instruction::AddStacked(12, 8));
    lemma_packed_word(before.memory, esp, words, 3);
    assert(word::wrap(words[3] + 8) == start.registers.esp);
    assert(after == before.past(5).with_word(place, start.registers.esp).with_flags(
        after.registers.eflags,
    )) by {
        reveal(Machine::performs);
    }
    lemma_corrected(start, before, address, code, words, start.registers.esp);
    assert(words.update(3, start.registers.esp) =~= words_of(captured(start.registers, resume)));
}

/// Replacing the saved stack pointer changes nothing but the stack.
proof fn lemma_corrected(
    start: Machine,
    before: Machine,
    address: u32,
    code: Seq<u8>,
    words: Seq<u32>,
    word: u32,
)
    requires
        code.len() <= 0x1_0000_0000,
        has_bytes(start.memory, address, code),
        is_under_way(start, before, address, code, 7, words),
        words.len() == 10,
        system::apart(
            word::wrap(start.registers.esp - STACK_ROOM),
            STACK_ROOM as nat,
            address,
            code.len(),
        ),
    ensures
        ({
            let esp = before.registers.esp;
            let stack = word::wrap(start.registers.esp - STACK_ROOM);
            let memory = before.with_word(word::wrap(esp + 12), word).memory;
            &&& has_bytes(memory, address, code)
            &&& has_bytes(memory, esp, packed(words.update(3, word)))
            &&& is_same_outside(start.memory, memory, stack, STACK_ROOM as nat)
        }),
{
    let stack = word::wrap(start.registers.esp - STACK_ROOM);
    let room = STACK_ROOM as nat;
    let esp = before.registers.esp;
    let place = word::wrap(esp + 12);
    let memory = before.with_word(place, word).memory;
    lemma_replaced_word(before.memory, esp, words, 3, word);
    word::law_steps_add_up(stack as int, 8, 12);
    assert forall|at: u32| !#[trigger] system::within(at, stack, room) implies memory(at) == (
    start.memory)(at) by {
        assert(!system::within(at, place, 4));
    }
    lemma_kept(start.memory, memory, stack, room, address, code);
}

/// The next four instructions call the detour with the address of the registers.
proof fn lemma_call(
    code: Seq<u8>,
    resume: u32,
    detour: u32,
    address: u32,
    trace: Seq<Machine>,
)
    requires
        trace.len() == 9,
        is_trace(trace),
        calls_detour(code, resume, detour),
        has_bytes(trace[0].memory, address, code),
        is_under_way(
            trace[0],
            trace[4],
            address,
            code,
            12,
            words_of(captured(trace[0].registers, resume)),
        ),
        system::apart(
            word::wrap(trace[0].registers.esp - STACK_ROOM),
            STACK_ROOM as nat,
            address,
            code.len(),
        ),
    ensures
        ({
            let back = word::wrap(address + code::CAPTURE_LEN);
            &&& is_under_way(
                trace[0],
                trace[8].with_eip(back),
                address,
                code,
                code::CAPTURE_LEN as int,
                seq![back] + handed_over(trace[0].registers, resume),
            )
            &&& trace[8].registers.eax == detour
            &&& trace[8].registers.eip == detour
        }),
{
    let start = trace[0];
    let words = words_of(captured(start.registers, resume));
    let place = word::wrap(start.registers.esp - CONTEXT_LEN);
    let handed = handed_over(start.registers, resume);
    assert(trace[4].steps_to(trace[5]) && trace[5].steps_to(trace[6]) && trace[6].steps_to(
        trace[7],
    ) && trace[7].steps_to(trace[8]));
    assert(trace[4].registers.esp == place);
    let stack_to_eax = Instruction::StackToEax;
    assert(trace[4].performs(stack_to_eax, trace[5]) ==> trace[5] == trace[4].past(2).with_eax(
        place,
    )) by {
        reveal(Machine::performs);
    }
    lemma_eax_step(start, trace[4], trace[5], address, code, 12, words, stack_to_eax, place);
    let push_eax = Instruction::PushEax;
    assert(trace[5].performs(push_eax, trace[6]) ==> trace[6] == trace[5].past(1).pushed(
        seq![place],
    )) by {
        reveal(Machine::performs);
    }
    lemma_push_step(
        start,
        trace[5],
        trace[6],
        address,
        code,
        14,
        words,
        push_eax,
        seq![place],
    );
    let load_eax = Instruction::Eax(detour);
    assert(load_eax.bytes().len() == 5);
    assert(trace[6].performs(load_eax, trace[7]) ==> trace[7] == trace[6].past(5).with_eax(
        detour,
    )) by {
        reveal(Machine::performs);
    }
    lemma_eax_step(start, trace[6], trace[7], address, code, 15, handed, load_eax, detour);
    lemma_call_step(code, address, start, trace[7], trace[8], handed);
}

/// The last of them is the call.
proof fn lemma_call_step(
    code: Seq<u8>,
    address: u32,
    start: Machine,
    before: Machine,
    after: Machine,
    words: Seq<u32>,
)
    requires
        before.steps_to(after),
        code::CAPTURE_LEN <= code.len() <= 0x1_0000_0000,
        code.subrange(20, 22) == Instruction::CallEax.bytes(),
        has_bytes(start.memory, address, code),
        is_under_way(start, before, address, code, 20, words),
        4 * words.len() + 4 <= STACK_ROOM,
        system::apart(
            word::wrap(start.registers.esp - STACK_ROOM),
            STACK_ROOM as nat,
            address,
            code.len(),
        ),
    ensures
        ({
            let back = word::wrap(address + code::CAPTURE_LEN);
            &&& is_under_way(
                start,
                after.with_eip(back),
                address,
                code,
                code::CAPTURE_LEN as int,
                seq![back] + words,
            )
            &&& after.registers.eax == before.registers.eax
            &&& after.registers.eip == before.registers.eax
        }),
{
    let back = word::wrap(address + code::CAPTURE_LEN);
    let stack = word::wrap(start.registers.esp - STACK_ROOM);
    let room = STACK_ROOM as nat;
    let next = before.past(2);
    lemma_step(before, after, address, code, 20, Instruction::CallEax);
    assert(after == next.pushed(seq![back]).with_eip(before.registers.eax)) by {
        reveal(Machine::performs);
    }
    lemma_push(next, seq![back], words, stack, room - 4 * words.len(), room, start.memory);
    lemma_kept(start.memory, after.memory, stack, room, address, code);
}

/// What is on the stack when the detour is called can be read.
proof fn lemma_handed_over(
    memory: spec_fn(u32) -> u8,
    registers: UnsafetyHookContext,
    resume: u32,
    back: u32,
)
    requires
        has_bytes(
            memory,
            word::wrap(registers.esp - STACK_ROOM),
            packed(seq![back] + handed_over(registers, resume)),
        ),
    ensures
        ({
            let stack = word::wrap(registers.esp - STACK_ROOM);
            let place = word::wrap(registers.esp - CONTEXT_LEN);
            &&& word_at(memory, stack) == back
            &&& word_at(memory, word::wrap(stack + 4)) == place
            &&& has_context(memory, place, captured(registers, resume))
        }),
{
    let stack = word::wrap(registers.esp - STACK_ROOM);
    let words = seq![back] + handed_over(registers, resume);
    let first = seq![back, word::wrap(registers.esp - CONTEXT_LEN)];
    let rest = words_of(captured(registers, resume));
    lemma_packed_word(memory, stack, words, 0);
    lemma_packed_word(memory, stack, words, 1);
    assert(word::wrap(stack + 4 * 0) == stack);
    assert(words =~= first + rest);
    lemma_packed_parts(first, rest);
    lemma_part(memory, stack, packed(words), 8, CONTEXT_LEN as int);
    assert(packed(words).subrange(8, 48) =~= packed(rest));
    word::law_steps_add_up(registers.esp as int, -48, 8);
}

/// Whether a thread that came with `registers` to code at `address`, over memory as it was
/// `before`, is where its detour is called: its registers are in memory, field after field,
/// with their address as the argument, the code is still in place, and nothing changed but
/// a part of the stack.
pub open spec fn is_called(
    registers: UnsafetyHookContext,
    before: spec_fn(u32) -> u8,
    called: Machine,
    detour: u32,
    resume: u32,
    address: u32,
    code: Seq<u8>,
) -> bool {
    let place = word::wrap(registers.esp - CONTEXT_LEN);
    let context = captured(registers, resume);
    let stack = word::wrap(registers.esp - STACK_ROOM);
    &&& called.registers == (UnsafetyHookContext {
        esp: stack,
        eax: detour,
        eflags: called.registers.eflags,
        eip: detour,
        ..registers
    })
    &&& called.stacked(0) == word::wrap(address + code::CAPTURE_LEN)
    &&& called.stacked(1) == place
    &&& has_context(called.memory, place, context)
    &&& context.eflags.bits & NAMED_BITS == registers.eflags.bits & NAMED_BITS
    &&& has_bytes(called.memory, address, code)
    &&& is_same_outside(before, called.memory, stack, STACK_ROOM as nat)
}

/// Code that calls a detour with the registers does.
proof fn lemma_detour_is_called(
    code: Seq<u8>,
    resume: u32,
    detour: u32,
    address: u32,
    trace: Seq<Machine>,
)
    requires
        trace.len() == 9,
        is_trace(trace),
        calls_detour(code, resume, detour),
        trace[0].registers.eip == address,
        has_bytes(trace[0].memory, address, code),
        system::apart(
            word::wrap(trace[0].registers.esp - STACK_ROOM),
            STACK_ROOM as nat,
            address,
            code.len(),
        ),
    ensures
        is_called(
            trace[0].registers,
            trace[0].memory,
            trace[8],
            detour,
            resume,
            address,
            code,
        ),
{
    let registers = trace[0].registers;
    let bits = registers.eflags.bits;
    let back = word::wrap(address + code::CAPTURE_LEN);
    assert(has_bytes(trace[0].memory, registers.esp, packed(Seq::empty()))) by {
        reveal(has_bytes);
        assert(system::load(trace[0].memory, registers.esp, 0) =~= packed(Seq::empty()));
    }
    lemma_capture(code, resume, detour, address, trace);
    lemma_call(code, resume, detour, address, trace);
    lemma_handed_over(trace[8].memory, registers, resume, back);
    assert((bits & PUSHED_FLAGS) & NAMED_BITS == bits & NAMED_BITS) by (bit_vector);
}

/// A thread that arrives at the code of a mid-function hook gets to the detour with its
/// registers in memory, field after field, and their address as the argument: the
/// general-purpose registers, the stack pointer among them, and the named flags as they
/// were, and as instruction pointer the address that the thread goes on at. The code of the
/// hook is still in place, and nothing changed but a part of the stack.
pub proof fn law_detour_gets_the_registers(
    parts: Seq<Seq<u8>>,
    target: u32,
    detour: u32,
    address: u32,
    len: nat,
    trace: Seq<Machine>,
)
    requires
        trace.len() == 9,
        is_trace(trace),
        trace[0].registers.eip == address,
        ({
            let code = code::mid_code(parts, target, detour, address, len);
            &&& code.len() <= 0x1_0000_0000
            &&& has_bytes(trace[0].memory, address, code)
            &&& system::apart(
                word::wrap(trace[0].registers.esp - STACK_ROOM),
                STACK_ROOM as nat,
                address,
                code.len(),
            )
        }),
    ensures
        is_called(
            trace[0].registers,
            trace[0].memory,
            trace[8],
            detour,
            word::wrap(target + len),
            address,
            code::mid_code(parts, target, detour, address, len),
        ),
{
    lemma_mid_code_calls_detour(parts, target, detour, address, len);
    lemma_detour_is_called(
        code::mid_code(parts, target, detour, address, len),
        word::wrap(target + len),
        detour,
        address,
        trace,
    );
}

} // verus!
