//! The machine code that hooks are made of: near branches, their relocation, and
//! the blocks of code that run what a hook displaced.

use vstd::prelude::*;

use crate::word;
use crate::x86::details::HookDetails;

verus! {

/// Opcode of a near call.
pub const CALL: u8 = 0xE8;

/// Opcode of a near jump.
pub const JMP: u8 = 0xE9;

/// Opcode that does nothing.
pub const NOP: u8 = 0x90;

/// Length of a near branch: the opcode and a displacement.
pub const BRANCH_LEN: usize = 5;

/// The displacement of a near branch at `from` that continues at `to`: counted from
/// the end of the branch.
pub open spec fn displacement(from: u32, to: u32) -> u32 {
    word::wrap(to - (from + BRANCH_LEN))
}

/// A near branch at `from` that continues at `to`.
pub open spec fn branch(opcode: u8, from: u32, to: u32) -> Seq<u8> {
    seq![opcode] + word::bytes(displacement(from, to))
}

/// Whether an instruction is a near call or a near jump.
pub open spec fn is_near_branch(code: Seq<u8>) -> bool {
    code.len() >= BRANCH_LEN && (code[0] == CALL || code[0] == JMP)
}

/// Where the near branch `code` at address `at` continues.
pub open spec fn branch_target(code: Seq<u8>, at: u32) -> u32 {
    word::wrap(at + BRANCH_LEN + word::value(code.subrange(1, 5)))
}

/// The instruction `code` moved from `old_pc` to `new_pc`: a near branch gets the
/// displacement that leads to the same place, anything else stays as it is.
pub open spec fn relocated(code: Seq<u8>, old_pc: u32, new_pc: u32) -> Seq<u8> {
    if is_near_branch(code) {
        branch(code[0], new_pc, branch_target(code, old_pc)) + code.skip(5)
    } else {
        code
    }
}

/// The parts of a sequence of instructions, one after the other.
pub open spec fn joined(parts: Seq<Seq<u8>>) -> Seq<u8>
    decreases parts.len(),
{
    if parts.len() == 0 {
        Seq::empty()
    } else {
        joined(parts.drop_last()) + parts.last()
    }
}

/// Consecutive instructions moved from `old_pc` to `new_pc`, each relocated by
/// itself.
pub open spec fn relocated_all(parts: Seq<Seq<u8>>, old_pc: u32, new_pc: u32) -> Seq<u8>
    decreases parts.len(),
{
    if parts.len() == 0 {
        Seq::empty()
    } else {
        let done = joined(parts.drop_last()).len();
        relocated_all(parts.drop_last(), old_pc, new_pc) + relocated(
            parts.last(),
            word::wrap(old_pc + done),
            word::wrap(new_pc + done),
        )
    }
}

/// What replaces `len` bytes at `target` to continue at `to` instead: a jump, and
/// nothing in the rest.
pub open spec fn jump_patch(target: u32, to: u32, len: nat) -> Seq<u8> {
    branch(JMP, target, to) + Seq::new((len - BRANCH_LEN) as nat, |i: int| NOP)
}

/// The code at `gateway` that runs the instructions displaced from `target` and then
/// continues `len` bytes after `target`.
pub open spec fn trampoline(parts: Seq<Seq<u8>>, target: u32, gateway: u32, len: nat) -> Seq<u8> {
    relocated_all(parts, target, gateway) + branch(
        JMP,
        word::wrap(gateway + joined(parts).len()),
        word::wrap(target + len),
    )
}

/// Length of the code in a mid-function hook up to where its detour returns.
pub const CAPTURE_LEN: usize = 22;

/// Offset in the code of a mid-function hook of the displaced instructions that run where
/// the detour left the instruction pointer alone.
pub const COPY_OFFSET: usize = 50;

/// Offset in the memory of a mid-function hook of the word that holds the address to
/// continue at where the detour changed the instruction pointer.
pub const SLOT_OFFSET: usize = 1020;

/// The code that captures the registers and hands them to `detour`: `push` the
/// address to continue at, `pushfd`, `pushad`, `add dword ptr [esp + 0Ch], 8`, which
/// takes the first two words off the stack pointer that was saved, `mov eax, esp`,
/// `push eax`, `mov eax, detour`, `call eax`.
pub open spec fn capture(resume: u32, detour: u32) -> Seq<u8> {
    seq![0x68u8] + word::bytes(resume) + seq![
        0x9Cu8,
        0x60,
        0x83,
        0x44,
        0x24,
        0x0C,
        0x08,
        0x89,
        0xE0,
        0x50,
        0xB8,
    ] + word::bytes(detour) + seq![0xFFu8, 0xD0]
}

/// The code that finds out whether the detour changed the instruction pointer, and skips
/// `len` bytes if so: `add esp, 4`, `cmp dword ptr [esp + 24h], resume`, `jne`.
pub open spec fn test(resume: u32, len: u32) -> Seq<u8> {
    seq![0x83u8, 0xC4, 0x04, 0x81, 0x7C, 0x24, 0x24] + word::bytes(resume) + seq![0x0Fu8, 0x85]
        + word::bytes(len)
}

/// The code that takes the registers over as the detour left them, the stack pointer last:
/// `mov eax, [esp + 0Ch]`, `mov [esp + 24h], eax`, `popad`, `popfd`, `pop esp`.
pub open spec fn restore() -> Seq<u8> {
    seq![0x8Bu8, 0x44, 0x24, 0x0C, 0x89, 0x44, 0x24, 0x24, 0x61, 0x9D, 0x5C]
}

/// The code that keeps the instruction pointer that the detour left at `slot`:
/// `mov eax, [esp + 24h]`, `mov [slot], eax`.
pub open spec fn keep(slot: u32) -> Seq<u8> {
    seq![0x8Bu8, 0x44, 0x24, 0x24, 0xA3] + word::bytes(slot)
}

/// The code that continues at the address at `slot`: `jmp dword ptr [slot]`.
pub open spec fn leave(slot: u32) -> Seq<u8> {
    seq![0xFFu8, 0x25] + word::bytes(slot)
}

/// The code at `address` of a mid-function hook on `len` bytes at `target`: captures
/// the registers for `detour`, takes them over as it left them, runs the displaced
/// instructions, and continues. Where the detour left the instruction pointer alone it
/// continues after the displaced instructions by a jump; where not, by way of a word that
/// threads in the hook share. Neither leaves anything on the stack.
pub open spec fn mid_code(
    parts: Seq<Seq<u8>>,
    target: u32,
    detour: u32,
    address: u32,
    len: nat,
) -> Seq<u8> {
    let resume = word::wrap(target + len);
    let size = joined(parts).len();
    let slot = word::wrap(address + SLOT_OFFSET);
    let first = word::wrap(address + COPY_OFFSET);
    let end = word::wrap(address + COPY_OFFSET + size);
    let second = word::wrap(address + changed_copy(size));
    capture(resume, detour) + test(resume, word::wrap(16 + size as int)) + restore() + relocated_all(
        parts,
        target,
        first,
    ) + branch(JMP, end, resume) + keep(slot) + restore() + relocated_all(parts, target, second)
        + leave(slot)
}

/// Offset in the code of a mid-function hook of the `size` bytes of displaced instructions
/// that run where the detour changed the instruction pointer.
pub open spec fn changed_copy(size: nat) -> nat {
    COPY_OFFSET as nat + size + 25
}

/// A near branch leads where it was made to lead.
pub proof fn law_branch_leads_to_its_target(opcode: u8, from: u32, to: u32)
    ensures
        branch(opcode, from, to).len() == BRANCH_LEN,
        branch(opcode, from, to)[0] == opcode,
        branch_target(branch(opcode, from, to), from) == to,
{
    let code = branch(opcode, from, to);
    let d = displacement(from, to);
    word::law_word_survives_its_bytes(d);
    assert(code.subrange(1, 5) =~= word::bytes(d));
}

/// A relocated near branch leads where it led before it was moved, and is still a
/// near branch with the same opcode.
pub proof fn law_relocation_keeps_the_destination(code: Seq<u8>, old_pc: u32, new_pc: u32)
    requires
        is_near_branch(code),
    ensures
        is_near_branch(relocated(code, old_pc, new_pc)),
        relocated(code, old_pc, new_pc)[0] == code[0],
        branch_target(relocated(code, old_pc, new_pc), new_pc) == branch_target(code, old_pc),
{
    let to = branch_target(code, old_pc);
    law_branch_leads_to_its_target(code[0], new_pc, to);
    assert(relocated(code, old_pc, new_pc).subrange(1, 5) =~= branch(
        code[0],
        new_pc,
        to,
    ).subrange(1, 5));
}

/// Relocation keeps the length of an instruction, and every byte of one that is no
/// near branch.
pub proof fn law_relocation_keeps_the_length(code: Seq<u8>, old_pc: u32, new_pc: u32)
    ensures
        relocated(code, old_pc, new_pc).len() == code.len(),
        !is_near_branch(code) ==> relocated(code, old_pc, new_pc) == code,
{
}

/// The displacement that leads where a branch leads is its own.
proof fn lemma_own_displacement(from: u32, rel: u32)
    ensures
        displacement(from, word::wrap(from + BRANCH_LEN + rel)) == rel,
{
}

/// Moving an instruction back undoes its relocation.
pub proof fn law_relocation_is_undone(code: Seq<u8>, old_pc: u32, new_pc: u32)
    ensures
        relocated(relocated(code, old_pc, new_pc), new_pc, old_pc) == code,
{
    if is_near_branch(code) {
        let to = branch_target(code, old_pc);
        let four = code.subrange(1, 5);
        let moved = relocated(code, old_pc, new_pc);
        law_relocation_keeps_the_destination(code, old_pc, new_pc);
        law_branch_leads_to_its_target(code[0], new_pc, to);
        word::law_bytes_survive_their_word(four);
        lemma_own_displacement(old_pc, word::value(four) as u32);
        assert(moved.skip(5) =~= code.skip(5));
        assert(relocated(moved, new_pc, old_pc) == branch(code[0], old_pc, to) + code.skip(5));
        assert(branch(code[0], old_pc, to) == seq![code[0]] + four);
        assert(seq![code[0]] + four + code.skip(5) =~= code);
    }
}

/// A run of instructions keeps its length when it is moved.
pub proof fn law_relocation_keeps_the_total_length(
    parts: Seq<Seq<u8>>,
    old_pc: u32,
    new_pc: u32,
)
    ensures
        relocated_all(parts, old_pc, new_pc).len() == joined(parts).len(),
    decreases parts.len(),
{
    if parts.len() > 0 {
        law_relocation_keeps_the_total_length(parts.drop_last(), old_pc, new_pc);
    }
}

/// A patched target continues at the detour, and the patch covers exactly the bytes
/// that it replaces.
pub proof fn law_patched_target_continues_at_the_detour(target: u32, to: u32, len: nat)
    requires
        len >= BRANCH_LEN,
    ensures
        jump_patch(target, to, len).len() == len,
        is_near_branch(jump_patch(target, to, len)),
        branch_target(jump_patch(target, to, len), target) == to,
        forall|i: int| BRANCH_LEN <= i < len ==> jump_patch(target, to, len)[i] == NOP,
{
    law_branch_leads_to_its_target(JMP, target, to);
    assert(jump_patch(target, to, len).subrange(1, 5) =~= branch(JMP, target, to).subrange(1, 5));
}

/// A trampoline starts with the displaced instructions and ends in a jump to the
/// first byte after them.
pub proof fn law_trampoline_returns_after_the_patch(
    parts: Seq<Seq<u8>>,
    target: u32,
    gateway: u32,
    len: nat,
)
    ensures
        ({
            let code = trampoline(parts, target, gateway, len);
            let back = joined(parts).len() as int;
            &&& code.len() == back + BRANCH_LEN
            &&& code.take(back) == relocated_all(parts, target, gateway)
            &&& is_near_branch(code.skip(back))
            &&& branch_target(code.skip(back), word::wrap(gateway + back)) == word::wrap(
                target + len,
            )
        }),
{
    let code = trampoline(parts, target, gateway, len);
    let back = joined(parts).len() as int;
    let at = word::wrap(gateway + back);
    let to = word::wrap(target + len);
    law_relocation_keeps_the_total_length(parts, target, gateway);
    law_branch_leads_to_its_target(JMP, at, to);
    assert(code.skip(back) =~= branch(JMP, at, to));
    assert(code.take(back) =~= relocated_all(parts, target, gateway));
}

/// The code of a mid-function hook holds the displaced instructions twice: for a detour
/// that leaves the instruction pointer alone, and for one that does not.
pub proof fn law_mid_code_holds_the_displaced_instructions(
    parts: Seq<Seq<u8>>,
    target: u32,
    detour: u32,
    address: u32,
    len: nat,
)
    ensures
        ({
            let code = mid_code(parts, target, detour, address, len);
            let size = joined(parts).len();
            let first = COPY_OFFSET as int;
            let second = changed_copy(size) as int;
            &&& code.len() == second + size + 6
            &&& code.take(CAPTURE_LEN as int) == capture(word::wrap(target + len), detour)
            &&& code.subrange(first, first + size) == relocated_all(
                parts,
                target,
                word::wrap(address + first),
            )
            &&& code.subrange(second, second + size) == relocated_all(
                parts,
                target,
                word::wrap(address + second),
            )
        }),
{
    let code = mid_code(parts, target, detour, address, len);
    let size = joined(parts).len();
    let first = COPY_OFFSET as int;
    let second = changed_copy(size) as int;
    law_relocation_keeps_the_total_length(parts, target, word::wrap(address + first));
    law_relocation_keeps_the_total_length(parts, target, word::wrap(address + second));
    assert(code.take(CAPTURE_LEN as int) =~= capture(word::wrap(target + len), detour));
    assert(code.subrange(first, first + size) =~= relocated_all(
        parts,
        target,
        word::wrap(address + first),
    ));
    assert(code.subrange(second, second + size) =~= relocated_all(
        parts,
        target,
        word::wrap(address + second),
    ));
}

/// How many bytes the first `count` of some instructions take up.
pub open spec fn offset(parts: Seq<Seq<u8>>, count: int) -> int
    decreases count,
{
    if count <= 0 {
        0
    } else {
        offset(parts, count - 1) + parts[count - 1].len()
    }
}

/// The address that a near branch at `at` leads to: it is counted from the end of the branch,
/// by the four bytes behind the opcode, lowest first, and wraps around.
pub open spec fn destination(code: Seq<u8>, at: int) -> int {
    (at + 5 + code[1] + 0x100 * code[2] + 0x1_0000 * code[3] + 0x100_0000 * code[4])
        % 0x1_0000_0000
}

/// Whether `moved` does at `new_at` what the instruction `code` does at `old_at`: where that
/// is a near call or jump, it is one with the same opcode that leads to the same address, and
/// otherwise it reads the same.
pub open spec fn does_the_same(code: Seq<u8>, old_at: int, moved: Seq<u8>, new_at: int) -> bool {
    &&& moved.len() == code.len()
    &&& if code.len() >= 5 && (code[0] == 0xE8 || code[0] == 0xE9) {
        &&& moved[0] == code[0]
        &&& destination(moved, new_at) == destination(code, old_at)
        &&& forall|i: int| 5 <= i < code.len() ==> #[trigger] moved[i] == code[i]
    } else {
        moved == code
    }
}

pub(crate) proof fn lemma_destination(code: Seq<u8>, at: int)
    requires
        code.len() >= 5,
    ensures
        destination(code, at) == branch_target(code, word::wrap(at)),
{
    let four = code.subrange(1, 5);
    assert(four[0] == code[1] && four[1] == code[2] && four[2] == code[3] && four[3] == code[4]);
    word::law_steps_add_up(at, 0, BRANCH_LEN + word::value(four));
}

/// A near branch is an opcode and four bytes, and leads to the address that it was made for,
/// wherever it stands.
pub proof fn law_branch_ends_at_its_destination(opcode: u8, from: u32, to: u32)
    ensures
        branch(opcode, from, to).len() == 5,
        branch(opcode, from, to)[0] == opcode,
        destination(branch(opcode, from, to), from as int) == to,
{
    law_branch_leads_to_its_target(opcode, from, to);
    lemma_destination(branch(opcode, from, to), from as int);
}

/// An instruction that is moved does the same at its new address.
pub proof fn law_moved_instruction_does_the_same(code: Seq<u8>, old_pc: u32, new_pc: u32)
    ensures
        does_the_same(code, old_pc as int, relocated(code, old_pc, new_pc), new_pc as int),
{
    law_relocation_keeps_the_length(code, old_pc, new_pc);
    if is_near_branch(code) {
        law_relocation_keeps_the_destination(code, old_pc, new_pc);
        lemma_destination(code, old_pc as int);
        lemma_destination(relocated(code, old_pc, new_pc), new_pc as int);
    }
}

proof fn lemma_offset_of_a_prefix(parts: Seq<Seq<u8>>, more: Seq<u8>, count: int)
    requires
        0 <= count <= parts.len(),
    ensures
        offset(parts.push(more), count) == offset(parts, count),
    decreases count,
{
    if count > 0 {
        lemma_offset_of_a_prefix(parts, more, count - 1);
    }
}

proof fn lemma_offset_grows(parts: Seq<Seq<u8>>, count: int, later: int)
    requires
        0 <= count <= later <= parts.len(),
    ensures
        0 <= offset(parts, count) <= offset(parts, later),
    decreases later,
{
    if count < later {
        lemma_offset_grows(parts, count, later - 1);
    } else if count > 0 {
        lemma_offset_grows(parts, count - 1, count - 1);
    }
}

/// Instructions one after the other take up the sum of their lengths, and each stands behind
/// those before it.
pub proof fn law_joined_instructions_stand_one_after_the_other(parts: Seq<Seq<u8>>)
    ensures
        joined(parts).len() == offset(parts, parts.len() as int),
        forall|i: int|
            0 <= i < parts.len() ==> {
                &&& 0 <= offset(parts, i)
                &&& offset(parts, i) + parts[i].len() <= joined(parts).len()
                &&& #[trigger] parts[i] == joined(parts).subrange(
                    offset(parts, i),
                    offset(parts, i) + parts[i].len(),
                )
            },
    decreases parts.len(),
{
    if parts.len() > 0 {
        let front = parts.drop_last();
        let last = parts.last();
        assert(front.push(last) =~= parts);
        law_joined_instructions_stand_one_after_the_other(front);
        lemma_offset_of_a_prefix(front, last, front.len() as int);
        assert(joined(parts) == joined(front) + last);
        assert forall|i: int| 0 <= i < parts.len() implies {
            &&& 0 <= offset(parts, i)
            &&& offset(parts, i) + parts[i].len() <= joined(parts).len()
            &&& #[trigger] parts[i] == joined(parts).subrange(
                offset(parts, i),
                offset(parts, i) + parts[i].len(),
            )
        } by {
            if i < front.len() {
                lemma_offset_of_a_prefix(front, last, i);
                assert(front[i] == parts[i]);
                let start = offset(parts, i);
                assert(joined(parts).subrange(start, start + parts[i].len()) =~= joined(
                    front,
                ).subrange(start, start + parts[i].len()));
            } else {
                assert(joined(parts).subrange(
                    offset(parts, i),
                    offset(parts, i) + parts[i].len(),
                ) =~= last);
            }
        }
    }
}

/// Whether one of the instructions at `target` is done by the code at `address`, which holds
/// them from the offset `place` on. Each stands behind the lengths of those before it, at the
/// target and in the code.
pub open spec fn is_done_by(
    parts: Seq<Seq<u8>>,
    i: int,
    target: u32,
    code: Seq<u8>,
    place: int,
    address: u32,
) -> bool {
    let before = offset(parts, i);
    let start = place + before;
    let end = start + parts[i].len();
    &&& place <= start <= end <= place + offset(parts, parts.len() as int) <= code.len()
    &&& does_the_same(parts[i], target + before, code.subrange(start, end), address + start)
}

/// Of instructions that are moved together, every single one, wherever it comes, does the
/// same at its new address as at its old one.
pub proof fn law_every_moved_instruction_does_the_same(
    parts: Seq<Seq<u8>>,
    old_pc: u32,
    new_pc: u32,
)
    ensures
        relocated_all(parts, old_pc, new_pc).len() == offset(parts, parts.len() as int),
        forall|i: int|
            0 <= i < parts.len() ==> #[trigger] is_done_by(
                parts,
                i,
                old_pc,
                relocated_all(parts, old_pc, new_pc),
                0,
                new_pc,
            ),
    decreases parts.len(),
{
    law_relocation_keeps_the_total_length(parts, old_pc, new_pc);
    law_joined_instructions_stand_one_after_the_other(parts);
    let moved = relocated_all(parts, old_pc, new_pc);
    assert forall|i: int| 0 <= i < parts.len() implies #[trigger] is_done_by(
        parts,
        i,
        old_pc,
        moved,
        0,
        new_pc,
    ) by {
        lemma_moved_instruction(parts, i, old_pc, new_pc);
    }
}

proof fn lemma_moved_instruction(parts: Seq<Seq<u8>>, i: int, old_pc: u32, new_pc: u32)
    requires
        0 <= i < parts.len(),
    ensures
        is_done_by(parts, i, old_pc, relocated_all(parts, old_pc, new_pc), 0, new_pc),
    decreases parts.len(),
{
    let front = parts.drop_last();
    let last = parts.last();
    let moved = relocated_all(parts, old_pc, new_pc);
    let before = relocated_all(front, old_pc, new_pc);
    let start = offset(parts, i);
    let len = parts[i].len();
    let done = offset(front, front.len() as int);
    let total = offset(parts, parts.len() as int);
    assert(front.push(last) =~= parts);
    law_relocation_keeps_the_total_length(parts, old_pc, new_pc);
    law_relocation_keeps_the_total_length(front, old_pc, new_pc);
    lemma_joined_len(parts);
    lemma_joined_len(front);
    lemma_offset_of_a_prefix(front, last, i);
    let piece = relocated(last, word::wrap(old_pc + done), word::wrap(new_pc + done));
    assert(moved == before + piece);
    if i < front.len() {
        lemma_moved_instruction(front, i, old_pc, new_pc);
        assert(front[i] == parts[i]);
        assert(moved.subrange(start, start + len) =~= before.subrange(start, start + len));
    } else {
        lemma_offset_grows(parts, 0, i);
        assert(moved.subrange(start, start + len) =~= piece);
        lemma_moved_to_offset(last, old_pc + done, new_pc + done);
    }
}

pub(crate) proof fn lemma_joined_len(parts: Seq<Seq<u8>>)
    ensures
        joined(parts).len() == offset(parts, parts.len() as int),
{
    law_joined_instructions_stand_one_after_the_other(parts);
}

proof fn lemma_moved_to_offset(code: Seq<u8>, old_at: int, new_at: int)
    ensures
        does_the_same(
            code,
            old_at,
            relocated(code, word::wrap(old_at), word::wrap(new_at)),
            new_at,
        ),
{
    let moved = relocated(code, word::wrap(old_at), word::wrap(new_at));
    law_moved_instruction_does_the_same(code, word::wrap(old_at), word::wrap(new_at));
    if is_near_branch(code) {
        lemma_destination(code, old_at);
        lemma_destination(moved, new_at);
        lemma_destination(code, word::wrap(old_at) as int);
        lemma_destination(moved, word::wrap(new_at) as int);
    }
}

/// Wherever an instruction comes among those that are moved together: where it is a near call
/// or jump, what stands in its place has the same opcode, and leads, from the new address,
/// where it led from the old one; and where it is not, its bytes are the same.
pub proof fn law_instruction_is_moved_whatever_its_position(
    parts: Seq<Seq<u8>>,
    i: int,
    old_pc: u32,
    new_pc: u32,
)
    requires
        0 <= i < parts.len(),
    ensures
        ({
            let code = parts[i];
            let start = joined(parts.take(i)).len();
            let old_at = old_pc + start;
            let new_at = new_pc + start;
            let moved = relocated_all(parts, old_pc, new_pc).subrange(
                start as int,
                (start + code.len()) as int,
            );
            &&& start + code.len() <= relocated_all(parts, old_pc, new_pc).len()
            &&& if code.len() >= 5 && (code[0] == 0xE8 || code[0] == 0xE9) {
                &&& moved[0] == code[0]
                &&& (new_at + 5 + moved[1] + 0x100 * moved[2] + 0x1_0000 * moved[3] + 0x100_0000
                    * moved[4]) % 0x1_0000_0000 == (old_at + 5 + code[1] + 0x100 * code[2]
                    + 0x1_0000 * code[3] + 0x100_0000 * code[4]) % 0x1_0000_0000
                &&& moved.skip(5) == code.skip(5)
            } else {
                moved == code
            }
        }),
{
    let code = parts[i];
    let start = offset(parts, i);
    let moved = relocated_all(parts, old_pc, new_pc).subrange(start, start + code.len());
    lemma_moved_instruction(parts, i, old_pc, new_pc);
    law_relocation_keeps_the_total_length(parts, old_pc, new_pc);
    lemma_joined_len(parts);
    lemma_joined_len(parts.take(i));
    lemma_offset_of_the_first(parts, i, i);
    if code.len() >= 5 && (code[0] == 0xE8 || code[0] == 0xE9) {
        assert(moved.skip(5) =~= code.skip(5));
    }
}

pub(crate) proof fn lemma_offset_of_the_first(parts: Seq<Seq<u8>>, taken: int, count: int)
    requires
        0 <= count <= taken <= parts.len(),
    ensures
        offset(parts.take(taken), count) == offset(parts, count),
    decreases count,
{
    if count > 0 {
        lemma_offset_of_the_first(parts, taken, count - 1);
    }
}

/// What replaces the bytes at a target is as long as they are: a jump that leads to the given
/// address, and then instructions that do nothing.
pub proof fn law_patch_is_a_jump_and_nothing(target: u32, to: u32, len: nat)
    requires
        len >= 5,
    ensures
        jump_patch(target, to, len).len() == len,
        jump_patch(target, to, len)[0] == 0xE9,
        destination(jump_patch(target, to, len), target as int) == to,
        forall|i: int| 5 <= i < len ==> #[trigger] jump_patch(target, to, len)[i] == 0x90,
{
    let patch = jump_patch(target, to, len);
    law_patched_target_continues_at_the_detour(target, to, len);
    lemma_destination(patch, target as int);
}

/// A trampoline does, one after the other, what each of the displaced instructions did, and
/// then jumps to the address that is `len` bytes behind the target.
pub proof fn law_trampoline_does_what_was_displaced(
    parts: Seq<Seq<u8>>,
    target: u32,
    gateway: u32,
    len: nat,
)
    ensures
        ({
            let code = trampoline(parts, target, gateway, len);
            let size = offset(parts, parts.len() as int);
            &&& code.len() == size + 5
            &&& forall|i: int|
                0 <= i < parts.len() ==> #[trigger] is_done_by(parts, i, target, code, 0, gateway)
            &&& code[size] == 0xE9
            &&& destination(code.skip(size), gateway + size) == (target + len) % 0x1_0000_0000
        }),
{
    let code = trampoline(parts, target, gateway, len);
    let size = offset(parts, parts.len() as int);
    let moved = relocated_all(parts, target, gateway);
    law_trampoline_returns_after_the_patch(parts, target, gateway, len);
    law_every_moved_instruction_does_the_same(parts, target, gateway);
    law_joined_instructions_stand_one_after_the_other(parts);
    lemma_offset_grows(parts, 0, parts.len() as int);
    assert forall|i: int| 0 <= i < parts.len() implies #[trigger] is_done_by(
        parts,
        i,
        target,
        code,
        0,
        gateway,
    ) by {
        assert(is_done_by(parts, i, target, moved, 0, gateway));
        let start = offset(parts, i);
        let end = start + parts[i].len();
        assert(code.subrange(start, end) =~= moved.subrange(start, end));
    }
    let back = branch(JMP, word::wrap(gateway + size), word::wrap(target + len));
    assert(code.skip(size) =~= back);
    assert(code[size] == back[0]);
    lemma_destination(code.skip(size), gateway + size);
}

/// The code of a mid-function hook does, at either of the two places where it holds them,
/// what each of the displaced instructions did; behind the first it jumps to the address that
/// is `len` bytes behind the target.
pub proof fn law_mid_code_does_what_was_displaced(
    parts: Seq<Seq<u8>>,
    target: u32,
    detour: u32,
    address: u32,
    len: nat,
)
    ensures
        ({
            let code = mid_code(parts, target, detour, address, len);
            let size = offset(parts, parts.len() as int);
            &&& code.len() == 50 + size + 25 + size + 6
            &&& forall|i: int|
                0 <= i < parts.len() ==> #[trigger] is_done_by(parts, i, target, code, 50, address)
            &&& forall|i: int|
                0 <= i < parts.len() ==> #[trigger] is_done_by(
                    parts,
                    i,
                    target,
                    code,
                    75 + size,
                    address,
                )
            &&& code[50 + size] == 0xE9
            &&& destination(code.skip(50 + size), address + 50 + size) == (target + len)
                % 0x1_0000_0000
        }),
{
    let code = mid_code(parts, target, detour, address, len);
    let size = offset(parts, parts.len() as int);
    law_joined_instructions_stand_one_after_the_other(parts);
    lemma_offset_grows(parts, 0, parts.len() as int);
    law_mid_code_holds_the_displaced_instructions(parts, target, detour, address, len);
    lemma_copy_does_the_same(code, 50, parts, target, address);
    lemma_copy_does_the_same(code, 75 + size, parts, target, address);
    lemma_mid_code_jumps_back(parts, target, detour, address, len);
}

proof fn lemma_copy_does_the_same(
    code: Seq<u8>,
    place: int,
    parts: Seq<Seq<u8>>,
    target: u32,
    address: u32,
)
    requires
        0 <= place <= place + offset(parts, parts.len() as int) <= code.len(),
        code.subrange(place, place + offset(parts, parts.len() as int)) == relocated_all(
            parts,
            target,
            word::wrap(address + place),
        ),
    ensures
        forall|i: int|
            0 <= i < parts.len() ==> #[trigger] is_done_by(
                parts,
                i,
                target,
                code,
                place,
                address,
            ),
{
    let copy = relocated_all(parts, target, word::wrap(address + place));
    law_every_moved_instruction_does_the_same(parts, target, word::wrap(address + place));
    assert forall|i: int| 0 <= i < parts.len() implies #[trigger] is_done_by(
        parts,
        i,
        target,
        code,
        place,
        address,
    ) by {
        assert(is_done_by(parts, i, target, copy, 0, word::wrap(address + place)));
        let start = offset(parts, i);
        let end = start + parts[i].len();
        assert(code.subrange(place + start, place + end) =~= copy.subrange(start, end));
        lemma_same_around(
            parts[i],
            target + start,
            copy.subrange(start, end),
            address + place,
            start,
        );
    }
}

#[verifier::rlimit(40)]
proof fn lemma_mid_code_jumps_back(
    parts: Seq<Seq<u8>>,
    target: u32,
    detour: u32,
    address: u32,
    len: nat,
)
    requires
        0 <= offset(parts, parts.len() as int) == joined(parts).len(),
    ensures
        ({
            let code = mid_code(parts, target, detour, address, len);
            let size = offset(parts, parts.len() as int);
            &&& code[50 + size] == 0xE9
            &&& destination(code.skip(50 + size), address + 50 + size) == (target + len)
                % 0x1_0000_0000
        }),
{
    let code = mid_code(parts, target, detour, address, len);
    let size = offset(parts, parts.len() as int);
    let end = word::wrap(address + COPY_OFFSET + size);
    let back = branch(JMP, end, word::wrap(target + len));
    law_relocation_keeps_the_total_length(parts, target, word::wrap(address + COPY_OFFSET));
    law_branch_leads_to_its_target(JMP, end, word::wrap(target + len));
    law_mid_code_holds_the_displaced_instructions(parts, target, detour, address, len);
    assert(code.subrange(50 + size, 55 + size) =~= back);
    let rest = code.skip(50 + size);
    assert(forall|i: int| 0 <= i < 5 ==> rest[i] == code.subrange(50 + size, 55 + size)[i]);
    lemma_destination(back, address + 50 + size);
}

/// Where an address wraps around makes no difference.
proof fn lemma_same_around(code: Seq<u8>, old_at: int, moved: Seq<u8>, base: int, start: int)
    requires
        does_the_same(code, old_at, moved, word::wrap(base) + start),
    ensures
        does_the_same(code, old_at, moved, base + start),
{
    if code.len() >= 5 {
        lemma_destination(moved, word::wrap(base) + start);
        lemma_destination(moved, base + start);
        word::law_steps_add_up(base, 0, start);
    }
}

/// The displacement of a near branch at `from` that continues at `to`.
fn displace(from: u32, to: u32) -> (rel: u32)
    ensures
        rel == displacement(from, to),
{
    to.wrapping_sub(from.wrapping_add(5))
}

/// A near branch at `from` that continues at `to`.
pub fn make_branch(opcode: u8, from: u32, to: u32) -> (code: Vec<u8>)
    ensures
        code@ == branch(opcode, from, to),
        code@[0] == opcode,
        destination(code@, from as int) == to,
{
    proof {
        law_branch_ends_at_its_destination(opcode, from, to);
    }
    let mut code: Vec<u8> = Vec::new();
    code.push(opcode);
    let mut rel: Vec<u8> = word::to_bytes(displace(from, to));
    code.append(&mut rel);
    assert(code@ =~= branch(opcode, from, to));
    code
}

/// Where the near branch `code` at address `at` continues.
pub fn follow_branch(code: &[u8], at: u32) -> (to: u32)
    requires
        code@.len() >= BRANCH_LEN,
    ensures
        to == branch_target(code@, at),
        to == destination(code@, at as int),
{
    proof {
        lemma_destination(code@, at as int);
    }
    at.wrapping_add(5).wrapping_add(word::from_bytes(code, 1))
}

impl HookDetails {
    /// The instruction `bytes` as it has to read at `new_pc` to do there what it did
    /// at `old_pc`.
    pub fn relocate_instruction(bytes: &[u8], old_pc: u32, new_pc: u32) -> (moved: Vec<u8>)
        ensures
            moved@ == relocated(bytes@, old_pc, new_pc),
            does_the_same(bytes@, old_pc as int, moved@, new_pc as int),
    {
        proof {
            law_moved_instruction_does_the_same(bytes@, old_pc, new_pc);
        }
        if bytes.len() >= BRANCH_LEN && (bytes[0] == CALL || bytes[0] == JMP) {
            let to: u32 = follow_branch(bytes, old_pc);
            let mut moved: Vec<u8> = make_branch(bytes[0], new_pc, to);
            moved.extend_from_slice(vstd::slice::slice_subrange(bytes, 5, bytes.len()));
            assert(moved@ =~= relocated(bytes@, old_pc, new_pc));
            moved
        } else {
            vstd::slice::slice_to_vec(bytes)
        }
    }
}

/// The byte sequences that a vector of vectors holds.
pub open spec fn parts_of(parts: Seq<Vec<u8>>) -> Seq<Seq<u8>> {
    parts.map_values(|part: Vec<u8>| part@)
}

/// Every vector is one part, with the bytes that it holds, in the same place.
pub proof fn law_parts_are_what_the_vectors_hold(parts: Seq<Vec<u8>>)
    ensures
        parts_of(parts).len() == parts.len(),
        forall|i: int| 0 <= i < parts.len() ==> #[trigger] parts_of(parts)[i] == parts[i]@,
{
}

/// Consecutive instructions as they have to read at `new_pc` to do there what they
/// did at `old_pc`.
pub fn relocate_all(parts: &Vec<Vec<u8>>, old_pc: u32, new_pc: u32) -> (moved: Vec<u8>)
    ensures
        moved@ == relocated_all(parts_of(parts@), old_pc, new_pc),
        forall|i: int|
            0 <= i < parts@.len() ==> #[trigger] is_done_by(
                parts_of(parts@),
                i,
                old_pc,
                moved@,
                0,
                new_pc,
            ),
{
    let ghost all = parts_of(parts@);
    let mut moved: Vec<u8> = Vec::new();
    let mut old_at: u32 = old_pc;
    let mut new_at: u32 = new_pc;
    let mut i: usize = 0;
    assert(all.take(0) =~= Seq::empty());
    while i < parts.len()
        invariant
            all == parts_of(parts@),
            i <= parts@.len(),
            moved@ == relocated_all(all.take(i as int), old_pc, new_pc),
            old_at == word::wrap(old_pc + joined(all.take(i as int)).len()),
            new_at == word::wrap(new_pc + joined(all.take(i as int)).len()),
        decreases parts@.len() - i,
    {
        proof {
            assert(all.take(i + 1).drop_last() =~= all.take(i as int));
            assert(all.take(i + 1).last() == parts@[i as int]@);
            let done = joined(all.take(i as int)).len() as int;
            let len = parts@[i as int]@.len() as int;
            word::law_steps_add_up(old_pc as int, done, len);
            word::law_steps_add_up(new_pc as int, done, len);
            assert(joined(all.take(i + 1)).len() == done + len);
        }
        let mut next: Vec<u8> = HookDetails::relocate_instruction(&parts[i], old_at, new_at);
        moved.append(&mut next);
        old_at = word::offset(old_at, parts[i].len());
        new_at = word::offset(new_at, parts[i].len());
        assert(moved@ == relocated_all(all.take(i + 1), old_pc, new_pc));
        i += 1;
    }
    assert(all.take(i as int) =~= all);
    proof {
        law_every_moved_instruction_does_the_same(all, old_pc, new_pc);
    }
    moved
}

/// Total length of a run of instructions, as an offset from an address.
fn address_after(parts: &Vec<Vec<u8>>, address: u32) -> (end: u32)
    ensures
        end == word::wrap(address + joined(parts_of(parts@)).len()),
{
    let ghost all = parts_of(parts@);
    let mut end: u32 = address;
    let mut i: usize = 0;
    assert(all.take(0) =~= Seq::empty());
    while i < parts.len()
        invariant
            all == parts_of(parts@),
            i <= parts@.len(),
            end == word::wrap(address + joined(all.take(i as int)).len()),
        decreases parts@.len() - i,
    {
        proof {
            assert(all.take(i + 1).drop_last() =~= all.take(i as int));
            assert(all.take(i + 1).last() == parts@[i as int]@);
        }
        end = word::offset(end, parts[i].len());
        i += 1;
    }
    assert(all.take(i as int) =~= all);
    end
}

/// What replaces `len` bytes at `target` to continue at `to` instead.
pub fn make_jump_patch(target: u32, to: u32, len: usize) -> (patch: Vec<u8>)
    requires
        len >= BRANCH_LEN,
    ensures
        patch@ == jump_patch(target, to, len as nat),
{
    let mut patch: Vec<u8> = make_branch(JMP, target, to);
    while patch.len() < len
        invariant
            BRANCH_LEN <= patch@.len() <= len,
            patch@ == jump_patch(target, to, patch@.len()),
        decreases len - patch@.len(),
    {
        patch.push(NOP);
        assert(patch@ =~= jump_patch(target, to, patch@.len()));
    }
    patch
}

/// The code at `gateway` that runs the instructions displaced from `target` and then
/// continues `len` bytes after `target`.
pub fn make_trampoline(parts: &Vec<Vec<u8>>, target: u32, gateway: u32, len: usize) -> (code: Vec<
    u8,
>)
    ensures
        code@ == trampoline(parts_of(parts@), target, gateway, len as nat),
{
    let mut code: Vec<u8> = relocate_all(parts, target, gateway);
    let at: u32 = address_after(parts, gateway);
    let mut back: Vec<u8> = make_branch(JMP, at, word::offset(target, len));
    code.append(&mut back);
    code
}

fn make_capture(resume: u32, detour: u32) -> (code: Vec<u8>)
    ensures
        code@ == capture(resume, detour),
{
    let mut code: Vec<u8> = vec![0x68u8];
    let mut resume_bytes: Vec<u8> = word::to_bytes(resume);
    code.append(&mut resume_bytes);
    let mut enter: Vec<u8> = vec![
        0x9Cu8,
        0x60,
        0x83,
        0x44,
        0x24,
        0x0C,
        0x08,
        0x89,
        0xE0,
        0x50,
        0xB8,
    ];
    code.append(&mut enter);
    let mut detour_bytes: Vec<u8> = word::to_bytes(detour);
    code.append(&mut detour_bytes);
    code.push(0xFF);
    code.push(0xD0);
    assert(code@ =~= capture(resume, detour));
    code
}

fn make_test(resume: u32, len: u32) -> (code: Vec<u8>)
    ensures
        code@ == test(resume, len),
{
    let mut code: Vec<u8> = vec![0x83u8, 0xC4, 0x04, 0x81, 0x7C, 0x24, 0x24];
    let mut resume_bytes: Vec<u8> = word::to_bytes(resume);
    code.append(&mut resume_bytes);
    code.push(0x0F);
    code.push(0x85);
    let mut len_bytes: Vec<u8> = word::to_bytes(len);
    code.append(&mut len_bytes);
    assert(code@ =~= test(resume, len));
    code
}

fn make_restore() -> (code: Vec<u8>)
    ensures
        code@ == restore(),
{
    let code: Vec<u8> = vec![
        0x8Bu8,
        0x44,
        0x24,
        0x0C,
        0x89,
        0x44,
        0x24,
        0x24,
        0x61,
        0x9D,
        0x5C,
    ];
    assert(code@ =~= restore());
    code
}

fn make_keep(slot: u32) -> (code: Vec<u8>)
    ensures
        code@ == keep(slot),
{
    let mut code: Vec<u8> = vec![0x8Bu8, 0x44, 0x24, 0x24, 0xA3];
    let mut slot_bytes: Vec<u8> = word::to_bytes(slot);
    code.append(&mut slot_bytes);
    assert(code@ =~= keep(slot));
    code
}

fn make_leave(slot: u32) -> (code: Vec<u8>)
    ensures
        code@ == leave(slot),
{
    let mut code: Vec<u8> = vec![0xFFu8, 0x25];
    let mut slot_bytes: Vec<u8> = word::to_bytes(slot);
    code.append(&mut slot_bytes);
    assert(code@ =~= leave(slot));
    code
}

/// The code at `address` of a mid-function hook on `len` bytes at `target`.
pub fn make_mid_code(
    parts: &Vec<Vec<u8>>,
    target: u32,
    detour: u32,
    address: u32,
    len: usize,
) -> (code: Vec<u8>)
    ensures
        code@ == mid_code(parts_of(parts@), target, detour, address, len as nat),
{
    let ghost size = joined(parts_of(parts@)).len() as int;
    let resume: u32 = word::offset(target, len);
    let slot: u32 = word::offset(address, SLOT_OFFSET);
    let first: u32 = word::offset(address, COPY_OFFSET);
    let end: u32 = address_after(parts, first);
    let second: u32 = word::offset(end, 25);
    proof {
        word::law_steps_add_up(address as int, COPY_OFFSET as int, size);
        word::law_steps_add_up(address as int, COPY_OFFSET + size, 25);
    }
    let mut code: Vec<u8> = make_capture(resume, detour);
    let mut test: Vec<u8> = make_test(resume, address_after(parts, 16));
    code.append(&mut test);
    let mut restore: Vec<u8> = make_restore();
    code.append(&mut restore);
    let mut moved: Vec<u8> = relocate_all(parts, target, first);
    code.append(&mut moved);
    let mut back: Vec<u8> = make_branch(JMP, end, resume);
    code.append(&mut back);
    let mut keep: Vec<u8> = make_keep(slot);
    code.append(&mut keep);
    let mut restore_again: Vec<u8> = make_restore();
    code.append(&mut restore_again);
    let mut moved_again: Vec<u8> = relocate_all(parts, target, second);
    code.append(&mut moved_again);
    let mut leave: Vec<u8> = make_leave(slot);
    code.append(&mut leave);
    code
}

} // verus!
