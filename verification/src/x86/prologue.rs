//! How many whole instructions have to move to make room for a jump.

use vstd::prelude::*;

use crate::x86::code;
use crate::x86::details::HookDetails;

verus! {

/// How many bytes of code are read to find the instructions that a hook displaces.
pub const WINDOW_LEN: usize = 64;

/// The length of the first x86 instruction in `code`, and 0 where there is none.
pub uninterp spec fn x86_instruction_len(code: Seq<u8>) -> u32;

/// Calls `lde::X86.ld`, which decodes prefixes, opcode, operand bytes and immediates
/// of the first instruction. Claimed of it: what it returns depends on the bytes
/// alone, is never more than there are bytes, and is the length of a near branch
/// where the bytes start with one.
#[verifier::external_body]
fn instruction_len(bytes: &[u8]) -> (len: u32)
    ensures
        len == x86_instruction_len(bytes@),
        len <= bytes@.len(),
        code::is_near_branch(bytes@) ==> len == code::BRANCH_LEN,
{
    lde::X86.ld(bytes)
}

/// The whole instructions from offset `total` on that a jump at the start of `window`
/// displaces; none where one of them cannot be decoded.
pub open spec fn displaced(window: Seq<u8>, total: nat) -> Option<Seq<Seq<u8>>>
    decreases window.len() - total,
{
    if total >= code::BRANCH_LEN {
        Some(Seq::empty())
    } else {
        let len = x86_instruction_len(window.skip(total as int));
        if len == 0 || total + len > window.len() {
            None
        } else {
            match displaced(window, total + len as nat) {
                Some(rest) => Some(
                    seq![window.subrange(total as int, total + len)] + rest,
                ),
                None => None,
            }
        }
    }
}

/// Whether an instruction cannot be decoded: at `total`, or at an offset below the length of
/// a jump that is reached from there by adding up the lengths of instructions, the length is
/// zero.
pub open spec fn is_undecodable(window: Seq<u8>, total: nat) -> bool
    decreases code::BRANCH_LEN - total,
{
    if total >= code::BRANCH_LEN {
        false
    } else {
        let len = x86_instruction_len(window.skip(total as int));
        len == 0 || (total + len < code::BRANCH_LEN && is_undecodable(window, total + len as nat))
    }
}

/// The displaced instructions are the bytes at the start of the window, in order and
/// without a gap; they are long enough for a jump, and none is empty.
pub proof fn law_displaced_instructions_are_the_start_of_the_code(window: Seq<u8>)
    requires
        displaced(window, 0) is Some,
    ensures
        ({
            let parts = displaced(window, 0)->0;
            let len = code::joined(parts).len();
            &&& code::joined(parts) == window.take(len as int)
            &&& code::BRANCH_LEN <= len <= window.len()
            &&& forall|i: int| 0 <= i < parts.len() ==> (#[trigger] parts[i]).len() > 0
        }),
{
    lemma_displaced_from(window, 0);
}

proof fn lemma_displaced_from(window: Seq<u8>, total: nat)
    requires
        total <= window.len(),
        displaced(window, total) is Some,
    ensures
        ({
            let parts = displaced(window, total)->0;
            let end = total + code::joined(parts).len();
            &&& end <= window.len()
            &&& end >= code::BRANCH_LEN
            &&& code::joined(parts) == window.subrange(total as int, end as int)
            &&& forall|i: int| 0 <= i < parts.len() ==> (#[trigger] parts[i]).len() > 0
        }),
    decreases window.len() - total,
{
    let parts = displaced(window, total)->0;
    if total >= code::BRANCH_LEN {
        assert(code::joined(parts) =~= window.subrange(total as int, total as int));
    } else {
        let len = x86_instruction_len(window.skip(total as int));
        let next = total + len as nat;
        let first = window.subrange(total as int, next as int);
        let rest = displaced(window, next)->0;
        lemma_displaced_from(window, next);
        lemma_joined_front(first, rest);
        assert(parts == seq![first] + rest);
        assert(code::joined(parts) =~= window.subrange(
            total as int,
            (next + code::joined(rest).len()) as int,
        ));
    }
}

proof fn lemma_joined_front(first: Seq<u8>, rest: Seq<Seq<u8>>)
    ensures
        code::joined(seq![first] + rest) == first + code::joined(rest),
    decreases rest.len(),
{
    let all = seq![first] + rest;
    reveal_with_fuel(code::joined, 2);
    if rest.len() == 0 {
        assert(all.drop_last() =~= Seq::empty());
        assert(code::joined(all) =~= first + code::joined(rest));
    } else {
        assert(all.drop_last() =~= seq![first] + rest.drop_last());
        lemma_joined_front(first, rest.drop_last());
        assert(code::joined(all) =~= first + code::joined(rest));
    }
}

/// Whether `part` is the one whole instruction that stands at an offset in `window`, as long
/// as an instruction there is.
pub open spec fn is_instruction_at(window: Seq<u8>, part: Seq<u8>, start: int) -> bool {
    let len = x86_instruction_len(window.skip(start));
    &&& 0 < len == part.len()
    &&& 0 <= start <= start + len <= window.len()
    &&& part == window.subrange(start, start + len)
}

/// Whether one of the instructions at the start of `window` has to move to make room for a
/// jump: it stands where those before it end, before the end of the jump, and is whole.
pub open spec fn is_in_the_way(window: Seq<u8>, parts: Seq<Seq<u8>>, i: int) -> bool {
    &&& code::offset(parts, i) < 5
    &&& is_instruction_at(window, parts[i], code::offset(parts, i))
}

/// Each displaced part is exactly one whole instruction: it stands where the parts before it
/// end, and is as long as the instruction there is. None begins behind the jump, and all of
/// them together make room for it.
pub proof fn law_every_displaced_part_is_one_whole_instruction(window: Seq<u8>)
    requires
        displaced(window, 0) is Some,
    ensures
        ({
            let parts = displaced(window, 0)->0;
            &&& forall|i: int| 0 <= i < parts.len() ==> #[trigger] is_in_the_way(window, parts, i)
            &&& 5 <= code::offset(parts, parts.len() as int) <= window.len()
        }),
{
    let parts = displaced(window, 0)->0;
    lemma_displaced_from(window, 0);
    code::law_joined_instructions_stand_one_after_the_other(parts);
    assert forall|i: int| 0 <= i < parts.len() implies #[trigger] is_in_the_way(
        window,
        parts,
        i,
    ) by {
        lemma_instruction_in_the_way(window, 0, i);
    }
}

/// The length of each displaced part is the length of the instruction that stands where the
/// parts before it end.
pub proof fn law_displaced_part_is_as_long_as_the_instruction_there(window: Seq<u8>, i: int)
    requires
        displaced(window, 0) is Some,
        0 <= i < displaced(window, 0)->0.len(),
    ensures
        ({
            let parts = displaced(window, 0)->0;
            let start = code::joined(parts.take(i)).len();
            &&& start < 5
            &&& parts[i].len() == x86_instruction_len(window.skip(start as int))
            &&& parts[i] == window.subrange(start as int, (start + parts[i].len()) as int)
        }),
{
    let parts = displaced(window, 0)->0;
    lemma_instruction_in_the_way(window, 0, i);
    code::lemma_joined_len(parts.take(i));
    code::lemma_offset_of_the_first(parts, i, i);
}

proof fn lemma_offset_behind(first: Seq<u8>, rest: Seq<Seq<u8>>, count: int)
    requires
        0 <= count <= rest.len(),
    ensures
        code::offset(seq![first] + rest, count + 1) == first.len() + code::offset(rest, count),
    decreases count,
{
    reveal_with_fuel(code::offset, 2);
    if count > 0 {
        lemma_offset_behind(first, rest, count - 1);
    }
}

proof fn lemma_instruction_in_the_way(window: Seq<u8>, total: nat, i: int)
    requires
        displaced(window, total) is Some,
        0 <= i < displaced(window, total)->0.len(),
    ensures
        ({
            let parts = displaced(window, total)->0;
            let start = total + code::offset(parts, i);
            start < 5 && is_instruction_at(window, parts[i], start)
        }),
    decreases i,
{
    let parts = displaced(window, total)->0;
    let len = x86_instruction_len(window.skip(total as int));
    let next = total + len as nat;
    let first = window.subrange(total as int, next as int);
    let rest = displaced(window, next)->0;
    assert(parts == seq![first] + rest);
    if i > 0 {
        lemma_instruction_in_the_way(window, next, i - 1);
        lemma_offset_behind(first, rest, i - 1);
        assert(parts[i] == rest[i - 1]);
    }
}

/// Where the whole instructions in some code begin that come one after the other from its
/// start on.
pub open spec fn follow_each_other(window: Seq<u8>, starts: Seq<int>) -> bool {
    &&& starts.len() > 0
    &&& starts[0] == 0
    &&& forall|i: int, next: int|
        #![trigger starts[i], starts[next]]
        0 <= i && next == i + 1 && next < starts.len() ==> starts[next] == starts[i]
            + x86_instruction_len(window.skip(starts[i])) > starts[i]
}

/// Code cannot be decoded exactly where, one instruction following the other from its start
/// on, one that would begin before the end of the jump has no length.
pub proof fn law_undecodable_code_has_an_instruction_without_length(window: Seq<u8>)
    ensures
        is_undecodable(window, 0) <==> exists|starts: Seq<int>| #[trigger]
            follow_each_other(window, starts) && starts.last() < 5 && x86_instruction_len(
                window.skip(starts.last()),
            ) == 0,
{
    if is_undecodable(window, 0) {
        lemma_find_undecodable(window, seq![0int]);
    }
    assert forall|starts: Seq<int>| #[trigger]
        follow_each_other(window, starts) && starts.last() < 5 && x86_instruction_len(
            window.skip(starts.last()),
        ) == 0 implies is_undecodable(window, 0) by {
        lemma_undecodable_upwards(window, starts, 0);
    }
}

proof fn lemma_find_undecodable(window: Seq<u8>, starts: Seq<int>)
    requires
        follow_each_other(window, starts),
        0 <= starts.last() < 5,
        is_undecodable(window, starts.last() as nat),
    ensures
        exists|found: Seq<int>| #[trigger]
            follow_each_other(window, found) && found.last() < 5 && x86_instruction_len(
                window.skip(found.last()),
            ) == 0,
    decreases 5 - starts.last(),
{
    let len = x86_instruction_len(window.skip(starts.last()));
    if len != 0 {
        let more = starts.push(starts.last() + len);
        assert forall|i: int, next: int|
            #![trigger more[i], more[next]]
            0 <= i && next == i + 1 && next < more.len() implies more[next] == more[i]
            + x86_instruction_len(window.skip(more[i])) > more[i] by {
            if next < starts.len() {
                assert(more[i] == starts[i] && more[next] == starts[next]);
            }
        }
        assert(more.last() == starts.last() + len);
        lemma_find_undecodable(window, more);
    }
}

proof fn lemma_starts_grow(window: Seq<u8>, starts: Seq<int>, i: int)
    requires
        follow_each_other(window, starts),
        0 <= i < starts.len(),
    ensures
        0 <= starts[i] <= starts.last(),
    decreases i,
{
    if i > 0 {
        lemma_starts_grow(window, starts, i - 1);
        assert(starts[i] > starts[i - 1]);
    }
    lemma_starts_below_the_last(window, starts, i);
}

proof fn lemma_starts_below_the_last(window: Seq<u8>, starts: Seq<int>, i: int)
    requires
        follow_each_other(window, starts),
        0 <= i < starts.len(),
    ensures
        starts[i] <= starts.last(),
    decreases starts.len() - i,
{
    if i + 1 < starts.len() {
        lemma_starts_below_the_last(window, starts, i + 1);
        assert(starts[i + 1] > starts[i]);
    }
}

proof fn lemma_undecodable_upwards(window: Seq<u8>, starts: Seq<int>, i: int)
    requires
        follow_each_other(window, starts),
        starts.last() < 5,
        x86_instruction_len(window.skip(starts.last())) == 0,
        0 <= i < starts.len(),
    ensures
        is_undecodable(window, starts[i] as nat),
    decreases starts.len() - i,
{
    lemma_starts_grow(window, starts, i);
    if i + 1 < starts.len() {
        lemma_starts_grow(window, starts, i + 1);
        lemma_undecodable_upwards(window, starts, i + 1);
        assert(starts[i + 1] == starts[i] + x86_instruction_len(window.skip(starts[i])));
        assert(starts[i] as nat as int == starts[i]);
    }
}

/// Whether a near branch at the start of the code, if there is one, is all that a jump there
/// displaces. [`HookDetails::get_hook_len`] finds it so in any code.
pub open spec fn stands_alone(window: Seq<u8>) -> bool {
    code::is_near_branch(window) ==> displaced(window, 0) == Some(
        seq![window.take(code::BRANCH_LEN as int)],
    )
}

/// The instructions found so far at the start of a piece of code.
pub struct HookScan {
    /// Total length of the instructions.
    pub total: usize,
    /// The instructions, first to last.
    pub instructions: Vec<Vec<u8>>,
}

impl HookScan {
    /// A scan that has found nothing yet.
    pub fn new() -> (scan: HookScan)
        ensures
            scan.total == 0,
            scan.instructions@ == Seq::<Vec<u8>>::empty(),
    {
        HookScan { total: 0, instructions: Vec::new() }
    }

    /// Whether the instructions found make room for a jump.
    pub fn is_complete(&self) -> (complete: bool)
        ensures
            complete == (self.total >= code::BRANCH_LEN),
    {
        self.total >= code::BRANCH_LEN
    }

    /// Takes the next instruction of `window`, whose length was found to be `len`.
    /// Returns `false` and changes nothing where the length says that there is none.
    pub fn accept(&mut self, window: &[u8], len: u32) -> (taken: bool)
        requires
            old(self).total + len <= window@.len(),
        ensures
            taken == (len != 0),
            !taken ==> *final(self) == *old(self),
            taken ==> {
                &&& final(self).total == old(self).total + len
                &&& code::parts_of(final(self).instructions@) == code::parts_of(
                    old(self).instructions@,
                ).push(window@.subrange(old(self).total as int, old(self).total + len))
            },
    {
        if len == 0 {
            return false;
        }
        assert(window.len() <= usize::MAX);
        let end: usize = self.total + len as usize;
        let taken: Vec<u8> = vstd::slice::slice_to_vec(
            vstd::slice::slice_subrange(window, self.total, end),
        );
        self.instructions.push(taken);
        self.total = end;
        assert(code::parts_of(self.instructions@) =~= code::parts_of(
            old(self).instructions@,
        ).push(window@.subrange(old(self).total as int, end as int)));
        true
    }
}

impl HookDetails {
    /// The whole instructions at the start of `window` that a jump there displaces,
    /// and their total length. `None` exactly where one of them cannot be decoded. A near
    /// branch at the start makes room for the jump by itself.
    pub fn get_hook_len(window: &[u8]) -> (found: Option<(usize, Vec<Vec<u8>>)>)
        ensures
            match found {
                Some((len, instructions)) => {
                    &&& displaced(window@, 0) == Some(code::parts_of(instructions@))
                    &&& len == code::joined(code::parts_of(instructions@)).len()
                    &&& len == code::offset(code::parts_of(instructions@), instructions@.len() as int)
                    &&& forall|i: int|
                        0 <= i < instructions@.len() ==> #[trigger] is_in_the_way(
                            window@,
                            code::parts_of(instructions@),
                            i,
                        )
                },
                None => displaced(window@, 0) is None,
            },
            found is None == is_undecodable(window@, 0),
            stands_alone(window@),
    {
        let mut scan: HookScan = HookScan::new();
        assert(code::parts_of(scan.instructions@) =~= Seq::empty());
        assert(forall|rest: Seq<Seq<u8>>| #[trigger] (Seq::<Seq<u8>>::empty() + rest) =~= rest);
        while !scan.is_complete()
            invariant
                scan.total <= window@.len(),
                scan.total == code::joined(code::parts_of(scan.instructions@)).len(),
                displaced(window@, 0) == (match displaced(window@, scan.total as nat) {
                    Some(rest) => Some(code::parts_of(scan.instructions@) + rest),
                    None => None,
                }),
                is_undecodable(window@, 0) == is_undecodable(window@, scan.total as nat),
                scan.total > 0 && code::is_near_branch(window@) ==> scan.total == code::BRANCH_LEN
                    && x86_instruction_len(window@) == code::BRANCH_LEN,
            decreases window@.len() - scan.total,
        {
            let ghost before = code::parts_of(scan.instructions@);
            let ghost start = scan.total;
            let remaining: &[u8] = vstd::slice::slice_subrange(window, scan.total, window.len());
            assert(remaining@ =~= window@.skip(start as int));
            let len: u32 = instruction_len(remaining);
            assert(window@.skip(0) =~= window@);
            if !scan.accept(window, len) {
                return None;
            }
            proof {
                let after = code::parts_of(scan.instructions@);
                let piece = window@.subrange(start as int, start + len);
                assert(after.drop_last() =~= before);
                if displaced(window@, scan.total as nat) is Some {
                    let rest = displaced(window@, scan.total as nat)->0;
                    assert(before + (seq![piece] + rest) =~= after + rest);
                }
            }
        }
        assert(code::parts_of(scan.instructions@) + Seq::empty() =~= code::parts_of(
            scan.instructions@,
        ));
        proof {
            law_every_displaced_part_is_one_whole_instruction(window@);
            code::law_joined_instructions_stand_one_after_the_other(
                code::parts_of(scan.instructions@),
            );
            assert(window@.skip(0) =~= window@);
            if code::is_near_branch(window@) {
                let first = window@.subrange(0, code::BRANCH_LEN as int);
                assert(first == window@.take(code::BRANCH_LEN as int));
                assert(displaced(window@, 5) == Some(Seq::<Seq<u8>>::empty()));
                assert(seq![first] + Seq::empty() =~= seq![first]);
            }
        }
        Some((scan.total, scan.instructions))
    }
}

} // verus!
