//! Hooks that replace an entry of an object's vtable.

use vstd::prelude::*;

use crate::system;
use crate::system::{Program, Reply, Request, World};
use crate::word;
use crate::x86::details;
use crate::x86::details::{Hook, HookDetails, UnsafetyHookError};

verus! {

/// Length of an entry of a vtable.
pub const ENTRY_LEN: usize = 4;

/// How far replacing an entry has come.
#[derive(Debug, Clone, Copy, PartialEq, Eq)]
pub enum VtableStage {
    /// Reads where the vtable of the object is.
    Table,
    /// Reads the entry.
    Entry { entry: u32 },
    /// Makes the entry writable.
    Unprotect { entry: u32, original: u32 },
    /// Writes the entry.
    Write { entry: u32, original: u32, old: u32 },
    /// Gives the entry its protection back.
    Reprotect { entry: u32, original: u32, old: u32 },
    /// The entry could not be made writable.
    Failed { error: UnsafetyHookError },
    /// The entry is replaced.
    Done { entry: u32, original: u32 },
}

/// Replaces the entry at `index` in the vtable of `object` by `detour`.
#[derive(Debug, Clone, Copy, PartialEq, Eq)]
pub struct VtablePatch {
    pub object: u32,
    pub index: u32,
    pub detour: u32,
    pub stage: VtableStage,
}

/// The address of an entry of the vtable at `table`.
pub open spec fn entry_address(table: u32, index: u32) -> u32 {
    word::wrap(table + ENTRY_LEN * index)
}

impl VtablePatch {
    /// The same replacement at another stage.
    pub open spec fn at(self, stage: VtableStage) -> VtablePatch {
        VtablePatch { object: self.object, index: self.index, detour: self.detour, stage }
    }

    /// What came of the replacement.
    pub open spec fn outcome(self) -> Option<Result<Hook, UnsafetyHookError>> {
        match self.stage {
            VtableStage::Done { entry, original } => Some(
                Ok(
                    Hook {
                        target_addr: entry,
                        alloc_addr: original,
                        orig_bytes: word::bytes(original),
                        is_jmp: false,
                    },
                ),
            ),
            VtableStage::Failed { error } => Some(Err(error)),
            _ => None,
        }
    }
}

impl Program for VtablePatch {
    open spec fn pending(self) -> Option<Request<Seq<u8>>> {
        match self.stage {
            VtableStage::Table => Some(Request::Read { address: self.object, len: ENTRY_LEN }),
            VtableStage::Entry { entry } => Some(Request::Read { address: entry, len: ENTRY_LEN }),
            VtableStage::Unprotect { entry, .. } => Some(
                Request::Protect {
                    address: entry,
                    len: ENTRY_LEN,
                    protection: system::PAGE_EXECUTE_READWRITE,
                },
            ),
            VtableStage::Write { entry, .. } => Some(
                Request::Write { address: entry, data: word::bytes(self.detour) },
            ),
            VtableStage::Reprotect { entry, old, .. } => Some(
                Request::Protect { address: entry, len: ENTRY_LEN, protection: old },
            ),
            _ => None,
        }
    }

    open spec fn resumed(self, reply: Reply<Seq<u8>>) -> VtablePatch {
        match self.stage {
            VtableStage::Table => self.at(
                VtableStage::Entry {
                    entry: entry_address(word::value(reply->Data_0) as u32, self.index),
                },
            ),
            VtableStage::Entry { entry } => self.at(
                VtableStage::Unprotect { entry, original: word::value(reply->Data_0) as u32 },
            ),
            VtableStage::Unprotect { entry, original } => match reply {
                Reply::Protection(Ok(old)) => self.at(VtableStage::Write { entry, original, old }),
                Reply::Protection(Err(code)) => self.at(
                    VtableStage::Failed { error: UnsafetyHookError::VirtualProtectFailed(code) },
                ),
                _ => self,
            },
            VtableStage::Write { entry, original, old } => self.at(
                VtableStage::Reprotect { entry, original, old },
            ),
            VtableStage::Reprotect { entry, original, .. } => self.at(
                VtableStage::Done { entry, original },
            ),
            _ => self,
        }
    }
}

impl VtablePatch {
    /// The request that waits for a reply.
    pub fn request(&self) -> (request: Option<Request<Vec<u8>>>)
        ensures
            request is Some == self.pending() is Some,
            request is Some ==> request->0@ == self.pending()->0,
    {
        match self.stage {
            VtableStage::Table => Some(Request::Read { address: self.object, len: ENTRY_LEN }),
            VtableStage::Entry { entry } => Some(Request::Read { address: entry, len: ENTRY_LEN }),
            VtableStage::Unprotect { entry, .. } => Some(
                Request::Protect {
                    address: entry,
                    len: ENTRY_LEN,
                    protection: system::PAGE_EXECUTE_READWRITE,
                },
            ),
            VtableStage::Write { entry, .. } => Some(
                Request::Write { address: entry, data: word::to_bytes(self.detour) },
            ),
            VtableStage::Reprotect { entry, old, .. } => Some(
                Request::Protect { address: entry, len: ENTRY_LEN, protection: old },
            ),
            VtableStage::Failed { .. } | VtableStage::Done { .. } => None,
        }
    }

    /// Goes on with the reply to the pending request.
    pub fn advance(&mut self, reply: &Reply<Vec<u8>>)
        requires
            old(self).pending() matches Some(request) && system::answers(request, reply@),
        ensures
            *final(self) == old(self).resumed(reply@),
    {
        match (self.stage, reply) {
            (VtableStage::Table, Reply::Data(data)) => {
                let table: u32 = word::from_bytes(data, 0);
                assert(data@.subrange(0, 4) =~= data@);
                let entry: u32 = table.wrapping_add(self.index.wrapping_mul(4));
                proof {
                    lemma_entry_address(table, self.index);
                }
                self.stage = VtableStage::Entry { entry };
            },
            (VtableStage::Entry { entry }, Reply::Data(data)) => {
                let original: u32 = word::from_bytes(data, 0);
                assert(data@.subrange(0, 4) =~= data@);
                self.stage = VtableStage::Unprotect { entry, original };
            },
            (VtableStage::Unprotect { entry, original }, Reply::Protection(result)) => {
                self.stage = match result {
                    Ok(old) => VtableStage::Write { entry, original, old: *old },
                    Err(code) => VtableStage::Failed {
                        error: UnsafetyHookError::VirtualProtectFailed(*code),
                    },
                };
            },
            (VtableStage::Write { entry, original, old }, _) => {
                self.stage = VtableStage::Reprotect { entry, original, old };
            },
            (VtableStage::Reprotect { entry, original, .. }, _) => {
                self.stage = VtableStage::Done { entry, original };
            },
            _ => {},
        }
    }

    /// What came of a replacement that has ended.
    pub fn finish(self) -> (outcome: Result<HookDetails, UnsafetyHookError>)
        requires
            self.outcome() is Some,
        ensures
            details::outcome_of(outcome) == self.outcome()->0,
    {
        match self.stage {
            VtableStage::Done { entry, original } => Ok(
                HookDetails {
                    target_addr: entry,
                    alloc_addr: original,
                    orig_bytes: word::to_bytes(original),
                    is_jmp: false,
                },
            ),
            VtableStage::Failed { error } => Err(error),
            _ => Err(UnsafetyHookError::InvalidInstructions),
        }
    }
}

proof fn lemma_entry_address(table: u32, index: u32)
    ensures
        table.wrapping_add(index.wrapping_mul(4)) == entry_address(table, index),
{
}

impl HookDetails {
    /// Begins to replace the entry at `index` in the vtable of `object` by `detour`.
    pub fn vtable(object: u32, index: u32, detour: u32) -> (patch: VtablePatch)
        ensures
            patch == (VtablePatch { object, index, detour, stage: VtableStage::Table }),
    {
        VtablePatch { object, index, detour, stage: VtableStage::Table }
    }
}

impl VtablePatch {
    /// The address of the entry, in the process as it was.
    pub open spec fn entry(self, before: World) -> u32 {
        let table = word::value(system::load(before.memory, self.object, ENTRY_LEN as nat)) as u32;
        entry_address(table, self.index)
    }

    /// The process with the entry replaced.
    pub open spec fn replaced(self, before: World) -> World {
        World {
            memory: system::store(before.memory, self.entry(before), word::bytes(self.detour)),
            ..before
        }
    }

    /// What the process is at this stage, where it was `before` the first.
    pub open spec fn holds(self, before: World, now: World) -> bool {
        let entry = self.entry(before);
        let range = (entry, ENTRY_LEN as nat);
        let original = word::value(system::load(before.memory, entry, ENTRY_LEN as nat)) as u32;
        let open = before.protected(range, system::PAGE_EXECUTE_READWRITE);
        match self.stage {
            VtableStage::Table => now == before,
            VtableStage::Entry { entry: found } => now == before && found == entry,
            VtableStage::Unprotect { entry: found, original: function } => now == before && found
                == entry && function == original,
            VtableStage::Write { entry: found, original: function, old } => {
                &&& now == open
                &&& found == entry
                &&& function == original
                &&& old == (before.protection)(range)
            },
            VtableStage::Reprotect { entry: found, original: function, old } => {
                &&& now == World { memory: self.replaced(before).memory, ..open }
                &&& found == entry
                &&& function == original
                &&& old == (before.protection)(range)
            },
            VtableStage::Failed { error } => now == before.refused() && error
                is VirtualProtectFailed,
            VtableStage::Done { entry: found, original: function } => {
                &&& found == entry
                &&& function == original
                &&& now == self.replaced(before) || now == (World {
                    memory: self.replaced(before).memory,
                    ..open
                }).refused()
            },
        }
    }
}

proof fn lemma_vtable_step(
    patch: VtablePatch,
    before: World,
    now: World,
    reply: Reply<Seq<u8>>,
)
    requires
        patch.holds(before, now),
        patch.pending() is Some,
        now.admits(patch.pending()->0, reply),
    ensures
        patch.resumed(reply).holds(before, now.after(patch.pending()->0, reply)),
{
    let next = now.after(patch.pending()->0, reply);
    if patch.stage is Reprotect && reply->Protection_0 is Ok {
        assert(next.protection =~= before.protection);
    }
}

proof fn lemma_vtable_run(
    patch: VtablePatch,
    before: World,
    now: World,
    replies: Seq<Reply<Seq<u8>>>,
)
    requires
        patch.holds(before, now),
        system::possible(patch, now, replies),
    ensures
        ({
            let (later, world) = system::run(patch, now, replies);
            &&& later.holds(before, world)
            &&& later.object == patch.object
            &&& later.index == patch.index
            &&& later.detour == patch.detour
        }),
    decreases replies.len(),
{
    if replies.len() > 0 {
        let reply = replies.first();
        lemma_vtable_step(patch, before, now, reply);
        lemma_vtable_run(
            patch.resumed(reply),
            before,
            now.after(patch.pending()->0, reply),
            replies.drop_first(),
        );
    }
}

/// Whether a hook replaces an entry in the process `now`, where it did not in the process
/// `before`: the bytes that the entry held, and the function that they are the address of,
/// are known, and nothing else has changed.
pub open spec fn is_replaced(
    object: u32,
    index: u32,
    detour: u32,
    hook: Hook,
    before: World,
    now: World,
) -> bool {
    let start = VtablePatch { object, index, detour, stage: VtableStage::Table };
    let entry = start.entry(before);
    &&& hook.target_addr == entry
    &&& hook.orig_bytes == system::load(before.memory, entry, ENTRY_LEN as nat)
    &&& hook.alloc_addr == word::value(hook.orig_bytes)
    &&& !hook.is_jmp
    &&& now.memory == system::store(before.memory, entry, word::bytes(detour))
    &&& now == World {
        memory: now.memory,
        protection: now.protection,
        refusals: now.refusals,
        ..before
    }
    &&& now.refusals >= before.refusals
    &&& now.refusals == before.refusals ==> now.protection == before.protection
}

/// A vtable hook that succeeds, after whatever replies, changes the one entry, which
/// becomes the detour, and nothing else; it knows the bytes that the entry held, and the
/// function that they are the address of. One that fails leaves memory as it was.
pub proof fn law_vtable_hook_changes_one_entry(
    object: u32,
    index: u32,
    detour: u32,
    before: World,
    replies: Seq<Reply<Seq<u8>>>,
)
    requires
        system::possible(
            VtablePatch { object, index, detour, stage: VtableStage::Table },
            before,
            replies,
        ),
    ensures
        ({
            let start = VtablePatch { object, index, detour, stage: VtableStage::Table };
            let (patch, now) = system::run(start, before, replies);
            match patch.outcome() {
                Some(Ok(hook)) => is_replaced(object, index, detour, hook, before, now),
                Some(Err(error)) => error is VirtualProtectFailed && now == before.refused(),
                None => true,
            }
        }),
{
    let start = VtablePatch { object, index, detour, stage: VtableStage::Table };
    lemma_vtable_run(start, before, before, replies);
    let entry = start.entry(before);
    let held = system::load(before.memory, entry, ENTRY_LEN as nat);
    word::law_bytes_survive_their_word(held);
}

/// The word at an address, byte by byte.
pub open spec fn word_at(memory: spec_fn(u32) -> u8, address: u32) -> int {
    memory(address) + 0x100 * memory(((address + 1) % 0x1_0000_0000) as u32) + 0x1_0000 * memory(
        ((address + 2) % 0x1_0000_0000) as u32,
    ) + 0x100_0000 * memory(((address + 3) % 0x1_0000_0000) as u32)
}

proof fn lemma_word_at(memory: spec_fn(u32) -> u8, address: u32)
    ensures
        word_at(memory, address) == word::value(system::load(memory, address, 4)),
        0 <= word_at(memory, address) < 0x1_0000_0000,
{
    let four = system::load(memory, address, 4);
    assert(word::wrap(address + 0) == address);
    assert(four[0] == memory(address));
    assert(four[1] == memory(((address + 1) % 0x1_0000_0000) as u32));
    assert(four[2] == memory(((address + 2) % 0x1_0000_0000) as u32));
    assert(four[3] == memory(((address + 3) % 0x1_0000_0000) as u32));
}

impl VtablePatch {
    /// How many replies there were at this stage of a replacement that has not failed.
    spec fn step(self) -> int {
        match self.stage {
            VtableStage::Table => 0,
            VtableStage::Entry { .. } => 1,
            VtableStage::Unprotect { .. } => 2,
            VtableStage::Write { .. } => 3,
            VtableStage::Reprotect { .. } => 4,
            VtableStage::Done { .. } => 5,
            VtableStage::Failed { .. } => 3,
        }
    }
}

proof fn lemma_vtable_position(patch: VtablePatch, world: World, replies: Seq<Reply<Seq<u8>>>)
    requires
        system::possible(patch, world, replies),
    ensures
        ({
            let later = system::run(patch, world, replies).0;
            &&& later.step() == patch.step() + replies.len()
            &&& patch.stage !is Failed && later.stage is Failed ==> {
                &&& replies.len() > 0
                &&& replies.last() matches Reply::Protection(Err(code))
                &&& later.stage->error == UnsafetyHookError::VirtualProtectFailed(code)
            }
        }),
    decreases replies.len(),
{
    if replies.len() > 0 {
        let reply = replies.first();
        let rest = replies.drop_first();
        let next = patch.resumed(reply);
        lemma_vtable_position(next, world.after(patch.pending()->0, reply), rest);
        if next.stage is Failed {
            assert(rest.len() == 0);
        } else if rest.len() > 0 {
            assert(rest.last() == replies.last());
        }
    }
}

/// Whatever the index, a vtable hook has to do with one word: the one that stands four times
/// the index behind where the first word of the object points. That word is read, made
/// writable, written and protected again, and nothing but the first word of the object is
/// read besides.
pub proof fn law_vtable_hook_asks_for_the_indexed_word(
    object: u32,
    index: u32,
    detour: u32,
    before: World,
    replies: Seq<Reply<Seq<u8>>>,
)
    requires
        system::possible(
            VtablePatch { object, index, detour, stage: VtableStage::Table },
            before,
            replies,
        ),
    ensures
        ({
            let start = VtablePatch { object, index, detour, stage: VtableStage::Table };
            let (patch, now) = system::run(start, before, replies);
            let entry = ((word_at(before.memory, object) + 4 * index) % 0x1_0000_0000) as u32;
            let count = replies.len();
            match patch.pending() {
                Some(Request::Read { address, len }) => {
                    &&& len == 4
                    &&& count == 0 && address == object || count == 1 && address == entry
                },
                Some(Request::Protect { address, len, protection }) => {
                    &&& address == entry
                    &&& len == 4
                    &&& count == 2 && protection == 0x40 || count == 4 && protection == (
                    before.protection)((entry, 4))
                },
                Some(Request::Write { address, data }) => {
                    &&& count == 3
                    &&& address == entry
                    &&& data.len() == 4
                    &&& data[0] + 0x100 * data[1] + 0x1_0000 * data[2] + 0x100_0000 * data[3]
                        == detour
                    &&& (now.protection)((entry, 4)) == 0x40
                },
                Some(_) => false,
                None => patch.outcome() is Some && (count == 5 || count == 3),
            }
        }),
{
    let start = VtablePatch { object, index, detour, stage: VtableStage::Table };
    lemma_vtable_run(start, before, before, replies);
    lemma_vtable_position(start, before, replies);
    lemma_word_at(before.memory, object);
    word::law_word_survives_its_bytes(detour);
}

/// Whatever the index, a vtable hook that succeeds is recorded at the word that stands four
/// times the index behind where the first word of the object points, with the function and
/// the bytes that it held; that word becomes the detour, and no other byte changes. One that
/// fails says with which code the word could not be made writable, and changes nothing.
pub proof fn law_vtable_hook_replaces_the_indexed_word(
    object: u32,
    index: u32,
    detour: u32,
    before: World,
    replies: Seq<Reply<Seq<u8>>>,
)
    requires
        system::possible(
            VtablePatch { object, index, detour, stage: VtableStage::Table },
            before,
            replies,
        ),
    ensures
        ({
            let start = VtablePatch { object, index, detour, stage: VtableStage::Table };
            let (patch, now) = system::run(start, before, replies);
            let entry = ((word_at(before.memory, object) + 4 * index) % 0x1_0000_0000) as u32;
            match patch.outcome() {
                Some(Ok(hook)) => {
                    &&& hook.target_addr == entry
                    &&& hook.alloc_addr == word_at(before.memory, entry)
                    &&& hook.orig_bytes.len() == 4
                    &&& forall|i: int|
                        0 <= i < 4 ==> #[trigger] hook.orig_bytes[i] == (before.memory)(
                            ((entry + i) % 0x1_0000_0000) as u32,
                        )
                    &&& !hook.is_jmp
                    &&& word_at(now.memory, entry) == detour
                    &&& forall|at: u32|
                        (at - entry) % 0x1_0000_0000 >= 4 ==> #[trigger] (now.memory)(at) == (
                        before.memory)(at)
                    &&& now.mapped == before.mapped
                    &&& now.allocations == before.allocations
                    &&& now.suspended == before.suspended
                    &&& now.open == before.open
                    &&& now.refusals == before.refusals ==> now.protection == before.protection
                },
                Some(Err(error)) => {
                    &&& replies.len() == 3
                    &&& replies[2] matches Reply::Protection(Err(code))
                    &&& error == UnsafetyHookError::VirtualProtectFailed(code)
                    &&& now.memory == before.memory
                    &&& now.protection == before.protection
                },
                None => patch.pending() is Some,
            }
        }),
{
    let start = VtablePatch { object, index, detour, stage: VtableStage::Table };
    let (patch, now) = system::run(start, before, replies);
    let entry = ((word_at(before.memory, object) + 4 * index) % 0x1_0000_0000) as u32;
    law_vtable_hook_changes_one_entry(object, index, detour, before, replies);
    lemma_vtable_position(start, before, replies);
    lemma_word_at(before.memory, object);
    lemma_word_at(before.memory, entry);
    lemma_word_at(now.memory, entry);
    word::law_word_survives_its_bytes(detour);
    if let Some(Ok(hook)) = patch.outcome() {
        system::law_written_data_reads_back(before.memory, entry, word::bytes(detour));
        assert(start.entry(before) == entry);
    }
}

} // verus!
