//! Removing a hook: the bytes that it replaced are put back, and the memory that it used
//! is given back.

use vstd::prelude::*;

use crate::system;
use crate::system::{Program, Reply, Request, World};
use crate::x86::details::{Hook, HookDetails};

verus! {

/// How far removing a hook has come.
#[derive(Debug, Clone, Copy, PartialEq, Eq)]
pub enum RemoveStage {
    /// Makes the target writable.
    Unprotect,
    /// Writes the bytes that were replaced.
    Restore { old: u32 },
    /// Gives the target its protection back.
    Reprotect { old: u32 },
    /// Makes the processor see it.
    Flush,
    /// Gives the memory of the hook back.
    Free,
    /// Removing has ended; `removed` says whether the hook is gone.
    Done { removed: bool },
}

/// Removes a hook.
pub struct Remove {
    pub hook: HookDetails,
    pub stage: RemoveStage,
}

/// A model of [`Remove`].
#[verifier::ext_equal]
pub struct RemoveModel {
    pub hook: Hook,
    pub stage: RemoveStage,
}

impl View for Remove {
    type V = RemoveModel;

    open spec fn view(&self) -> RemoveModel {
        RemoveModel { hook: self.hook@, stage: self.stage }
    }
}

impl Hook {
    /// The hook once it is removed: there are no bytes left to put back.
    pub open spec fn removed(self) -> Hook {
        Hook { orig_bytes: Seq::empty(), ..self }
    }

    /// Whether the hook has memory that was allocated for it.
    pub open spec fn has_memory(self) -> bool {
        self.is_jmp && self.alloc_addr != 0
    }
}

impl RemoveModel {
    /// The start of removing a hook; there is nothing to do where it is removed already.
    pub open spec fn start(hook: Hook) -> RemoveModel {
        RemoveModel {
            hook,
            stage: if hook.orig_bytes.len() == 0 {
                RemoveStage::Done { removed: true }
            } else {
                RemoveStage::Unprotect
            },
        }
    }

    /// The same removal at another stage.
    pub open spec fn at(self, stage: RemoveStage) -> RemoveModel {
        RemoveModel { hook: self.hook, stage }
    }

    /// The end of a removal that succeeded.
    pub open spec fn finished(self) -> RemoveModel {
        RemoveModel { hook: self.hook.removed(), stage: RemoveStage::Done { removed: true } }
    }

    /// The end of a removal that failed: the hook still knows what it replaced.
    pub open spec fn failed(self) -> RemoveModel {
        self.at(RemoveStage::Done { removed: false })
    }

    /// The length of what was replaced.
    pub open spec fn len(self) -> usize {
        self.hook.orig_bytes.len() as usize
    }
}

impl Program for RemoveModel {
    open spec fn pending(self) -> Option<Request<Seq<u8>>> {
        match self.stage {
            RemoveStage::Unprotect => Some(
                Request::Protect {
                    address: self.hook.target_addr,
                    len: self.len(),
                    protection: system::PAGE_EXECUTE_READWRITE,
                },
            ),
            RemoveStage::Restore { .. } => Some(
                Request::Write { address: self.hook.target_addr, data: self.hook.orig_bytes },
            ),
            RemoveStage::Reprotect { old } => Some(
                Request::Protect {
                    address: self.hook.target_addr,
                    len: self.len(),
                    protection: old,
                },
            ),
            RemoveStage::Flush => Some(
                Request::Flush { address: self.hook.target_addr, len: self.len() },
            ),
            RemoveStage::Free => Some(
                Request::Free {
                    address: self.hook.alloc_addr,
                    len: 0,
                    kind: system::MEM_RELEASE,
                },
            ),
            RemoveStage::Done { .. } => None,
        }
    }

    open spec fn resumed(self, reply: Reply<Seq<u8>>) -> RemoveModel {
        match self.stage {
            RemoveStage::Unprotect => match reply {
                Reply::Protection(Ok(old)) => self.at(RemoveStage::Restore { old }),
                _ => self.failed(),
            },
            RemoveStage::Restore { old } => self.at(RemoveStage::Reprotect { old }),
            RemoveStage::Reprotect { .. } => match reply {
                Reply::Protection(Ok(_)) => self.at(RemoveStage::Flush),
                _ => self.failed(),
            },
            RemoveStage::Flush => match reply {
                Reply::Status(Ok(_)) => if self.hook.has_memory() {
                    self.at(RemoveStage::Free)
                } else {
                    self.finished()
                },
                _ => self.failed(),
            },
            RemoveStage::Free => self.finished(),
            RemoveStage::Done { .. } => self,
        }
    }
}

impl HookDetails {
    /// Begins to remove the hook. A hook that was removed before is left as it is.
    pub fn remove(self) -> (removal: Remove)
        ensures
            removal@ == RemoveModel::start(self@),
    {
        let len: usize = self.orig_bytes.len();
        if len == 0 {
            Remove { hook: self, stage: RemoveStage::Done { removed: true } }
        } else {
            Remove { hook: self, stage: RemoveStage::Unprotect }
        }
    }
}

impl Remove {
    /// The request that waits for a reply.
    pub fn request(&self) -> (request: Option<Request<Vec<u8>>>)
        ensures
            request is Some == self@.pending() is Some,
            request is Some ==> request->0@ == self@.pending()->0,
    {
        let len: usize = self.hook.orig_bytes.len();
        match self.stage {
            RemoveStage::Unprotect => Some(
                Request::Protect {
                    address: self.hook.target_addr,
                    len,
                    protection: system::PAGE_EXECUTE_READWRITE,
                },
            ),
            RemoveStage::Restore { .. } => {
                let data: Vec<u8> = vstd::slice::slice_to_vec(&self.hook.orig_bytes);
                Some(Request::Write { address: self.hook.target_addr, data })
            },
            RemoveStage::Reprotect { old } => Some(
                Request::Protect { address: self.hook.target_addr, len, protection: old },
            ),
            RemoveStage::Flush => Some(Request::Flush { address: self.hook.target_addr, len }),
            RemoveStage::Free => Some(
                Request::Free {
                    address: self.hook.alloc_addr,
                    len: 0,
                    kind: system::MEM_RELEASE,
                },
            ),
            RemoveStage::Done { .. } => None,
        }
    }

    /// Goes on with the reply to the pending request.
    pub fn advance(&mut self, reply: &Reply<Vec<u8>>)
        requires
            old(self)@.pending() matches Some(request) && system::answers(request, reply@),
        ensures
            final(self)@ == old(self)@.resumed(reply@),
    {
        match (self.stage, reply) {
            (RemoveStage::Unprotect, Reply::Protection(Ok(old))) => {
                self.stage = RemoveStage::Restore { old: *old };
            },
            (RemoveStage::Restore { old }, _) => {
                self.stage = RemoveStage::Reprotect { old };
            },
            (RemoveStage::Reprotect { .. }, Reply::Protection(Ok(_))) => {
                self.stage = RemoveStage::Flush;
            },
            (RemoveStage::Flush, Reply::Status(Ok(_))) => {
                if self.hook.is_jmp && self.hook.alloc_addr != 0 {
                    self.stage = RemoveStage::Free;
                } else {
                    self.hook.orig_bytes = Vec::new();
                    self.stage = RemoveStage::Done { removed: true };
                }
            },
            (RemoveStage::Free, _) => {
                self.hook.orig_bytes = Vec::new();
                self.stage = RemoveStage::Done { removed: true };
            },
            _ => {
                self.stage = RemoveStage::Done { removed: false };
            },
        }
    }

    /// The hook after a removal that has ended, and whether it is gone.
    pub fn finish(self) -> (ended: (HookDetails, bool))
        requires
            self.stage is Done,
        ensures
            ended.0@ == self@.hook,
            ended.1 == self.stage->removed,
    {
        let removed: bool = match self.stage {
            RemoveStage::Done { removed } => removed,
            _ => false,
        };
        (self.hook, removed)
    }
}

impl Hook {
    /// The process with what the hook replaced put back.
    pub open spec fn written_back(self, world: World) -> World {
        World {
            memory: system::store(world.memory, self.target_addr, self.orig_bytes),
            ..world
        }
    }

    /// The process with the hook removed.
    pub open spec fn taken_out(self, world: World) -> World {
        if self.orig_bytes.len() == 0 {
            world
        } else if self.has_memory() {
            self.written_back(world).freed(self.alloc_addr)
        } else {
            self.written_back(world)
        }
    }
}

impl RemoveModel {
    /// What the process is at this stage of removing `hook`, where it was `before` the
    /// first.
    pub open spec fn holds(self, hook: Hook, before: World, now: World) -> bool {
        let range = (hook.target_addr, hook.orig_bytes.len());
        let open = before.protected(range, system::PAGE_EXECUTE_READWRITE);
        match self.stage {
            RemoveStage::Unprotect => self.hook == hook && now == before,
            RemoveStage::Restore { old } => self.hook == hook && now == open && old == (
            before.protection)(range),
            RemoveStage::Reprotect { old } => self.hook == hook && now == hook.written_back(open)
                && old == (before.protection)(range),
            RemoveStage::Flush => self.hook == hook && now == hook.written_back(before),
            RemoveStage::Free => self.hook == hook && hook.has_memory() && now
                == hook.written_back(before),
            RemoveStage::Done { removed } => if removed {
                self.hook == hook.removed() && now == hook.taken_out(before)
            } else {
                &&& self.hook == hook
                &&& now == before.refused() || now == hook.written_back(open).refused() || now
                    == hook.written_back(before).refused()
            },
        }
    }
}

pub(crate) proof fn lemma_removal_step(
    removal: RemoveModel,
    hook: Hook,
    before: World,
    now: World,
    reply: Reply<Seq<u8>>,
)
    requires
        removal.holds(hook, before, now),
        hook.orig_bytes.len() > 0,
        hook.orig_bytes.len() <= usize::MAX,
        removal.pending() is Some,
        now.admits(removal.pending()->0, reply),
    ensures
        removal.resumed(reply).holds(hook, before, now.after(removal.pending()->0, reply)),
{
    let next = now.after(removal.pending()->0, reply);
    if removal.stage is Reprotect && reply->Protection_0 is Ok {
        assert(next.protection =~= before.protection);
    }
}

proof fn lemma_removal_run(
    removal: RemoveModel,
    hook: Hook,
    before: World,
    now: World,
    replies: Seq<Reply<Seq<u8>>>,
)
    requires
        removal.holds(hook, before, now),
        0 < hook.orig_bytes.len() <= usize::MAX,
        system::possible(removal, now, replies),
    ensures
        system::run(removal, now, replies).0.holds(
            hook,
            before,
            system::run(removal, now, replies).1,
        ),
    decreases replies.len(),
{
    if replies.len() > 0 {
        let reply = replies.first();
        lemma_removal_step(removal, hook, before, now, reply);
        lemma_removal_run(
            removal.resumed(reply),
            hook,
            before,
            now.after(removal.pending()->0, reply),
            replies.drop_first(),
        );
    }
}

/// Whatever the system replies, removing a hook changes nothing but its target and its
/// memory. Where it succeeds, the target holds what the hook replaced, its protection is
/// what it was, and the memory of the hook is given back. Where it fails, which takes a
/// refusal, the hook is as it was, so that removing can be tried again.
pub proof fn law_removal_puts_back_what_was_replaced(
    hook: Hook,
    before: World,
    replies: Seq<Reply<Seq<u8>>>,
)
    requires
        hook.orig_bytes.len() <= usize::MAX,
        system::possible(RemoveModel::start(hook), before, replies),
    ensures
        ({
            let (removal, now) = system::run(RemoveModel::start(hook), before, replies);
            &&& removal.holds(hook, before, now)
            &&& removal.stage matches RemoveStage::Done { removed } ==> if removed {
                removal.hook == hook.removed() && now == hook.taken_out(before)
            } else {
                removal.hook == hook && now.refusals > before.refusals
            }
        }),
{
    if hook.orig_bytes.len() == 0 {
        assert(hook.orig_bytes =~= Seq::empty());
        assert(hook.removed() == hook);
    } else {
        lemma_removal_run(RemoveModel::start(hook), hook, before, before, replies);
    }
}

/// A removal that was refused leaves the hook as it was and gives nothing back; where already
/// making the target writable was refused, the process is as it was, too. The hook can be
/// removed later: where nothing is refused then, it is, and the target holds what the hook
/// replaced, whatever has become of the process meanwhile.
pub proof fn law_refused_removal_can_be_tried_again(
    hook: Hook,
    before: World,
    refused: Seq<Reply<Seq<u8>>>,
    later: World,
    replies: Seq<Reply<Seq<u8>>>,
)
    requires
        hook.orig_bytes.len() <= usize::MAX,
        hook.orig_bytes.len() <= 0x1_0000_0000,
        system::possible(RemoveModel::start(hook), before, refused),
        system::run(RemoveModel::start(hook), before, refused).0.stage == (RemoveStage::Done {
            removed: false,
        }),
        ({
            let again = system::run(RemoveModel::start(hook), before, refused).0.hook;
            let (removal, now) = system::run(RemoveModel::start(again), later, replies);
            &&& system::possible(RemoveModel::start(again), later, replies)
            &&& removal.stage is Done
            &&& now.refusals == later.refusals
        }),
    ensures
        ({
            let (failed, between) = system::run(RemoveModel::start(hook), before, refused);
            let (removal, now) = system::run(RemoveModel::start(failed.hook), later, replies);
            &&& failed.hook == hook
            &&& between.allocations == before.allocations
            &&& between.mapped == before.mapped
            &&& refused.len() == 1 ==> between == before.refused()
            &&& removal.stage == RemoveStage::Done { removed: true }
            &&& removal.hook == hook.removed()
            &&& now == hook.taken_out(later)
            &&& system::load(now.memory, hook.target_addr, hook.orig_bytes.len())
                == hook.orig_bytes
        }),
{
    let start = RemoveModel::start(hook);
    law_removal_puts_back_what_was_replaced(hook, before, refused);
    if refused.len() == 1 {
        let reply = refused.first();
        let next = start.resumed(reply);
        assert(system::run(start, before, refused) == system::run(
            next,
            before.after(start.pending()->0, reply),
            refused.drop_first(),
        ));
        assert(refused.drop_first().len() == 0);
    }
    law_removal_puts_back_what_was_replaced(hook, later, replies);
    system::law_written_data_reads_back(later.memory, hook.target_addr, hook.orig_bytes);
}

/// While a removal writes, it writes what the hook replaced to its target, which it has made
/// writable. Where it has succeeded, each byte of the target is what the hook replaced, no
/// other byte has changed, and memory was given back exactly where the hook had some. Where it
/// has failed, the hook is as it was and no memory was given back.
pub proof fn law_removal_changes_the_target_byte_by_byte(
    hook: Hook,
    before: World,
    replies: Seq<Reply<Seq<u8>>>,
)
    requires
        0 < hook.orig_bytes.len() <= usize::MAX,
        system::possible(RemoveModel::start(hook), before, replies),
    ensures
        ({
            let (removal, now) = system::run(RemoveModel::start(hook), before, replies);
            let target = hook.target_addr;
            let len = hook.orig_bytes.len();
            &&& removal.pending() matches Some(Request::Write { address, data }) ==> {
                &&& address == target
                &&& data == hook.orig_bytes
                &&& (now.protection)((target, len)) == 0x40
            }
            &&& removal.pending() is None ==> {
                let removed = removal.stage->removed;
                &&& removal.stage is Done
                &&& removed == (now.refusals == before.refusals)
                &&& removed ==> {
                    &&& removal.hook == Hook { orig_bytes: Seq::empty(), ..hook }
                    &&& forall|at: u32| #[trigger]
                        (now.memory)(at) == {
                            let distance = (at - target) % 0x1_0000_0000;
                            if distance < len {
                                hook.orig_bytes[distance]
                            } else {
                                (before.memory)(at)
                            }
                        }
                    &&& now.protection == before.protection
                    &&& now.allocations == if hook.is_jmp && hook.alloc_addr != 0 {
                        before.allocations.remove(hook.alloc_addr)
                    } else {
                        before.allocations
                    }
                }
                &&& !removed ==> {
                    &&& removal.hook == hook
                    &&& now.allocations == before.allocations
                    &&& now.mapped == before.mapped
                }
                &&& now.suspended == before.suspended
                &&& now.open == before.open
            }
        }),
{
    lemma_removal_run(RemoveModel::start(hook), hook, before, before, replies);
}

/// Removing a hook that is removed asks for nothing and says that the hook is gone.
pub proof fn law_removing_twice_is_removing_once(hook: Hook)
    ensures
        RemoveModel::start(hook.removed()).pending() is None,
        RemoveModel::start(hook.removed()).stage == (RemoveStage::Done { removed: true }),
{
}

} // verus!
