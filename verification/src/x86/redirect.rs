//! Writing a jump over code.

use vstd::prelude::*;

use crate::system;
use crate::system::{Program, Reply, Request, World};
use crate::x86::code;
use crate::x86::details::HookDetails;

verus! {

/// How far a redirection has come.
#[derive(Debug, Clone, Copy, PartialEq, Eq)]
pub enum RedirectStage {
    /// Makes the target writable.
    Unprotect,
    /// Writes the jump.
    Patch { old: u32 },
    /// Makes the processor see it.
    Flush { old: u32 },
    /// Gives the target its protection back.
    Reprotect { old: u32 },
    /// The target could not be made writable; holds the code of the error.
    Failed { code: u32 },
    /// The jump is in place.
    Done,
}

/// Replaces the `len` bytes at `target` by a jump to `to`.
#[derive(Debug, Clone, Copy, PartialEq, Eq)]
pub struct Redirect {
    pub target: u32,
    pub to: u32,
    pub len: usize,
    pub stage: RedirectStage,
}

impl Program for Redirect {
    open spec fn pending(self) -> Option<Request<Seq<u8>>> {
        match self.stage {
            RedirectStage::Unprotect => Some(
                Request::Protect {
                    address: self.target,
                    len: self.len,
                    protection: system::PAGE_EXECUTE_READWRITE,
                },
            ),
            RedirectStage::Patch { .. } => Some(
                Request::Write {
                    address: self.target,
                    data: code::jump_patch(self.target, self.to, self.len as nat),
                },
            ),
            RedirectStage::Flush { .. } => Some(
                Request::Flush { address: self.target, len: self.len },
            ),
            RedirectStage::Reprotect { old } => Some(
                Request::Protect { address: self.target, len: self.len, protection: old },
            ),
            _ => None,
        }
    }

    open spec fn resumed(self, reply: Reply<Seq<u8>>) -> Redirect {
        match self.stage {
            RedirectStage::Unprotect => match reply {
                Reply::Protection(Ok(old)) => self.at(RedirectStage::Patch { old }),
                Reply::Protection(Err(code)) => self.at(RedirectStage::Failed { code }),
                _ => self,
            },
            RedirectStage::Patch { old } => self.at(RedirectStage::Flush { old }),
            RedirectStage::Flush { old } => self.at(RedirectStage::Reprotect { old }),
            RedirectStage::Reprotect { .. } => self.at(RedirectStage::Done),
            _ => self,
        }
    }
}

impl Redirect {
    /// The same redirection at another stage.
    pub open spec fn at(self, stage: RedirectStage) -> Redirect {
        Redirect { target: self.target, to: self.to, len: self.len, stage }
    }

    /// Whether there is room for a jump.
    pub open spec fn valid(self) -> bool {
        self.len >= code::BRANCH_LEN
    }

    /// The request that waits for a reply.
    pub fn request(&self) -> (request: Option<Request<Vec<u8>>>)
        requires
            self.valid(),
        ensures
            request is Some == self.pending() is Some,
            request is Some ==> request->0@ == self.pending()->0,
    {
        match self.stage {
            RedirectStage::Unprotect => Some(
                Request::Protect {
                    address: self.target,
                    len: self.len,
                    protection: system::PAGE_EXECUTE_READWRITE,
                },
            ),
            RedirectStage::Patch { .. } => Some(
                Request::Write {
                    address: self.target,
                    data: code::make_jump_patch(self.target, self.to, self.len),
                },
            ),
            RedirectStage::Flush { .. } => Some(
                Request::Flush { address: self.target, len: self.len },
            ),
            RedirectStage::Reprotect { old } => Some(
                Request::Protect { address: self.target, len: self.len, protection: old },
            ),
            RedirectStage::Failed { .. } | RedirectStage::Done => None,
        }
    }

    /// Goes on with the reply to the pending request.
    pub fn advance(&mut self, reply: &Reply<Vec<u8>>)
        requires
            old(self).pending() matches Some(request) && system::answers(request, reply@),
        ensures
            *final(self) == old(self).resumed(reply@),
    {
        match (self.stage, reply) {
            (RedirectStage::Unprotect, Reply::Protection(result)) => {
                self.stage = match result {
                    Ok(old) => RedirectStage::Patch { old: *old },
                    Err(code) => RedirectStage::Failed { code: *code },
                };
            },
            (RedirectStage::Patch { old }, _) => {
                self.stage = RedirectStage::Flush { old };
            },
            (RedirectStage::Flush { old }, _) => {
                self.stage = RedirectStage::Reprotect { old };
            },
            (RedirectStage::Reprotect { .. }, _) => {
                self.stage = RedirectStage::Done;
            },
            _ => {},
        }
    }
}

impl HookDetails {
    /// Begins to replace the `len` bytes at `target` by a jump to `to`.
    pub fn redirect_jmp(target: u32, to: u32, len: usize) -> (redirect: Redirect)
        requires
            len >= code::BRANCH_LEN,
        ensures
            redirect == (Redirect { target, to, len, stage: RedirectStage::Unprotect }),
            redirect.valid(),
    {
        Redirect { target, to, len, stage: RedirectStage::Unprotect }
    }
}

impl Redirect {
    /// What the process is at this stage, where it was `before` the first: nothing but
    /// the protection of the target and its bytes has changed.
    pub open spec fn holds(self, before: World, now: World) -> bool {
        let range = (self.target, self.len as nat);
        let open = before.protected(range, system::PAGE_EXECUTE_READWRITE);
        let written = World {
            memory: system::store(
                before.memory,
                self.target,
                code::jump_patch(self.target, self.to, self.len as nat),
            ),
            ..open
        };
        match self.stage {
            RedirectStage::Unprotect => now == before,
            RedirectStage::Patch { old } => now == open && old == (before.protection)(range),
            RedirectStage::Flush { old } => now == written && old == (before.protection)(range),
            RedirectStage::Reprotect { old } => {
                &&& now == (World { refusals: now.refusals, ..written })
                &&& now.refusals >= before.refusals
                &&& old == (before.protection)(range)
            },
            RedirectStage::Failed { .. } => now == before.refused(),
            RedirectStage::Done => {
                &&& now == (World {
                    refusals: now.refusals,
                    protection: now.protection,
                    memory: written.memory,
                    ..before
                })
                &&& now.refusals >= before.refusals
                &&& now.protection == open.protection || now.protection == before.protection
                &&& now.refusals == before.refusals ==> now.protection == before.protection
            },
        }
    }
}

/// Whatever the system replies, a redirection changes nothing but the bytes at the
/// target, which become the jump, and their protection. Where the target cannot be
/// made writable nothing changes; where nothing is refused the protection is in the end
/// what it was.
pub proof fn law_redirection_changes_the_target_alone(
    redirect: Redirect,
    before: World,
    now: World,
    reply: Reply<Seq<u8>>,
)
    requires
        redirect.holds(before, now),
        redirect.pending() is Some,
        now.admits(redirect.pending()->0, reply),
    ensures
        redirect.resumed(reply).holds(before, now.after(redirect.pending()->0, reply)),
{
    let range = (redirect.target, redirect.len as nat);
    let next = now.after(redirect.pending()->0, reply);
    match redirect.stage {
        RedirectStage::Unprotect => {
            if reply->Protection_0 is Ok {
                assert(next =~= before.protected(range, system::PAGE_EXECUTE_READWRITE));
            }
        },
        RedirectStage::Reprotect { old } => {
            if reply->Protection_0 is Ok {
                assert(next.protection =~= before.protection);
            }
        },
        _ => {},
    }
}

} // verus!
