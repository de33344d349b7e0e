//! The hooks that are installed, and removing them.

use vstd::prelude::*;

use crate::system;
use crate::system::{Program, Reply, Request};
use crate::x86::details::{Hook, HookDetails, UnsafetyHookError};
use crate::x86::remove::{Remove, RemoveModel, RemoveStage};

verus! {

/// The hooks that are installed, oldest first.
pub struct HookList {
    pub hooks: Vec<HookDetails>,
}

/// The models of some hooks.
pub open spec fn models(hooks: Seq<HookDetails>) -> Seq<Hook> {
    hooks.map_values(|hook: HookDetails| hook@)
}

impl View for HookList {
    type V = Seq<Hook>;

    open spec fn view(&self) -> Seq<Hook> {
        models(self.hooks@)
    }
}

impl HookList {
    /// No hooks.
    pub fn new() -> (list: HookList)
        ensures
            list@ == Seq::<Hook>::empty(),
    {
        let list: HookList = HookList { hooks: Vec::new() };
        assert(list@ =~= Seq::empty());
        list
    }

    fn push(&mut self, hook: HookDetails)
        ensures
            final(self)@ == old(self)@.push(hook@),
    {
        self.hooks.push(hook);
        assert(self@ =~= old(self)@.push(hook@));
    }
}

/// Whether a hook is at `target`.
pub open spec fn is_at(target: u32) -> spec_fn(Hook) -> bool {
    |hook: Hook| hook.target_addr == target
}

/// Whether a hook is not at `target`.
pub open spec fn is_elsewhere(target: u32) -> spec_fn(Hook) -> bool {
    |hook: Hook| hook.target_addr != target
}

/// Removes hooks one after the other.
pub struct Removal {
    /// The hooks whose turn has not come.
    pub rest: Vec<HookDetails>,
    /// Whether a hook that could not be removed is tried a second time.
    pub twice: bool,
    /// Whether the current hook is tried again if it cannot be removed.
    pub retry: bool,
    /// The hook whose turn it is.
    pub current: Option<Remove>,
}

/// A model of [`Removal`].
#[verifier::ext_equal]
pub struct RemovalModel {
    pub rest: Seq<Hook>,
    pub twice: bool,
    pub retry: bool,
    pub current: Option<RemoveModel>,
}

impl View for Removal {
    type V = RemovalModel;

    open spec fn view(&self) -> RemovalModel {
        RemovalModel {
            rest: models(self.rest@),
            twice: self.twice,
            retry: self.retry,
            current: match self.current {
                Some(removal) => Some(removal@),
                None => None,
            },
        }
    }
}

impl RemovalModel {
    /// Turns to the next hook that is still in place.
    pub open spec fn next(self) -> RemovalModel
        decreases self.rest.len(),
    {
        if self.rest.len() == 0 {
            RemovalModel { retry: false, current: None, ..self }
        } else {
            let hook = self.rest.first();
            let others = RemovalModel { rest: self.rest.drop_first(), ..self };
            if hook.orig_bytes.len() == 0 {
                others.next()
            } else {
                RemovalModel {
                    retry: self.twice,
                    current: Some(RemoveModel::start(hook)),
                    ..others
                }
            }
        }
    }

    /// The start of removing some hooks, first to last.
    pub open spec fn start(hooks: Seq<Hook>, twice: bool) -> RemovalModel {
        RemovalModel { rest: hooks, twice, retry: false, current: None }.next()
    }
}

impl Program for RemovalModel {
    open spec fn pending(self) -> Option<Request<Seq<u8>>> {
        match self.current {
            Some(removal) => removal.pending(),
            None => None,
        }
    }

    open spec fn resumed(self, reply: Reply<Seq<u8>>) -> RemovalModel {
        let removal = self.current->0.resumed(reply);
        match removal.stage {
            RemoveStage::Done { removed } => if removed || !self.retry {
                self.next()
            } else {
                RemovalModel {
                    retry: false,
                    current: Some(RemoveModel::start(removal.hook)),
                    ..self
                }
            },
            _ => RemovalModel { current: Some(removal), ..self },
        }
    }
}

impl Removal {
    fn turn(&mut self)
        ensures
            final(self)@ == old(self)@.next(),
    {
        self.current = None;
        self.retry = false;
        assert(self@.next() == old(self)@.next()) by {
            lemma_next_ignores_current(old(self)@);
        }
        while self.rest.len() > 0
            invariant
                self@.next() == old(self)@.next(),
                self.current is None,
                !self.retry,
            decreases self.rest.len(),
        {
            let ghost before = self@;
            let hook: HookDetails = self.rest.remove(0);
            assert(self@.rest =~= before.rest.drop_first());
            assert(before.rest.first() == hook@);
            if hook.orig_bytes.len() > 0 {
                self.retry = self.twice;
                self.current = Some(hook.remove());
                return ;
            }
        }
    }

    fn start(hooks: Vec<HookDetails>, twice: bool) -> (removal: Removal)
        ensures
            removal@ == RemovalModel::start(models(hooks@), twice),
    {
        let mut removal: Removal = Removal { rest: hooks, twice, retry: false, current: None };
        removal.turn();
        removal
    }

    /// The request that waits for a reply.
    pub fn request(&self) -> (request: Option<Request<Vec<u8>>>)
        ensures
            request is Some == self@.pending() is Some,
            request is Some ==> request->0@ == self@.pending()->0,
    {
        match &self.current {
            Some(removal) => removal.request(),
            None => None,
        }
    }

    /// Goes on with the reply to the pending request.
    pub fn advance(&mut self, reply: &Reply<Vec<u8>>)
        requires
            old(self)@.pending() matches Some(request) && system::answers(request, reply@),
        ensures
            final(self)@ == old(self)@.resumed(reply@),
    {
        if let Some(mut removal) = self.current.take() {
            removal.advance(reply);
            match removal.stage {
                RemoveStage::Done { removed } => {
                    if removed || !self.retry {
                        proof {
                            lemma_next_ignores_current(old(self)@);
                            lemma_next_ignores_current(self@);
                        }
                        self.turn();
                    } else {
                        let ended: (HookDetails, bool) = removal.finish();
                        self.retry = false;
                        self.current = Some(ended.0.remove());
                    }
                },
                _ => {
                    self.current = Some(removal);
                },
            }
        }
    }
}

proof fn lemma_next_ignores_current(removal: RemovalModel)
    ensures
        removal.next() == (RemovalModel { retry: false, current: None, ..removal }).next(),
    decreases removal.rest.len(),
{
    if removal.rest.len() > 0 {
        lemma_next_ignores_current(
            RemovalModel { rest: removal.rest.drop_first(), ..removal },
        );
    }
}

/// Removals go on with the next hook once one is removed or was given up. A hook that was
/// removed before is passed over. One that is refused, wherever on the way, is tried a second
/// time where that is wanted, from the beginning, and given up after that.
pub proof fn law_removals_turn_to_each_hook(
    hooks: Seq<Hook>,
    twice: bool,
    old: u32,
    last: u32,
    error: u32,
)
    requires
        hooks.len() > 0,
        hooks.first().orig_bytes.len() <= usize::MAX,
    ensures
        ({
            let hook = hooks.first();
            let others = RemovalModel::start(hooks.drop_first(), twice);
            let first = RemovalModel::start(hooks, twice);
            let second = first.resumed(Reply::Protection(Ok(old)));
            let third = second.resumed(Reply::Done);
            let fourth = third.resumed(Reply::Protection(Ok(last)));
            let fifth = fourth.resumed(Reply::Status(Ok(())));
            let request = Request::<Seq<u8>>::Protect {
                address: hook.target_addr,
                len: hook.orig_bytes.len() as usize,
                protection: 0x40,
            };
            let again = first.resumed(Reply::Protection(Err(error)));
            if hook.orig_bytes.len() == 0 {
                first == others
            } else {
                &&& first.pending() == Some(request)
                &&& second.pending() == Some(
                    Request::Write { address: hook.target_addr, data: hook.orig_bytes },
                )
                &&& if hook.is_jmp && hook.alloc_addr != 0 {
                    fifth.resumed(Reply::Done) == others
                } else {
                    fifth == others
                }
                &&& third.resumed(Reply::Protection(Err(error))) == again
                &&& fourth.resumed(Reply::Status(Err(error))) == again
                &&& if twice {
                    let more = again.resumed(Reply::Protection(Ok(old)));
                    let fourth_again = more.resumed(Reply::Done).resumed(
                        Reply::Protection(Ok(last)),
                    );
                    let fifth_again = fourth_again.resumed(Reply::Status(Ok(())));
                    &&& again.pending() == Some(request)
                    &&& more.pending() == second.pending()
                    &&& again.resumed(Reply::Protection(Err(error))) == others
                    &&& more.resumed(Reply::Done).resumed(Reply::Protection(Err(error))) == others
                    &&& fourth_again.resumed(Reply::Status(Err(error))) == others
                    &&& if hook.is_jmp && hook.alloc_addr != 0 {
                        fifth_again.resumed(Reply::Done) == others
                    } else {
                        fifth_again == others
                    }
                } else {
                    again == others
                }
            }
        }),
{
    let first = RemovalModel::start(hooks, twice);
    let second = first.resumed(Reply::Protection(Ok(old)));
    let third = second.resumed(Reply::Done);
    let fourth = third.resumed(Reply::Protection(Ok(last)));
    let fifth = fourth.resumed(Reply::Status(Ok(())));
    lemma_next_ignores_current(first);
    lemma_next_ignores_current(third);
    lemma_next_ignores_current(fourth);
    lemma_next_ignores_current(fifth);
    let again = first.resumed(Reply::Protection(Err(error)));
    let third_again = again.resumed(Reply::Protection(Ok(old))).resumed(Reply::Done);
    let fourth_again = third_again.resumed(Reply::Protection(Ok(last)));
    let fifth_again = fourth_again.resumed(Reply::Status(Ok(())));
    lemma_next_ignores_current(again);
    lemma_next_ignores_current(third_again);
    lemma_next_ignores_current(fourth_again);
    lemma_next_ignores_current(fifth_again);
}

/// Without hooks nothing is asked for.
pub proof fn law_no_hooks_need_no_removal(twice: bool)
    ensures
        RemovalModel::start(Seq::empty(), twice).pending() is None,
{
}

/// A hook is at the target that it records and at no other; the models of some hooks are
/// theirs, one by one.
pub proof fn law_hooks_are_where_they_record(hooks: Seq<HookDetails>, hook: Hook, target: u32)
    ensures
        is_at(target)(hook) <==> hook.target_addr == target,
        is_elsewhere(target)(hook) <==> hook.target_addr != target,
        models(hooks).len() == hooks.len(),
        forall|i: int| 0 <= i < hooks.len() ==> #[trigger] models(hooks)[i] == hooks[i]@,
{
}

/// Hooks in the order in which they have to be removed: the last that was installed first,
/// so that each finds its target as it left it.
fn newest_first(hooks: Vec<HookDetails>) -> (turned: Vec<HookDetails>)
    ensures
        models(turned@) == models(hooks@).reverse(),
{
    let ghost total = models(hooks@);
    let mut rest: Vec<HookDetails> = hooks;
    let mut turned: Vec<HookDetails> = Vec::new();
    assert(total.skip(total.len() as int).reverse() =~= models(turned@));
    assert(total.take(total.len() as int) =~= total);
    while rest.len() > 0
        invariant
            rest@.len() <= total.len(),
            models(rest@) == total.take(rest@.len() as int),
            models(turned@) == total.skip(rest@.len() as int).reverse(),
        decreases rest@.len(),
    {
        let ghost count = rest@.len() as int;
        let ghost before = models(turned@);
        if let Some(hook) = rest.pop() {
            assert(hook@ == total.take(count)[count - 1]);
            assert(models(rest@) =~= total.take(count - 1));
            turned.push(hook);
            assert(models(turned@) =~= before.push(hook@));
            assert(total.skip(count - 1).reverse() =~= total.skip(count).reverse().push(hook@));
        }
    }
    assert(total.skip(0) =~= total);
    turned
}

/// Installs hooks, and keeps track of those that are installed.
pub struct UnsafetyHook;

impl UnsafetyHook {
    /// Takes an inline hook that was created into the list. Gives the address that runs
    /// the original.
    pub fn inline(
        hooks: &mut HookList,
        created: Result<HookDetails, UnsafetyHookError>,
    ) -> (original: Result<u32, UnsafetyHookError>)
        ensures
            match created {
                Ok(hook) => {
                    &&& original == Ok::<u32, UnsafetyHookError>(hook@.alloc_addr)
                    &&& final(hooks)@ == old(hooks)@.push(hook@)
                },
                Err(error) => {
                    &&& original == Err::<u32, UnsafetyHookError>(error)
                    &&& final(hooks)@ == old(hooks)@
                },
            },
    {
        match created {
            Ok(hook) => {
                let original: u32 = hook.original_addr();
                hooks.push(hook);
                Ok(original)
            },
            Err(error) => Err(error),
        }
    }

    /// Takes a mid-function hook that was created into the list.
    pub fn mid(
        hooks: &mut HookList,
        created: Result<HookDetails, UnsafetyHookError>,
    ) -> (taken: Result<(), UnsafetyHookError>)
        ensures
            match created {
                Ok(hook) => {
                    &&& taken == Ok::<(), UnsafetyHookError>(())
                    &&& final(hooks)@ == old(hooks)@.push(hook@)
                },
                Err(error) => {
                    &&& taken == Err::<(), UnsafetyHookError>(error)
                    &&& final(hooks)@ == old(hooks)@
                },
            },
    {
        match created {
            Ok(hook) => {
                hooks.push(hook);
                Ok(())
            },
            Err(error) => Err(error),
        }
    }

    /// Takes a vtable hook that was created into the list. Gives the function that the
    /// entry was the address of.
    pub fn vtable(
        hooks: &mut HookList,
        created: Result<HookDetails, UnsafetyHookError>,
    ) -> (original: Result<u32, UnsafetyHookError>)
        ensures
            match created {
                Ok(hook) => {
                    &&& original == Ok::<u32, UnsafetyHookError>(hook@.alloc_addr)
                    &&& final(hooks)@ == old(hooks)@.push(hook@)
                },
                Err(error) => {
                    &&& original == Err::<u32, UnsafetyHookError>(error)
                    &&& final(hooks)@ == old(hooks)@
                },
            },
    {
        match created {
            Ok(hook) => {
                let original: u32 = hook.original_addr();
                hooks.push(hook);
                Ok(original)
            },
            Err(error) => Err(error),
        }
    }

    /// Takes every hook at `target` out of the list, and begins to remove them, newest
    /// first, so that the target is left as it was before the oldest. One that cannot be
    /// removed is tried once more.
    pub fn remove_at(hooks: &mut HookList, target: u32) -> (removal: Removal)
        ensures
            final(hooks)@ == old(hooks)@.filter(is_elsewhere(target)),
            removal@ == RemovalModel::start(
                old(hooks)@.filter(is_at(target)).reverse(),
                true,
            ),
    {
        let mut all: Vec<HookDetails> = Vec::new();
        std::mem::swap(&mut all, &mut hooks.hooks);
        let mut kept: Vec<HookDetails> = Vec::new();
        let mut gone: Vec<HookDetails> = Vec::new();
        let ghost total = old(hooks)@;
        let ghost mut seen: int = 0;
        proof {
            reveal(Seq::filter);
            assert(models(all@) =~= total.skip(0));
            assert(total.take(0) =~= Seq::empty());
            assert(models(kept@) =~= total.take(0).filter(is_elsewhere(target)));
            assert(models(gone@) =~= total.take(0).filter(is_at(target)));
        }
        while all.len() > 0
            invariant
                0 <= seen <= total.len(),
                models(all@) == total.skip(seen),
                models(kept@) == total.take(seen).filter(is_elsewhere(target)),
                models(gone@) == total.take(seen).filter(is_at(target)),
            decreases all.len(),
        {
            let ghost remaining = models(all@);
            let ghost (kept_before, gone_before) = (models(kept@), models(gone@));
            assert(remaining.len() == total.skip(seen).len());
            let hook: HookDetails = all.remove(0);
            proof {
                assert(remaining.first() == hook@);
                assert(total[seen] == hook@);
                assert(models(all@) =~= remaining.drop_first());
                assert(total.skip(seen).drop_first() =~= total.skip(seen + 1));
                assert(total.take(seen + 1).drop_last() =~= total.take(seen));
                assert(total.take(seen + 1).last() == hook@);
                reveal(Seq::filter);
            }
            if hook.target_addr == target {
                gone.push(hook);
                assert(models(gone@) =~= gone_before.push(hook@));
            } else {
                kept.push(hook);
                assert(models(kept@) =~= kept_before.push(hook@));
            }
            proof {
                seen = seen + 1;
            }
        }
        proof {
            assert(models(all@).len() == total.skip(seen).len());
            assert(total.take(seen) =~= total);
        }
        hooks.hooks = kept;
        Removal::start(newest_first(gone), true)
    }

    /// Takes every hook out of the list, and begins to remove them, newest first, so that
    /// every location is left as it was before it was first hooked.
    pub fn remove_all(hooks: &mut HookList) -> (removal: Removal)
        ensures
            final(hooks)@ == Seq::<Hook>::empty(),
            removal@ == RemovalModel::start(old(hooks)@.reverse(), false),
    {
        let mut all: Vec<HookDetails> = Vec::new();
        std::mem::swap(&mut all, &mut hooks.hooks);
        assert(hooks@ =~= Seq::empty());
        Removal::start(newest_first(all), false)
    }
}

} // verus!
