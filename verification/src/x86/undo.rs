//! What removing hooks undoes.

use vstd::prelude::*;

use crate::system;
use crate::system::{Program, Reply, World};
use crate::word;
use crate::x86::code;
use crate::x86::details::{Hook, UnsafetyHookError};
use crate::x86::effect;
use crate::x86::install::InstallModel;
use crate::x86::patch;
use crate::x86::prologue;
use crate::x86::registry;
use crate::x86::registry::RemovalModel;
use crate::x86::remove;
use crate::x86::remove::{RemoveModel, RemoveStage};
use crate::x86::vtable;
use crate::x86::vtable::{VtablePatch, VtableStage};

verus! {

proof fn lemma_refusals_are_not_forgotten<P: Program>(
    program: P,
    world: World,
    replies: Seq<Reply<Seq<u8>>>,
)
    ensures
        system::run(program, world, replies).1.refusals >= world.refusals,
    decreases replies.len(),
{
    if replies.len() > 0 && program.pending() is Some {
        let reply = replies.first();
        lemma_refusals_are_not_forgotten(
            program.resumed(reply),
            world.after(program.pending()->0, reply),
            replies.drop_first(),
        );
    }
}

/// The process with some hooks removed, first to last.
pub open spec fn all_taken_out(hooks: Seq<Hook>, world: World) -> World
    decreases hooks.len(),
{
    if hooks.len() == 0 {
        world
    } else {
        all_taken_out(hooks.drop_first(), hooks.first().taken_out(world))
    }
}

/// Whether the bytes that each hook replaced have a length that fits a machine word.
pub open spec fn all_fit(hooks: Seq<Hook>) -> bool {
    forall|i: int| 0 <= i < hooks.len() ==> (#[trigger] hooks[i]).orig_bytes.len() <= usize::MAX
}

proof fn lemma_next(removal: RemovalModel, world: World)
    requires
        all_fit(removal.rest),
    ensures
        ({
            let next = removal.next();
            &&& all_fit(next.rest)
            &&& all_taken_out(removal.rest, world) == match next.current {
                Some(remove) => all_taken_out(next.rest, remove.hook.taken_out(world)),
                None => world,
            }
            &&& next.current matches Some(remove) ==> {
                &&& remove == RemoveModel::start(remove.hook)
                &&& 0 < remove.hook.orig_bytes.len() <= usize::MAX
            }
        }),
    decreases removal.rest.len(),
{
    if removal.rest.len() > 0 {
        let hook = removal.rest.first();
        let others = RemovalModel { rest: removal.rest.drop_first(), ..removal };
        assert(all_fit(others.rest)) by {
            assert forall|i: int| 0 <= i < others.rest.len() implies (
            #[trigger] others.rest[i]).orig_bytes.len() <= usize::MAX by {
                assert(others.rest[i] == removal.rest[i + 1]);
            }
        }
        assert(removal.rest[0].orig_bytes.len() <= usize::MAX);
        if hook.orig_bytes.len() == 0 {
            lemma_next(others, world);
        }
    }
}

proof fn lemma_removal_of_hooks(
    removal: RemovalModel,
    hook: Hook,
    before: World,
    now: World,
    replies: Seq<Reply<Seq<u8>>>,
)
    requires
        removal.current is Some,
        removal.current->0.holds(hook, before, now),
        0 < hook.orig_bytes.len() <= usize::MAX,
        all_fit(removal.rest),
        system::possible(removal, now, replies),
    ensures
        ({
            let (later, world) = system::run(removal, now, replies);
            later.current is None && world.refusals == before.refusals ==> world == all_taken_out(
                removal.rest,
                hook.taken_out(before),
            )
        }),
    decreases replies.len(),
{
    if replies.len() > 0 {
        let reply = replies.first();
        let request = removal.pending()->0;
        let next = now.after(request, reply);
        let (later, world) = system::run(removal, now, replies);
        let current = removal.current->0;
        let stepped = current.resumed(reply);
        let after = removal.resumed(reply);
        let others = replies.drop_first();
        remove::lemma_removal_step(current, hook, before, now, reply);
        lemma_refusals_are_not_forgotten(after, next, others);
        if next.refusals == before.refusals {
            if let RemoveStage::Done { removed } = stepped.stage {
                assert(removed);
                lemma_next(removal, next);
                if after.current is Some {
                    let turn = after.current->0;
                    lemma_removal_of_hooks(after, turn.hook, next, next, others);
                }
            } else {
                lemma_removal_of_hooks(after, hook, before, next, others);
            }
        }
    }
}

/// Removing some hooks, first to last: where nothing is refused, every one of them is
/// taken out, whatever else the system replies.
pub proof fn law_removing_hooks_takes_them_all_out(
    hooks: Seq<Hook>,
    twice: bool,
    before: World,
    replies: Seq<Reply<Seq<u8>>>,
)
    requires
        all_fit(hooks),
        system::possible(RemovalModel::start(hooks, twice), before, replies),
    ensures
        ({
            let (removal, now) = system::run(RemovalModel::start(hooks, twice), before, replies);
            removal.pending() is None && now.refusals == before.refusals ==> now == all_taken_out(
                hooks,
                before,
            )
        }),
{
    let start = RemovalModel::start(hooks, twice);
    lemma_next(RemovalModel { rest: hooks, twice, retry: false, current: None }, before);
    if start.current is Some {
        lemma_removal_of_hooks(start, start.current->0.hook, before, before, replies);
        lemma_current_is_busy(start, before, replies);
    }
}

/// A removal that has a current hook waits for a reply.
proof fn lemma_current_is_busy(
    removal: RemovalModel,
    now: World,
    replies: Seq<Reply<Seq<u8>>>,
)
    requires
        all_fit(removal.rest),
        removal.current matches Some(remove) ==> remove.pending() is Some
            && remove.hook.orig_bytes.len() > 0,
    ensures
        ({
            let later = system::run(removal, now, replies).0;
            later.current is Some ==> later.pending() is Some
        }),
    decreases replies.len(),
{
    if replies.len() > 0 && removal.pending() is Some {
        let reply = replies.first();
        lemma_next(removal, now);
        lemma_current_is_busy(
            removal.resumed(reply),
            now.after(removal.pending()->0, reply),
            replies.drop_first(),
        );
    }
}

/// Taking out one hook more, after some others.
proof fn lemma_taken_out_last(hooks: Seq<Hook>, hook: Hook, world: World)
    ensures
        all_taken_out(hooks.push(hook), world) == hook.taken_out(all_taken_out(hooks, world)),
    decreases hooks.len(),
{
    let all = hooks.push(hook);
    if hooks.len() == 0 {
        assert(all.drop_first() =~= Seq::empty());
        reveal_with_fuel(all_taken_out, 2);
    } else {
        assert(all.drop_first() =~= hooks.drop_first().push(hook));
        assert(all.first() == hooks.first());
        lemma_taken_out_last(hooks.drop_first(), hook, hooks.first().taken_out(world));
    }
}

/// When the hooks at a target are taken out, newest first, the target holds what the
/// oldest of them replaced.
pub proof fn law_target_holds_what_its_oldest_hook_replaced(
    hooks: Seq<Hook>,
    target: u32,
    world: World,
)
    requires
        hooks.filter(registry::is_at(target)).len() > 0,
        0 < hooks.filter(registry::is_at(target)).first().orig_bytes.len() <= 0x1_0000_0000,
    ensures
        ({
            let gone = hooks.filter(registry::is_at(target));
            let oldest = gone.first();
            system::load(
                all_taken_out(gone.reverse(), world).memory,
                target,
                oldest.orig_bytes.len(),
            ) == oldest.orig_bytes
        }),
{
    broadcast use vstd::seq_lib::group_filter_ensures;

    let gone = hooks.filter(registry::is_at(target));
    let oldest = gone.first();
    let newer = gone.drop_first().reverse();
    assert(registry::is_at(target)(gone[0]));
    assert(gone.reverse() =~= newer.push(oldest));
    lemma_taken_out_last(newer, oldest, world);
    system::law_written_data_reads_back(
        all_taken_out(newer, world).memory,
        target,
        oldest.orig_bytes,
    );
}

/// Taking out some hooks, and then some others.
proof fn lemma_taken_out_in_two(first: Seq<Hook>, second: Seq<Hook>, world: World)
    ensures
        all_taken_out(first + second, world) == all_taken_out(
            second,
            all_taken_out(first, world),
        ),
    decreases first.len(),
{
    let all = first + second;
    if first.len() == 0 {
        assert(all =~= second);
    } else {
        assert(all.drop_first() =~= first.drop_first() + second);
        assert(all.first() == first.first());
        lemma_taken_out_in_two(first.drop_first(), second, first.first().taken_out(world));
    }
}

/// When hooks are taken out, newest first, from whatever process, a location holds what its
/// hook replaced, if no older hook replaced any of its bytes.
pub proof fn law_location_holds_what_its_oldest_hook_replaced(
    hooks: Seq<Hook>,
    i: int,
    world: World,
)
    requires
        0 <= i < hooks.len(),
        hooks[i].orig_bytes.len() <= 0x1_0000_0000,
        forall|j: int|
            0 <= j < i ==> system::apart(
                (#[trigger] hooks[j]).target_addr,
                hooks[j].orig_bytes.len(),
                hooks[i].target_addr,
                hooks[i].orig_bytes.len(),
            ),
    ensures
        system::load(
            all_taken_out(hooks.reverse(), world).memory,
            hooks[i].target_addr,
            hooks[i].orig_bytes.len(),
        ) == hooks[i].orig_bytes,
{
    let hook = hooks[i];
    let len = hook.orig_bytes.len();
    let newer = hooks.skip(i + 1).reverse();
    let older = hooks.take(i).reverse();
    assert(hooks.reverse() =~= newer.push(hook) + older);
    lemma_taken_out_in_two(newer.push(hook), older, world);
    lemma_taken_out_last(newer, hook, world);
    let between = all_taken_out(newer.push(hook), world);
    let now = all_taken_out(older, between);
    system::law_written_data_reads_back(
        all_taken_out(newer, world).memory,
        hook.target_addr,
        hook.orig_bytes,
    );
    let (found, expected) = (
        system::load(now.memory, hook.target_addr, len),
        system::load(between.memory, hook.target_addr, len),
    );
    assert(len == 0 || expected == hook.orig_bytes);
    assert forall|k: int| 0 <= k < len implies found[k] == expected[k] by {
        let at = word::wrap(hook.target_addr + k);
        assert(system::distance(hook.target_addr, at) == k);
        assert(system::within(at, hook.target_addr, len));
        assert forall|j: int| 0 <= j < older.len() implies !is_hooked(#[trigger] older[j], at) by {
            assert(older[j] == hooks[i - 1 - j]);
            assert(!system::within(at, older[j].target_addr, older[j].orig_bytes.len()));
        }
        lemma_untouched_at(older, between, at);
    }
    assert(found =~= expected);
    assert(found =~= hook.orig_bytes);
}

/// Removing all hooks as the list of hooks does it, from whatever process and with nothing
/// refused meanwhile, leaves each location holding what its hook replaced, if no older hook
/// replaced any of its bytes. After that there is nothing left to remove.
pub proof fn law_removing_all_hooks_restores_each_location(
    hooks: Seq<Hook>,
    i: int,
    before: World,
    replies: Seq<Reply<Seq<u8>>>,
)
    requires
        all_fit(hooks),
        0 <= i < hooks.len(),
        hooks[i].orig_bytes.len() <= 0x1_0000_0000,
        forall|j: int|
            0 <= j < i ==> system::apart(
                (#[trigger] hooks[j]).target_addr,
                hooks[j].orig_bytes.len(),
                hooks[i].target_addr,
                hooks[i].orig_bytes.len(),
            ),
        system::possible(RemovalModel::start(hooks.reverse(), false), before, replies),
    ensures
        ({
            let start = RemovalModel::start(hooks.reverse(), false);
            let (removal, now) = system::run(start, before, replies);
            &&& removal.pending() is None && now.refusals == before.refusals ==> system::load(
                now.memory,
                hooks[i].target_addr,
                hooks[i].orig_bytes.len(),
            ) == hooks[i].orig_bytes
            &&& RemovalModel::start(Seq::<Hook>::empty().reverse(), false).pending() is None
        }),
{
    lemma_reverse_fits(hooks);
    law_removing_hooks_takes_them_all_out(hooks.reverse(), false, before, replies);
    law_location_holds_what_its_oldest_hook_replaced(hooks, i, before);
}

proof fn lemma_reverse_fits(hooks: Seq<Hook>)
    requires
        all_fit(hooks),
    ensures
        all_fit(hooks.reverse()),
{
    let order = hooks.reverse();
    assert forall|i: int| 0 <= i < order.len() implies (#[trigger] order[i]).orig_bytes.len()
        <= usize::MAX by {
        assert(order[i] == hooks[hooks.len() - 1 - i]);
    }
}

proof fn lemma_filter_fits(hooks: Seq<Hook>, chosen: spec_fn(Hook) -> bool)
    requires
        all_fit(hooks),
    ensures
        all_fit(hooks.filter(chosen)),
{
    let some = hooks.filter(chosen);
    assert forall|i: int| 0 <= i < some.len() implies (#[trigger] some[i]).orig_bytes.len()
        <= usize::MAX by {
        hooks.lemma_filter_contains_rev(chosen, some[i]);
    }
}

/// Removing the hooks at a target as the list of hooks does it, from whatever process and
/// with nothing refused meanwhile, leaves the target holding what the oldest of them
/// replaced.
pub proof fn law_removing_at_a_target_restores_it(
    hooks: Seq<Hook>,
    target: u32,
    before: World,
    replies: Seq<Reply<Seq<u8>>>,
)
    requires
        all_fit(hooks),
        hooks.filter(registry::is_at(target)).len() > 0,
        0 < hooks.filter(registry::is_at(target)).first().orig_bytes.len() <= 0x1_0000_0000,
        system::possible(
            RemovalModel::start(hooks.filter(registry::is_at(target)).reverse(), true),
            before,
            replies,
        ),
    ensures
        ({
            let gone = hooks.filter(registry::is_at(target));
            let oldest = gone.first();
            let start = RemovalModel::start(gone.reverse(), true);
            let (removal, now) = system::run(start, before, replies);
            removal.pending() is None && now.refusals == before.refusals ==> system::load(
                now.memory,
                target,
                oldest.orig_bytes.len(),
            ) == oldest.orig_bytes
        }),
{
    let gone = hooks.filter(registry::is_at(target));
    lemma_filter_fits(hooks, registry::is_at(target));
    lemma_reverse_fits(gone);
    law_removing_hooks_takes_them_all_out(gone.reverse(), true, before, replies);
    law_target_holds_what_its_oldest_hook_replaced(hooks, target, before);
}

/// The requests of a removal that has come this far change nothing at an address that none
/// of the hooks still to be removed replaced.
proof fn lemma_removal_leaves_at(
    removal: RemovalModel,
    now: World,
    replies: Seq<Reply<Seq<u8>>>,
    at: u32,
)
    requires
        forall|i: int| 0 <= i < removal.rest.len() ==> !is_hooked(#[trigger] removal.rest[i], at),
        removal.current matches Some(remove) ==> !is_hooked(remove.hook, at),
    ensures
        (system::run(removal, now, replies).1.memory)(at) == (now.memory)(at),
    decreases replies.len(),
{
    if replies.len() > 0 && removal.pending() is Some {
        let reply = replies.first();
        let next = removal.resumed(reply);
        lemma_next_leaves_at(removal, at);
        lemma_removal_leaves_at(
            next,
            now.after(removal.pending()->0, reply),
            replies.drop_first(),
            at,
        );
    }
}

proof fn lemma_next_leaves_at(removal: RemovalModel, at: u32)
    requires
        forall|i: int| 0 <= i < removal.rest.len() ==> !is_hooked(#[trigger] removal.rest[i], at),
    ensures
        forall|i: int|
            0 <= i < removal.next().rest.len() ==> !is_hooked(
                #[trigger] removal.next().rest[i],
                at,
            ),
        removal.next().current matches Some(remove) ==> !is_hooked(remove.hook, at),
    decreases removal.rest.len(),
{
    if removal.rest.len() > 0 {
        let others = RemovalModel { rest: removal.rest.drop_first(), ..removal };
        assert forall|i: int| 0 <= i < others.rest.len() implies !is_hooked(
            #[trigger] others.rest[i],
            at,
        ) by {
            assert(others.rest[i] == removal.rest[i + 1]);
        }
        assert(!is_hooked(removal.rest[0], at));
        lemma_next_leaves_at(others, at);
    }
}

/// Removing hooks, however far it has come and whatever is refused, leaves memory alone at
/// every address that none of them replaced.
pub proof fn law_removals_leave_the_rest_alone(
    hooks: Seq<Hook>,
    twice: bool,
    before: World,
    replies: Seq<Reply<Seq<u8>>>,
    at: u32,
)
    requires
        forall|i: int| 0 <= i < hooks.len() ==> !is_hooked(#[trigger] hooks[i], at),
    ensures
        (system::run(RemovalModel::start(hooks, twice), before, replies).1.memory)(at) == (
        before.memory)(at),
{
    lemma_next_leaves_at(
        RemovalModel { rest: hooks, twice, retry: false, current: None },
        at,
    );
    lemma_removal_leaves_at(RemovalModel::start(hooks, twice), before, replies, at);
}

proof fn lemma_only_one_there(hooks: Seq<Hook>, i: int, target: u32)
    requires
        0 <= i < hooks.len(),
        hooks[i].target_addr == target,
        forall|j: int|
            0 <= j < hooks.len() && j != i ==> (#[trigger] hooks[j]).target_addr != target,
    ensures
        hooks.filter(registry::is_at(target)) == seq![hooks[i]],
        hooks.filter(registry::is_elsewhere(target)) == hooks.remove(i),
    decreases hooks.len(),
{
    reveal(Seq::filter);
    let rest = hooks.drop_last();
    if i == hooks.len() - 1 {
        assert forall|j: int| 0 <= j < rest.len() implies (#[trigger] rest[j]).target_addr
            != target by {
            assert(rest[j] == hooks[j]);
        }
        lemma_no_hook_there(rest, target);
        assert(hooks.filter(registry::is_at(target)) =~= seq![hooks[i]]);
        assert(hooks.remove(i) =~= rest);
    } else {
        assert forall|j: int| 0 <= j < rest.len() && j != i implies (
        #[trigger] rest[j]).target_addr != target by {
            assert(rest[j] == hooks[j]);
        }
        lemma_only_one_there(rest, i, target);
        assert(hooks.last() == hooks[hooks.len() - 1]);
        assert(hooks.remove(i) =~= rest.remove(i).push(hooks.last()));
    }
}

/// Removing what is at a target where there is one hook: the list is left without it, in the
/// order that it had. Whatever is refused, memory is left alone but for the bytes that the
/// hook replaced, and where nothing is, these are what they were before the hook. Removing
/// again does nothing.
pub proof fn law_removing_the_only_hook_at_a_target(
    hooks: Seq<Hook>,
    i: int,
    before: World,
    replies: Seq<Reply<Seq<u8>>>,
)
    requires
        0 <= i < hooks.len(),
        hooks[i].orig_bytes.len() <= usize::MAX,
        hooks[i].orig_bytes.len() <= 0x1_0000_0000,
        forall|j: int|
            0 <= j < hooks.len() && j != i ==> (#[trigger] hooks[j]).target_addr
                != hooks[i].target_addr,
        system::possible(
            RemovalModel::start(
                hooks.filter(registry::is_at(hooks[i].target_addr)).reverse(),
                true,
            ),
            before,
            replies,
        ),
    ensures
        ({
            let hook = hooks[i];
            let target = hook.target_addr;
            let start = RemovalModel::start(
                hooks.filter(registry::is_at(target)).reverse(),
                true,
            );
            let (removal, now) = system::run(start, before, replies);
            let kept = hooks.filter(registry::is_elsewhere(target));
            &&& kept == hooks.remove(i)
            &&& forall|at: u32|
                !is_hooked(hook, at) ==> #[trigger] (now.memory)(at) == (before.memory)(at)
            &&& removal.pending() is None && now.refusals == before.refusals ==> system::load(
                now.memory,
                target,
                hook.orig_bytes.len(),
            ) == hook.orig_bytes
            &&& kept.filter(registry::is_elsewhere(target)) == kept
            &&& RemovalModel::start(
                kept.filter(registry::is_at(target)).reverse(),
                true,
            ).pending() is None
        }),
{
    let hook = hooks[i];
    let target = hook.target_addr;
    let one = seq![hook];
    lemma_only_one_there(hooks, i, target);
    assert(one.reverse() =~= one);
    let start = RemovalModel::start(one, true);
    let (removal, now) = system::run(start, before, replies);
    assert forall|at: u32| !is_hooked(hook, at) implies (#[trigger] (now.memory)(at)) == (
    before.memory)(at) by {
        law_removals_leave_the_rest_alone(one, true, before, replies, at);
    }
    law_removing_hooks_takes_them_all_out(one, true, before, replies);
    law_location_holds_what_its_oldest_hook_replaced(one, 0, before);
    let kept = hooks.remove(i);
    assert forall|j: int| 0 <= j < kept.len() implies (#[trigger] kept[j]).target_addr
        != target by {
        assert(kept[j] == if j < i {
            hooks[j]
        } else {
            hooks[j + 1]
        });
    }
    law_removing_where_no_hook_is_does_nothing(kept, target);
}

/// A vtable hook is removed by the address of its entry: where no other hook is there, it
/// leaves the list, and, from whatever process and with nothing refused meanwhile, the
/// function that the entry was the address of is in the entry again.
pub proof fn law_vtable_hook_is_removed_by_its_entry(
    object: u32,
    index: u32,
    detour: u32,
    hook: Hook,
    before: World,
    between: World,
    others: Seq<Hook>,
    later: World,
    replies: Seq<Reply<Seq<u8>>>,
)
    requires
        vtable::is_replaced(object, index, detour, hook, before, between),
        forall|j: int|
            0 <= j < others.len() ==> (#[trigger] others[j]).target_addr != hook.target_addr,
        ({
            let start = VtablePatch { object, index, detour, stage: VtableStage::Table };
            let gone = others.push(hook).filter(registry::is_at(start.entry(before)));
            system::possible(RemovalModel::start(gone.reverse(), true), later, replies)
        }),
    ensures
        ({
            let start = VtablePatch { object, index, detour, stage: VtableStage::Table };
            let entry = start.entry(before);
            let hooks = others.push(hook);
            let gone = hooks.filter(registry::is_at(entry));
            let (removal, now) = system::run(
                RemovalModel::start(gone.reverse(), true),
                later,
                replies,
            );
            &&& hooks.filter(registry::is_elsewhere(entry)) == others
            &&& removal.pending() is None && now.refusals == later.refusals ==> system::load(
                now.memory,
                entry,
                vtable::ENTRY_LEN as nat,
            ) == word::bytes(hook.alloc_addr)
        }),
{
    lemma_entry_known(object, index, detour, hook, before, between);
    lemma_newest_is_removed(hook, others, later, replies);
}

/// What a vtable hook knows of its entry.
proof fn lemma_entry_known(
    object: u32,
    index: u32,
    detour: u32,
    hook: Hook,
    before: World,
    between: World,
)
    requires
        vtable::is_replaced(object, index, detour, hook, before, between),
    ensures
        hook.target_addr == (VtablePatch {
            object,
            index,
            detour,
            stage: VtableStage::Table,
        }).entry(before),
        hook.orig_bytes == word::bytes(hook.alloc_addr),
        hook.orig_bytes.len() == vtable::ENTRY_LEN,
{
    word::law_bytes_survive_their_word(hook.orig_bytes);
}

/// The newest hook of the list is removed, where no other is at its target.
proof fn lemma_newest_is_removed(
    hook: Hook,
    others: Seq<Hook>,
    later: World,
    replies: Seq<Reply<Seq<u8>>>,
)
    requires
        hook.orig_bytes.len() == vtable::ENTRY_LEN,
        forall|j: int|
            0 <= j < others.len() ==> (#[trigger] others[j]).target_addr != hook.target_addr,
        system::possible(
            RemovalModel::start(
                others.push(hook).filter(registry::is_at(hook.target_addr)).reverse(),
                true,
            ),
            later,
            replies,
        ),
    ensures
        ({
            let hooks = others.push(hook);
            let gone = hooks.filter(registry::is_at(hook.target_addr));
            let (removal, now) = system::run(
                RemovalModel::start(gone.reverse(), true),
                later,
                replies,
            );
            &&& hooks.filter(registry::is_elsewhere(hook.target_addr)) == others
            &&& removal.pending() is None && now.refusals == later.refusals ==> system::load(
                now.memory,
                hook.target_addr,
                vtable::ENTRY_LEN as nat,
            ) == hook.orig_bytes
        }),
{
    let hooks = others.push(hook);
    let last = others.len() as int;
    assert(hooks[last] == hook);
    assert forall|j: int| 0 <= j < hooks.len() && j != last implies (
    #[trigger] hooks[j]).target_addr != hooks[last].target_addr by {
        assert(hooks[j] == others[j]);
    }
    law_removing_the_only_hook_at_a_target(hooks, last, later, replies);
    assert(hooks.remove(last) =~= others);
}

/// Whether a hook was installed, and nothing else done, from the process `before` to the
/// process `now`.
pub open spec fn is_installed(hook: Hook, before: World, now: World) -> bool {
    ||| exists|detour: u32, mid: bool| #[trigger]
        effect::in_place(hook.target_addr, detour, mid, hook, before, now)
    ||| exists|object: u32, index: u32, detour: u32| #[trigger]
        vtable::is_replaced(object, index, detour, hook, before, now)
}

/// Whether hooks were installed one after the other: each leads from one process to the
/// next.
pub open spec fn are_installed_in_turn(hooks: Seq<Hook>, worlds: Seq<World>) -> bool {
    &&& worlds.len() == hooks.len() + 1
    &&& forall|i: int|
        0 <= i < hooks.len() ==> is_installed(#[trigger] hooks[i], worlds[i], worlds[i + 1])
}

/// Whether an address is in the memory that was allocated for a hook.
pub open spec fn is_own(hook: Hook, at: u32) -> bool {
    hook.is_jmp && system::within(at, hook.alloc_addr, patch::BLOCK_LEN as nat)
}

/// Whether an address is one of those whose bytes a hook replaced.
pub open spec fn is_hooked(hook: Hook, at: u32) -> bool {
    system::within(at, hook.target_addr, hook.orig_bytes.len())
}

/// What installing a hook does to a process, as far as it has to be undone.
proof fn lemma_installed(hook: Hook, before: World, now: World)
    requires
        is_installed(hook, before, now),
    ensures
        0 < hook.orig_bytes.len() <= prologue::WINDOW_LEN,
        hook.orig_bytes == system::load(before.memory, hook.target_addr, hook.orig_bytes.len()),
        forall|at: u32|
            !is_own(hook, at) && !is_hooked(hook, at) ==> #[trigger] (now.memory)(at) == (
            before.memory)(at),
        forall|at: u32| #[trigger] (before.mapped)(at) ==> (now.mapped)(at) && !is_own(hook, at),
        now.refusals >= before.refusals,
        now.refusals == before.refusals ==> hook.taken_out(now) == (World {
            memory: hook.taken_out(now).memory,
            ..before
        }),
{
    if exists|detour: u32, mid: bool| #[trigger]
        effect::in_place(hook.target_addr, detour, mid, hook, before, now) {
        let (detour, mid) = choose|detour: u32, mid: bool| #[trigger]
            effect::in_place(hook.target_addr, detour, mid, hook, before, now);
        lemma_installed_in_code(hook.target_addr, detour, mid, hook, before, now);
    } else {
        let (object, index, detour) = choose|object: u32, index: u32, detour: u32| #[trigger]
            vtable::is_replaced(object, index, detour, hook, before, now);
        word::law_word_survives_its_bytes(detour);
    }
}

proof fn lemma_installed_in_code(
    target: u32,
    detour: u32,
    mid: bool,
    hook: Hook,
    before: World,
    now: World,
)
    requires
        effect::in_place(target, detour, mid, hook, before, now),
    ensures
        code::BRANCH_LEN <= hook.orig_bytes.len() <= prologue::WINDOW_LEN,
        forall|at: u32|
            !is_own(hook, at) && !is_hooked(hook, at) ==> #[trigger] (now.memory)(at) == (
            before.memory)(at),
        forall|at: u32| #[trigger] (before.mapped)(at) ==> (now.mapped)(at) && !is_own(hook, at),
        now.refusals == before.refusals ==> hook.taken_out(now) == (World {
            memory: hook.taken_out(now).memory,
            ..before
        }),
{
    let parts = effect::displaced_at(before, target)->0;
    let len = code::joined(parts).len();
    let window = system::load(before.memory, target, prologue::WINDOW_LEN as nat);
    prologue::law_displaced_instructions_are_the_start_of_the_code(window);
    if hook.is_jmp {
        let to = if mid {
            hook.alloc_addr
        } else {
            detour
        };
        code::law_patched_target_continues_at_the_detour(target, to, len);
        effect::lemma_block_fits(before, target, detour, mid, hook.alloc_addr);
    } else {
        code::law_branch_leads_to_its_target(code::CALL, target, detour);
    }
    if now.refusals == before.refusals {
        lemma_taken_out(target, detour, mid, before, now, hook);
    }
}

/// Taking out a hook leaves an address that it hooked as it was before, and no other
/// changed.
proof fn lemma_taken_out_at(hook: Hook, before: World, world: World, at: u32)
    requires
        hook.orig_bytes == system::load(before.memory, hook.target_addr, hook.orig_bytes.len()),
    ensures
        (hook.taken_out(world).memory)(at) == if is_hooked(hook, at) {
            (before.memory)(at)
        } else {
            (world.memory)(at)
        },
{
    if is_hooked(hook, at) {
        let distance = system::distance(hook.target_addr, at);
        assert(word::wrap(hook.target_addr + distance) == at);
        assert(hook.orig_bytes[distance] == system::load(
            before.memory,
            hook.target_addr,
            hook.orig_bytes.len(),
        )[distance]);
    }
}

proof fn lemma_in_turn_before_last(hooks: Seq<Hook>, worlds: Seq<World>)
    requires
        are_installed_in_turn(hooks, worlds),
        hooks.len() > 0,
    ensures
        are_installed_in_turn(hooks.drop_last(), worlds.drop_last()),
        is_installed(hooks.last(), worlds.drop_last().last(), worlds.last()),
        worlds.drop_last().first() == worlds.first(),
{
    let (earlier, until) = (hooks.drop_last(), worlds.drop_last());
    assert forall|i: int| 0 <= i < earlier.len() implies is_installed(
        #[trigger] earlier[i],
        until[i],
        until[i + 1],
    ) by {
        assert(earlier[i] == hooks[i]);
    }
    assert(hooks.last() == hooks[hooks.len() - 1]);
}

/// At an address that only hooks which are taken out hooked, and that is not in their own
/// memory, taking them out newest first undoes them.
proof fn lemma_undone_at(
    hooks: Seq<Hook>,
    worlds: Seq<World>,
    gone: spec_fn(Hook) -> bool,
    world: World,
    at: u32,
)
    requires
        are_installed_in_turn(hooks, worlds),
        forall|i: int| 0 <= i < hooks.len() ==> !is_own(#[trigger] hooks[i], at),
        forall|i: int|
            0 <= i < hooks.len() && is_hooked(#[trigger] hooks[i], at) ==> gone(hooks[i]),
        (world.memory)(at) == (worlds.last().memory)(at),
    ensures
        (all_taken_out(hooks.filter(gone).reverse(), world).memory)(at) == (
        worlds.first().memory)(at),
    decreases hooks.len(),
{
    reveal(Seq::filter);
    if hooks.len() == 0 {
        assert(hooks.filter(gone).reverse() =~= Seq::empty());
    } else {
        let hook = hooks.last();
        let (earlier, until) = (hooks.drop_last(), worlds.drop_last());
        lemma_in_turn_before_last(hooks, worlds);
        lemma_installed(hook, until.last(), worlds.last());
        assert(hook == hooks[hooks.len() - 1]);
        assert forall|i: int| 0 <= i < earlier.len() implies !is_own(#[trigger] earlier[i], at) by {
            assert(earlier[i] == hooks[i]);
        }
        assert forall|i: int|
            0 <= i < earlier.len() && is_hooked(#[trigger] earlier[i], at) implies gone(
            earlier[i],
        ) by {
            assert(earlier[i] == hooks[i]);
        }
        if gone(hook) {
            let order = hooks.filter(gone).reverse();
            let rest = earlier.filter(gone).reverse();
            assert(hooks.filter(gone) == earlier.filter(gone).push(hook));
            assert(order.first() == hook);
            assert(order.drop_first() =~= rest);
            lemma_taken_out_at(hook, until.last(), world, at);
            lemma_undone_at(earlier, until, gone, hook.taken_out(world), at);
        } else {
            lemma_undone_at(earlier, until, gone, world, at);
        }
    }
}

/// Hooks that were installed in turn did not replace too many bytes.
proof fn lemma_in_turn_fit(hooks: Seq<Hook>, worlds: Seq<World>)
    requires
        are_installed_in_turn(hooks, worlds),
    ensures
        all_fit(hooks),
{
    assert forall|i: int| 0 <= i < hooks.len() implies (#[trigger] hooks[i]).orig_bytes.len()
        <= usize::MAX by {
        lemma_installed(hooks[i], worlds[i], worlds[i + 1]);
    }
}

/// The memory that is allocated for hooks was not in use before the first of them.
pub proof fn law_hooks_keep_to_memory_that_was_not_in_use(
    hooks: Seq<Hook>,
    worlds: Seq<World>,
    at: u32,
    i: int,
)
    requires
        are_installed_in_turn(hooks, worlds),
        (worlds.first().mapped)(at),
        0 <= i < hooks.len(),
    ensures
        !is_own(hooks[i], at),
        (worlds[i + 1].mapped)(at),
    decreases i,
{
    if i > 0 {
        law_hooks_keep_to_memory_that_was_not_in_use(hooks, worlds, at, i - 1);
    }
    lemma_installed(hooks[i], worlds[i], worlds[i + 1]);
}

/// A process from which all hooks are taken out, newest first, is what it was before the
/// first, except for memory.
proof fn lemma_all_undone(hooks: Seq<Hook>, worlds: Seq<World>, world: World)
    requires
        are_installed_in_turn(hooks, worlds),
        world == (World { memory: world.memory, ..worlds.last() }),
    ensures
        worlds.last().refusals >= worlds.first().refusals,
        worlds.last().refusals == worlds.first().refusals ==> all_taken_out(
            hooks.reverse(),
            world,
        ) == (World { memory: all_taken_out(hooks.reverse(), world).memory, ..worlds.first() }),
    decreases hooks.len(),
{
    if hooks.len() == 0 {
        assert(hooks.reverse() =~= Seq::empty());
    } else {
        let hook = hooks.last();
        let (earlier, until) = (hooks.drop_last(), worlds.drop_last());
        lemma_in_turn_before_last(hooks, worlds);
        lemma_installed(hook, until.last(), worlds.last());
        assert(hooks.reverse().first() == hook);
        assert(hooks.reverse().drop_first() =~= earlier.reverse());
        let next = hook.taken_out(world);
        if worlds.last().refusals == until.last().refusals {
            assert(next =~= World { memory: next.memory, ..until.last() });
            lemma_all_undone(earlier, until, next);
        } else {
            lemma_all_undone(
                earlier,
                until,
                World { memory: next.memory, ..until.last() },
            );
        }
    }
}

/// Removing all hooks that were installed, in turn and at whatever locations, newest first
/// as the list of hooks does it, with nothing refused meanwhile: outside the memory that
/// was allocated for the hooks, memory holds what it held before the first of them. Where
/// nothing was refused since then, everything but memory is what it was, too.
pub proof fn law_removing_all_hooks_gives_the_process_back(
    hooks: Seq<Hook>,
    worlds: Seq<World>,
    replies: Seq<Reply<Seq<u8>>>,
)
    requires
        are_installed_in_turn(hooks, worlds),
        system::possible(RemovalModel::start(hooks.reverse(), false), worlds.last(), replies),
        ({
            let start = RemovalModel::start(hooks.reverse(), false);
            let (removal, now) = system::run(start, worlds.last(), replies);
            removal.pending() is None && now.refusals == worlds.last().refusals
        }),
    ensures
        ({
            let start = RemovalModel::start(hooks.reverse(), false);
            let (removal, now) = system::run(start, worlds.last(), replies);
            &&& forall|at: u32|
                (forall|i: int| 0 <= i < hooks.len() ==> !is_own(#[trigger] hooks[i], at))
                    ==> #[trigger] (now.memory)(at) == (worlds.first().memory)(at)
            &&& now.refusals == worlds.first().refusals ==> now == (World {
                memory: now.memory,
                ..worlds.first()
            })
        }),
{
    let order = hooks.reverse();
    let start = RemovalModel::start(order, false);
    let (removal, now) = system::run(start, worlds.last(), replies);
    let gone = |hook: Hook| true;
    lemma_in_turn_fit(hooks, worlds);
    assert forall|i: int| 0 <= i < order.len() implies (#[trigger] order[i]).orig_bytes.len()
        <= usize::MAX by {
        assert(order[i] == hooks[hooks.len() - 1 - i]);
    }
    law_removing_hooks_takes_them_all_out(order, false, worlds.last(), replies);
    lemma_filter_all(hooks, gone);
    assert forall|at: u32|
        (forall|i: int| 0 <= i < hooks.len() ==> !is_own(#[trigger] hooks[i], at)) implies (
    #[trigger] (now.memory)(at)) == (worlds.first().memory)(at) by {
        lemma_undone_at(hooks, worlds, gone, worlds.last(), at);
    }
    lemma_all_undone(hooks, worlds, worlds.last());
}

proof fn lemma_filter_all(hooks: Seq<Hook>, gone: spec_fn(Hook) -> bool)
    requires
        forall|hook: Hook| #[trigger] gone(hook),
    ensures
        hooks.filter(gone) == hooks,
    decreases hooks.len(),
{
    reveal(Seq::filter);
    if hooks.len() > 0 {
        lemma_filter_all(hooks.drop_last(), gone);
        assert(hooks.drop_last().push(hooks.last()) =~= hooks);
    }
}

/// Removing the hooks at a target, newest first as the list of hooks does it, with nothing
/// refused meanwhile, where hooks were installed in turn and at whatever locations. Memory
/// holds what it held before the first of them, outside the memory that was allocated for
/// hooks and the bytes that the hooks elsewhere replaced; and what no hook at the target
/// replaced is as it was.
pub proof fn law_removing_at_a_target_gives_its_bytes_back(
    hooks: Seq<Hook>,
    worlds: Seq<World>,
    target: u32,
    replies: Seq<Reply<Seq<u8>>>,
)
    requires
        are_installed_in_turn(hooks, worlds),
        ({
            let gone = hooks.filter(registry::is_at(target));
            let start = RemovalModel::start(gone.reverse(), true);
            let (removal, now) = system::run(start, worlds.last(), replies);
            &&& system::possible(start, worlds.last(), replies)
            &&& removal.pending() is None
            &&& now.refusals == worlds.last().refusals
        }),
    ensures
        ({
            let gone = hooks.filter(registry::is_at(target));
            let start = RemovalModel::start(gone.reverse(), true);
            let (removal, now) = system::run(start, worlds.last(), replies);
            &&& forall|at: u32|
                (forall|i: int|
                    0 <= i < hooks.len() ==> !is_own(#[trigger] hooks[i], at) && (is_hooked(
                        hooks[i],
                        at,
                    ) ==> hooks[i].target_addr == target)) ==> #[trigger] (now.memory)(at) == (
                worlds.first().memory)(at)
            &&& forall|at: u32|
                (forall|i: int|
                    0 <= i < hooks.len() && (#[trigger] hooks[i]).target_addr == target
                        ==> !is_hooked(hooks[i], at)) ==> #[trigger] (now.memory)(at) == (
                worlds.last().memory)(at)
        }),
{
    broadcast use vstd::seq_lib::group_filter_ensures;

    let chosen = registry::is_at(target);
    let gone = hooks.filter(chosen);
    let order = gone.reverse();
    let start = RemovalModel::start(order, true);
    let (removal, now) = system::run(start, worlds.last(), replies);
    lemma_in_turn_fit(hooks, worlds);
    assert forall|i: int| 0 <= i < order.len() implies (#[trigger] order[i]).orig_bytes.len()
        <= usize::MAX by {
        assert(order[i] == gone[gone.len() - 1 - i]);
        hooks.lemma_filter_contains_rev(chosen, order[i]);
    }
    law_removing_hooks_takes_them_all_out(order, true, worlds.last(), replies);
    assert forall|at: u32|
        (forall|i: int|
            0 <= i < hooks.len() ==> !is_own(#[trigger] hooks[i], at) && (is_hooked(
                hooks[i],
                at,
            ) ==> hooks[i].target_addr == target)) implies (#[trigger] (now.memory)(at)) == (
    worlds.first().memory)(at) by {
        lemma_undone_at(hooks, worlds, chosen, worlds.last(), at);
    }
    assert forall|at: u32|
        (forall|i: int|
            0 <= i < hooks.len() && (#[trigger] hooks[i]).target_addr == target ==> !is_hooked(
                hooks[i],
                at,
            )) implies (#[trigger] (now.memory)(at)) == (worlds.last().memory)(at) by {
        assert forall|i: int| 0 <= i < order.len() implies !is_hooked(#[trigger] order[i], at) by {
            assert(order[i] == gone[gone.len() - 1 - i]);
            assert(chosen(order[i]));
            hooks.lemma_filter_contains_rev(chosen, order[i]);
        }
        lemma_untouched_at(order, worlds.last(), at);
    }
}

proof fn lemma_untouched_at(hooks: Seq<Hook>, world: World, at: u32)
    requires
        forall|i: int| 0 <= i < hooks.len() ==> !is_hooked(#[trigger] hooks[i], at),
    ensures
        (all_taken_out(hooks, world).memory)(at) == (world.memory)(at),
    decreases hooks.len(),
{
    if hooks.len() > 0 {
        let rest = hooks.drop_first();
        assert(!is_hooked(hooks[0], at));
        assert forall|i: int| 0 <= i < rest.len() implies !is_hooked(#[trigger] rest[i], at) by {
            assert(rest[i] == hooks[i + 1]);
        }
        lemma_untouched_at(rest, hooks[0].taken_out(world), at);
    }
}

/// Where there is no hook at `target`, removing what is there keeps the list as it is, and
/// there is nothing to do.
pub proof fn law_removing_where_no_hook_is_does_nothing(hooks: Seq<Hook>, target: u32)
    requires
        forall|i: int| 0 <= i < hooks.len() ==> (#[trigger] hooks[i]).target_addr != target,
    ensures
        hooks.filter(registry::is_elsewhere(target)) == hooks,
        RemovalModel::start(
            hooks.filter(registry::is_at(target)).reverse(),
            true,
        ).pending() is None,
{
    lemma_no_hook_there(hooks, target);
}

proof fn lemma_no_hook_there(hooks: Seq<Hook>, target: u32)
    requires
        forall|i: int| 0 <= i < hooks.len() ==> (#[trigger] hooks[i]).target_addr != target,
    ensures
        hooks.filter(registry::is_elsewhere(target)) == hooks,
        hooks.filter(registry::is_at(target)).len() == 0,
    decreases hooks.len(),
{
    reveal(Seq::filter);
    if hooks.len() > 0 {
        let rest = hooks.drop_last();
        assert forall|i: int| 0 <= i < rest.len() implies (#[trigger] rest[i]).target_addr
            != target by {
            assert(rest[i] == hooks[i]);
        }
        lemma_no_hook_there(rest, target);
        assert(rest.push(hooks.last()) =~= hooks);
    }
}

/// After what is at `target` was removed from the list, no hook there is left, and every
/// hook elsewhere is.
pub proof fn law_removing_at_a_target_keeps_the_others(hooks: Seq<Hook>, target: u32)
    ensures
        ({
            let kept = hooks.filter(registry::is_elsewhere(target));
            &&& forall|i: int| 0 <= i < kept.len() ==> (#[trigger] kept[i]).target_addr != target
            &&& forall|i: int|
                0 <= i < hooks.len() && (#[trigger] hooks[i]).target_addr != target
                    ==> kept.contains(hooks[i])
        }),
{
    broadcast use vstd::seq_lib::group_filter_ensures;

    let kept = hooks.filter(registry::is_elsewhere(target));
    assert forall|i: int| 0 <= i < kept.len() implies (#[trigger] kept[i]).target_addr
        != target by {
        assert(registry::is_elsewhere(target)(kept[i]));
    }
    assert forall|i: int|
        0 <= i < hooks.len() && (#[trigger] hooks[i]).target_addr != target implies kept.contains(
        hooks[i],
    ) by {
        assert(registry::is_elsewhere(target)(hooks[i]));
    }
}

/// What `hook` took out of the process `now` is all that was put into it: outside the
/// memory that was allocated for the hook, memory holds what it held `before`.
pub open spec fn is_undone(hook: Hook, before: World, now: World) -> bool {
    &&& now == World { memory: now.memory, ..before }
    &&& forall|at: u32|
        !is_own(hook, at) ==> (#[trigger] (now.memory)(at)) == (before.memory)(at)
}

/// Removing undoes installing: an inline or mid-function hook that was installed and then
/// removed, with nothing refused, leaves the process as it was, except for what its own
/// memory, which is given back, held in the meantime.
pub proof fn law_removal_undoes_installation(
    target: u32,
    detour: u32,
    mid: bool,
    before: World,
    installing: Seq<Reply<Seq<u8>>>,
    hook: Hook,
    removing: Seq<Reply<Seq<u8>>>,
)
    requires
        ({
            let start = InstallModel::start(target, detour, mid);
            let (install, between) = system::run(start, before, installing);
            let (removal, now) = system::run(RemoveModel::start(hook), between, removing);
            &&& system::possible(start, before, installing)
            &&& install.outcome() == Some(Ok::<Hook, UnsafetyHookError>(hook))
            &&& system::possible(RemoveModel::start(hook), between, removing)
            &&& removal.stage == RemoveStage::Done { removed: true }
            &&& now.refusals == before.refusals
        }),
    ensures
        ({
            let start = InstallModel::start(target, detour, mid);
            let (install, between) = system::run(start, before, installing);
            let (removal, now) = system::run(RemoveModel::start(hook), between, removing);
            is_undone(hook, before, now)
        }),
{
    let start = InstallModel::start(target, detour, mid);
    let (install, between) = system::run(start, before, installing);
    let (removal, now) = system::run(RemoveModel::start(hook), between, removing);
    effect::law_successful_installation_is_in_place(target, detour, mid, before, installing);
    let parts = effect::displaced_at(before, target)->0;
    let len = code::joined(parts).len();
    let window = system::load(before.memory, target, prologue::WINDOW_LEN as nat);
    prologue::law_displaced_instructions_are_the_start_of_the_code(window);
    assert(hook.orig_bytes.len() == len);
    remove::law_removal_puts_back_what_was_replaced(hook, between, removing);
    lemma_refusals_are_not_forgotten(RemoveModel::start(hook), between, removing);
    lemma_taken_out(target, detour, mid, before, between, hook);
}

proof fn lemma_put_back(
    memory: spec_fn(u32) -> u8,
    block: u32,
    code: Seq<u8>,
    target: u32,
    patch: Seq<u8>,
    at: u32,
)
    requires
        !system::within(at, block, code.len()),
    ensures
        ({
            let patched = system::store(system::store(memory, block, code), target, patch);
            let original = system::load(memory, target, patch.len());
            system::store(patched, target, original)(at) == memory(at)
        }),
{
    if system::within(at, target, patch.len()) {
        assert(word::wrap(target + system::distance(target, at)) == at);
    }
}

proof fn lemma_given_back(before: World, between: World, address: u32, len: nat)
    requires
        before.has_room_at(address, len),
        between.mapped == before.allocated(address, len).mapped,
        between.allocations == before.allocated(address, len).allocations,
    ensures
        between.freed(address).mapped == before.mapped,
        between.freed(address).allocations == before.allocations,
{
    let now = between.freed(address);
    assert forall|at: u32| #[trigger] (now.mapped)(at) == (before.mapped)(at) by {
        if system::within(at, address, len) {
            assert(!(before.mapped)(at));
        }
    }
    assert(now.mapped =~= before.mapped);
    assert(now.allocations =~= before.allocations);
}

proof fn lemma_taken_out(
    target: u32,
    detour: u32,
    mid: bool,
    before: World,
    between: World,
    hook: Hook,
)
    requires
        effect::in_place(target, detour, mid, hook, before, between),
        code::BRANCH_LEN <= hook.orig_bytes.len() <= prologue::WINDOW_LEN,
        between.refusals == before.refusals,
    ensures
        is_undone(hook, before, hook.taken_out(between)),
{
    let now = hook.taken_out(between);
    let parts = effect::displaced_at(before, target)->0;
    let len = code::joined(parts).len();
    if hook.is_jmp {
        let code = effect::block(parts, target, detour, mid, hook.alloc_addr);
        let to = if mid {
            hook.alloc_addr
        } else {
            detour
        };
        let jump = code::jump_patch(target, to, len);
        code::law_patched_target_continues_at_the_detour(target, to, len);
        effect::lemma_block_fits(before, target, detour, mid, hook.alloc_addr);
        assert forall|at: u32|
            !system::within(at, hook.alloc_addr, patch::BLOCK_LEN as nat) implies (
        #[trigger] (now.memory)(at)) == (before.memory)(at) by {
            lemma_put_back(before.memory, hook.alloc_addr, code, target, jump, at);
        }
        lemma_given_back(before, between, hook.alloc_addr, patch::BLOCK_LEN as nat);
    } else {
        let call = code::branch(code::CALL, target, detour);
        system::law_writing_back_restores_memory(before.memory, target, call);
    }
    assert(now =~= World { memory: now.memory, ..before });
}

/// Removing undoes replacing an entry of a vtable: where nothing is refused, the process
/// is in the end what it was.
pub proof fn law_removal_undoes_a_vtable_hook(
    object: u32,
    index: u32,
    detour: u32,
    before: World,
    installing: Seq<Reply<Seq<u8>>>,
    hook: Hook,
    removing: Seq<Reply<Seq<u8>>>,
)
    requires
        ({
            let start = VtablePatch { object, index, detour, stage: VtableStage::Table };
            let (patch, between) = system::run(start, before, installing);
            let (removal, now) = system::run(RemoveModel::start(hook), between, removing);
            &&& system::possible(start, before, installing)
            &&& patch.outcome() == Some(Ok::<Hook, UnsafetyHookError>(hook))
            &&& system::possible(RemoveModel::start(hook), between, removing)
            &&& removal.stage == RemoveStage::Done { removed: true }
            &&& now.refusals == before.refusals
        }),
    ensures
        ({
            let start = VtablePatch { object, index, detour, stage: VtableStage::Table };
            let (patch, between) = system::run(start, before, installing);
            let (removal, now) = system::run(RemoveModel::start(hook), between, removing);
            now == before
        }),
{
    let start = VtablePatch { object, index, detour, stage: VtableStage::Table };
    let (patch, between) = system::run(start, before, installing);
    let (removal, now) = system::run(RemoveModel::start(hook), between, removing);
    vtable::law_vtable_hook_changes_one_entry(object, index, detour, before, installing);
    assert(hook.orig_bytes.len() == vtable::ENTRY_LEN);
    remove::law_removal_puts_back_what_was_replaced(hook, between, removing);
    lemma_refusals_are_not_forgotten(RemoveModel::start(hook), between, removing);
    system::law_writing_back_restores_memory(
        before.memory,
        hook.target_addr,
        word::bytes(detour),
    );
    assert(now =~= before);
}

} // verus!
