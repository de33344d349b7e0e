//! Suspending the other threads of the process, finding out where they are, and
//! resuming them.

use vstd::prelude::*;

use crate::system;
use crate::system::{Program, Reply, Request, ThreadEntry, World};

verus! {

/// How far the work on the threads has come.
#[derive(Debug, Clone, Copy, PartialEq, Eq)]
pub enum ThreadStage {
    /// Asks which process and thread this is.
    Ids,
    /// Takes the snapshot to find threads in.
    Snapshot { process: u32, thread: u32 },
    /// Asks for the first thread of the snapshot.
    First { process: u32, thread: u32, snapshot: usize },
    /// Opens another thread of this process.
    Open { process: u32, thread: u32, snapshot: usize, candidate: u32 },
    /// Suspends the thread that was opened.
    Suspend { process: u32, thread: u32, snapshot: usize, handle: usize },
    /// Asks for the next thread of the snapshot.
    Next { process: u32, thread: u32, snapshot: usize },
    /// Closes the snapshot; `listed` says whether it had threads.
    CloseSnapshot { snapshot: usize, listed: bool },
    /// The threads could not be found; none is held.
    Failed,
    /// The threads are suspended.
    Held,
    /// Asks where the thread of the handle at `index` is.
    Check { start: u32, end: u32, index: usize },
    /// The threads are suspended; `hit` says whether one was in the range.
    Checked { hit: bool },
    /// Resumes the thread of the handle at `index`.
    Resume { index: usize },
    /// Closes the handle at `index`.
    CloseThread { index: usize },
    /// The threads run again; none is held.
    Released,
}

/// The other threads of the process that are held suspended.
pub struct SuspendThreads {
    /// Handles of the threads, in the order in which they were suspended.
    pub handles: Vec<usize>,
    /// What is being done with them.
    pub stage: ThreadStage,
}

/// A model of [`SuspendThreads`].
#[verifier::ext_equal]
pub struct Threads {
    pub handles: Seq<usize>,
    pub stage: ThreadStage,
}

impl View for SuspendThreads {
    type V = Threads;

    open spec fn view(&self) -> Threads {
        Threads { handles: self.handles@, stage: self.stage }
    }
}

/// The stage after a thread of the snapshot was seen: one of this process, other than
/// the current one, is opened.
pub open spec fn visit(process: u32, thread: u32, snapshot: usize, entry: ThreadEntry) -> ThreadStage {
    if entry.owner == process && entry.thread != thread {
        ThreadStage::Open { process, thread, snapshot, candidate: entry.thread }
    } else {
        ThreadStage::Next { process, thread, snapshot }
    }
}

/// Whether a reply places a thread in the range from `start` up to `end`.
pub open spec fn places_within<D>(reply: Reply<D>, start: u32, end: u32) -> bool {
    reply matches Reply::Context(Some(context)) && start <= context.Eip < end
}

impl Program for Threads {
    open spec fn pending(self) -> Option<Request<Seq<u8>>> {
        match self.stage {
            ThreadStage::Ids => Some(Request::CurrentIds),
            ThreadStage::Snapshot { .. } => Some(
                Request::Snapshot { flags: system::TH32CS_SNAPTHREAD, process: 0 },
            ),
            ThreadStage::First { snapshot, .. } => Some(Request::FirstThread { snapshot }),
            ThreadStage::Open { candidate, .. } => Some(
                Request::OpenThread {
                    access: system::THREAD_SUSPEND_RESUME | system::THREAD_GET_CONTEXT
                        | system::THREAD_SET_CONTEXT,
                    inherit: false,
                    thread: candidate,
                },
            ),
            ThreadStage::Suspend { handle, .. } => Some(Request::SuspendThread { handle }),
            ThreadStage::Next { snapshot, .. } => Some(Request::NextThread { snapshot }),
            ThreadStage::CloseSnapshot { snapshot, .. } => Some(
                Request::CloseHandle { handle: snapshot },
            ),
            ThreadStage::Check { index, .. } => Some(
                Request::ThreadContext {
                    handle: self.handles[index as int],
                    flags: system::CONTEXT_CONTROL_X86,
                },
            ),
            ThreadStage::Resume { index } => Some(
                Request::ResumeThread { handle: self.handles[index as int] },
            ),
            ThreadStage::CloseThread { index } => Some(
                Request::CloseHandle { handle: self.handles[index as int] },
            ),
            _ => None,
        }
    }

    open spec fn resumed(self, reply: Reply<Seq<u8>>) -> Threads {
        match self.stage {
            ThreadStage::Ids => self.at(
                ThreadStage::Snapshot { process: reply->process, thread: reply->thread },
            ),
            ThreadStage::Snapshot { process, thread } => match reply {
                Reply::Handle(Some(snapshot)) => self.at(
                    ThreadStage::First { process, thread, snapshot },
                ),
                _ => self.at(ThreadStage::Failed),
            },
            ThreadStage::First { process, thread, snapshot } => match reply {
                Reply::Thread(Some(entry)) => self.at(visit(process, thread, snapshot, entry)),
                _ => self.at(ThreadStage::CloseSnapshot { snapshot, listed: false }),
            },
            ThreadStage::Open { process, thread, snapshot, .. } => match reply {
                Reply::Handle(Some(handle)) => Threads {
                    handles: self.handles.push(handle),
                    stage: ThreadStage::Suspend { process, thread, snapshot, handle },
                },
                _ => self.at(ThreadStage::Next { process, thread, snapshot }),
            },
            ThreadStage::Suspend { process, thread, snapshot, .. } => self.at(
                ThreadStage::Next { process, thread, snapshot },
            ),
            ThreadStage::Next { process, thread, snapshot } => match reply {
                Reply::Thread(Some(entry)) => self.at(visit(process, thread, snapshot, entry)),
                _ => self.at(ThreadStage::CloseSnapshot { snapshot, listed: true }),
            },
            ThreadStage::CloseSnapshot { listed, .. } => self.at(
                if listed {
                    ThreadStage::Held
                } else {
                    ThreadStage::Failed
                },
            ),
            ThreadStage::Check { start, end, index } => if places_within(reply, start, end) {
                self.at(ThreadStage::Checked { hit: true })
            } else if index + 1 < self.handles.len() {
                self.at(ThreadStage::Check { start, end, index: (index + 1) as usize })
            } else {
                self.at(ThreadStage::Checked { hit: false })
            },
            ThreadStage::Resume { index } => self.at(ThreadStage::CloseThread { index }),
            ThreadStage::CloseThread { index } => if index + 1 < self.handles.len() {
                self.at(ThreadStage::Resume { index: (index + 1) as usize })
            } else {
                self.at(ThreadStage::Released)
            },
            _ => self,
        }
    }
}

impl Threads {
    /// The same threads at another stage.
    pub open spec fn at(self, stage: ThreadStage) -> Threads {
        Threads { handles: self.handles, stage }
    }

    /// The start of suspending: nothing is held.
    pub open spec fn start() -> Threads {
        Threads { handles: Seq::empty(), stage: ThreadStage::Ids }
    }

    /// Held threads, about to be asked where they are.
    pub open spec fn checking(self, start: u32, end: u32) -> Threads {
        if self.handles.len() == 0 {
            self.at(ThreadStage::Checked { hit: false })
        } else {
            self.at(ThreadStage::Check { start, end, index: 0 })
        }
    }

    /// Held threads, about to be resumed.
    pub open spec fn releasing(self) -> Threads {
        if self.handles.len() == 0 {
            self.at(ThreadStage::Released)
        } else {
            self.at(ThreadStage::Resume { index: 0 })
        }
    }

    /// Whether the threads are still being suspended.
    pub open spec fn is_suspending(self) -> bool {
        match self.stage {
            ThreadStage::Ids | ThreadStage::Snapshot { .. } | ThreadStage::First { .. }
            | ThreadStage::Open { .. } | ThreadStage::Suspend { .. } | ThreadStage::Next { .. }
            | ThreadStage::CloseSnapshot { .. } => true,
            _ => false,
        }
    }

    /// Whether the threads are being resumed.
    pub open spec fn is_releasing(self) -> bool {
        self.stage is Resume || self.stage is CloseThread
    }

    /// What every stage keeps: an index names a handle, no handle is held before the
    /// first thread is opened or after none could be found, and the current thread is
    /// never opened.
    pub open spec fn valid(self) -> bool {
        &&& self.handles.len() <= usize::MAX
        &&& match self.stage {
            ThreadStage::Ids | ThreadStage::Snapshot { .. } | ThreadStage::First { .. }
            | ThreadStage::Failed => self.handles.len() == 0,
            ThreadStage::CloseSnapshot { listed, .. } => listed || self.handles.len() == 0,
            ThreadStage::Open { thread, candidate, .. } => candidate != thread,
            ThreadStage::Suspend { handle, .. } => self.handles.len() > 0 && self.handles.last()
                == handle,
            ThreadStage::Check { index, .. } => index < self.handles.len(),
            ThreadStage::Resume { index } => index < self.handles.len(),
            ThreadStage::CloseThread { index } => index < self.handles.len(),
            _ => true,
        }
    }
}

impl SuspendThreads {
    /// Begins to suspend every other thread of the process.
    pub fn suspend_all_threads() -> (threads: SuspendThreads)
        ensures
            threads@ == Threads::start(),
            threads@.valid(),
    {
        SuspendThreads { handles: Vec::new(), stage: ThreadStage::Ids }
    }

    /// Begins to find out whether a held thread is between `start` and `end`.
    pub fn any_thread_in_range(&mut self, start: u32, end: u32)
        ensures
            final(self)@ == old(self)@.checking(start, end),
            final(self)@.valid(),
    {
        if self.handles.len() == 0 {
            self.stage = ThreadStage::Checked { hit: false };
        } else {
            self.stage = ThreadStage::Check { start, end, index: 0 };
        }
    }

    /// Begins to resume the held threads and to close their handles.
    pub fn resume_all_threads(&mut self)
        ensures
            final(self)@ == old(self)@.releasing(),
            final(self)@.valid(),
    {
        if self.handles.len() == 0 {
            self.stage = ThreadStage::Released;
        } else {
            self.stage = ThreadStage::Resume { index: 0 };
        }
    }

    /// The request that waits for a reply.
    pub fn request(&self) -> (request: Option<Request<Vec<u8>>>)
        requires
            self@.valid(),
        ensures
            request is Some == self@.pending() is Some,
            request is Some ==> request->0@ == self@.pending()->0,
    {
        match self.stage {
            ThreadStage::Ids => Some(Request::CurrentIds),
            ThreadStage::Snapshot { .. } => Some(
                Request::Snapshot { flags: system::TH32CS_SNAPTHREAD, process: 0 },
            ),
            ThreadStage::First { snapshot, .. } => Some(Request::FirstThread { snapshot }),
            ThreadStage::Open { candidate, .. } => Some(
                Request::OpenThread {
                    access: system::THREAD_SUSPEND_RESUME | system::THREAD_GET_CONTEXT
                        | system::THREAD_SET_CONTEXT,
                    inherit: false,
                    thread: candidate,
                },
            ),
            ThreadStage::Suspend { handle, .. } => Some(Request::SuspendThread { handle }),
            ThreadStage::Next { snapshot, .. } => Some(Request::NextThread { snapshot }),
            ThreadStage::CloseSnapshot { snapshot, .. } => Some(
                Request::CloseHandle { handle: snapshot },
            ),
            ThreadStage::Check { index, .. } => Some(
                Request::ThreadContext {
                    handle: self.handles[index],
                    flags: system::CONTEXT_CONTROL_X86,
                },
            ),
            ThreadStage::Resume { index } => Some(
                Request::ResumeThread { handle: self.handles[index] },
            ),
            ThreadStage::CloseThread { index } => Some(
                Request::CloseHandle { handle: self.handles[index] },
            ),
            ThreadStage::Failed | ThreadStage::Held | ThreadStage::Checked { .. }
            | ThreadStage::Released => None,
        }
    }

    /// Goes on with the reply to the pending request.
    pub fn advance(&mut self, reply: &Reply<Vec<u8>>)
        requires
            old(self)@.valid(),
            old(self)@.pending() matches Some(request) && system::answers(request, reply@),
        ensures
            final(self)@ == old(self)@.resumed(reply@),
            final(self)@.valid(),
    {
        let count: usize = self.handles.len();
        match (self.stage, reply) {
            (ThreadStage::Ids, Reply::Ids { process, thread }) => {
                self.stage = ThreadStage::Snapshot { process: *process, thread: *thread };
            },
            (ThreadStage::Snapshot { process, thread }, Reply::Handle(handle)) => {
                self.stage = match handle {
                    Some(snapshot) => ThreadStage::First { process, thread, snapshot: *snapshot },
                    None => ThreadStage::Failed,
                };
            },
            (ThreadStage::First { process, thread, snapshot }, Reply::Thread(entry)) => {
                self.stage = match entry {
                    Some(entry) => see(process, thread, snapshot, *entry),
                    None => ThreadStage::CloseSnapshot { snapshot, listed: false },
                };
            },
            (ThreadStage::Open { process, thread, snapshot, .. }, Reply::Handle(handle)) => {
                match handle {
                    Some(handle) => {
                        self.handles.push(*handle);
                        self.stage = ThreadStage::Suspend {
                            process,
                            thread,
                            snapshot,
                            handle: *handle,
                        };
                    },
                    None => {
                        self.stage = ThreadStage::Next { process, thread, snapshot };
                    },
                }
            },
            (ThreadStage::Suspend { process, thread, snapshot, .. }, _) => {
                self.stage = ThreadStage::Next { process, thread, snapshot };
            },
            (ThreadStage::Next { process, thread, snapshot }, Reply::Thread(entry)) => {
                self.stage = match entry {
                    Some(entry) => see(process, thread, snapshot, *entry),
                    None => ThreadStage::CloseSnapshot { snapshot, listed: true },
                };
            },
            (ThreadStage::CloseSnapshot { listed, .. }, _) => {
                self.stage = if listed {
                    ThreadStage::Held
                } else {
                    ThreadStage::Failed
                };
            },
            (ThreadStage::Check { start, end, index }, Reply::Context(context)) => {
                let hit: bool = match context {
                    Some(context) => context.Eip >= start && context.Eip < end,
                    None => false,
                };
                if hit {
                    self.stage = ThreadStage::Checked { hit: true };
                } else if index + 1 < count {
                    self.stage = ThreadStage::Check { start, end, index: index + 1 };
                } else {
                    self.stage = ThreadStage::Checked { hit: false };
                }
            },
            (ThreadStage::Resume { index }, _) => {
                self.stage = ThreadStage::CloseThread { index };
            },
            (ThreadStage::CloseThread { index }, _) => {
                if index + 1 < count {
                    self.stage = ThreadStage::Resume { index: index + 1 };
                } else {
                    self.stage = ThreadStage::Released;
                }
            },
            _ => {},
        }
        assert(self.handles.len() <= usize::MAX);
    }
}

/// The stage after a thread of the snapshot was seen.
fn see(process: u32, thread: u32, snapshot: usize, entry: ThreadEntry) -> (stage: ThreadStage)
    ensures
        stage == visit(process, thread, snapshot, entry),
{
    if entry.owner == process && entry.thread != thread {
        ThreadStage::Open { process, thread, snapshot, candidate: entry.thread }
    } else {
        ThreadStage::Next { process, thread, snapshot }
    }
}

/// The process `world` with threads suspended through some handles, and others open,
/// in addition to those that are.
pub open spec fn with_handles(world: World, suspended: Seq<usize>, open: Seq<usize>) -> World {
    World {
        suspended: world.suspended.add(suspended.to_multiset()),
        open: world.open.add(open.to_multiset()),
        ..world
    }
}

impl Threads {
    /// The handles through which a thread is suspended at this stage.
    pub open spec fn suspended(self) -> Seq<usize> {
        match self.stage {
            ThreadStage::Suspend { .. } => self.handles.drop_last(),
            ThreadStage::Resume { index } => self.handles.skip(index as int),
            ThreadStage::CloseThread { index } => self.handles.skip(index + 1),
            ThreadStage::Released => Seq::empty(),
            _ => self.handles,
        }
    }

    /// The handles that are open at this stage.
    pub open spec fn open(self) -> Seq<usize> {
        match self.stage {
            ThreadStage::First { snapshot, .. } | ThreadStage::Open { snapshot, .. }
            | ThreadStage::Suspend { snapshot, .. } | ThreadStage::Next { snapshot, .. }
            | ThreadStage::CloseSnapshot { snapshot, .. } => self.handles.push(snapshot),
            ThreadStage::Resume { index } | ThreadStage::CloseThread { index } => self.handles.skip(
                index as int,
            ),
            ThreadStage::Released => Seq::empty(),
            _ => self.handles,
        }
    }

    /// The process at this stage, where it was `world` before the first.
    pub open spec fn world(self, world: World) -> World {
        with_handles(world, self.suspended(), self.open())
    }
}

/// Whatever the system replies, the process differs from what it was by exactly the
/// threads that are suspended and the handles that are open, and both are known.
pub proof fn law_threads_are_accounted_for(threads: Threads, world: World, reply: Reply<Seq<u8>>)
    requires
        threads.valid(),
        threads.pending() is Some,
        threads.world(world).admits(threads.pending()->0, reply),
    ensures
        threads.resumed(reply).valid(),
        threads.resumed(reply).world(world) == threads.world(world).after(
            threads.pending()->0,
            reply,
        ),
{
    broadcast use vstd::seq_lib::group_to_multiset_ensures;
    broadcast use vstd::multiset::group_multiset_axioms;

    let next = threads.resumed(reply);
    let now = threads.world(world).after(threads.pending()->0, reply);
    let handles = threads.handles;
    match threads.stage {
        ThreadStage::Suspend { handle, .. } => {
            assert(handles.drop_last().push(handle) =~= handles);
            assert(handles.to_multiset() =~= handles.drop_last().to_multiset().insert(handle));
        },
        ThreadStage::Open { snapshot, .. } => {
            if let Reply::Handle(Some(handle)) = reply {
                assert(next.handles.drop_last() =~= handles);
                assert(next.open().to_multiset() =~= threads.open().to_multiset().insert(handle));
            }
        },
        ThreadStage::CloseSnapshot { snapshot, .. } => {
            assert(threads.open().to_multiset() =~= handles.to_multiset().insert(snapshot));
        },
        ThreadStage::Resume { index } => {
            let rest = handles.skip(index as int);
            assert(rest.remove(0) =~= handles.skip(index + 1));
            assert(rest.to_multiset() =~= rest.remove(0).to_multiset().insert(rest[0]));
        },
        ThreadStage::CloseThread { index } => {
            let rest = handles.skip(index as int);
            assert(rest.remove(0) =~= handles.skip(index + 1));
            assert(rest.to_multiset() =~= rest.remove(0).to_multiset().insert(rest[0]));
            if index + 1 >= handles.len() {
                assert(handles.skip(index + 1) =~= Seq::empty());
            }
        },
        _ => {},
    }
    assert(next.world(world).suspended =~= now.suspended);
    assert(next.world(world).open =~= now.open);
    assert(next.world(world) =~= now);
}

/// Over any number of replies, the process differs from what it was by exactly the
/// threads that are suspended and the handles that are open. So where the threads were
/// resumed, or could not be found, it does not differ at all.
pub proof fn law_released_threads_leave_no_trace(
    threads: Threads,
    world: World,
    replies: Seq<Reply<Seq<u8>>>,
)
    requires
        threads.valid(),
        system::possible(threads, threads.world(world), replies),
    ensures
        ({
            let (later, now) = system::run(threads, threads.world(world), replies);
            &&& later.valid()
            &&& now == later.world(world)
            &&& later.stage is Released || later.stage is Failed ==> now == world
        }),
    decreases replies.len(),
{
    if replies.len() > 0 {
        let reply = replies.first();
        law_threads_are_accounted_for(threads, world, reply);
        law_released_threads_leave_no_trace(
            threads.resumed(reply),
            world,
            replies.drop_first(),
        );
    } else if threads.stage is Released || threads.stage is Failed {
        broadcast use vstd::seq_lib::group_to_multiset_ensures;
        broadcast use vstd::multiset::group_multiset_axioms;

        assert(threads.suspended() =~= Seq::empty());
        assert(threads.open() =~= Seq::empty());
        assert(threads.world(world).suspended =~= world.suspended);
        assert(threads.world(world).open =~= world.open);
    }
}

/// Once the other threads are suspended, one thread is suspended, and one handle open, for each
/// handle that is held, over those that were before, and nothing else has changed.
pub proof fn law_each_held_handle_is_of_a_suspended_thread(
    world: World,
    replies: Seq<Reply<Seq<u8>>>,
)
    requires
        system::possible(Threads::start(), world, replies),
    ensures
        ({
            let (held, now) = system::run(Threads::start(), world, replies);
            &&& held.stage is Held ==> now == World {
                suspended: world.suspended.add(held.handles.to_multiset()),
                open: world.open.add(held.handles.to_multiset()),
                ..world
            }
            &&& held.stage is Failed ==> now == world && held.handles.len() == 0
            &&& held.pending() is None ==> held.stage is Held || held.stage is Failed
        }),
{
    broadcast use vstd::seq_lib::group_to_multiset_ensures;
    broadcast use vstd::multiset::group_multiset_axioms;

    let start = Threads::start();
    assert(start.world(world).suspended =~= world.suspended);
    assert(start.world(world).open =~= world.open);
    assert(start.world(world) =~= world);
    law_released_threads_leave_no_trace(start, world, replies);
    lemma_suspending_run(start, world, replies);
}

proof fn lemma_suspending_run(threads: Threads, world: World, replies: Seq<Reply<Seq<u8>>>)
    requires
        threads.is_suspending() || threads.stage is Held || threads.stage is Failed,
        system::possible(threads, world, replies),
    ensures
        ({
            let later = system::run(threads, world, replies).0;
            later.is_suspending() || later.stage is Held || later.stage is Failed
        }),
    decreases replies.len(),
{
    if replies.len() > 0 {
        let reply = replies.first();
        lemma_suspending_run(
            threads.resumed(reply),
            world.after(threads.pending()->0, reply),
            replies.drop_first(),
        );
    }
}

/// Resuming the threads that are held, each suspended and each with an open handle, leaves
/// none of them suspended and none of their handles open; and it takes two replies for each.
pub proof fn law_every_held_thread_is_resumed(
    held: Threads,
    world: World,
    replies: Seq<Reply<Seq<u8>>>,
)
    requires
        held.handles.len() <= usize::MAX,
        ({
            let now = World {
                suspended: world.suspended.add(held.handles.to_multiset()),
                open: world.open.add(held.handles.to_multiset()),
                ..world
            };
            system::possible(held.releasing(), now, replies)
        }),
    ensures
        ({
            let now = World {
                suspended: world.suspended.add(held.handles.to_multiset()),
                open: world.open.add(held.handles.to_multiset()),
                ..world
            };
            let (later, left) = system::run(held.releasing(), now, replies);
            later.pending() is None ==> {
                &&& later.stage is Released
                &&& left == world
                &&& replies.len() == 2 * held.handles.len()
            }
        }),
{
    let releasing = held.releasing();
    assert(held.handles.skip(0) =~= held.handles);
    if held.handles.len() == 0 {
        assert(held.handles =~= Seq::empty());
    }
    law_released_threads_leave_no_trace(releasing, world, replies);
    lemma_releasing_run(releasing, releasing.world(world), replies);
}

impl Threads {
    /// How many replies resuming the threads takes from this stage on.
    spec fn replies_left(self) -> int {
        match self.stage {
            ThreadStage::Resume { index } => 2 * (self.handles.len() - index),
            ThreadStage::CloseThread { index } => 2 * (self.handles.len() - index) - 1,
            _ => 0,
        }
    }
}

proof fn lemma_releasing_run(threads: Threads, world: World, replies: Seq<Reply<Seq<u8>>>)
    requires
        threads.valid(),
        threads.is_releasing() || threads.stage is Released,
        system::possible(threads, world, replies),
    ensures
        ({
            let later = system::run(threads, world, replies).0;
            &&& later.is_releasing() || later.stage is Released
            &&& later.replies_left() + replies.len() == threads.replies_left()
        }),
    decreases replies.len(),
{
    if replies.len() > 0 {
        let reply = replies.first();
        lemma_releasing_run(
            threads.resumed(reply),
            world.after(threads.pending()->0, reply),
            replies.drop_first(),
        );
    }
}

/// What is known of a search for threads: which process and thread asks, the snapshot that it
/// searches, the threads that were listed, whether there was none left, those that were to be
/// opened, and the handles of those that could be, each in order.
#[verifier::ext_equal]
pub struct Search {
    pub process: u32,
    pub thread: u32,
    pub snapshot: Option<usize>,
    pub listed: Seq<ThreadEntry>,
    pub ended: bool,
    pub asked_for: Seq<u32>,
    pub opened: Seq<usize>,
}

impl Search {
    /// A search in which nothing was found yet.
    pub open spec fn start(process: u32, thread: u32) -> Search {
        Search {
            process,
            thread,
            snapshot: None,
            listed: Seq::empty(),
            ended: false,
            asked_for: Seq::empty(),
            opened: Seq::empty(),
        }
    }

    /// What is known after one more reply. Asking which process and thread this is begins
    /// the search anew.
    pub open spec fn noted(
        self,
        request: Option<Request<Seq<u8>>>,
        reply: Reply<Seq<u8>>,
    ) -> Search {
        match (request, reply) {
            (Some(Request::CurrentIds), Reply::Ids { process, thread }) => Search::start(
                process,
                thread,
            ),
            (Some(Request::Snapshot { .. }), Reply::Handle(snapshot)) => Search { snapshot, ..self },
            (Some(Request::FirstThread { .. }), Reply::Thread(Some(entry))) => Search {
                listed: self.listed.push(entry),
                ..self
            },
            (Some(Request::NextThread { .. }), Reply::Thread(Some(entry))) => Search {
                listed: self.listed.push(entry),
                ..self
            },
            (Some(Request::FirstThread { .. }), Reply::Thread(None)) => Search {
                ended: true,
                ..self
            },
            (Some(Request::NextThread { .. }), Reply::Thread(None)) => Search {
                ended: true,
                ..self
            },
            (Some(Request::OpenThread { thread, .. }), Reply::Handle(Some(handle))) => Search {
                asked_for: self.asked_for.push(thread),
                opened: self.opened.push(handle),
                ..self
            },
            (Some(Request::OpenThread { thread, .. }), _) => Search {
                asked_for: self.asked_for.push(thread),
                ..self
            },
            _ => self,
        }
    }

    /// The threads of the process that were listed, other than the one that asks.
    pub open spec fn others(self) -> Seq<u32> {
        others(self.listed, self.process, self.thread)
    }

    /// Whether every other thread of the process that was listed so far, and no thread but
    /// those, was to be opened, and `handles` are those of the threads that could be.
    pub open spec fn is_current(self, handles: Seq<usize>) -> bool {
        self.asked_for == self.others() && self.opened == handles
    }

    /// Whether every thread was listed, every other thread of the process, and no thread but
    /// those, was to be opened, and `handles` are those of the threads that could be.
    pub open spec fn is_complete(self, handles: Seq<usize>) -> bool {
        self.ended && self.is_current(handles)
    }
}

/// The threads of a process among `entries`, in order, other than `thread`.
pub open spec fn others(entries: Seq<ThreadEntry>, process: u32, thread: u32) -> Seq<u32>
    decreases entries.len(),
{
    if entries.len() == 0 {
        Seq::empty()
    } else {
        let entry = entries.last();
        let first = others(entries.drop_last(), process, thread);
        if entry.owner == process && entry.thread != thread {
            first.push(entry.thread)
        } else {
            first
        }
    }
}

/// What is known of the last search for threads after the replies; `so_far` is what was
/// known before them.
pub open spec fn searched<P: Program>(
    program: P,
    so_far: Search,
    replies: Seq<Reply<Seq<u8>>>,
) -> Search
    decreases replies.len(),
{
    if replies.len() == 0 {
        so_far
    } else {
        let reply = replies.first();
        searched(
            program.resumed(reply),
            so_far.noted(program.pending(), reply),
            replies.drop_first(),
        )
    }
}

impl Threads {
    /// Whether the threads are at this stage after a search.
    pub open spec fn has_searched(self, search: Search) -> bool {
        match self.stage {
            ThreadStage::Snapshot { process, thread } => {
                &&& search.process == process
                &&& search.thread == thread
                &&& search.is_current(self.handles)
            },
            ThreadStage::First { process, thread, snapshot }
            | ThreadStage::Suspend { process, thread, snapshot, .. }
            | ThreadStage::Next { process, thread, snapshot } => {
                &&& search.process == process
                &&& search.thread == thread
                &&& search.snapshot == Some(snapshot)
                &&& search.is_current(self.handles)
            },
            ThreadStage::Open { process, thread, snapshot, candidate } => {
                &&& search.process == process
                &&& search.thread == thread
                &&& search.snapshot == Some(snapshot)
                &&& search.asked_for.push(candidate) == search.others()
                &&& search.opened == self.handles
            },
            ThreadStage::CloseSnapshot { snapshot, .. } => search.snapshot == Some(snapshot)
                && search.is_complete(self.handles),
            ThreadStage::Held | ThreadStage::Check { .. }
            | ThreadStage::Checked { .. } => search.is_complete(self.handles),
            _ => true,
        }
    }
}

/// Whatever the system replies, the threads go from one stage to the next with a search that
/// belongs to that stage.
pub(crate) proof fn lemma_search_step(threads: Threads, search: Search, reply: Reply<Seq<u8>>)
    requires
        threads.valid(),
        threads.has_searched(search),
        threads.pending() is Some,
        system::fits(threads.pending()->0, reply),
    ensures
        threads.resumed(reply).has_searched(search.noted(threads.pending(), reply)),
{
    let next = search.noted(threads.pending(), reply);
    if threads.stage is Ids {
        assert(threads.handles =~= next.opened);
        assert(next.others() =~= next.asked_for);
    }
    if let Reply::Thread(Some(entry)) = reply {
        assert(next.listed.drop_last() =~= search.listed);
        assert(next.listed.last() == entry);
    }
}

proof fn lemma_search_run(
    threads: Threads,
    search: Search,
    world: World,
    replies: Seq<Reply<Seq<u8>>>,
)
    requires
        threads.valid(),
        threads.has_searched(search),
        system::possible(threads, threads.world(world), replies),
    ensures
        system::run(threads, threads.world(world), replies).0.has_searched(
            searched(threads, search, replies),
        ),
    decreases replies.len(),
{
    if replies.len() > 0 {
        let reply = replies.first();
        law_threads_are_accounted_for(threads, world, reply);
        lemma_search_step(threads, search, reply);
        lemma_search_run(
            threads.resumed(reply),
            search.noted(threads.pending(), reply),
            world,
            replies.drop_first(),
        );
    }
}

/// Once the threads are suspended, there was no thread left to list, every thread that was
/// listed for the process, other than the current one, and no other, was to be opened; and the
/// threads that are held are those that could be. Nothing known before matters. Threads are
/// listed from the snapshot that was taken, which is closed in the end.
pub proof fn law_every_other_thread_is_asked_for(
    search: Search,
    world: World,
    replies: Seq<Reply<Seq<u8>>>,
)
    requires
        system::possible(Threads::start(), world, replies),
    ensures
        ({
            let held = system::run(Threads::start(), world, replies).0;
            let known = searched(Threads::start(), search, replies);
            &&& held.stage is Held ==> known.is_complete(held.handles)
            &&& match held.pending() {
                Some(Request::FirstThread { snapshot }) => known.snapshot == Some(snapshot)
                    && known.listed.len() == 0 && !known.ended,
                Some(Request::NextThread { snapshot }) => known.snapshot == Some(snapshot)
                    && known.listed.len() > 0 && !known.ended,
                Some(Request::CloseHandle { handle }) => known.snapshot == Some(handle)
                    && known.ended,
                Some(Request::OpenThread { thread, .. }) => {
                    &&& known.listed.last().thread == thread
                    &&& thread != known.thread
                    &&& known.listed.last().owner == known.process
                },
                _ => true,
            }
        }),
{
    broadcast use vstd::seq_lib::group_to_multiset_ensures;
    broadcast use vstd::multiset::group_multiset_axioms;

    let start = Threads::start();
    assert(start.world(world).suspended =~= world.suspended);
    assert(start.world(world).open =~= world.open);
    assert(start.world(world) =~= world);
    lemma_search_run(start, search, world, replies);
    lemma_listing_run(start, search, world, replies);
}

impl Threads {
    /// Whether as many threads were listed as must have been for the threads to be at this
    /// stage of being suspended.
    spec fn has_listed(self, search: Search) -> bool {
        match self.stage {
            ThreadStage::Ids | ThreadStage::CloseSnapshot { .. } | ThreadStage::Failed
            | ThreadStage::Held => true,
            ThreadStage::Snapshot { .. } | ThreadStage::First { .. } => !search.ended
                && search.listed.len() == 0,
            ThreadStage::Suspend { .. } | ThreadStage::Next { .. } => !search.ended
                && search.listed.len() > 0,
            ThreadStage::Open { candidate, .. } => {
                &&& !search.ended
                &&& search.listed.len() > 0
                &&& search.listed.last().thread == candidate
                &&& candidate != search.thread
                &&& search.listed.last().owner == search.process
            },
            _ => false,
        }
    }
}

proof fn lemma_listing_run(
    threads: Threads,
    search: Search,
    world: World,
    replies: Seq<Reply<Seq<u8>>>,
)
    requires
        threads.valid(),
        threads.has_searched(search),
        threads.has_listed(search),
        system::possible(threads, threads.world(world), replies),
    ensures
        system::run(threads, threads.world(world), replies).0.has_listed(
            searched(threads, search, replies),
        ),
    decreases replies.len(),
{
    if replies.len() > 0 {
        let reply = replies.first();
        law_threads_are_accounted_for(threads, world, reply);
        lemma_search_step(threads, search, reply);
        lemma_listing_run(
            threads.resumed(reply),
            search.noted(threads.pending(), reply),
            world,
            replies.drop_first(),
        );
    }
}

/// The other threads of a process are those that are listed as its own, but for the one that
/// asks, in the order in which they are listed.
pub proof fn law_others_are_listed_as_the_process_own(
    entries: Seq<ThreadEntry>,
    process: u32,
    thread: u32,
)
    ensures
        others(entries, process, thread) == entries.filter(
            |entry: ThreadEntry| entry.owner == process && entry.thread != thread,
        ).map_values(|entry: ThreadEntry| entry.thread),
    decreases entries.len(),
{
    reveal(Seq::filter);
    let is_other = |entry: ThreadEntry| entry.owner == process && entry.thread != thread;
    let name = |entry: ThreadEntry| entry.thread;
    if entries.len() == 0 {
        assert(entries.filter(is_other).map_values(name) =~= Seq::empty());
    } else {
        let front = entries.drop_last();
        law_others_are_listed_as_the_process_own(front, process, thread);
        if is_other(entries.last()) {
            assert(entries.filter(is_other) == front.filter(is_other).push(entries.last()));
            assert(entries.filter(is_other).map_values(name) =~= front.filter(is_other).map_values(
                name,
            ).push(entries.last().thread));
        } else {
            assert(entries.filter(is_other) == front.filter(is_other));
        }
    }
}

/// A thread is in a range exactly where its instruction pointer is known, not below the start
/// and below the end.
pub proof fn law_threads_are_where_their_instruction_pointer_is<D>(
    reply: Reply<D>,
    start: u32,
    end: u32,
)
    ensures
        places_within(reply, start, end) <==> (reply is Context && reply->Context_0 is Some
            && reply->Context_0->0.Eip >= start && reply->Context_0->0.Eip < end),
{
}

/// A handle is used only while it is open, a thread is asked where it is only while it is
/// suspended, and only a suspended thread is resumed. The threads that are suspended, and the
/// handles that are open, are those of before and, at the most, one for each thread that was
/// opened, and the snapshot.
pub proof fn law_handles_are_used_while_they_are_open(
    threads: Threads,
    world: World,
    replies: Seq<Reply<Seq<u8>>>,
)
    requires
        threads.valid(),
        system::possible(threads, threads.world(world), replies),
    ensures
        ({
            let (later, now) = system::run(threads, threads.world(world), replies);
            match later.pending() {
                Some(Request::FirstThread { snapshot }) => now.open.count(snapshot)
                    > world.open.count(snapshot),
                Some(Request::NextThread { snapshot }) => now.open.count(snapshot)
                    > world.open.count(snapshot),
                Some(Request::SuspendThread { handle }) => now.open.count(handle)
                    > world.open.count(handle) && now.open.count(handle) - world.open.count(handle)
                    > now.suspended.count(handle) - world.suspended.count(handle),
                Some(Request::ThreadContext { handle, .. }) => now.open.count(handle)
                    > world.open.count(handle) && now.suspended.count(handle)
                    > world.suspended.count(handle),
                Some(Request::ResumeThread { handle }) => now.open.count(handle)
                    > world.open.count(handle) && now.suspended.count(handle)
                    > world.suspended.count(handle),
                Some(Request::CloseHandle { handle }) => now.open.count(handle)
                    > world.open.count(handle) && now.open.count(handle) - world.open.count(handle)
                    > now.suspended.count(handle) - world.suspended.count(handle),
                _ => true,
            }
        }),
{
    broadcast use vstd::seq_lib::group_to_multiset_ensures;
    broadcast use vstd::multiset::group_multiset_axioms;

    let (later, now) = system::run(threads, threads.world(world), replies);
    law_released_threads_leave_no_trace(threads, world, replies);
    let handles = later.handles;
    match later.stage {
        ThreadStage::First { snapshot, .. } | ThreadStage::Next { snapshot, .. }
        | ThreadStage::CloseSnapshot { snapshot, .. } => {
            assert(later.open().to_multiset() =~= handles.to_multiset().insert(snapshot));
        },
        ThreadStage::Suspend { handle, snapshot, .. } => {
            let front = handles.drop_last();
            assert(front.push(handle) =~= handles);
            assert(handles.to_multiset() =~= front.to_multiset().insert(handle));
            assert(later.open().to_multiset() =~= handles.to_multiset().insert(snapshot));
        },
        ThreadStage::Check { index, .. } => {
            assert(handles.contains(handles[index as int]));
        },
        ThreadStage::Resume { index } => {
            let rest = handles.skip(index as int);
            assert(rest[0] == handles[index as int]);
            assert(rest.contains(rest[0]));
        },
        ThreadStage::CloseThread { index } => {
            let rest = handles.skip(index as int);
            assert(rest[0] == handles[index as int]);
            assert(rest.remove(0) =~= handles.skip(index + 1));
            assert(rest.to_multiset() =~= rest.remove(0).to_multiset().insert(rest[0]));
        },
        _ => {},
    }
}

/// Whether one of the replies places a thread in the range from `start` up to `end`.
pub open spec fn one_places_within(replies: Seq<Reply<Seq<u8>>>, start: u32, end: u32) -> bool {
    exists|i: int| 0 <= i < replies.len() && places_within(#[trigger] replies[i], start, end)
}

/// What the threads were asked and said about where they are, each by its handle, since
/// they were last looked for; `so_far` is what was known of that before the replies.
pub open spec fn said<P: Program>(
    program: P,
    so_far: Seq<(usize, Reply<Seq<u8>>)>,
    replies: Seq<Reply<Seq<u8>>>,
) -> Seq<(usize, Reply<Seq<u8>>)>
    decreases replies.len(),
{
    if replies.len() == 0 {
        so_far
    } else {
        let reply = replies.first();
        said(
            program.resumed(reply),
            noted(program.pending(), so_far, reply),
            replies.drop_first(),
        )
    }
}

/// What is known of where the threads are after one more reply.
pub open spec fn noted(
    request: Option<Request<Seq<u8>>>,
    so_far: Seq<(usize, Reply<Seq<u8>>)>,
    reply: Reply<Seq<u8>>,
) -> Seq<(usize, Reply<Seq<u8>>)> {
    match request {
        Some(Request::ThreadContext { handle, .. }) => so_far.push((handle, reply)),
        Some(Request::Snapshot { .. }) => Seq::empty(),
        _ => so_far,
    }
}

/// Whether the first `count` of the threads were asked, in order, and none of them said
/// that it is in the range from `start` up to `end`.
pub open spec fn are_elsewhere(
    said: Seq<(usize, Reply<Seq<u8>>)>,
    handles: Seq<usize>,
    count: int,
    start: u32,
    end: u32,
) -> bool {
    &&& said.len() == count
    &&& forall|i: int|
        0 <= i < count ==> (#[trigger] said[i]).0 == handles[i] && !places_within(
            said[i].1,
            start,
            end,
        )
}

/// Whether one of the threads said that it is in the range from `start` up to `end`.
pub open spec fn one_is_there(said: Seq<(usize, Reply<Seq<u8>>)>, start: u32, end: u32) -> bool {
    exists|i: int|
        0 <= i < said.len() && {
            &&& (#[trigger] said[i]).1 matches Reply::Context(Some(context))
            &&& context.Eip >= start
            &&& context.Eip < end
        }
}

/// Asking the held threads where they are finds one in the range exactly where one of
/// them says that it is there; and where none is found, every one of them was asked.
pub proof fn law_check_finds_a_thread_in_the_range(
    threads: Threads,
    start: u32,
    end: u32,
    world: World,
    replies: Seq<Reply<Seq<u8>>>,
)
    requires
        threads.handles.len() <= usize::MAX,
        system::possible(threads.checking(start, end), world, replies),
    ensures
        system::run(threads.checking(start, end), world, replies).0.stage matches
            ThreadStage::Checked { hit } ==> {
            &&& hit == one_places_within(replies, start, end)
            &&& !hit ==> replies.len() == threads.handles.len()
        },
{
    if threads.handles.len() > 0 {
        lemma_check_from(threads.checking(start, end), start, end, 0, world, replies);
    }
}

proof fn lemma_check_from(
    threads: Threads,
    start: u32,
    end: u32,
    index: usize,
    world: World,
    replies: Seq<Reply<Seq<u8>>>,
)
    requires
        index < threads.handles.len() <= usize::MAX,
        threads.stage == (ThreadStage::Check { start, end, index }),
        system::possible(threads, world, replies),
    ensures
        system::run(threads, world, replies).0.stage matches ThreadStage::Checked { hit } ==> {
            &&& hit == one_places_within(replies, start, end)
            &&& !hit ==> replies.len() == threads.handles.len() - index
        },
    decreases replies.len(),
{
    if replies.len() > 0 {
        let reply = replies.first();
        let rest = replies.drop_first();
        let next = threads.resumed(reply);
        let after = world.after(threads.pending()->0, reply);
        assert(replies[0] == reply);
        if next.stage is Check {
            lemma_check_from(next, start, end, (index + 1) as usize, after, rest);
            if one_places_within(rest, start, end) {
                let i = choose|i: int|
                    0 <= i < rest.len() && places_within(#[trigger] rest[i], start, end);
                assert(rest[i] == replies[i + 1]);
            }
            if one_places_within(replies, start, end) {
                let i = choose|i: int|
                    0 <= i < replies.len() && places_within(#[trigger] replies[i], start, end);
                assert(replies[i] == rest[i - 1]);
            }
        } else {
            assert(system::possible(next, after, rest));
            assert(rest.len() == 0);
        }
    }
}

} // verus!
