//! What the library asks of the operating system, one request at a time, and a model
//! of a process in which such requests are carried out.

use vstd::multiset::Multiset;
use vstd::prelude::*;

use crate::kernel::CONTEXT_X86;
use crate::word;

verus! {

/// Protection of pages that can be read, written and executed.
pub const PAGE_EXECUTE_READWRITE: u32 = 0x40;

/// Allocates with memory behind the pages.
pub const MEM_COMMIT: u32 = 0x1000;

/// Allocates a range of addresses.
pub const MEM_RESERVE: u32 = 0x2000;

/// Gives an allocation back whole.
pub const MEM_RELEASE: u32 = 0x8000;

/// Takes the threads of the system into a snapshot.
pub const TH32CS_SNAPTHREAD: u32 = 0x4;

/// Allows a thread to be suspended and resumed.
pub const THREAD_SUSPEND_RESUME: u32 = 0x2;

/// Allows the registers of a thread to be read.
pub const THREAD_GET_CONTEXT: u32 = 0x8;

/// Allows the registers of a thread to be written.
pub const THREAD_SET_CONTEXT: u32 = 0x10;

/// Asks for the control registers of a 32-bit thread.
pub const CONTEXT_CONTROL_X86: u32 = 0x1_0001;

/// A thread in a snapshot of the system.
#[derive(Debug, Clone, Copy, PartialEq, Eq)]
pub struct ThreadEntry {
    /// The process that the thread belongs to.
    pub owner: u32,
    /// The thread itself.
    pub thread: u32,
}

/// A request to the operating system; `D` is what is read from or written to memory.
#[derive(Debug, PartialEq, Eq)]
pub enum Request<D> {
    /// The identifiers of the current process and thread.
    CurrentIds,
    /// Takes a snapshot of the system.
    Snapshot { flags: u32, process: u32 },
    /// The first thread in a snapshot.
    FirstThread { snapshot: usize },
    /// The next thread in a snapshot.
    NextThread { snapshot: usize },
    /// Opens a thread.
    OpenThread { access: u32, inherit: bool, thread: u32 },
    /// Suspends an open thread.
    SuspendThread { handle: usize },
    /// Resumes an open thread.
    ResumeThread { handle: usize },
    /// Closes a handle.
    CloseHandle { handle: usize },
    /// The registers of an open thread.
    ThreadContext { handle: usize, flags: u32 },
    /// Lets time pass.
    Sleep { millis: u64 },
    /// Reads `len` bytes.
    Read { address: u32, len: usize },
    /// Writes data.
    Write { address: u32, data: D },
    /// Changes the protection of `len` bytes.
    Protect { address: u32, len: usize, protection: u32 },
    /// Makes the processor see what was written to `len` bytes of code.
    Flush { address: u32, len: usize },
    /// Allocates `len` bytes anywhere.
    Allocate { len: usize, kind: u32, protection: u32 },
    /// Gives memory back.
    Free { address: u32, len: usize, kind: u32 },
}

/// What came of a request.
pub enum Reply<D> {
    /// Nothing that matters.
    Done,
    /// The identifiers of the current process and thread.
    Ids { process: u32, thread: u32 },
    /// A handle; `None` where the request failed.
    Handle(Option<usize>),
    /// A thread of a snapshot; `None` where there is none left.
    Thread(Option<ThreadEntry>),
    /// The registers of a thread; `None` where they cannot be had.
    Context(Option<CONTEXT_X86>),
    /// What was read.
    Data(D),
    /// The protection that was replaced, or the code of the error.
    Protection(Result<u32, u32>),
    /// Whether the request succeeded, and the code of the error where it did not.
    Status(Result<(), u32>),
    /// Address of allocated memory; `None` where there is none.
    Address(Option<u32>),
}

impl View for Request<Vec<u8>> {
    type V = Request<Seq<u8>>;

    open spec fn view(&self) -> Request<Seq<u8>> {
        match *self {
            Request::CurrentIds => Request::CurrentIds,
            Request::Snapshot { flags, process } => Request::Snapshot { flags, process },
            Request::FirstThread { snapshot } => Request::FirstThread { snapshot },
            Request::NextThread { snapshot } => Request::NextThread { snapshot },
            Request::OpenThread { access, inherit, thread } => Request::OpenThread {
                access,
                inherit,
                thread,
            },
            Request::SuspendThread { handle } => Request::SuspendThread { handle },
            Request::ResumeThread { handle } => Request::ResumeThread { handle },
            Request::CloseHandle { handle } => Request::CloseHandle { handle },
            Request::ThreadContext { handle, flags } => Request::ThreadContext { handle, flags },
            Request::Sleep { millis } => Request::Sleep { millis },
            Request::Read { address, len } => Request::Read { address, len },
            Request::Write { address, data } => Request::Write { address, data: data@ },
            Request::Protect { address, len, protection } => Request::Protect {
                address,
                len,
                protection,
            },
            Request::Flush { address, len } => Request::Flush { address, len },
            Request::Allocate { len, kind, protection } => Request::Allocate {
                len,
                kind,
                protection,
            },
            Request::Free { address, len, kind } => Request::Free { address, len, kind },
        }
    }
}

impl View for Reply<Vec<u8>> {
    type V = Reply<Seq<u8>>;

    open spec fn view(&self) -> Reply<Seq<u8>> {
        match *self {
            Reply::Done => Reply::Done,
            Reply::Ids { process, thread } => Reply::Ids { process, thread },
            Reply::Handle(handle) => Reply::Handle(handle),
            Reply::Thread(entry) => Reply::Thread(entry),
            Reply::Context(context) => Reply::Context(context),
            Reply::Data(data) => Reply::Data(data@),
            Reply::Protection(old) => Reply::Protection(old),
            Reply::Status(status) => Reply::Status(status),
            Reply::Address(address) => Reply::Address(address),
        }
    }
}

/// The model of a request asks for the same, of the same address, thread or handle, and with
/// the same data.
pub proof fn law_models_ask_for_the_same(request: Request<Vec<u8>>)
    ensures
        request is CurrentIds <==> request@ is CurrentIds,
        request matches Request::Snapshot { flags, process } ==> request@ == (
        Request::<Seq<u8>>::Snapshot { flags, process }),
        request matches Request::FirstThread { snapshot } ==> request@ == (
        Request::<Seq<u8>>::FirstThread { snapshot }),
        request matches Request::NextThread { snapshot } ==> request@ == (
        Request::<Seq<u8>>::NextThread { snapshot }),
        request matches Request::OpenThread { access, inherit, thread } ==> request@ == (
        Request::<Seq<u8>>::OpenThread { access, inherit, thread }),
        request matches Request::SuspendThread { handle } ==> request@ == (
        Request::<Seq<u8>>::SuspendThread { handle }),
        request matches Request::ResumeThread { handle } ==> request@ == (
        Request::<Seq<u8>>::ResumeThread { handle }),
        request matches Request::CloseHandle { handle } ==> request@ == (
        Request::<Seq<u8>>::CloseHandle { handle }),
        request matches Request::ThreadContext { handle, flags } ==> request@ == (
        Request::<Seq<u8>>::ThreadContext { handle, flags }),
        request matches Request::Sleep { millis } ==> request@ == (Request::<Seq<u8>>::Sleep {
            millis,
        }),
        request matches Request::Read { address, len } ==> request@ == (Request::<Seq<u8>>::Read {
            address,
            len,
        }),
        request matches Request::Write { address, data } ==> request@ == (Request::Write {
            address,
            data: data@,
        }),
        request matches Request::Protect { address, len, protection } ==> request@ == (
        Request::<Seq<u8>>::Protect { address, len, protection }),
        request matches Request::Flush { address, len } ==> request@ == (
        Request::<Seq<u8>>::Flush { address, len }),
        request matches Request::Allocate { len, kind, protection } ==> request@ == (
        Request::<Seq<u8>>::Allocate { len, kind, protection }),
        request matches Request::Free { address, len, kind } ==> request@ == (
        Request::<Seq<u8>>::Free { address, len, kind }),
{
}

/// The model of a reply tells the same.
pub proof fn law_models_tell_the_same(reply: Reply<Vec<u8>>)
    ensures
        reply is Done <==> reply@ is Done,
        reply matches Reply::Ids { process, thread } ==> reply@ == (Reply::<Seq<u8>>::Ids {
            process,
            thread,
        }),
        reply matches Reply::Handle(handle) ==> reply@ == Reply::<Seq<u8>>::Handle(handle),
        reply matches Reply::Thread(entry) ==> reply@ == Reply::<Seq<u8>>::Thread(entry),
        reply matches Reply::Context(context) ==> reply@ == Reply::<Seq<u8>>::Context(context),
        reply matches Reply::Data(data) ==> reply@ == Reply::Data(data@),
        reply matches Reply::Protection(old) ==> reply@ == Reply::<Seq<u8>>::Protection(old),
        reply matches Reply::Status(status) ==> reply@ == Reply::<Seq<u8>>::Status(status),
        reply matches Reply::Address(address) ==> reply@ == Reply::<Seq<u8>>::Address(address),
{
}

/// Whether a reply is of the kind that a request asks for.
pub open spec fn fits<D>(request: Request<D>, reply: Reply<D>) -> bool {
    match request {
        Request::CurrentIds => reply is Ids,
        Request::Snapshot { .. } => reply is Handle,
        Request::FirstThread { .. } => reply is Thread,
        Request::NextThread { .. } => reply is Thread,
        Request::OpenThread { .. } => reply is Handle,
        Request::SuspendThread { .. } => reply is Done,
        Request::ResumeThread { .. } => reply is Done,
        Request::CloseHandle { .. } => reply is Done,
        Request::ThreadContext { .. } => reply is Context,
        Request::Sleep { .. } => reply is Done,
        Request::Read { .. } => reply is Data,
        Request::Write { .. } => reply is Done,
        Request::Protect { .. } => reply is Protection,
        Request::Flush { .. } => reply is Status,
        Request::Allocate { .. } => reply is Address,
        Request::Free { .. } => reply is Done,
    }
}

/// Whether a reply answers a request: it is of the right kind, and what was read has
/// the length that was asked for.
pub open spec fn answers(request: Request<Seq<u8>>, reply: Reply<Seq<u8>>) -> bool {
    &&& fits(request, reply)
    &&& request matches Request::Read { len, .. } ==> reply->Data_0.len() == len
}

/// Whatever the system may have to say to a request answers it, be it good or bad: the
/// identifiers to the question for them, a handle or none to opening something, and so on. All
/// that is asked of bytes that were read is that they are as many as were asked for.
pub proof fn law_any_reply_of_the_right_kind_answers(
    request: Request<Seq<u8>>,
    reply: Reply<Seq<u8>>,
)
    ensures
        answers(request, reply) <==> match (request, reply) {
            (Request::CurrentIds, Reply::Ids { .. }) => true,
            (Request::Snapshot { .. }, Reply::Handle(_)) => true,
            (Request::FirstThread { .. }, Reply::Thread(_)) => true,
            (Request::NextThread { .. }, Reply::Thread(_)) => true,
            (Request::OpenThread { .. }, Reply::Handle(_)) => true,
            (Request::SuspendThread { .. }, Reply::Done) => true,
            (Request::ResumeThread { .. }, Reply::Done) => true,
            (Request::CloseHandle { .. }, Reply::Done) => true,
            (Request::ThreadContext { .. }, Reply::Context(_)) => true,
            (Request::Sleep { .. }, Reply::Done) => true,
            (Request::Read { len, .. }, Reply::Data(data)) => data.len() == len,
            (Request::Write { .. }, Reply::Done) => true,
            (Request::Protect { .. }, Reply::Protection(_)) => true,
            (Request::Flush { .. }, Reply::Status(_)) => true,
            (Request::Allocate { .. }, Reply::Address(_)) => true,
            (Request::Free { .. }, Reply::Done) => true,
            _ => false,
        },
        request is Read || (fits(request, reply) <==> answers(request, reply)),
        request is Read ==> (fits(request, reply) <==> reply is Data),
{
}

/// The `len` bytes of memory from `address` on.
pub open spec fn load(memory: spec_fn(u32) -> u8, address: u32, len: nat) -> Seq<u8> {
    Seq::new(len, |i: int| memory(word::wrap(address + i)))
}

/// How far `at` lies behind `address`, going up and around.
pub open spec fn distance(address: u32, at: u32) -> int {
    (at - address) % 0x1_0000_0000
}

/// Whether `at` is one of the `len` addresses from `address` on.
pub open spec fn within(at: u32, address: u32, len: nat) -> bool {
    distance(address, at) < len
}

/// Whether two ranges of addresses have none in common.
pub open spec fn apart(address: u32, len: nat, other: u32, other_len: nat) -> bool {
    forall|at: u32| !(#[trigger] within(at, address, len) && within(at, other, other_len))
}

/// Memory after `data` was written at `address`.
pub open spec fn store(memory: spec_fn(u32) -> u8, address: u32, data: Seq<u8>) -> spec_fn(
    u32,
) -> u8 {
    |at: u32|
        if within(at, address, data.len()) {
            data[distance(address, at)]
        } else {
            memory(at)
        }
}

/// What was written reads back.
pub proof fn law_written_data_reads_back(memory: spec_fn(u32) -> u8, address: u32, data: Seq<u8>)
    requires
        data.len() <= 0x1_0000_0000,
    ensures
        load(store(memory, address, data), address, data.len()) == data,
{
    assert forall|i: int| 0 <= i < data.len() implies load(
        store(memory, address, data),
        address,
        data.len(),
    )[i] == data[i] by {
        assert(distance(address, word::wrap(address + i)) == i);
    }
    assert(load(store(memory, address, data), address, data.len()) =~= data);
}

/// What was written does not show in a range that it has nothing in common with.
pub proof fn law_writing_leaves_other_ranges_alone(
    memory: spec_fn(u32) -> u8,
    address: u32,
    data: Seq<u8>,
    other: u32,
    len: nat,
)
    requires
        len <= 0x1_0000_0000,
        apart(address, data.len(), other, len),
    ensures
        load(store(memory, address, data), other, len) == load(memory, other, len),
{
    assert forall|i: int| 0 <= i < len implies load(store(memory, address, data), other, len)[i]
        == load(memory, other, len)[i] by {
        let at = word::wrap(other + i);
        assert(distance(other, at) == i);
        assert(within(at, other, len));
        assert(!within(at, address, data.len()));
    }
    assert(load(store(memory, address, data), other, len) =~= load(memory, other, len));
}

/// Writing back what a range held undoes what was written to it since.
pub proof fn law_writing_back_restores_memory(
    memory: spec_fn(u32) -> u8,
    address: u32,
    data: Seq<u8>,
)
    ensures
        store(store(memory, address, data), address, load(memory, address, data.len())) == memory,
{
    let back = store(store(memory, address, data), address, load(memory, address, data.len()));
    assert forall|at: u32| #[trigger] back(at) == memory(at) by {
        if within(at, address, data.len()) {
            assert(word::wrap(address + distance(address, at)) == at);
        }
    }
    assert(back =~= memory);
}

/// A process, as far as hooks are concerned.
#[verifier::ext_equal]
pub struct World {
    /// Its memory.
    pub memory: spec_fn(u32) -> u8,
    /// The protection of each range of addresses that is given one as a whole.
    pub protection: spec_fn((u32, nat)) -> u32,
    /// How many changes of protection, and flushes, were refused.
    pub refusals: nat,
    /// The addresses in use.
    pub mapped: spec_fn(u32) -> bool,
    /// The allocations that have not been given back, with their lengths.
    pub allocations: Map<u32, nat>,
    /// The open thread handles through which a thread was suspended and not resumed.
    pub suspended: Multiset<usize>,
    /// The open handles.
    pub open: Multiset<usize>,
}

impl World {
    /// Whether the process can answer a request with a reply: memory reads as it is,
    /// a change of protection reports what it replaces, allocated memory was not in
    /// use, and there are no more open handles than a machine word can number.
    pub open spec fn admits(self, request: Request<Seq<u8>>, reply: Reply<Seq<u8>>) -> bool {
        &&& fits(request, reply)
        &&& match request {
            Request::Read { address, len } => reply->Data_0 == load(
                self.memory,
                address,
                len as nat,
            ),
            Request::Snapshot { .. } | Request::OpenThread { .. } => reply->Handle_0 is Some
                ==> self.open.len() < usize::MAX,
            Request::Protect { address, len, .. } => reply->Protection_0 matches Ok(old) ==> old
                == (self.protection)((address, len as nat)),
            Request::Allocate { len, .. } => reply->Address_0 matches Some(address)
                ==> self.has_room_at(address, len as nat),
            _ => true,
        }
    }

    /// The process with another protection on a range.
    pub open spec fn protected(self, range: (u32, nat), protection: u32) -> World {
        World {
            protection: |other: (u32, nat)|
                if other == range {
                    protection
                } else {
                    (self.protection)(other)
                },
            ..self
        }
    }

    /// The process after a request was refused.
    pub open spec fn refused(self) -> World {
        World { refusals: self.refusals + 1, ..self }
    }

    /// Whether `len` bytes can be allocated at an address: none of them is in use.
    pub open spec fn has_room_at(self, address: u32, len: nat) -> bool {
        &&& address != 0
        &&& !self.allocations.dom().contains(address)
        &&& forall|at: u32| #[trigger] within(at, address, len) ==> !(self.mapped)(at)
    }

    /// The process after `len` bytes were allocated at an address.
    pub open spec fn allocated(self, address: u32, len: nat) -> World {
        World {
            mapped: |at: u32| within(at, address, len) || (self.mapped)(at),
            allocations: self.allocations.insert(address, len),
            ..self
        }
    }

    /// The process after the allocation at an address was given back.
    pub open spec fn freed(self, address: u32) -> World {
        World {
            mapped: |at: u32|
                (self.mapped)(at) && !(self.allocations.dom().contains(address) && within(
                    at,
                    address,
                    self.allocations[address],
                )),
            allocations: self.allocations.remove(address),
            ..self
        }
    }

    /// The process after a request was answered with a reply.
    pub open spec fn after(self, request: Request<Seq<u8>>, reply: Reply<Seq<u8>>) -> World {
        match request {
            Request::Snapshot { .. } | Request::OpenThread { .. } => match reply {
                Reply::Handle(Some(handle)) => World { open: self.open.insert(handle), ..self },
                _ => self,
            },
            Request::SuspendThread { handle } => World {
                suspended: self.suspended.insert(handle),
                ..self
            },
            Request::ResumeThread { handle } => World {
                suspended: self.suspended.remove(handle),
                ..self
            },
            Request::CloseHandle { handle } => World { open: self.open.remove(handle), ..self },
            Request::Write { address, data } => World {
                memory: store(self.memory, address, data),
                ..self
            },
            Request::Protect { address, len, protection } => match reply {
                Reply::Protection(Ok(_)) => self.protected((address, len as nat), protection),
                _ => self.refused(),
            },
            Request::Flush { .. } => match reply {
                Reply::Status(Ok(_)) => self,
                _ => self.refused(),
            },
            Request::Allocate { len, .. } => match reply {
                Reply::Address(Some(address)) => self.allocated(address, len as nat),
                _ => self,
            },
            Request::Free { address, .. } => self.freed(address),
            _ => self,
        }
    }
}

/// A sequence of requests in which each depends on the replies before it.
pub trait Program: Sized {
    /// The request that waits for a reply; `None` when the program has ended.
    spec fn pending(self) -> Option<Request<Seq<u8>>>;

    /// The program after a reply to the pending request.
    spec fn resumed(self, reply: Reply<Seq<u8>>) -> Self;
}

/// Whether a process can give these replies to a program, in this order.
pub open spec fn possible<P: Program>(program: P, world: World, replies: Seq<Reply<Seq<u8>>>) -> bool
    decreases replies.len(),
{
    replies.len() == 0 || match program.pending() {
        Some(request) => {
            let reply = replies.first();
            &&& world.admits(request, reply)
            &&& possible(
                program.resumed(reply),
                world.after(request, reply),
                replies.drop_first(),
            )
        },
        None => false,
    }
}

/// The program and the process after these replies.
pub open spec fn run<P: Program>(program: P, world: World, replies: Seq<Reply<Seq<u8>>>) -> (
    P,
    World,
)
    decreases replies.len(),
{
    if replies.len() == 0 {
        (program, world)
    } else {
        match program.pending() {
            Some(request) => {
                let reply = replies.first();
                run(program.resumed(reply), world.after(request, reply), replies.drop_first())
            },
            None => (program, world),
        }
    }
}

/// The requests of a program that were answered, each with its reply; `so_far` are those
/// before these replies.
pub open spec fn exchanged<P: Program>(
    program: P,
    so_far: Seq<(Request<Seq<u8>>, Reply<Seq<u8>>)>,
    replies: Seq<Reply<Seq<u8>>>,
) -> Seq<(Request<Seq<u8>>, Reply<Seq<u8>>)>
    decreases replies.len(),
{
    if replies.len() == 0 {
        so_far
    } else {
        match program.pending() {
            Some(request) => exchanged(
                program.resumed(replies.first()),
                so_far.push((request, replies.first())),
                replies.drop_first(),
            ),
            None => so_far,
        }
    }
}

} // verus!
