//! Reading, writing and searching the memory of the process.

use vstd::prelude::*;
use vstd::string::StringSliceAdditionalSpecFns;

use crate::system;
use crate::system::{Program, Reply, Request, World};
use crate::word;

verus! {

/// How far an access to protected memory has come; `T` is what is read or written.
#[derive(Debug, PartialEq, Eq)]
pub enum AccessStage<T> {
    /// Makes the memory accessible.
    Unprotect,
    /// Reads or writes.
    Perform { old: u32 },
    /// Gives the memory its protection back.
    Reprotect { old: u32, read: Option<T> },
    /// The access has ended; `granted` says whether both changes of protection were.
    Done { granted: bool, read: Option<T> },
}

/// Reads or writes a value in memory that may be protected.
#[derive(Debug, PartialEq, Eq)]
pub struct Access<T> {
    pub address: u32,
    /// Size of the value.
    pub size: usize,
    /// The value to write; `None` to read.
    pub write: Option<T>,
    pub stage: AccessStage<T>,
}

impl<T> Access<T> {
    /// The same access at another stage.
    pub open spec fn at(self, stage: AccessStage<T>) -> Access<T> {
        Access { address: self.address, size: self.size, write: self.write, stage }
    }

    /// The start of an access.
    pub open spec fn start(address: u32, size: usize, write: Option<T>) -> Access<T> {
        Access { address, size, write, stage: AccessStage::Unprotect }
    }

    /// The request that waits for a reply.
    pub open spec fn pending(self) -> Option<Request<T>> {
        match self.stage {
            AccessStage::Unprotect => Some(
                Request::Protect {
                    address: self.address,
                    len: self.size,
                    protection: system::PAGE_EXECUTE_READWRITE,
                },
            ),
            AccessStage::Perform { .. } => match self.write {
                Some(data) => Some(Request::Write { address: self.address, data }),
                None => Some(Request::Read { address: self.address, len: self.size }),
            },
            AccessStage::Reprotect { old, .. } => Some(
                Request::Protect { address: self.address, len: self.size, protection: old },
            ),
            AccessStage::Done { .. } => None,
        }
    }

    /// The access after a reply to the pending request.
    pub open spec fn resumed(self, reply: Reply<T>) -> Access<T> {
        match self.stage {
            AccessStage::Unprotect => match reply {
                Reply::Protection(Ok(old)) => self.at(AccessStage::Perform { old }),
                _ => self.at(AccessStage::Done { granted: false, read: None }),
            },
            AccessStage::Perform { old } => self.at(
                AccessStage::Reprotect {
                    old,
                    read: match reply {
                        Reply::Data(value) => Some(value),
                        _ => None,
                    },
                },
            ),
            AccessStage::Reprotect { read, .. } => match reply {
                Reply::Protection(Ok(_)) => self.at(AccessStage::Done { granted: true, read }),
                _ => self.at(AccessStage::Done { granted: false, read: None }),
            },
            AccessStage::Done { .. } => self,
        }
    }

    /// The value that was read; `None` where nothing was, or not everything was granted.
    pub open spec fn outcome(self) -> Option<T> {
        match self.stage {
            AccessStage::Done { read, .. } => read,
            _ => None,
        }
    }

    /// Whether the access has ended with everything granted.
    pub open spec fn is_granted(self) -> bool {
        self.stage matches AccessStage::Done { granted, .. } && granted
    }
}

impl<T: Copy> Access<T> {
    /// The request that waits for a reply.
    pub fn request(&self) -> (request: Option<Request<T>>)
        ensures
            request == self.pending(),
    {
        match self.stage {
            AccessStage::Unprotect => Some(
                Request::Protect {
                    address: self.address,
                    len: self.size,
                    protection: system::PAGE_EXECUTE_READWRITE,
                },
            ),
            AccessStage::Perform { .. } => match self.write {
                Some(data) => Some(Request::Write { address: self.address, data }),
                None => Some(Request::Read { address: self.address, len: self.size }),
            },
            AccessStage::Reprotect { old, .. } => Some(
                Request::Protect { address: self.address, len: self.size, protection: old },
            ),
            AccessStage::Done { .. } => None,
        }
    }

    /// Goes on with the reply to the pending request.
    pub fn advance(&mut self, reply: Reply<T>)
        requires
            old(self).pending() matches Some(request) && system::fits(request, reply),
        ensures
            *final(self) == old(self).resumed(reply),
    {
        self.stage = match (&self.stage, reply) {
            (AccessStage::Unprotect, Reply::Protection(Ok(old))) => AccessStage::Perform { old },
            (AccessStage::Perform { old }, Reply::Data(value)) => AccessStage::Reprotect {
                old: *old,
                read: Some(value),
            },
            (AccessStage::Perform { old }, _) => AccessStage::Reprotect { old: *old, read: None },
            (AccessStage::Reprotect { read, .. }, Reply::Protection(Ok(_))) => AccessStage::Done {
                granted: true,
                read: *read,
            },
            _ => AccessStage::Done { granted: false, read: None },
        };
    }

    /// Whether the access has ended with everything granted.
    pub fn granted(&self) -> (granted: bool)
        ensures
            granted == self.is_granted(),
    {
        match self.stage {
            AccessStage::Done { granted, .. } => granted,
            _ => false,
        }
    }

    /// The value that was read.
    pub fn value(&self) -> (value: Option<T>)
        ensures
            value == self.outcome(),
    {
        match self.stage {
            AccessStage::Done { read, .. } => read,
            _ => None,
        }
    }
}

/// Begins to write a value to memory that may be protected. It is written where the
/// access is granted.
pub fn write_safe<T: Copy>(address: u32, value: T) -> (access: Access<T>)
    ensures
        access == Access::start(address, vstd::layout::size_of::<T>() as usize, Some(value)),
        access.size == vstd::layout::size_of::<T>(),
{
    Access {
        address,
        size: core::mem::size_of::<T>(),
        write: Some(value),
        stage: AccessStage::Unprotect,
    }
}

/// Begins to read a value from memory that may be protected. It is read where the access
/// is granted.
pub fn read_safe<T: Copy>(address: u32) -> (access: Access<T>)
    ensures
        access == Access::<T>::start(address, vstd::layout::size_of::<T>() as usize, None),
        access.size == vstd::layout::size_of::<T>(),
{
    Access {
        address,
        size: core::mem::size_of::<T>(),
        write: None,
        stage: AccessStage::Unprotect,
    }
}

/// A value in memory, and the protection that it is under.
pub struct Cell<T> {
    pub value: T,
    pub protection: u32,
}

impl<T> Cell<T> {
    /// Whether a request about the value can be answered with a reply.
    pub open spec fn admits(self, request: Request<T>, reply: Reply<T>) -> bool {
        &&& system::fits(request, reply)
        &&& match request {
            Request::Read { .. } => reply->Data_0 == self.value,
            Request::Protect { .. } => reply->Protection_0 matches Ok(old) ==> old
                == self.protection,
            _ => true,
        }
    }

    /// The value and its protection after a request was answered with a reply.
    pub open spec fn after(self, request: Request<T>, reply: Reply<T>) -> Cell<T> {
        match request {
            Request::Write { data, .. } => Cell { value: data, ..self },
            Request::Protect { protection, .. } if reply->Protection_0 is Ok => Cell {
                protection,
                ..self
            },
            _ => self,
        }
    }
}

/// Whether these replies can be given to an access, in this order.
pub open spec fn possible<T>(access: Access<T>, cell: Cell<T>, replies: Seq<Reply<T>>) -> bool
    decreases replies.len(),
{
    replies.len() == 0 || match access.pending() {
        Some(request) => {
            let reply = replies.first();
            &&& cell.admits(request, reply)
            &&& possible(access.resumed(reply), cell.after(request, reply), replies.drop_first())
        },
        None => false,
    }
}

/// The access and the value after these replies.
pub open spec fn run<T>(access: Access<T>, cell: Cell<T>, replies: Seq<Reply<T>>) -> (
    Access<T>,
    Cell<T>,
)
    decreases replies.len(),
{
    if replies.len() == 0 {
        (access, cell)
    } else {
        match access.pending() {
            Some(request) => run(
                access.resumed(replies.first()),
                cell.after(request, replies.first()),
                replies.drop_first(),
            ),
            None => (access, cell),
        }
    }
}

impl<T> Access<T> {
    /// What the value is at this stage, where it was `before` the first.
    pub open spec fn holds(self, before: Cell<T>, now: Cell<T>) -> bool {
        let value = match self.write {
            Some(value) => value,
            None => before.value,
        };
        let read = if self.write is Some {
            None
        } else {
            Some(before.value)
        };
        match self.stage {
            AccessStage::Unprotect => now == before,
            AccessStage::Perform { old } => {
                &&& now == Cell { value: before.value, protection: system::PAGE_EXECUTE_READWRITE }
                &&& old == before.protection
            },
            AccessStage::Reprotect { old, read: found } => {
                &&& now == Cell { value, protection: system::PAGE_EXECUTE_READWRITE }
                &&& old == before.protection
                &&& found == read
            },
            AccessStage::Done { granted, read: found } => if granted {
                now == Cell { value, protection: before.protection } && found == read
            } else {
                &&& now == before || now == Cell {
                    value,
                    protection: system::PAGE_EXECUTE_READWRITE,
                }
                &&& found is None
            },
        }
    }
}

/// An access that is granted has written the value to write, or read the value that is
/// there, and leaves the protection as it was. One that is not granted gives no value.
pub proof fn law_granted_access_leaves_the_protection<T>(
    access: Access<T>,
    before: Cell<T>,
    now: Cell<T>,
    replies: Seq<Reply<T>>,
)
    requires
        access.holds(before, now),
        possible(access, now, replies),
    ensures
        ({
            let (later, cell) = run(access, now, replies);
            later.holds(before, cell) && later.write == access.write
        }),
    decreases replies.len(),
{
    if replies.len() > 0 {
        law_granted_access_leaves_the_protection(
            access.resumed(replies.first()),
            before,
            now.after(access.pending()->0, replies.first()),
            replies.drop_first(),
        );
    }
}

/// What was written to memory that may be protected is what is read from it, wherever
/// both are granted; and the protection is in the end what it was.
pub proof fn law_written_value_reads_back<T>(
    address: u32,
    size: usize,
    value: T,
    before: Cell<T>,
    writing: Seq<Reply<T>>,
    reading: Seq<Reply<T>>,
)
    requires
        ({
            let (write, between) = run(Access::start(address, size, Some(value)), before, writing);
            &&& possible(Access::start(address, size, Some(value)), before, writing)
            &&& write.is_granted()
            &&& possible(Access::start(address, size, None), between, reading)
            &&& run(Access::start(address, size, None), between, reading).0.is_granted()
        }),
    ensures
        ({
            let (write, between) = run(Access::start(address, size, Some(value)), before, writing);
            let (read, now) = run(Access::start(address, size, None), between, reading);
            &&& read.outcome() == Some(value)
            &&& now == Cell { value, protection: before.protection }
        }),
{
    let start = Access::start(address, size, Some(value));
    let (write, between) = run(start, before, writing);
    law_granted_access_leaves_the_protection(start, before, before, writing);
    let again = Access::start(address, size, None);
    law_granted_access_leaves_the_protection(again, between, between, reading);
}

/// An access to the memory of a process. `bytes` is how a value lies in memory, and `value`
/// which value some bytes are.
#[verifier::reject_recursive_types(T)]
pub struct Carried<T> {
    pub access: Access<T>,
    pub bytes: spec_fn(T) -> Seq<u8>,
    pub value: spec_fn(Seq<u8>) -> T,
}

impl<T> Program for Carried<T> {
    open spec fn pending(self) -> Option<Request<Seq<u8>>> {
        match self.access.pending() {
            Some(Request::Protect { address, len, protection }) => Some(
                Request::Protect { address, len, protection },
            ),
            Some(Request::Write { address, data }) => Some(
                Request::Write { address, data: (self.bytes)(data) },
            ),
            Some(Request::Read { address, len }) => Some(Request::Read { address, len }),
            _ => None,
        }
    }

    open spec fn resumed(self, reply: Reply<Seq<u8>>) -> Carried<T> {
        let carried = match reply {
            Reply::Data(data) => Reply::Data((self.value)(data)),
            Reply::Protection(old) => Reply::Protection(old),
            _ => Reply::Done,
        };
        Carried { access: self.access.resumed(carried), ..self }
    }
}

impl<T> Carried<T> {
    /// What the process is where the access to `size` bytes at `address` has come this far,
    /// and it was `before` at the start.
    spec fn stands(
        self,
        address: u32,
        size: usize,
        write: Option<T>,
        before: World,
        now: World,
    ) -> bool {
        let range = (address, size as nat);
        let open = before.protected(range, 0x40);
        let there = system::load(before.memory, address, size as nat);
        let memory = match write {
            Some(value) => system::store(before.memory, address, (self.bytes)(value)),
            None => before.memory,
        };
        let found = if write is Some {
            None
        } else {
            Some((self.value)(there))
        };
        &&& self.access.address == address
        &&& self.access.size == size
        &&& self.access.write == write
        &&& match self.access.stage {
            AccessStage::Unprotect => now == before,
            AccessStage::Perform { old } => now == open && old == (before.protection)(range),
            AccessStage::Reprotect { old, read } => {
                &&& now == World { memory, ..open }
                &&& old == (before.protection)(range)
                &&& read == found
            },
            AccessStage::Done { granted: true, read } => now == World { memory, ..before } && read
                == found,
            AccessStage::Done { granted: false, read } => {
                &&& now == before.refused() || now == (World { memory, ..open }).refused()
                &&& read is None
            },
        }
    }

    /// How many replies are left to be waited for at most.
    spec fn left(self) -> nat {
        match self.access.stage {
            AccessStage::Unprotect => 3,
            AccessStage::Perform { .. } => 2,
            AccessStage::Reprotect { .. } => 1,
            AccessStage::Done { .. } => 0,
        }
    }
}

proof fn lemma_carried_run<T>(
    carried: Carried<T>,
    address: u32,
    size: usize,
    write: Option<T>,
    before: World,
    now: World,
    replies: Seq<Reply<Seq<u8>>>,
)
    requires
        carried.stands(address, size, write, before, now),
        system::possible(carried, now, replies),
    ensures
        ({
            let (later, world) = system::run(carried, now, replies);
            &&& later.stands(address, size, write, before, world)
            &&& later.bytes == carried.bytes
            &&& later.value == carried.value
            &&& replies.len() + later.left() <= carried.left()
        }),
    decreases replies.len(),
{
    if replies.len() > 0 {
        let reply = replies.first();
        let next = now.after(carried.pending()->0, reply);
        if carried.access.stage is Reprotect && reply->Protection_0 is Ok {
            assert(next.protection =~= before.protection);
        }
        assert(carried.resumed(reply).stands(address, size, write, before, next));
        lemma_carried_run(
            carried.resumed(reply),
            address,
            size,
            write,
            before,
            next,
            replies.drop_first(),
        );
    }
}

/// The bytes of memory from an address on, one by one.
proof fn lemma_bytes_from(memory: spec_fn(u32) -> u8, address: u32, size: usize)
    ensures
        Seq::new(size as nat, |i: int| memory(((address + i) % 0x1_0000_0000) as u32))
            == system::load(memory, address, size as nat),
{
    assert(Seq::new(size as nat, |i: int| memory(((address + i) % 0x1_0000_0000) as u32))
        =~= system::load(memory, address, size as nat));
}

/// A write that is granted changes the bytes from the very address that it was started with
/// on, which become those of the value, and not one other byte, nor any protection. It is
/// granted exactly where nothing is refused; where the first change of protection is refused,
/// memory is untouched. It takes three replies at most, and the bytes are writable while they
/// are written.
pub proof fn law_write_changes_the_bytes_at_its_address<T>(
    address: u32,
    size: usize,
    data: T,
    bytes: spec_fn(T) -> Seq<u8>,
    value: spec_fn(Seq<u8>) -> T,
    before: World,
    replies: Seq<Reply<Seq<u8>>>,
)
    requires
        system::possible(
            Carried { access: Access::start(address, size, Some(data)), bytes, value },
            before,
            replies,
        ),
    ensures
        ({
            let start = Carried { access: Access::start(address, size, Some(data)), bytes, value };
            let (later, now) = system::run(start, before, replies);
            &&& replies.len() <= 3
            &&& later.access.is_granted() ==> {
                &&& forall|at: u32| #[trigger]
                    (now.memory)(at) == {
                        let distance = (at - address) % 0x1_0000_0000;
                        if distance < bytes(data).len() {
                            bytes(data)[distance]
                        } else {
                            (before.memory)(at)
                        }
                    }
                &&& now == World { memory: now.memory, ..before }
                &&& later.access.outcome() is None
            }
            &&& later.pending() is None ==> later.access.is_granted() == (now.refusals
                == before.refusals)
            &&& later.pending() is None && replies.len() == 1 ==> now == before.refused()
            &&& (later.pending() matches Some(request) && request is Write) ==> (now.protection)(
                (address, size as nat),
            ) == 0x40
            &&& later.pending() matches Some(request) ==> !(request is Read)
        }),
{
    let start = Carried { access: Access::start(address, size, Some(data)), bytes, value };
    lemma_carried_run(start, address, size, Some(data), before, before, replies);
    if replies.len() == 1 {
        assert(replies.drop_first().len() == 0);
        assert(system::run(start, before, replies) == system::run(
            start.resumed(replies.first()),
            before.after(start.pending()->0, replies.first()),
            replies.drop_first(),
        ));
    }
}

/// A read that is granted gives the value of the bytes from the very address that it was
/// started with on, and leaves the process as it was. It is granted exactly where nothing is
/// refused, and gives no value otherwise. It takes three replies at most, and never writes.
pub proof fn law_read_gives_the_bytes_at_its_address<T>(
    address: u32,
    size: usize,
    bytes: spec_fn(T) -> Seq<u8>,
    value: spec_fn(Seq<u8>) -> T,
    before: World,
    replies: Seq<Reply<Seq<u8>>>,
)
    requires
        system::possible(
            Carried { access: Access::start(address, size, None), bytes, value },
            before,
            replies,
        ),
    ensures
        ({
            let start = Carried { access: Access::start(address, size, None), bytes, value };
            let (later, now) = system::run(start, before, replies);
            &&& replies.len() <= 3
            &&& later.access.is_granted() ==> {
                &&& later.access.outcome() == Some(
                    value(
                        Seq::new(
                            size as nat,
                            |i: int| (before.memory)(((address + i) % 0x1_0000_0000) as u32),
                        ),
                    ),
                )
                &&& now == before
            }
            &&& later.pending() is None ==> later.access.is_granted() == (now.refusals
                == before.refusals)
            &&& !later.access.is_granted() ==> later.access.outcome() is None
            &&& now.memory == before.memory
            &&& later.pending() is None && replies.len() == 1 ==> now == before.refused()
            &&& (later.pending() matches Some(request) && request is Read) ==> (now.protection)(
                (address, size as nat),
            ) == 0x40
        }),
{
    let start = Carried { access: Access::start(address, size, None), bytes, value };
    lemma_carried_run(start, address, size, None, before, before, replies);
    lemma_bytes_from(before.memory, address, size);
    if replies.len() == 1 {
        assert(replies.drop_first().len() == 0);
        assert(system::run(start, before, replies) == system::run(
            start.resumed(replies.first()),
            before.after(start.pending()->0, replies.first()),
            replies.drop_first(),
        ));
    }
}

/// What a granted write leaves in memory, a granted read of the same address gives back; a
/// granted read of a range that has nothing in common with what was written gives what it
/// would have given before.
pub proof fn law_write_shows_at_its_own_address_alone<T>(
    address: u32,
    data: T,
    other: u32,
    size: usize,
    bytes: spec_fn(T) -> Seq<u8>,
    value: spec_fn(Seq<u8>) -> T,
    before: World,
    writing: Seq<Reply<Seq<u8>>>,
    reading: Seq<Reply<Seq<u8>>>,
)
    requires
        size <= 0x1_0000_0000,
        bytes(data).len() == size,
        value(bytes(data)) == data,
        ({
            let write = Carried { access: Access::start(address, size, Some(data)), bytes, value };
            let (written, between) = system::run(write, before, writing);
            let read = Carried { access: Access::start(other, size, None), bytes, value };
            &&& system::possible(write, before, writing)
            &&& written.access.is_granted()
            &&& system::possible(read, between, reading)
            &&& system::run(read, between, reading).0.access.is_granted()
        }),
    ensures
        ({
            let write = Carried { access: Access::start(address, size, Some(data)), bytes, value };
            let between = system::run(write, before, writing).1;
            let read = Carried { access: Access::start(other, size, None), bytes, value };
            let found = system::run(read, between, reading).0.access.outcome();
            &&& other == address ==> found == Some(data)
            &&& system::apart(address, size as nat, other, size as nat) ==> found == Some(
                value(system::load(before.memory, other, size as nat)),
            )
        }),
{
    let write = Carried { access: Access::start(address, size, Some(data)), bytes, value };
    let between = system::run(write, before, writing).1;
    lemma_carried_run(write, address, size, Some(data), before, before, writing);
    let read = Carried { access: Access::start(other, size, None), bytes, value };
    lemma_carried_run(read, other, size, None, between, between, reading);
    assert(between.memory == system::store(before.memory, address, bytes(data)));
    if other == address {
        system::law_written_data_reads_back(before.memory, address, bytes(data));
    }
    if system::apart(address, size as nat, other, size as nat) {
        system::law_writing_leaves_other_ranges_alone(
            before.memory,
            address,
            bytes(data),
            other,
            size as nat,
        );
    }
}

/// What asks for a module of the process.
#[derive(Debug, PartialEq, Eq)]
pub enum ModuleRequest {
    /// The handle of the module with a name that ends in a zero byte; without a name,
    /// that of the program.
    Handle { name: Option<Vec<u8>> },
    /// Where a module is.
    Information { module: usize },
}

/// What came of asking.
#[derive(Debug, Clone, Copy, PartialEq, Eq)]
pub enum ModuleReply {
    /// The handle; `None` where there is no such module.
    Handle(Option<usize>),
    /// Base address and size in bytes; `None` where they cannot be had.
    Information(Option<(u32, u32)>),
}

/// How far asking has come.
#[derive(Debug, Clone, Copy, PartialEq, Eq)]
pub enum ModuleStage {
    Handle,
    Information { module: usize },
    Done { info: Option<(u32, u32)> },
}

/// Finds out where a module of the process is.
#[derive(Debug, PartialEq, Eq)]
pub struct ModuleQuery {
    /// The name, with a zero byte at the end; `None` for the program.
    pub name: Option<Vec<u8>>,
    pub stage: ModuleStage,
}

/// The bytes of a name as they are handed to the system.
pub open spec fn terminated(name: Seq<u8>) -> Seq<u8> {
    name.push(0)
}

/// Begins to find out where a module is: its base address and its size in bytes. Without
/// a name, the module is the program itself. There is none whose name holds a zero byte.
pub fn get_module_info(name: Option<&str>) -> (query: ModuleQuery)
    ensures
        match name {
            Some(name) => if name.spec_bytes().contains(0) {
                query.stage == ModuleStage::Done { info: None }
            } else {
                &&& query.stage == ModuleStage::Handle
                &&& query.name is Some
                &&& query.name->0@ == terminated(name.spec_bytes())
                &&& query.name->0@ == name.spec_bytes().push(0)
            },
            None => query.stage == ModuleStage::Handle && query.name is None,
        },
{
    match name {
        None => ModuleQuery { name: None, stage: ModuleStage::Handle },
        Some(name) => {
            let bytes: &[u8] = name.as_bytes();
            if holds_zero(bytes) {
                return ModuleQuery { name: None, stage: ModuleStage::Done { info: None } };
            }
            let mut terminated: Vec<u8> = vstd::slice::slice_to_vec(bytes);
            terminated.push(0);
            ModuleQuery { name: Some(terminated), stage: ModuleStage::Handle }
        },
    }
}

fn holds_zero(bytes: &[u8]) -> (found: bool)
    ensures
        found == bytes@.contains(0),
{
    let mut i: usize = 0;
    while i < bytes.len()
        invariant
            i <= bytes@.len(),
            forall|j: int| 0 <= j < i ==> bytes@[j] != 0,
        decreases bytes@.len() - i,
    {
        if bytes[i] == 0 {
            assert(bytes@[i as int] == 0);
            return true;
        }
        i += 1;
    }
    false
}

impl ModuleQuery {
    /// The request that waits for a reply.
    pub fn request(&self) -> (request: Option<ModuleRequest>)
        ensures
            match self.stage {
                ModuleStage::Handle => {
                    &&& request matches Some(ModuleRequest::Handle { name })
                    &&& name is Some == self.name is Some
                    &&& name is Some ==> name->0@ == self.name->0@
                },
                ModuleStage::Information { module } => request == Some(
                    ModuleRequest::Information { module },
                ),
                ModuleStage::Done { .. } => request is None,
            },
    {
        match self.stage {
            ModuleStage::Handle => {
                let name: Option<Vec<u8>> = match &self.name {
                    Some(name) => Some(vstd::slice::slice_to_vec(name)),
                    None => None,
                };
                Some(ModuleRequest::Handle { name })
            },
            ModuleStage::Information { module } => Some(ModuleRequest::Information { module }),
            ModuleStage::Done { .. } => None,
        }
    }

    /// Goes on with the reply to the pending request: a module that is not loaded, or
    /// about which nothing can be had, is nowhere.
    pub fn advance(&mut self, reply: ModuleReply)
        requires
            old(self).stage is Handle && reply is Handle || old(self).stage is Information
                && reply is Information,
        ensures
            final(self).name == old(self).name,
            final(self).stage == (match reply {
                ModuleReply::Handle(Some(module)) => ModuleStage::Information { module },
                ModuleReply::Handle(None) => ModuleStage::Done { info: None },
                ModuleReply::Information(info) => ModuleStage::Done { info },
            }),
    {
        self.stage = match reply {
            ModuleReply::Handle(Some(module)) => ModuleStage::Information { module },
            ModuleReply::Handle(None) => ModuleStage::Done { info: None },
            ModuleReply::Information(info) => ModuleStage::Done { info },
        };
    }
}

/// The mark in a mask for a byte that may be anything.
pub const WILDCARD: u8 = 0x3F;

/// Whether a pattern is found at an offset in memory: every byte that the mask does not
/// leave open is there.
pub open spec fn matches_at(
    memory: Seq<u8>,
    bytes: Seq<u8>,
    mask: Seq<u8>,
    at: int,
) -> bool {
    &&& 0 <= at < memory.len()
    &&& at + bytes.len() <= memory.len()
    &&& forall|j: int|
        0 <= j < bytes.len() ==> mask[j] == WILDCARD || memory[at + j] == #[trigger] bytes[j]
}

/// Whether an offset is the first at which a pattern is found.
pub open spec fn is_first_match(
    memory: Seq<u8>,
    bytes: Seq<u8>,
    mask: Seq<u8>,
    at: int,
) -> bool {
    &&& matches_at(memory, bytes, mask, at)
    &&& forall|before: int| before < at ==> !matches_at(memory, bytes, mask, before)
}

/// A pattern is found at an offset exactly where there is enough memory and each of its bytes
/// is there but those that the mask marks with `?`, which may be anything.
pub proof fn law_pattern_is_found_where_its_marked_bytes_are(
    memory: Seq<u8>,
    bytes: Seq<u8>,
    mask: Seq<u8>,
    at: int,
)
    requires
        bytes.len() == mask.len(),
    ensures
        matches_at(memory, bytes, mask, at) <==> {
            &&& 0 <= at < memory.len()
            &&& at + bytes.len() <= memory.len()
            &&& forall|j: int|
                0 <= j < mask.len() && mask[j] != 0x3F ==> #[trigger] memory[at + j] == bytes[j]
        },
{
    if matches_at(memory, bytes, mask, at) {
        assert forall|j: int| 0 <= j < mask.len() && mask[j] != 0x3F implies #[trigger] memory[at
            + j] == bytes[j] by {
            assert(bytes[j] == bytes[j]);
        }
    }
}

/// The first match is the only one that no other comes before, and there is one wherever
/// there is a match at all.
pub proof fn law_first_match_comes_before_every_other(
    memory: Seq<u8>,
    bytes: Seq<u8>,
    mask: Seq<u8>,
    at: int,
)
    requires
        matches_at(memory, bytes, mask, at),
    ensures
        exists|first: int| first <= at && #[trigger] is_first_match(memory, bytes, mask, first),
        forall|first: int| #[trigger] is_first_match(memory, bytes, mask, first) ==> first <= at,
    decreases at,
{
    if exists|before: int| before < at && matches_at(memory, bytes, mask, before) {
        let before = choose|before: int| before < at && matches_at(memory, bytes, mask, before);
        law_first_match_comes_before_every_other(memory, bytes, mask, before);
    } else {
        assert(is_first_match(memory, bytes, mask, at));
    }
}

/// Searches the memory of a module, which is loaded at `module_base`, for a pattern.
///
/// A byte of the pattern is looked for where the mask has anything but `?`, by convention
/// `x`; where it has `?`, any byte will do. Gives the address of the first match.
pub fn pattern_scan(module_base: u32, module: &[u8], bytes: &[u8], mask: &str) -> (found: Option<
    u32,
>)
    requires
        bytes@.len() == mask.spec_bytes().len(),
        bytes@.len() > 0 || module@.len() == 0,
    ensures
        match found {
            Some(address) => exists|at: int| #[trigger]
                is_first_match(module@, bytes@, mask.spec_bytes(), at) && address == word::wrap(
                    module_base + at,
                ),
            None => forall|at: int| !matches_at(module@, bytes@, mask.spec_bytes(), at),
        },
{
    let marks: &[u8] = mask.as_bytes();
    let mut at: usize = 0;
    while at < module.len() && bytes.len() <= module.len() - at
        invariant
            marks@ == mask.spec_bytes(),
            bytes@.len() == marks@.len(),
            at <= module@.len(),
            forall|before: int| before < at ==> !matches_at(module@, bytes@, marks@, before),
        decreases module@.len() - at,
    {
        if is_match(module, bytes, marks, at) {
            assert(is_first_match(module@, bytes@, marks@, at as int));
            return Some(word::offset(module_base, at));
        }
        at += 1;
    }
    None
}

fn is_match(module: &[u8], bytes: &[u8], marks: &[u8], at: usize) -> (matched: bool)
    requires
        bytes@.len() == marks@.len(),
        at < module@.len(),
        at + bytes@.len() <= module@.len(),
    ensures
        matched == matches_at(module@, bytes@, marks@, at as int),
{
    let end: usize = module.len();
    let mut j: usize = 0;
    while j < bytes.len()
        invariant
            j <= bytes@.len(),
            bytes@.len() == marks@.len(),
            end == module@.len(),
            at + bytes@.len() <= end,
            forall|k: int|
                0 <= k < j ==> marks@[k] == WILDCARD || module@[at + k] == #[trigger] bytes@[k],
        decreases bytes@.len() - j,
    {
        if marks[j] != WILDCARD && module[at + j] != bytes[j] {
            return false;
        }
        j += 1;
    }
    true
}

} // verus!
