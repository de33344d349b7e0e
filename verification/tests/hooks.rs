use std::collections::HashMap;

use unsafety_hook::kernel::{CONTEXT_X86, FLOATING_SAVE_AREA};
use unsafety_hook::system::{Reply, Request, ThreadEntry};
use unsafety_hook::word;
use unsafety_hook::x86::code;
use unsafety_hook::x86::install::Install;
use unsafety_hook::x86::registry::Removal;
use unsafety_hook::x86::remove::RemoveStage;
use unsafety_hook::x86::threads::{SuspendThreads, ThreadStage};
use unsafety_hook::x86::vtable::VtablePatch;
use unsafety_hook::x86::{HookDetails, HookList, UnsafetyHook, UnsafetyHookError};

const TARGET: u32 = 0x40_1000;
const DETOUR: u32 = 0x50_2000;
const PROCESS: u32 = 100;
const THREAD: u32 = 1;
const READ_EXECUTE: u32 = 0x20;

fn registers(eip: u32) -> CONTEXT_X86 {
    let floats = FLOATING_SAVE_AREA {
        ControlWord: 0,
        StatusWord: 0,
        TagWord: 0,
        ErrorOffset: 0,
        ErrorSelector: 0,
        DataOffset: 0,
        DataSelector: 0,
        RegisterArea: [0; 80],
        Cr0NpxState: 0,
    };
    CONTEXT_X86 {
        ContextFlags: 0x1_0001,
        Dr0: 0,
        Dr1: 0,
        Dr2: 0,
        Dr3: 0,
        Dr6: 0,
        Dr7: 0,
        FloatSave: floats,
        SegGs: 0,
        SegFs: 0,
        SegEs: 0,
        SegDs: 0,
        Edi: 0,
        Esi: 0,
        Ebx: 0,
        Edx: 0,
        Ecx: 0,
        Eax: 0,
        Ebp: 0,
        Eip: eip,
        SegCs: 0,
        EFlags: 0,
        Esp: 0,
        SegSs: 0,
        ExtendedRegisters: [0; 512],
    }
}

/// A process that carries requests out, and refuses what it is told to refuse.
struct Process {
    memory: HashMap<u32, u8>,
    protection: HashMap<(u32, usize), u32>,
    allocations: Vec<u32>,
    threads: Vec<ThreadEntry>,
    /// Where each thread is, attempt after attempt; the last place is where it stays.
    places: HashMap<u32, Vec<Option<u32>>>,
    listing: usize,
    open: Vec<usize>,
    suspended: Vec<usize>,
    sleeps: Vec<u64>,
    writes: Vec<(u32, usize, usize)>,
    no_snapshot: bool,
    no_memory: bool,
    closed_threads: Vec<u32>,
    refused_protections: Vec<usize>,
    refused_flushes: Vec<usize>,
    protections: usize,
    flushes: usize,
}

impl Process {
    fn new() -> Process {
        Process {
            memory: HashMap::new(),
            protection: HashMap::new(),
            allocations: Vec::new(),
            threads: vec![ThreadEntry { owner: PROCESS, thread: THREAD }],
            places: HashMap::new(),
            listing: 0,
            open: Vec::new(),
            suspended: Vec::new(),
            sleeps: Vec::new(),
            writes: Vec::new(),
            no_snapshot: false,
            no_memory: false,
            closed_threads: Vec::new(),
            refused_protections: Vec::new(),
            refused_flushes: Vec::new(),
            protections: 0,
            flushes: 0,
        }
    }

    fn with_code(start: &[u8]) -> Process {
        let mut process = Process::new();
        let mut bytes = start.to_vec();
        bytes.resize(64, 0xCC);
        process.put(TARGET, &bytes);
        process
    }

    fn put(&mut self, address: u32, bytes: &[u8]) {
        for (i, byte) in bytes.iter().enumerate() {
            self.memory.insert(address.wrapping_add(i as u32), *byte);
        }
    }

    fn get(&self, address: u32, len: usize) -> Vec<u8> {
        (0..len)
            .map(|i| *self.memory.get(&address.wrapping_add(i as u32)).unwrap_or(&0))
            .collect()
    }

    fn add_thread(&mut self, owner: u32, thread: u32, places: &[Option<u32>]) {
        self.threads.push(ThreadEntry { owner, thread });
        self.places.insert(thread, places.to_vec());
    }

    fn is_at_rest(&self) -> bool {
        self.open.is_empty() && self.suspended.is_empty()
    }

    fn next_thread(&mut self) -> Reply<Vec<u8>> {
        let entry = self.threads.get(self.listing).copied();
        self.listing += 1;
        Reply::Thread(entry)
    }

    fn perform(&mut self, request: Request<Vec<u8>>) -> Reply<Vec<u8>> {
        match request {
            Request::CurrentIds => Reply::Ids { process: PROCESS, thread: THREAD },
            Request::Snapshot { flags, process } => {
                assert_eq!((flags, process), (4, 0));
                if self.no_snapshot {
                    return Reply::Handle(None);
                }
                self.listing = 0;
                self.open.push(9000);
                Reply::Handle(Some(9000))
            }
            Request::FirstThread { snapshot } | Request::NextThread { snapshot } => {
                assert_eq!(snapshot, 9000);
                self.next_thread()
            }
            Request::OpenThread { access, inherit, thread } => {
                assert_eq!((access, inherit), (0x1A, false));
                if self.closed_threads.contains(&thread) {
                    return Reply::Handle(None);
                }
                self.open.push(thread as usize);
                Reply::Handle(Some(thread as usize))
            }
            Request::SuspendThread { handle } => {
                assert!(self.open.contains(&handle));
                self.suspended.push(handle);
                Reply::Done
            }
            Request::ResumeThread { handle } => {
                let at = self.suspended.iter().position(|h| *h == handle).unwrap();
                self.suspended.remove(at);
                Reply::Done
            }
            Request::CloseHandle { handle } => {
                let at = self.open.iter().position(|h| *h == handle).unwrap();
                self.open.remove(at);
                Reply::Done
            }
            Request::ThreadContext { handle, flags } => {
                assert_eq!(flags, 0x1_0001);
                assert!(self.suspended.contains(&handle));
                let places = self.places.get_mut(&(handle as u32)).unwrap();
                let place = if places.len() > 1 { places.remove(0) } else { places[0] };
                Reply::Context(place.map(registers))
            }
            Request::Sleep { millis } => {
                assert!(self.is_at_rest());
                self.sleeps.push(millis);
                Reply::Done
            }
            Request::Read { address, len } => Reply::Data(self.get(address, len)),
            Request::Write { address, data } => {
                self.writes.push((address, data.len(), self.suspended.len()));
                self.put(address, &data);
                Reply::Done
            }
            Request::Protect { address, len, protection } => {
                self.protections += 1;
                if self.refused_protections.contains(&self.protections) {
                    return Reply::Protection(Err(487));
                }
                let old = self.protection.insert((address, len), protection);
                Reply::Protection(Ok(old.unwrap_or(READ_EXECUTE)))
            }
            Request::Flush { .. } => {
                self.flushes += 1;
                if self.refused_flushes.contains(&self.flushes) {
                    return Reply::Status(Err(6));
                }
                Reply::Status(Ok(()))
            }
            Request::Allocate { len, kind, protection } => {
                assert_eq!((len, kind, protection), (1024, 0x3000, 0x40));
                if self.no_memory {
                    return Reply::Address(None);
                }
                let address = 0x70_0000 + 0x1_0000 * self.allocations.len() as u32;
                assert!(!self.allocations.contains(&address));
                self.allocations.push(address);
                Reply::Address(Some(address))
            }
            Request::Free { address, len, kind } => {
                assert_eq!((len, kind), (0, 0x8000));
                let at = self.allocations.iter().position(|a| *a == address).unwrap();
                self.allocations.remove(at);
                Reply::Done
            }
        }
    }

    fn install(&mut self, mut install: Install) -> Result<HookDetails, UnsafetyHookError> {
        while let Some(request) = install.request() {
            let reply = self.perform(request);
            install.advance(reply);
        }
        install.finish()
    }

    fn replace_entry(&mut self, mut patch: VtablePatch) -> Result<HookDetails, UnsafetyHookError> {
        while let Some(request) = patch.request() {
            let reply = self.perform(request);
            patch.advance(&reply);
        }
        patch.finish()
    }

    fn remove(&mut self, hook: HookDetails) -> (HookDetails, bool) {
        let mut removal = hook.remove();
        while let Some(request) = removal.request() {
            let reply = self.perform(request);
            removal.advance(&reply);
        }
        removal.finish()
    }

    fn remove_hooks(&mut self, mut removal: Removal) {
        while let Some(request) = removal.request() {
            let reply = self.perform(request);
            removal.advance(&reply);
        }
    }

    fn work_on(&mut self, threads: &mut SuspendThreads) {
        while let Some(request) = threads.request() {
            let reply = self.perform(request);
            threads.advance(&reply);
        }
    }
}

fn error_of(outcome: Result<HookDetails, UnsafetyHookError>) -> UnsafetyHookError {
    match outcome {
        Ok(_) => panic!("the hook was installed"),
        Err(error) => error,
    }
}

// push ebp; mov ebp, esp; sub esp, 10h
const PROLOGUE: [u8; 6] = [0x55, 0x8B, 0xEC, 0x83, 0xEC, 0x10];

#[test]
fn inline_hook_redirects_the_function() {
    let mut process = Process::with_code(&PROLOGUE);
    process.add_thread(PROCESS, 2, &[Some(0x41_0000)]);
    process.add_thread(PROCESS, 3, &[None]);
    process.add_thread(7, 4, &[Some(TARGET)]);
    let hook = process.install(HookDetails::create_hook(TARGET, DETOUR)).ok().unwrap();

    let patched = process.get(TARGET, 7);
    assert_eq!(patched[0], 0xE9);
    assert_eq!(code::follow_branch(&patched, TARGET), DETOUR);
    assert_eq!(patched[5], 0x90);
    assert_eq!(patched[6], 0xCC);

    assert_eq!(hook.target_addr, TARGET);
    assert_eq!(hook.original_addr(), 0x70_0000);
    assert_eq!(hook.orig_bytes, PROLOGUE.to_vec());
    assert!(hook.is_jmp);

    let gateway = process.get(0x70_0000, 11);
    assert_eq!(gateway[..6].to_vec(), PROLOGUE.to_vec());
    assert_eq!(gateway[6], 0xE9);
    assert_eq!(code::follow_branch(&gateway[6..], 0x70_0006), TARGET + 6);

    assert!(process.is_at_rest());
    assert!(process.sleeps.is_empty());
    for (address, _, suspended) in &process.writes {
        assert!(*address >= TARGET);
        assert_eq!(*suspended, 2);
    }
    assert_eq!(process.protection[&(TARGET, 6)], READ_EXECUTE);
}

#[test]
fn inline_hook_on_a_call_replaces_its_destination() {
    let call = code::make_branch(code::CALL, TARGET, 0x48_0000);
    let mut process = Process::with_code(&call);
    let hook = process.install(HookDetails::create_hook(TARGET, DETOUR)).ok().unwrap();
    let patched = process.get(TARGET, 5);
    assert_eq!(patched, code::make_branch(code::CALL, TARGET, DETOUR));
    assert_eq!(hook.original_addr(), 0x48_0000);
    assert_eq!(hook.orig_bytes, call);
    assert!(!hook.is_jmp);
    assert!(process.allocations.is_empty());
    assert!(process.is_at_rest());
}

#[test]
fn displaced_call_still_reaches_its_destination() {
    let mut start = vec![0x50u8];
    start.extend(code::make_branch(code::CALL, TARGET + 1, 0x48_0000));
    let mut process = Process::with_code(&start);
    let hook = process.install(HookDetails::create_hook(TARGET, DETOUR)).ok().unwrap();
    let gateway = process.get(hook.original_addr(), 11);
    assert_eq!(gateway[0], 0x50);
    assert_eq!(gateway[1], 0xE8);
    assert_eq!(code::follow_branch(&gateway[1..6], hook.original_addr() + 1), 0x48_0000);
    assert_eq!(code::follow_branch(&gateway[6..], hook.original_addr() + 6), TARGET + 6);
}

#[test]
fn inline_hook_waits_for_a_thread_to_leave() {
    let mut process = Process::with_code(&PROLOGUE);
    process.add_thread(PROCESS, 2, &[Some(TARGET + 5), Some(TARGET), Some(TARGET + 6)]);
    let hook = process.install(HookDetails::create_hook(TARGET, DETOUR)).ok().unwrap();
    assert_eq!(process.sleeps, vec![1, 1]);
    assert_eq!(hook.target_addr, TARGET);
    assert!(process.is_at_rest());
}

#[test]
fn mid_hook_hands_over_the_registers() {
    let mut process = Process::with_code(&PROLOGUE);
    process.add_thread(PROCESS, 2, &[Some(0x41_0000)]);
    let hook = process.install(HookDetails::mid(TARGET, DETOUR)).ok().unwrap();
    let patched = process.get(TARGET, 6);
    assert_eq!(code::follow_branch(&patched, TARGET), hook.alloc_addr);
    assert_eq!(patched[5], 0x90);
    let parts = vec![vec![0x55u8], vec![0x8B, 0xEC], vec![0x83, 0xEC, 0x10]];
    let expected = code::make_mid_code(&parts, TARGET, DETOUR, hook.alloc_addr, 6);
    assert_eq!(process.get(hook.alloc_addr, expected.len()), expected);
    assert_eq!(expected.len(), 93);
    assert_eq!(hook.orig_bytes, PROLOGUE.to_vec());
    assert!(hook.is_jmp);
    assert_eq!(process.writes.len(), 2);
    for (_, _, suspended) in &process.writes {
        assert_eq!(*suspended, 1);
    }
    assert!(process.is_at_rest());
}

#[test]
fn mid_hook_waits_for_a_thread_to_leave() {
    let mut process = Process::with_code(&PROLOGUE);
    process.add_thread(PROCESS, 2, &[Some(TARGET + 1), Some(0x41_0000)]);
    let hook = process.install(HookDetails::mid(TARGET, DETOUR)).ok().unwrap();
    assert_eq!(process.sleeps, vec![1]);
    assert_eq!(hook.target_addr, TARGET);
    assert!(process.is_at_rest());
}

#[test]
fn mid_hook_on_a_call_moves_the_call() {
    let call = code::make_branch(code::CALL, TARGET, 0x48_0000);
    let mut process = Process::with_code(&call);
    let hook = process.install(HookDetails::mid(TARGET, DETOUR)).ok().unwrap();
    assert!(hook.is_jmp);
    for offset in [50, 80] {
        let moved = process.get(hook.alloc_addr + offset, 5);
        assert_eq!(moved[0], 0xE8);
        assert_eq!(code::follow_branch(&moved, hook.alloc_addr + offset), 0x48_0000);
    }
}

#[test]
fn vtable_hook_replaces_one_entry() {
    let mut process = Process::new();
    process.put(0x60_0000, &word::to_bytes(0x61_0000));
    for entry in 0..4u32 {
        process.put(0x61_0000 + 4 * entry, &word::to_bytes(0x1000 + entry));
    }
    let hook = process.replace_entry(HookDetails::vtable(0x60_0000, 2, DETOUR)).ok().unwrap();
    assert_eq!(hook.target_addr, 0x61_0008);
    assert_eq!(hook.original_addr(), 0x1002);
    assert_eq!(hook.orig_bytes, vec![0x02, 0x10, 0x00, 0x00]);
    assert!(!hook.is_jmp);
    for (entry, expected) in [0x1000, 0x1001, DETOUR, 0x1003].iter().enumerate() {
        let held = process.get(0x61_0000 + 4 * entry as u32, 4);
        assert_eq!(word::from_bytes(&held, 0), *expected);
    }
    assert_eq!(process.protection[&(0x61_0008, 4)], READ_EXECUTE);
    let (_, removed) = process.remove(hook);
    assert!(removed);
    assert_eq!(process.get(0x61_0008, 4), vec![0x02, 0x10, 0x00, 0x00]);
}

#[test]
fn code_that_cannot_be_decoded_is_not_hooked() {
    for mid in [false, true] {
        let mut process = Process::with_code(&[0x0F, 0x04]);
        let install =
            if mid { HookDetails::mid(TARGET, DETOUR) } else { HookDetails::create_hook(TARGET, DETOUR) };
        let error = error_of(process.install(install));
        assert_eq!(error, UnsafetyHookError::InvalidInstructions);
        assert!(process.writes.is_empty());
        assert!(process.is_at_rest());
    }
}

#[test]
fn threads_that_cannot_be_listed() {
    for mid in [false, true] {
        let mut process = Process::with_code(&PROLOGUE);
        process.no_snapshot = true;
        let install =
            if mid { HookDetails::mid(TARGET, DETOUR) } else { HookDetails::create_hook(TARGET, DETOUR) };
        let error = error_of(process.install(install));
        assert_eq!(error, UnsafetyHookError::SuspendFailed);
        assert!(process.writes.is_empty());
    }

    let mut process = Process::with_code(&PROLOGUE);
    process.threads.clear();
    let error = error_of(process.install(HookDetails::create_hook(TARGET, DETOUR)));
    assert_eq!(error, UnsafetyHookError::SuspendFailed);
    assert!(process.is_at_rest());
    assert!(process.writes.is_empty());
}

#[test]
fn no_memory_for_the_displaced_code() {
    for mid in [false, true] {
        let mut process = Process::with_code(&PROLOGUE);
        process.no_memory = true;
        let install =
            if mid { HookDetails::mid(TARGET, DETOUR) } else { HookDetails::create_hook(TARGET, DETOUR) };
        let error = error_of(process.install(install));
        assert_eq!(error, UnsafetyHookError::VirtualAllocFailed);
        assert_eq!(process.get(TARGET, 6), PROLOGUE.to_vec());
        assert!(process.is_at_rest());
    }
}

#[test]
fn target_that_stays_protected() {
    let mut process = Process::with_code(&PROLOGUE);
    process.add_thread(PROCESS, 2, &[Some(0x41_0000)]);
    process.refused_protections = vec![1];
    let error = error_of(process.install(HookDetails::create_hook(TARGET, DETOUR)));
    assert_eq!(error, UnsafetyHookError::VirtualProtectFailed(487));
    assert_eq!(process.get(TARGET, 6), PROLOGUE.to_vec());
    assert!(process.is_at_rest());

    let mut process = Process::new();
    process.put(0x60_0000, &word::to_bytes(0x61_0000));
    process.refused_protections = vec![1];
    let error = error_of(process.replace_entry(HookDetails::vtable(0x60_0000, 0, DETOUR)));
    assert_eq!(error, UnsafetyHookError::VirtualProtectFailed(487));
    assert!(process.writes.is_empty());
}

#[test]
fn call_that_is_patched_but_not_finished() {
    let call = code::make_branch(code::CALL, TARGET, 0x48_0000);
    let mut process = Process::with_code(&call);
    process.refused_flushes = vec![1];
    let error = error_of(process.install(HookDetails::create_hook(TARGET, DETOUR)));
    assert_eq!(error, UnsafetyHookError::VirtualProtectFailed(6));

    let mut process = Process::with_code(&call);
    process.refused_protections = vec![2];
    let error = error_of(process.install(HookDetails::create_hook(TARGET, DETOUR)));
    assert_eq!(error, UnsafetyHookError::VirtualProtectFailed(487));

    let mut process = Process::with_code(&call);
    process.refused_protections = vec![1];
    let error = error_of(process.install(HookDetails::create_hook(TARGET, DETOUR)));
    assert_eq!(error, UnsafetyHookError::VirtualProtectFailed(487));
    assert_eq!(process.get(TARGET, 5), call);
}

#[test]
fn jump_is_installed_though_its_protection_stays_lifted() {
    let mut process = Process::with_code(&PROLOGUE);
    process.refused_protections = vec![2];
    process.refused_flushes = vec![1];
    let hook = process.install(HookDetails::create_hook(TARGET, DETOUR)).ok().unwrap();
    assert_eq!(code::follow_branch(&process.get(TARGET, 5), TARGET), DETOUR);
    assert_eq!(process.protection[&(TARGET, 6)], 0x40);
    assert_eq!(hook.orig_bytes, PROLOGUE.to_vec());
}

#[test]
fn removal_undoes_an_installation() {
    for mid in [false, true] {
        let mut process = Process::with_code(&PROLOGUE);
        let before = process.get(TARGET, 64);
        let install =
            if mid { HookDetails::mid(TARGET, DETOUR) } else { HookDetails::create_hook(TARGET, DETOUR) };
        let hook = process.install(install).ok().unwrap();
        assert_ne!(process.get(TARGET, 64), before);
        assert_eq!(process.allocations.len(), 1);
        let (hook, removed) = process.remove(hook);
        assert!(removed);
        assert!(hook.orig_bytes.is_empty());
        assert_eq!(process.get(TARGET, 64), before);
        assert!(process.allocations.is_empty());
        assert_eq!(process.protection[&(TARGET, 6)], READ_EXECUTE);

        let again = hook.remove();
        assert!(again.request().is_none());
        assert_eq!(again.stage, RemoveStage::Done { removed: true });
    }
}

#[test]
fn removal_that_is_refused_can_be_tried_again() {
    for (protections, flushes) in [(vec![3usize], vec![]), (vec![4], vec![]), (vec![], vec![2usize])] {
        let mut process = Process::with_code(&PROLOGUE);
        let hook = process.install(HookDetails::create_hook(TARGET, DETOUR)).ok().unwrap();
        process.refused_protections = protections;
        process.refused_flushes = flushes;
        let (hook, removed) = process.remove(hook);
        assert!(!removed);
        assert_eq!(hook.orig_bytes, PROLOGUE.to_vec());
        assert_eq!(process.allocations.len(), 1);
        let (_, removed) = process.remove(hook);
        assert!(removed);
        assert_eq!(process.get(TARGET, 6), PROLOGUE.to_vec());
        assert!(process.allocations.is_empty());
    }
}

fn three_hooks(process: &mut Process, hooks: &mut HookList) {
    for i in 0..3u32 {
        process.put(TARGET + 0x100 * i, &PROLOGUE);
        let created = process.install(HookDetails::create_hook(TARGET + 0x100 * i, DETOUR));
        let original = UnsafetyHook::inline(hooks, created);
        assert_eq!(original, Ok(0x70_0000 + 0x1_0000 * i));
    }
}

#[test]
fn removing_all_hooks_restores_every_location() {
    let mut process = Process::new();
    let mut hooks = HookList::new();
    three_hooks(&mut process, &mut hooks);
    assert_eq!(hooks.hooks.len(), 3);
    let removal = UnsafetyHook::remove_all(&mut hooks);
    assert!(hooks.hooks.is_empty());
    process.remove_hooks(removal);
    for i in 0..3u32 {
        assert_eq!(process.get(TARGET + 0x100 * i, 6), PROLOGUE.to_vec());
    }
    assert!(process.allocations.is_empty());
}

#[test]
fn removing_at_a_target_keeps_the_others() {
    let mut process = Process::new();
    let mut hooks = HookList::new();
    three_hooks(&mut process, &mut hooks);
    let removal = UnsafetyHook::remove_at(&mut hooks, TARGET + 0x100);
    process.remove_hooks(removal);
    assert_eq!(process.get(TARGET + 0x100, 6), PROLOGUE.to_vec());
    assert_eq!(process.get(TARGET, 1), vec![0xE9]);
    assert_eq!(process.get(TARGET + 0x200, 1), vec![0xE9]);
    let left: Vec<u32> = hooks.hooks.iter().map(|hook| hook.target_addr).collect();
    assert_eq!(left, vec![TARGET, TARGET + 0x200]);
}

#[test]
fn removing_where_no_hook_is_does_nothing() {
    let mut process = Process::new();
    let mut hooks = HookList::new();
    three_hooks(&mut process, &mut hooks);
    let removal = UnsafetyHook::remove_at(&mut hooks, TARGET + 1);
    assert!(removal.request().is_none());
    assert_eq!(hooks.hooks.len(), 3);
}

#[test]
fn refused_removal_is_tried_twice_at_a_target() {
    let mut process = Process::with_code(&PROLOGUE);
    let mut hooks = HookList::new();
    let created = process.install(HookDetails::create_hook(TARGET, DETOUR));
    assert!(UnsafetyHook::inline(&mut hooks, created).is_ok());
    process.refused_protections = vec![3];
    let removal = UnsafetyHook::remove_at(&mut hooks, TARGET);
    process.remove_hooks(removal);
    assert_eq!(process.get(TARGET, 6), PROLOGUE.to_vec());
    assert_eq!(process.protections, 5);
}

#[test]
fn refused_removal_is_tried_once_among_all() {
    let mut process = Process::with_code(&PROLOGUE);
    let mut hooks = HookList::new();
    let created = process.install(HookDetails::mid(TARGET, DETOUR));
    assert_eq!(UnsafetyHook::mid(&mut hooks, created), Ok(()));
    process.refused_protections = vec![3];
    let removal = UnsafetyHook::remove_all(&mut hooks);
    process.remove_hooks(removal);
    assert_eq!(process.get(TARGET, 1), vec![0xE9]);
    assert_eq!(process.protections, 3);
    assert!(hooks.hooks.is_empty());
}

#[test]
fn inline_hooks_chain() {
    let mut process = Process::with_code(&PROLOGUE);
    let mut given = Vec::new();
    for i in 0..2u32 {
        let created = process.install(HookDetails::create_hook(TARGET, DETOUR + 0x100 * i));
        given.push(created.ok().unwrap().original_addr());
    }
    assert_eq!(code::follow_branch(&process.get(TARGET, 5), TARGET), DETOUR + 0x100);
    let first = process.get(given[1], 5);
    assert_eq!(first[0], 0xE9);
    assert_eq!(code::follow_branch(&first, given[1]), DETOUR);

    let mut process = Process::with_code(&code::make_branch(code::CALL, TARGET, 0x48_0000));
    let mut given = Vec::new();
    for i in 0..2u32 {
        let created = process.install(HookDetails::create_hook(TARGET, DETOUR + 0x100 * i));
        given.push(created.ok().unwrap().original_addr());
    }
    assert_eq!(given, vec![0x48_0000, DETOUR]);
    assert_eq!(code::follow_branch(&process.get(TARGET, 5), TARGET), DETOUR + 0x100);
}

#[test]
fn only_hook_at_a_target_leaves_the_others() {
    let mut process = Process::new();
    let mut hooks = HookList::new();
    three_hooks(&mut process, &mut hooks);
    process.refused_protections = vec![7, 8];
    let removal = UnsafetyHook::remove_at(&mut hooks, TARGET + 0x100);
    let before: Vec<Vec<u8>> = [0, 0x200].iter().map(|o| process.get(TARGET + o, 64)).collect();
    process.remove_hooks(removal);
    let after: Vec<Vec<u8>> = [0, 0x200].iter().map(|o| process.get(TARGET + o, 64)).collect();
    assert_eq!(before, after);
    assert_eq!(process.get(TARGET + 0x100, 1), vec![0xE9]);
    assert_eq!(hooks.hooks.len(), 2);
    let again = UnsafetyHook::remove_at(&mut hooks, TARGET + 0x100);
    assert!(again.request().is_none());
}

fn hooks_on_top_of_each_other(process: &mut Process, hooks: &mut HookList) {
    for i in 0..3u32 {
        let created = process.install(HookDetails::create_hook(TARGET, DETOUR + 0x100 * i));
        assert!(UnsafetyHook::inline(hooks, created).is_ok());
        let patched = process.get(TARGET, 5);
        assert_eq!(code::follow_branch(&patched, TARGET), DETOUR + 0x100 * i);
    }
}

#[test]
fn removing_all_hooks_on_top_of_each_other() {
    let mut process = Process::with_code(&PROLOGUE);
    let before = process.get(TARGET, 64);
    let mut hooks = HookList::new();
    hooks_on_top_of_each_other(&mut process, &mut hooks);
    let removal = UnsafetyHook::remove_all(&mut hooks);
    process.remove_hooks(removal);
    assert_eq!(process.get(TARGET, 64), before);
    assert!(process.allocations.is_empty());
    assert!(hooks.hooks.is_empty());
}

#[test]
fn removing_hooks_on_top_of_each_other_at_a_target() {
    let mut process = Process::with_code(&PROLOGUE);
    let before = process.get(TARGET, 64);
    let mut hooks = HookList::new();
    process.put(0x40_8000, &PROLOGUE);
    hooks_on_top_of_each_other(&mut process, &mut hooks);
    let created = process.install(HookDetails::mid(0x40_8000, DETOUR));
    assert!(UnsafetyHook::mid(&mut hooks, created).is_ok());
    let removal = UnsafetyHook::remove_at(&mut hooks, TARGET);
    process.remove_hooks(removal);
    assert_eq!(process.get(TARGET, 64), before);
    assert_eq!(process.allocations.len(), 1);
    assert_eq!(process.get(0x40_8000, 1), vec![0xE9]);
    assert_eq!(hooks.hooks.len(), 1);
}

#[test]
fn hooks_that_overlap_are_all_undone() {
    let mut process = Process::with_code(&PROLOGUE);
    let before = process.get(TARGET, 64);
    let mut hooks = HookList::new();
    for (target, mid) in [(TARGET + 1, false), (TARGET, true), (TARGET, false)] {
        let install =
            if mid { HookDetails::mid(target, DETOUR) } else { HookDetails::create_hook(target, DETOUR) };
        let created = process.install(install);
        assert!(UnsafetyHook::inline(&mut hooks, created).is_ok());
    }
    let removal = UnsafetyHook::remove_all(&mut hooks);
    process.remove_hooks(removal);
    assert_eq!(process.get(TARGET, 64), before);
    assert!(process.allocations.is_empty());
}

#[test]
fn failed_hooks_are_not_listed() {
    let mut hooks = HookList::new();
    let error = UnsafetyHookError::SuspendFailed;
    assert_eq!(UnsafetyHook::inline(&mut hooks, Err(error)), Err(error));
    assert_eq!(UnsafetyHook::mid(&mut hooks, Err(error)), Err(error));
    assert_eq!(UnsafetyHook::vtable(&mut hooks, Err(error)), Err(error));
    assert!(hooks.hooks.is_empty());
}

#[test]
fn vtable_hook_is_listed() {
    let mut process = Process::new();
    process.put(0x60_0000, &word::to_bytes(0x61_0000));
    process.put(0x61_0004, &word::to_bytes(0x1234));
    let mut hooks = HookList::new();
    let created = process.replace_entry(HookDetails::vtable(0x60_0000, 1, DETOUR));
    assert_eq!(UnsafetyHook::vtable(&mut hooks, created), Ok(0x1234));
    let removal = UnsafetyHook::remove_at(&mut hooks, 0x61_0004);
    process.remove_hooks(removal);
    assert_eq!(process.get(0x61_0004, 4), word::to_bytes(0x1234));
    assert!(hooks.hooks.is_empty());
}

#[test]
fn threads_are_suspended_looked_at_and_resumed() {
    let mut process = Process::new();
    process.add_thread(PROCESS, 2, &[Some(0x1000)]);
    process.add_thread(PROCESS, 3, &[Some(0x2000)]);
    process.add_thread(8, 5, &[Some(0x3000)]);
    process.add_thread(PROCESS, 4, &[Some(0x4000)]);
    process.closed_threads = vec![4];
    let mut threads = SuspendThreads::suspend_all_threads();
    process.work_on(&mut threads);
    assert_eq!(threads.stage, ThreadStage::Held);
    assert_eq!(threads.handles, vec![2, 3]);
    assert_eq!(process.suspended, vec![2, 3]);
    assert_eq!(process.open, vec![2, 3]);

    for (start, end, expected) in [
        (0x1FFFu32, 0x2000u32, false),
        (0x2000, 0x2001, true),
        (0x0FFF, 0x1001, true),
        (0x3000, 0x5000, false),
    ] {
        threads.any_thread_in_range(start, end);
        process.work_on(&mut threads);
        assert_eq!(threads.stage, ThreadStage::Checked { hit: expected });
    }

    threads.resume_all_threads();
    process.work_on(&mut threads);
    assert_eq!(threads.stage, ThreadStage::Released);
    assert!(process.is_at_rest());
}
