use std::collections::HashMap;

use unsafety_hook::word;
use unsafety_hook::x86::code;
use unsafety_hook::x86::{EFlags, UnsafetyHookContext};

const TARGET: u32 = 0x40_1000;
const DETOUR: u32 = 0x50_2000;
const BLOCK: u32 = 0x70_0000;
const STACK: u32 = 0x1F_F000;

/// Runs the code around a detour, which is called with the address of the registers.
struct Thread {
    registers: UnsafetyHookContext,
    memory: HashMap<u32, u8>,
}

impl Thread {
    fn put(&mut self, address: u32, bytes: &[u8]) {
        for (i, byte) in bytes.iter().enumerate() {
            self.memory.insert(address.wrapping_add(i as u32), *byte);
        }
    }

    fn get(&self, address: u32) -> u32 {
        let four: Vec<u8> = (0..4).map(|i| self.memory[&address.wrapping_add(i)]).collect();
        word::from_bytes(&four, 0)
    }

    fn push(&mut self, value: u32) {
        self.registers.esp = self.registers.esp.wrapping_sub(4);
        let esp = self.registers.esp;
        self.put(esp, &word::to_bytes(value));
    }

    fn pop(&mut self) -> u32 {
        let value = self.get(self.registers.esp);
        self.registers.esp = self.registers.esp.wrapping_add(4);
        value
    }

    fn step(&mut self) {
        let at = self.registers.eip;
        let byte = |i: u32| *self.memory.get(&at.wrapping_add(i)).unwrap_or(&0);
        let opcode = (byte(0), byte(1));
        let (third, fourth) = (byte(3) as u32, byte(4) as u32);
        let len = match opcode {
            (0x68, _) | (0xB8, _) | (0xE8, _) | (0xE9, _) | (0xA3, _) | (0x83, 0x44) => 5,
            (0x81, 0x7C) => 8,
            (0x0F, 0x85) | (0xFF, 0x25) => 6,
            (0x8B, 0x44) | (0x89, 0x44) => 4,
            (0x83, 0xC4) => 3,
            (0x89, 0xE0) | (0xFF, 0xD0) => 2,
            _ => 1,
        };
        let place = self.registers.esp.wrapping_add(third);
        self.registers.eip = at.wrapping_add(len);
        match opcode {
            (0x68, _) => self.push(self.get(at + 1)),
            (0x9C, _) => self.push(self.registers.eflags.bits() & 0xFC_FFFF),
            (0x60, _) => {
                let esp = self.registers.esp;
                self.push(self.registers.eax);
                self.push(self.registers.ecx);
                self.push(self.registers.edx);
                self.push(self.registers.ebx);
                self.push(esp);
                self.push(self.registers.ebp);
                self.push(self.registers.esi);
                self.push(self.registers.edi);
            }
            (0x83, 0x44) => {
                let sum = self.get(place).wrapping_add(fourth);
                self.put(place, &word::to_bytes(sum));
                self.registers.eflags = EFlags::empty();
            }
            (0x89, 0xE0) => self.registers.eax = self.registers.esp,
            (0x50, _) => self.push(self.registers.eax),
            (0x55, _) => self.push(self.registers.ebp),
            (0xB8, _) => self.registers.eax = self.get(at + 1),
            (0xFF, 0xD0) => {
                self.push(self.registers.eip);
                self.registers.eip = self.registers.eax;
            }
            (0x83, 0xC4) => {
                self.registers.esp = self.registers.esp.wrapping_add(4);
                self.registers.eflags = EFlags::empty();
            }
            (0x81, 0x7C) => {
                let equal = self.get(place) == self.get(at + 4);
                self.registers.eflags = EFlags::empty();
                self.registers.eflags.set(EFlags::ZF(), equal);
            }
            (0x0F, 0x85) => {
                if !self.registers.eflags.contains(EFlags::ZF()) {
                    self.registers.eip = self.registers.eip.wrapping_add(self.get(at + 2));
                }
            }
            (0x8B, 0x44) => self.registers.eax = self.get(place),
            (0x89, 0x44) => {
                let eax = self.registers.eax;
                self.put(place, &word::to_bytes(eax));
            }
            (0xA3, _) => {
                let (address, eax) = (self.get(at + 1), self.registers.eax);
                self.put(address, &word::to_bytes(eax));
            }
            (0x61, _) => {
                self.registers.edi = self.pop();
                self.registers.esi = self.pop();
                self.registers.ebp = self.pop();
                self.pop();
                self.registers.ebx = self.pop();
                self.registers.edx = self.pop();
                self.registers.ecx = self.pop();
                self.registers.eax = self.pop();
            }
            (0x9D, _) => self.registers.eflags = EFlags::from_bits_retain(self.pop()),
            (0x5C, _) => self.registers.esp = self.get(self.registers.esp),
            (0x90, _) => {}
            (0xFF, 0x25) => self.registers.eip = self.get(self.get(at + 2)),
            (0xE9, _) => self.registers.eip = self.registers.eip.wrapping_add(self.get(at + 1)),
            (0xE8, _) => {
                let to = self.registers.eip.wrapping_add(self.get(at + 1));
                self.push(self.registers.eip);
                self.registers.eip = to;
            }
            _ => panic!("unknown instruction"),
        }
    }

    fn run(&mut self, count: usize) {
        for _ in 0..count {
            self.step();
        }
    }
}

fn registers_at(eip: u32) -> UnsafetyHookContext {
    UnsafetyHookContext {
        edi: 1,
        esi: 2,
        ebp: 3,
        esp: STACK,
        ebx: 5,
        edx: 6,
        ecx: 7,
        eax: 8,
        eflags: EFlags::from_bits_retain(0x246),
        eip,
    }
}

/// A thread at the target of a mid-function hook, which displaced a `push ebp`.
fn at_the_hook() -> Thread {
    let mut thread = Thread { registers: registers_at(TARGET), memory: HashMap::new() };
    let parts = vec![vec![0x55u8], vec![0x90], vec![0x90], vec![0x90], vec![0x90]];
    thread.put(BLOCK, &code::make_mid_code(&parts, TARGET, DETOUR, BLOCK, 5));
    thread.put(TARGET, &code::make_jump_patch(TARGET, BLOCK, 5));
    thread
}

fn at_the_detour() -> Thread {
    let mut thread = at_the_hook();
    thread.run(9);
    thread
}

#[test]
fn detour_gets_the_registers() {
    let thread = at_the_detour();
    assert_eq!(thread.registers.eip, DETOUR);
    assert_eq!(thread.get(thread.registers.esp), BLOCK + 22);
    let context = thread.get(thread.registers.esp + 4);
    assert_eq!(context, STACK - 40);
    let expected = [1, 2, 3, STACK, 5, 6, 7, 8, 0x246, TARGET + 5];
    for (i, value) in expected.iter().enumerate() {
        assert_eq!(thread.get(context + 4 * i as u32), *value);
    }
}

#[test]
fn untouched_registers_come_back() {
    let mut thread = at_the_detour();
    thread.registers.eip = thread.pop();
    thread.run(8);
    let r = &thread.registers;
    assert_eq!((r.edi, r.esi, r.ebp, r.esp), (1, 2, 3, STACK));
    assert_eq!((r.ebx, r.edx, r.ecx, r.eax), (5, 6, 7, 8));
    assert_eq!((r.eflags.bits(), r.eip), (0x246, BLOCK + 50));
    thread.run(6);
    let r = &thread.registers;
    assert_eq!((r.eax, r.esp, r.eip), (8, STACK - 4, TARGET + 5));
    assert_eq!(thread.get(STACK - 4), 3);
}

#[test]
fn changed_registers_take_effect() {
    let mut thread = at_the_detour();
    let context = thread.get(thread.registers.esp + 4);
    let left = [11u32, 12, 13, STACK - 0x100, 15, 16, 17, 18, 0x24_4203, TARGET + 5];
    for (i, value) in left.iter().enumerate() {
        thread.put(context + 4 * i as u32, &word::to_bytes(*value));
    }
    thread.registers.eip = thread.pop();
    thread.run(8);
    let r = &thread.registers;
    assert_eq!((r.edi, r.esi, r.ebp, r.esp), (11, 12, 13, STACK - 0x100));
    assert_eq!((r.ebx, r.edx, r.ecx, r.eax), (15, 16, 17, 18));
    assert_eq!((r.eflags.bits(), r.eip), (0x24_4203, BLOCK + 50));
    thread.run(6);
    let r = &thread.registers;
    assert_eq!((r.eax, r.esp, r.eip), (18, STACK - 0x104, TARGET + 5));
    assert_eq!(thread.get(STACK - 0x104), 13);
}

#[test]
fn changed_instruction_pointer_takes_effect() {
    let mut thread = at_the_detour();
    let context = thread.get(thread.registers.esp + 4);
    thread.put(context + 28, &word::to_bytes(18));
    thread.put(context + 36, &word::to_bytes(0x40_3000));
    thread.registers.eip = thread.pop();
    thread.run(10);
    let r = &thread.registers;
    assert_eq!((r.edi, r.esi, r.ebp, r.esp), (1, 2, 3, STACK));
    assert_eq!((r.ebx, r.edx, r.ecx, r.eax), (5, 6, 7, 18));
    assert_eq!((r.eflags.bits(), r.eip), (0x246, BLOCK + 80));
    thread.run(6);
    let r = &thread.registers;
    assert_eq!((r.eax, r.esp, r.eip), (18, STACK - 4, 0x40_3000));
    assert_eq!(thread.get(STACK - 4), 3);
}

#[test]
fn thread_calls_the_detour() {
    let mut thread = Thread { registers: registers_at(TARGET), memory: HashMap::new() };
    thread.put(TARGET, &code::make_branch(code::CALL, TARGET, DETOUR));
    thread.step();
    assert_eq!((thread.registers.eip, thread.registers.esp), (DETOUR, STACK - 4));
    assert_eq!(thread.get(STACK - 4), TARGET + 5);
}

#[test]
fn thread_leaves_a_trampoline() {
    let mut thread = Thread { registers: registers_at(BLOCK), memory: HashMap::new() };
    let parts = vec![vec![0x55u8], vec![0x90], vec![0x90], vec![0x90], vec![0x90]];
    thread.put(BLOCK, &code::make_trampoline(&parts, TARGET, BLOCK, 5));
    thread.run(6);
    assert_eq!((thread.registers.eip, thread.registers.esp), (TARGET + 5, STACK - 4));
}
