use unsafety_hook::x86::{EFlags, UnsafetyHookContext};

#[test]
fn flags_are_where_the_processor_has_them() {
    assert_eq!(EFlags::CF().bits(), 1 << 0);
    assert_eq!(EFlags::PF().bits(), 1 << 2);
    assert_eq!(EFlags::AF().bits(), 1 << 4);
    assert_eq!(EFlags::ZF().bits(), 1 << 6);
    assert_eq!(EFlags::SF().bits(), 1 << 7);
    assert_eq!(EFlags::TF().bits(), 1 << 8);
    assert_eq!(EFlags::IF().bits(), 1 << 9);
    assert_eq!(EFlags::DF().bits(), 1 << 10);
    assert_eq!(EFlags::OF().bits(), 1 << 11);
    let named = [
        EFlags::CF(),
        EFlags::PF(),
        EFlags::AF(),
        EFlags::ZF(),
        EFlags::SF(),
        EFlags::TF(),
        EFlags::IF(),
        EFlags::DF(),
        EFlags::OF(),
    ];
    let mut all = EFlags::empty();
    for flag in named {
        all.insert(flag);
    }
    assert_eq!(all, EFlags::all());
}

#[test]
fn detour_reads_and_changes_registers() {
    let mut context = UnsafetyHookContext {
        edi: 1,
        esi: 2,
        ebp: 3,
        esp: 4,
        ebx: 5,
        edx: 6,
        ecx: 7,
        eax: 8,
        eflags: EFlags::from_bits_retain(0x246),
        eip: 0x40_1000,
    };
    if context.eflags.contains(EFlags::ZF()) {
        context.eax = 0;
    }
    assert_eq!(context.eax, 0);
    assert!(!context.eflags.contains(EFlags::CF()));
    assert!(context.eflags.intersects(EFlags::CF().union(EFlags::PF())));
}

#[test]
fn bits_without_a_name() {
    assert_eq!(EFlags::from_bits(0x41), Some(EFlags::CF().union(EFlags::ZF())));
    assert_eq!(EFlags::from_bits(0x43), None);
    assert_eq!(EFlags::from_bits_truncate(0x43).bits(), 0x41);
    assert_eq!(EFlags::from_bits_retain(0x43).bits(), 0x43);
    assert!(EFlags::from_bits_retain(0xFFFF_FFFF).is_all());
    assert!(!EFlags::CF().is_all());
    assert!(EFlags::empty().is_empty());
    assert!(!EFlags::from_bits_retain(0x2).is_empty());
}

#[test]
fn flags_change_by_themselves() {
    let mut flags = EFlags::from_bits_retain(0x246);
    flags.insert(EFlags::CF());
    assert_eq!(flags.bits(), 0x247);
    flags.remove(EFlags::ZF());
    assert_eq!(flags.bits(), 0x207);
    flags.toggle(EFlags::ZF());
    flags.toggle(EFlags::ZF());
    assert_eq!(flags.bits(), 0x207);
    flags.set(EFlags::OF(), true);
    assert_eq!(flags.bits(), 0xA07);
    flags.set(EFlags::OF(), false);
    assert_eq!(flags.bits(), 0x207);
    assert_eq!(flags.intersection(EFlags::all()).bits(), 0x205);
    assert_eq!(flags.difference(EFlags::CF()).bits(), 0x206);
    assert_eq!(flags.symmetric_difference(EFlags::from_bits_retain(0x3)).bits(), 0x204);
    assert_eq!(EFlags::CF().complement().bits(), 0xFD4);
}
