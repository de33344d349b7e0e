use unsafety_hook::x86::prologue::HookScan;
use unsafety_hook::x86::HookDetails;

fn window(start: &[u8]) -> Vec<u8> {
    let mut bytes = start.to_vec();
    bytes.resize(64, 0xCC);
    bytes
}

#[test]
fn whole_instructions_are_displaced() {
    let code = b"\x56\x33\xF6\x57\xBF\xA0\x10\x40\x00\x85\xD2\x74\x10\x8B\xF2\x8B\xFA";
    let (len, parts) = HookDetails::get_hook_len(&window(code)).unwrap();
    assert_eq!(len, 9);
    assert_eq!(
        parts,
        vec![
            vec![0x56],
            vec![0x33, 0xF6],
            vec![0x57],
            vec![0xBF, 0xA0, 0x10, 0x40, 0x00],
        ]
    );
}

#[test]
fn usual_prologue() {
    // push ebp; mov ebp, esp; sub esp, 10h
    let (len, parts) = HookDetails::get_hook_len(&window(b"\x55\x8B\xEC\x83\xEC\x10")).unwrap();
    assert_eq!(len, 6);
    assert_eq!(parts, vec![vec![0x55], vec![0x8B, 0xEC], vec![0x83, 0xEC, 0x10]]);
}

#[test]
fn a_near_branch_makes_room_by_itself() {
    for opcode in [0xE8u8, 0xE9] {
        let (len, parts) = HookDetails::get_hook_len(&window(&[opcode, 1, 2, 3, 4, 0x0F, 0x04]))
            .unwrap();
        assert_eq!(len, 5);
        assert_eq!(parts, vec![vec![opcode, 1, 2, 3, 4]]);
    }
}

#[test]
fn code_that_cannot_be_decoded() {
    assert!(HookDetails::get_hook_len(&window(b"\x0F\x04\x00\x00\x00\x00")).is_none());
    assert!(HookDetails::get_hook_len(&window(b"\x55\x0F\x04")).is_none());
    assert!(HookDetails::get_hook_len(&[]).is_none());
    assert!(HookDetails::get_hook_len(&[0x55, 0x8B]).is_none());
}

#[test]
fn scan_takes_what_it_is_told() {
    let code = [1u8, 2, 3, 4, 5, 6, 7, 8];
    let mut scan = HookScan::new();
    assert!(!scan.is_complete());
    assert!(scan.accept(&code, 3));
    assert!(!scan.is_complete());
    assert!(!scan.accept(&code, 0));
    assert_eq!(scan.total, 3);
    assert!(scan.accept(&code, 4));
    assert!(scan.is_complete());
    assert_eq!(scan.total, 7);
    assert_eq!(scan.instructions, vec![vec![1, 2, 3], vec![4, 5, 6, 7]]);
}
