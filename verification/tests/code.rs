use unsafety_hook::word;
use unsafety_hook::x86::code;
use unsafety_hook::x86::HookDetails;

#[test]
fn words_are_little_endian() {
    assert_eq!(word::to_bytes(0x1234_5678), vec![0x78, 0x56, 0x34, 0x12]);
    assert_eq!(word::from_bytes(&[0xFF, 0x78, 0x56, 0x34, 0x12], 1), 0x1234_5678);
    for value in [0u32, 1, 0xFF, 0x100, 0xFFFF_FFFF, 0x8000_0000] {
        assert_eq!(word::from_bytes(&word::to_bytes(value), 0), value);
    }
}

#[test]
fn offsets_wrap_around() {
    assert_eq!(word::offset(0x40_1000, 7), 0x40_1007);
    assert_eq!(word::offset(0xFFFF_FFFE, 5), 3);
}

#[test]
fn forward_branch() {
    let jump = code::make_branch(code::JMP, 0x40_1000, 0x40_2000);
    assert_eq!(jump, vec![0xE9, 0xFB, 0x0F, 0x00, 0x00]);
    assert_eq!(code::follow_branch(&jump, 0x40_1000), 0x40_2000);
}

#[test]
fn backward_branch() {
    let call = code::make_branch(code::CALL, 0x40_2000, 0x40_1000);
    assert_eq!(call, vec![0xE8, 0xFB, 0xEF, 0xFF, 0xFF]);
    assert_eq!(code::follow_branch(&call, 0x40_2000), 0x40_1000);
}

#[test]
fn branch_across_the_middle_of_the_address_space() {
    let jump = code::make_branch(code::JMP, 0x7FFF_FFF0, 0x8000_1000);
    assert_eq!(code::follow_branch(&jump, 0x7FFF_FFF0), 0x8000_1000);
    let jump = code::make_branch(code::JMP, 0xFFFF_FFF0, 0x10);
    assert_eq!(jump, vec![0xE9, 0x1B, 0x00, 0x00, 0x00]);
    assert_eq!(code::follow_branch(&jump, 0xFFFF_FFF0), 0x10);
}

#[test]
fn relocated_call_keeps_its_destination() {
    let call = code::make_branch(code::CALL, 0x40_1000, 0x45_0000);
    let moved = HookDetails::relocate_instruction(&call, 0x40_1000, 0x10_0000);
    assert_eq!(moved, vec![0xE8, 0xFB, 0xFF, 0x34, 0x00]);
    assert_eq!(code::follow_branch(&moved, 0x10_0000), 0x45_0000);
}

#[test]
fn relocation_is_undone_by_moving_back() {
    let jump = [0xE9u8, 0x12, 0x34, 0x56, 0x78];
    let moved = HookDetails::relocate_instruction(&jump, 0x1000, 0xF000_0000);
    assert_ne!(moved, jump.to_vec());
    assert_eq!(HookDetails::relocate_instruction(&moved, 0xF000_0000, 0x1000), jump.to_vec());
}

#[test]
fn other_instructions_stay_as_they_are() {
    for bytes in [
        vec![0x55u8],
        vec![0x8B, 0xEC],
        vec![0xE8, 0x00, 0x00],
        vec![0xEB, 0x10],
        vec![0xB8, 0x01, 0x02, 0x03, 0x04],
        vec![],
    ] {
        assert_eq!(HookDetails::relocate_instruction(&bytes, 0x1000, 0x2000), bytes);
    }
}

#[test]
fn bytes_after_a_branch_are_kept() {
    let bytes = [0xE8u8, 0, 0, 0, 0, 0xAA, 0xBB];
    let moved = HookDetails::relocate_instruction(&bytes, 0x2000, 0x1000);
    assert_eq!(moved, vec![0xE8, 0x00, 0x10, 0x00, 0x00, 0xAA, 0xBB]);
}

#[test]
fn jump_patch_is_padded() {
    assert_eq!(
        code::make_jump_patch(0x1000, 0x2000, 8),
        vec![0xE9, 0xFB, 0x0F, 0x00, 0x00, 0x90, 0x90, 0x90]
    );
    assert_eq!(code::make_jump_patch(0x1000, 0x2000, 5).len(), 5);
}

#[test]
fn trampoline_runs_the_instructions_and_returns() {
    let parts = vec![vec![0x55u8], code::make_branch(code::CALL, 0x1001, 0x9000)];
    let code_bytes = code::make_trampoline(&parts, 0x1000, 0x5000, 6);
    assert_eq!(code_bytes.len(), 11);
    assert_eq!(code_bytes[0], 0x55);
    assert_eq!(code::follow_branch(&code_bytes[1..6], 0x5001), 0x9000);
    assert_eq!(code_bytes[6], 0xE9);
    assert_eq!(code::follow_branch(&code_bytes[6..], 0x5006), 0x1006);
}

#[test]
fn mid_code_bytes() {
    let parts = vec![vec![0x55u8], code::make_branch(code::JMP, 0x1001, 0x9000)];
    let made = code::make_mid_code(&parts, 0x1000, 0x1122_3344, 0x5000, 6);
    assert_eq!(
        made[..50].to_vec(),
        vec![
            0x68, 0x06, 0x10, 0x00, 0x00, 0x9C, 0x60, 0x83, 0x44, 0x24, 0x0C, 0x08, 0x89, 0xE0,
            0x50, 0xB8, 0x44, 0x33, 0x22, 0x11, 0xFF, 0xD0, 0x83, 0xC4, 0x04, 0x81, 0x7C, 0x24,
            0x24, 0x06, 0x10, 0x00, 0x00, 0x0F, 0x85, 0x16, 0x00, 0x00, 0x00, 0x8B, 0x44, 0x24,
            0x0C, 0x89, 0x44, 0x24, 0x24, 0x61, 0x9D, 0x5C,
        ]
    );
    assert_eq!(made[50], 0x55);
    assert_eq!(code::follow_branch(&made[51..56], 0x5000 + 51), 0x9000);
    assert_eq!(made[56], 0xE9);
    assert_eq!(code::follow_branch(&made[56..61], 0x5000 + 56), 0x1006);
    assert_eq!(
        made[61..81].to_vec(),
        vec![
            0x8B, 0x44, 0x24, 0x24, 0xA3, 0xFC, 0x53, 0x00, 0x00, 0x8B, 0x44, 0x24, 0x0C, 0x89,
            0x44, 0x24, 0x24, 0x61, 0x9D, 0x5C,
        ]
    );
    assert_eq!(made[81], 0x55);
    assert_eq!(code::follow_branch(&made[82..87], 0x5000 + 82), 0x9000);
    assert_eq!(made[87..].to_vec(), vec![0xFF, 0x25, 0xFC, 0x53, 0x00, 0x00]);
}
