use unsafety_hook::memory::{
    get_module_info, pattern_scan, read_safe, write_safe, Access, ModuleReply, ModuleRequest,
    ModuleStage,
};
use unsafety_hook::system::{Reply, Request};

fn answer<T: Copy>(
    mut access: Access<T>,
    value: &mut T,
    protection: &mut u32,
    refused: &[usize],
) -> Access<T> {
    let mut changes = 0;
    while let Some(request) = access.request() {
        let reply = match request {
            Request::Protect { address, len, protection: wanted } => {
                assert_eq!(address, 0x40_0000);
                assert_eq!(len, std::mem::size_of::<T>());
                changes += 1;
                if refused.contains(&changes) {
                    Reply::Protection(Err(5))
                } else {
                    let old = *protection;
                    *protection = wanted;
                    Reply::Protection(Ok(old))
                }
            }
            Request::Write { address, data } => {
                assert_eq!(address, 0x40_0000);
                *value = data;
                Reply::Done
            }
            Request::Read { .. } => Reply::Data(*value),
            _ => unreachable!(),
        };
        access.advance(reply);
    }
    access
}

#[test]
fn protected_value_is_written_and_read_back() {
    let (mut value, mut protection) = (7u32, 0x20u32);
    let written = answer(write_safe(0x40_0000, 99u32), &mut value, &mut protection, &[]);
    assert!(written.granted());
    assert_eq!((value, protection), (99, 0x20));
    let read = answer(read_safe::<u32>(0x40_0000), &mut value, &mut protection, &[]);
    assert_eq!(read.value(), Some(99));
    assert_eq!(protection, 0x20);
}

#[test]
fn refused_before_the_access() {
    let (mut value, mut protection) = (7u16, 0x20u32);
    let written = answer(write_safe(0x40_0000, 99u16), &mut value, &mut protection, &[1]);
    assert!(!written.granted());
    assert_eq!((value, protection), (7, 0x20));
    let read = answer(read_safe::<u16>(0x40_0000), &mut value, &mut protection, &[1]);
    assert_eq!(read.value(), None);
}

#[test]
fn refused_after_the_access() {
    let (mut value, mut protection) = (7u16, 0x20u32);
    let written = answer(write_safe(0x40_0000, 99u16), &mut value, &mut protection, &[2]);
    assert!(!written.granted());
    assert_eq!((value, protection), (99, 0x40));
    let read = answer(read_safe::<u16>(0x40_0000), &mut value, &mut protection, &[2]);
    assert_eq!(read.value(), None);
}

#[test]
fn module_is_asked_for_by_name() {
    let mut query = get_module_info(Some("samp.dll"));
    assert_eq!(
        query.request(),
        Some(ModuleRequest::Handle { name: Some(b"samp.dll\0".to_vec()) })
    );
    query.advance(ModuleReply::Handle(Some(0x1000)));
    assert_eq!(query.request(), Some(ModuleRequest::Information { module: 0x1000 }));
    query.advance(ModuleReply::Information(Some((0x1000, 0x2000))));
    assert_eq!(query.request(), None);
    assert_eq!(query.stage, ModuleStage::Done { info: Some((0x1000, 0x2000)) });
}

#[test]
fn program_is_asked_for_without_a_name() {
    let mut query = get_module_info(None);
    assert_eq!(query.request(), Some(ModuleRequest::Handle { name: None }));
    query.advance(ModuleReply::Handle(Some(4)));
    query.advance(ModuleReply::Information(None));
    assert_eq!(query.stage, ModuleStage::Done { info: None });
}

#[test]
fn module_that_is_nowhere() {
    let mut query = get_module_info(Some("none.dll"));
    query.advance(ModuleReply::Handle(None));
    assert_eq!(query.stage, ModuleStage::Done { info: None });
    let query = get_module_info(Some("sa\0mp.dll"));
    assert_eq!(query.request(), None);
    assert_eq!(query.stage, ModuleStage::Done { info: None });
}

#[test]
fn pattern_with_a_wildcard() {
    let module = b"\x00\x55\x8B\xED\x55\x8B\xEC\x83\x56\x57\x00\x55\x8B\xEC\x90\x56\x57\x00";
    let found = pattern_scan(0x1000_0000, module, b"\x55\x8B\xEC\x00\x56\x57", "xxx?xx");
    assert_eq!(found, Some(0x1000_0004));
}

#[test]
fn pattern_that_starts_with_a_wildcard() {
    assert_eq!(pattern_scan(0x100, b"\x01\x02\x03\x04", b"\xFF\x03", "?x"), Some(0x101));
}

#[test]
fn pattern_at_the_very_end() {
    assert_eq!(pattern_scan(0x100, b"\x01\x02\x03\x04", b"\x03\x04", "xx"), Some(0x102));
    assert_eq!(pattern_scan(0x100, b"\x03\x04", b"\x03\x04", "xx"), Some(0x100));
}

#[test]
fn pattern_that_is_not_there() {
    assert_eq!(pattern_scan(0x100, b"\x01\x02\x03\x04", b"\x04\x03", "xx"), None);
    assert_eq!(pattern_scan(0x100, b"\x01\x02", b"\x01\x02\x03", "xxx"), None);
    assert_eq!(pattern_scan(0x100, b"", b"", ""), None);
}
