use parawasm::error::Error;
use parawasm::frame::Frame;
use parawasm::lower::Op;
use parawasm::session::{copy_types, peak_height, Session};
use parawasm::types::{MemoryType, Signature, ValueType};

#[test]
fn peak_is_the_greatest_height() {
    assert_eq!(peak_height(&vec![]), 0);
    assert_eq!(peak_height(&vec![1, 2, 3, 2, 1]), 3);
    assert_eq!(peak_height(&vec![0, 0]), 0);
    assert_eq!(peak_height(&vec![u32::MAX, 1]), u32::MAX);
}

#[test]
fn copy_types_copies() {
    let types = vec![ValueType::I32, ValueType::V128];
    assert_eq!(copy_types(&types), types);
}

#[test]
fn session_without_functions_gives_empty_code() {
    let mut session = Session::new();
    session.add_memory(MemoryType { memory64: true, shared: false, initial: 1, maximum: None });
    let module = session.finish().unwrap();
    assert_eq!(module.binary(), &[] as &[u8]);
    assert_eq!(module.memory_types().len(), 1);
    assert_eq!(module.function_entry_point(0u32), None);
}

#[test]
fn body_without_declaration_is_inconsistent() {
    let mut session = Session::new();
    assert!(matches!(session.begin_body(), Err(Error::Inconsistent)));
    session.add_function(0).unwrap();
    // the signature with index 0 was never recorded
    assert!(matches!(session.begin_body(), Err(Error::Inconsistent)));
}

#[test]
fn session_compiles_from_plain_values() {
    let mut session = Session::new();
    session
        .add_type(Signature { params: vec![ValueType::I64], results: vec![ValueType::I64] })
        .unwrap();
    session.add_import("env".to_string(), Some("id".to_string()), 0).unwrap();
    session.add_import("env".to_string(), None, 0).unwrap();
    session.add_function(0).unwrap();
    session.add_export("twice".to_string(), 2);
    session.add_export("gone".to_string(), 9);
    session.add_export("twice".to_string(), 2);

    let start = session.begin_body().unwrap();
    assert_eq!(start.index, 2);
    assert_eq!(start.params, vec![ValueType::I64]);
    assert_eq!(start.results, vec![ValueType::I64]);
    let mut frame = Frame::new();
    frame.extend(1, ValueType::I64).unwrap();
    session.prologue(&start.params, &frame).unwrap();
    for op in [Op::LocalGet(0), Op::Call(0), Op::Call(0), Op::End] {
        session.operator(frame.slots(), op).unwrap();
    }
    assert!(matches!(session.operator(frame.slots(), Op::Other), Err(Error::Unsupported)));
    session.end_body(&start, frame.size(), 1).unwrap();

    let module = session.finish().unwrap();
    let code = module.binary();
    // two import slots and the slot of the function come first
    assert_eq!(&code[0..8], &0xBADC0FFEE0DDF00Du64.to_le_bytes());
    assert_eq!(&code[8..16], &0xBADC0FFEE0DDF00Du64.to_le_bytes());
    assert_eq!(&code[16..24], &24u64.to_le_bytes());
    assert_eq!(module.function_slot("twice"), Some(16));
    assert_eq!(module.function_slot(0u32), None);
    assert_eq!(module.tables().import_slot("env", Some("id")), Some(0));
    assert_eq!(module.tables().import_slot("env", None), None);
    assert_eq!(module.function_entry_point("twice"), Some(24));
    assert_eq!(module.function_entry_point(2u32), Some(24));
    assert_eq!(module.function_entry_point(0u32), None);
    assert_eq!(module.function_entry_point("gone"), None);
    assert_eq!(module.function_stack_height("twice"), Some(1));
    assert_eq!(module.function_stack_height(1u32), None);
    assert_eq!(module.tables().export("twice"), Some(2));
    assert_eq!(module.tables().export("gone"), Some(9));
    assert_eq!(module.tables().export("none"), None);
    assert_eq!(code[24], 0x55);
    assert_eq!(*code.last().unwrap(), 0xC3);
}

#[test]
fn later_export_of_a_name_wins() {
    let mut session = Session::new();
    session.add_export("f".to_string(), 1);
    session.add_export("g".to_string(), 2);
    session.add_export("f".to_string(), 3);
    let module = session.finish().unwrap();
    assert_eq!(module.tables().export("f"), Some(3));
    assert_eq!(module.tables().export("g"), Some(2));
}
