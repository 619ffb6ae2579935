use parawasm::compiler::{compile_module, Compiler, X86_64Compiler};
use parawasm::error::Error;

#[test]
fn supports_memory64() {
    let src = r#"
    (module (memory i64 1))
    "#;
    let binary = wat::parse_str(src).expect("binary module");
    let module = X86_64Compiler::default()
        .compile(&binary)
        .expect("compiled module");
    assert_eq!(1, module.memory_types().len());
    assert!(module.memory_types()[0].memory64);
}

#[test]
fn supports_multiple_memories() {
    let src = r#"
    (module (memory i64 1) (memory i32 1))
    "#;
    let binary = wat::parse_str(src).expect("binary module");
    let module = X86_64Compiler::default()
        .compile(&binary)
        .expect("compiled module");
    assert_eq!(2, module.memory_types().len());
    assert!(module.memory_types()[0].memory64);
    assert!(!module.memory_types()[1].memory64);
}

#[test]
fn should_not_compile_mismatched_stack_height_function() {
    let foo_src = r#"
    (module
      (func (export "foo")
        i64.const 10
      )
    )
    "#;
    let foo_binary = wat::parse_str(foo_src).expect("binary module");
    assert!(X86_64Compiler::default().compile(&foo_binary).is_err());
}

#[test]
fn function_stack_height() {
    let foo_src = r#"
    (module
      (func (export "foo") (result i64)
        (i64.const 10)
        (i64.const 20)
        (i64.const 30)
        i64.add
        i64.add
      )
    )
    "#;

    let foo_binary = wat::parse_str(foo_src).expect("binary module");
    let foo_module = X86_64Compiler::default()
        .compile(&foo_binary)
        .expect("compiled module");

    assert_eq!(3, foo_module.function_stack_height("foo").unwrap());
}

#[test]
fn mismatched_stack_height_is_a_reader_error() {
    let binary = wat::parse_str("(module (func (export \"foo\") i64.const 10))").unwrap();
    assert!(matches!(compile_module(&binary), Err(Error::ParserError(_))));
}

#[test]
fn empty_input_is_refused() {
    assert!(matches!(compile_module(&[]), Err(Error::ParserError(_))));
}

#[test]
fn truncated_input_is_refused() {
    let binary = wat::parse_str("(module (func (export \"foo\") (result i64) i64.const 42))").unwrap();
    let cut = &binary[..binary.len() - 3];
    assert!(matches!(compile_module(cut), Err(Error::ParserError(_))));
}

#[test]
fn float_operator_is_unsupported() {
    let binary = wat::parse_str("(module (func (result f32) f32.const 1.5))").unwrap();
    assert!(matches!(compile_module(&binary), Err(Error::Unsupported)));
}

#[test]
fn reference_local_has_no_size() {
    let binary = wat::parse_str("(module (func (local funcref)))").unwrap();
    assert!(matches!(compile_module(&binary), Err(Error::UnsupportedType)));
}

#[test]
fn entry_points_by_index_and_by_name_agree() {
    let binary = wat::parse_str(
        "(module (func (export \"a\") (result i64) i64.const 1) (func (export \"b\") (result i64) i64.const 2))",
    )
    .unwrap();
    let module = compile_module(&binary).unwrap();
    assert_eq!(module.function_entry_point("a"), module.function_entry_point(0u32));
    assert_eq!(module.function_entry_point("b"), module.function_entry_point(1u32));
    assert!(module.function_entry_point("a").is_some());
    assert_ne!(module.function_entry_point("a"), module.function_entry_point("b"));
    assert_eq!(module.function_entry_point("c"), None);
    assert_eq!(module.function_entry_point(2u32), None);
    assert_eq!(module.function_stack_height(0u32), Some(1));
}

#[test]
fn kept_prologue_starts_with_push_rbp() {
    let binary = wat::parse_str(
        "(module (func (export \"f\") (param i64) (result i64) local.get 0))",
    )
    .unwrap();
    let module = compile_module(&binary).unwrap();
    let entry = module.function_entry_point("f").unwrap();
    assert_eq!(module.binary()[entry], 0x55);
}

#[test]
fn import_slots_hold_the_unlinked_mark() {
    let binary = wat::parse_str(
        "(module (func $a (import \"m\" \"a\")) (func $b (import \"m\" \"b\")) (func (export \"f\") call $a call $b))",
    )
    .unwrap();
    let module = compile_module(&binary).unwrap();
    let a = module.tables().import_slot("m", Some("a")).unwrap();
    let b = module.tables().import_slot("m", Some("b")).unwrap();
    assert_ne!(a, b);
    for at in [a, b] {
        assert_eq!(&module.binary()[at..at + 8], &0xBADC0FFEE0DDF00Du64.to_le_bytes());
    }
    assert_eq!(module.tables().import_slot("m", Some("c")), None);
    assert_eq!(module.tables().import_slot("m", None), None);
    assert_eq!(module.tables().import_slot("n", Some("a")), None);
}

#[test]
fn link_import_writes_the_address_once() {
    let binary = wat::parse_str(
        "(module (func $a (import \"m\" \"a\")) (func $b (import \"m\" \"b\")) (func (export \"f\") call $a call $b))",
    )
    .unwrap();
    let mut module = compile_module(&binary).unwrap();
    let a = module.tables().import_slot("m", Some("a")).unwrap();
    let b = module.tables().import_slot("m", Some("b")).unwrap();
    let before = module.binary().to_vec();
    module.link_import("m", Some("b"), 0x1122334455667788);
    let once = module.binary().to_vec();
    assert_eq!(&once[b..b + 8], &[0x88, 0x77, 0x66, 0x55, 0x44, 0x33, 0x22, 0x11]);
    assert_eq!(&once[a..a + 8], &before[a..a + 8]);
    assert_eq!(once.len(), before.len());
    for i in 0..once.len() {
        if i < b || i >= b + 8 {
            assert_eq!(once[i], before[i]);
        }
    }
    module.link_import("m", Some("b"), 0x1122334455667788);
    assert_eq!(module.binary(), &once[..]);
    module.link_import("m", None, 7);
    module.link_import("x", Some("b"), 7);
    assert_eq!(module.binary(), &once[..]);
}

#[test]
fn function_that_does_nothing_loses_its_frame() {
    let binary = wat::parse_str(
        "(module (func (export \"idle\")) (func (export \"busy\") (result i64) i64.const 1))",
    )
    .unwrap();
    let module = compile_module(&binary).unwrap();
    assert_eq!(module.function_keeps_frame("idle"), Some(false));
    assert_eq!(module.function_keeps_frame("busy"), Some(true));
    assert_eq!(module.function_keeps_frame("none"), None);
    assert_eq!(module.binary()[module.function_entry_point("idle").unwrap()], 0xC3);
    assert_eq!(module.binary()[module.function_entry_point("busy").unwrap()], 0x55);
    assert_eq!(module.function_stack_height("idle"), Some(0));
}

#[test]
fn linking_leaves_entry_bytes_alone() {
    let binary = wat::parse_str(
        "(module (func $a (import \"m\" \"a\")) (func (export \"f\") (result i64) call $a i64.const 1))",
    )
    .unwrap();
    let mut module = compile_module(&binary).unwrap();
    module.link_import("m", Some("a"), 0x5555_5555_5555_5555);
    assert_eq!(module.function_keeps_frame("f"), Some(true));
    assert_eq!(module.binary()[module.function_entry_point("f").unwrap()], 0x55);
    assert_eq!(module.function_entry_point(0u32), None);
    assert_eq!(module.tables().imports().len(), 1);
    assert_eq!(module.tables().imports()[0].index, 0);
    assert_eq!(module.tables().declared_functions(), 1);
}

#[test]
fn exported_import_has_no_entry_point() {
    let binary = wat::parse_str(
        "(module (func $a (import \"m\" \"a\")) (export \"again\" (func $a)) (memory (export \"mem\") 1))",
    )
    .unwrap();
    let module = compile_module(&binary).unwrap();
    assert_eq!(module.function_entry_point("again"), None);
    assert_eq!(module.function_stack_height("again"), None);
    assert_eq!(module.function_entry_point("mem"), None);
    assert_eq!(module.memory_types().len(), 1);
    assert!(!module.memory_types()[0].memory64);
}

#[test]
fn compiling_twice_gives_the_same_code() {
    let binary = wat::parse_str(
        "(module (func $a (import \"m\" \"a\") (param i64)) (func (export \"f\") (param i32 i64) (local i64 i32) local.get 1 call $a))",
    )
    .unwrap();
    let one = compile_module(&binary).unwrap();
    let two = compile_module(&binary).unwrap();
    assert_eq!(one.binary(), two.binary());
    assert_eq!(one.function_entry_point("f"), two.function_entry_point("f"));
}

#[test]
fn function_slots_hold_entry_points() {
    let binary = wat::parse_str(
        "(module (func $a (import \"m\" \"a\")) (func (export \"f\") (result i64) i64.const 1) (func (export \"g\") call $a))",
    )
    .unwrap();
    let mut module = compile_module(&binary).unwrap();
    for name in ["f", "g"] {
        let at = module.function_slot(name).unwrap();
        let entry = module.function_entry_point(name).unwrap() as u64;
        assert_eq!(&module.binary()[at..at + 8], &entry.to_le_bytes());
    }
    assert_ne!(module.function_slot("f"), module.function_slot("g"));
    assert_eq!(module.function_slot(0u32), None);
    module.link_import("m", Some("a"), u64::MAX);
    for name in ["f", "g"] {
        let at = module.function_slot(name).unwrap();
        let entry = module.function_entry_point(name).unwrap() as u64;
        assert_eq!(&module.binary()[at..at + 8], &entry.to_le_bytes());
    }
}

#[test]
fn wrong_magic_is_a_reader_error() {
    let bytes = [0x00, 0x00, 0x00, 0x00, 0x01, 0x00, 0x00, 0x00];
    assert!(matches!(compile_module(&bytes), Err(Error::ParserError(_))));
    assert!(matches!(compile_module(&[0x00, 0x61, 0x73]), Err(Error::ParserError(_))));
}

#[test]
fn exported_name_and_index_agree() {
    let binary = wat::parse_str(
        r#"(module
            (func $a (import "m" "a"))
            (func (export "one") (result i64) i64.const 1)
            (func (export "three") (export "again") (result i64)
                i64.const 1 i64.const 2 i64.const 3 i64.add i64.add))"#,
    )
    .unwrap();
    let module = compile_module(&binary).unwrap();
    for (name, index, height) in [("one", 1u32, 1u32), ("three", 2, 3), ("again", 2, 3)] {
        assert_eq!(module.function_stack_height(name), Some(height));
        assert_eq!(module.function_stack_height(name), module.function_stack_height(index));
        assert!(module.function_entry_point(name).is_some());
        assert_eq!(module.function_entry_point(name), module.function_entry_point(index));
    }
}

#[test]
fn height_is_the_greatest_depth_not_the_last() {
    let binary = wat::parse_str(
        "(module (func (export \"f\") i64.const 1 i64.const 2 drop drop))",
    )
    .unwrap();
    let module = compile_module(&binary).unwrap();
    assert_eq!(module.function_stack_height("f"), Some(2));
}

#[test]
fn memories_keep_their_order() {
    let binary = wat::parse_str(
        "(module (memory 1 2) (memory i64 3) (memory 5 6 shared) (func (export \"f\")))",
    )
    .unwrap();
    let module = compile_module(&binary).unwrap();
    let memories = module.memory_types();
    assert_eq!(memories.len(), 3);
    assert_eq!((memories[0].initial, memories[0].maximum, memories[0].memory64), (1, Some(2), false));
    assert_eq!((memories[1].initial, memories[1].maximum, memories[1].memory64), (3, None, true));
    assert_eq!((memories[2].initial, memories[2].maximum, memories[2].shared), (5, Some(6), true));
}

#[test]
fn a_body_the_validator_refuses_is_a_reader_error_whatever_it_uses() {
    // the float operators are not lowered, and the body leaves a value too many
    let binary = wat::parse_str("(module (func f32.const 1 f32.const 2 f32.add))").unwrap();
    assert!(matches!(compile_module(&binary), Err(Error::ParserError(_))));
    // before the refused body, an earlier body that is not lowered is refused first
    let binary = wat::parse_str(
        "(module (func (result f32) f32.const 1) (func i64.const 1))",
    )
    .unwrap();
    assert!(matches!(compile_module(&binary), Err(Error::Unsupported)));
}

#[test]
fn nested_modules_are_unsupported() {
    // a module section (id 14) with no entries
    let bytes = [0x00, 0x61, 0x73, 0x6d, 0x01, 0x00, 0x00, 0x00, 14, 1, 0];
    assert!(matches!(compile_module(&bytes), Err(Error::Unsupported)));
}
