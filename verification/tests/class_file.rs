use jvm_core::annotations::{
    parse_runtime_visible_annotation_types, parse_runtime_visible_parameter_annotation_types,
    try_parse_runtime_visible_annotation_types,
};
use jvm_core::class_file::{parse, parse_checked, parse_class_name, Attribute};
use jvm_core::class_identity::{ClassIdentityRegistry, LoaderId};
use jvm_core::hierarchy::{link_class_file, ClassHierarchy};

fn u16be(v: u16) -> [u8; 2] {
    v.to_be_bytes()
}

fn utf8(out: &mut Vec<u8>, s: &str) {
    out.push(1);
    out.extend_from_slice(&u16be(s.len() as u16));
    out.extend_from_slice(s.as_bytes());
}

/// A class `Foo` extending `java/lang/Object`, with `static void main()`
/// (a single `return`), and, when given, one class attribute.
fn class_bytes(class_attr: Option<(&str, Vec<u8>)>) -> Vec<u8> {
    let mut b = vec![0xCA, 0xFE, 0xBA, 0xBE, 0, 0, 0, 52];
    let mut cp = Vec::new();
    cp.push(7);
    cp.extend_from_slice(&u16be(2)); // #1 Class Foo
    utf8(&mut cp, "Foo"); // #2
    cp.push(7);
    cp.extend_from_slice(&u16be(4)); // #3 Class java/lang/Object
    utf8(&mut cp, "java/lang/Object"); // #4
    utf8(&mut cp, "main"); // #5
    utf8(&mut cp, "()V"); // #6
    utf8(&mut cp, "Code"); // #7
    utf8(&mut cp, "Lpkg/Marker;"); // #8
    utf8(&mut cp, "Lpkg/Other;"); // #9
    utf8(&mut cp, "I"); // #10
    let mut count: u16 = 11;
    if let Some((name, _)) = &class_attr {
        utf8(&mut cp, name); // #11
        count = 12;
    }
    b.extend_from_slice(&u16be(count));
    b.extend_from_slice(&cp);
    b.extend_from_slice(&u16be(0x21)); // access
    b.extend_from_slice(&u16be(1)); // this
    b.extend_from_slice(&u16be(3)); // super
    b.extend_from_slice(&u16be(0)); // interfaces
    b.extend_from_slice(&u16be(0)); // fields
    b.extend_from_slice(&u16be(1)); // methods
    b.extend_from_slice(&u16be(0x09));
    b.extend_from_slice(&u16be(5));
    b.extend_from_slice(&u16be(6));
    b.extend_from_slice(&u16be(1)); // one attribute: Code
    b.extend_from_slice(&u16be(7));
    let code: Vec<u8> = vec![0, 1, 0, 1, 0, 0, 0, 1, 0xB1, 0, 0, 0, 0];
    b.extend_from_slice(&(code.len() as u32).to_be_bytes());
    b.extend_from_slice(&code);
    match class_attr {
        Some((_, data)) => {
            b.extend_from_slice(&u16be(1));
            b.extend_from_slice(&u16be(11));
            b.extend_from_slice(&(data.len() as u32).to_be_bytes());
            b.extend_from_slice(&data);
        }
        None => b.extend_from_slice(&u16be(0)),
    }
    b
}

#[test]
fn test_invalid_magic() {
    let data = [0xDE, 0xAD, 0xBE, 0xEF];
    assert!(parse(&data).is_err());
}

#[test]
fn invalid_magic_message_names_the_magic() {
    let data = [0xDE, 0xAD, 0xBE, 0xEF];
    match parse(&data) {
        Err(e) => assert_eq!(e, "Invalid magic: 0xDEADBEEF"),
        Ok(_) => panic!("expected an error"),
    }
}

#[test]
fn parses_a_minimal_class() {
    let bytes = class_bytes(None);
    let cf = parse(&bytes).expect("parse");
    assert_eq!(cf.major_version, 52);
    assert_eq!(cf.access_flags, 0x21);
    assert_eq!(cf.constant_pool.class_name(cf.this_class), "Foo");
    assert_eq!(cf.constant_pool.class_name(cf.super_class), "java/lang/Object");
    assert_eq!(cf.methods.len(), 1);
    let m = &cf.methods[0];
    assert_eq!(cf.constant_pool.utf8(m.name_index), "main");
    assert_eq!(cf.constant_pool.utf8(m.descriptor_index), "()V");
    let code = m.code().expect("code attribute");
    assert_eq!(code.max_stack, 1);
    assert_eq!(code.max_locals, 1);
    assert_eq!(code.code, vec![0xB1]);
    assert!(code.exception_table.is_empty());
}

#[test]
fn parse_class_name_reads_this_class() {
    let bytes = class_bytes(None);
    assert_eq!(parse_class_name(&bytes), Some("Foo".to_owned()));
    assert_eq!(parse_class_name(&[0xCA, 0xFE, 0xBA, 0xBE]), None);
    assert_eq!(parse_class_name(&[0xDE, 0xAD, 0xBE, 0xEF, 0, 0, 0, 52, 0, 1]), None);
}

#[test]
fn truncated_class_is_reported_by_the_checked_parse() {
    let bytes = class_bytes(None);
    assert!(parse_checked(&bytes[..bytes.len() - 3]).is_none());
    assert!(matches!(parse_checked(&bytes), Some(Ok(_))));
    assert!(matches!(parse_checked(&[0, 1, 2, 3]), Some(Err(_))));
}

#[test]
fn unknown_attribute_keeps_its_bytes() {
    let bytes = class_bytes(Some(("Custom", vec![1, 2, 3])));
    let cf = parse(&bytes).expect("parse");
    match &cf.attributes[0] {
        Attribute::Unknown { name, data } => {
            assert_eq!(name, "Custom");
            assert_eq!(data, &vec![1, 2, 3]);
        }
        other => panic!("unexpected attribute {other:?}"),
    }
}

#[test]
fn annotation_types_are_read_from_the_attribute() {
    // two annotations: @pkg.Marker() and @pkg.Other(x = 5), then a truncated third
    let data = vec![0, 3, 0, 8, 0, 0, 0, 9, 0, 1, 0, 10, b'I', 0, 10, 0];
    let bytes = class_bytes(Some(("RuntimeVisibleAnnotations", data)));
    let cf = parse(&bytes).expect("parse");
    let types = parse_runtime_visible_annotation_types(&cf.attributes, &cf.constant_pool);
    assert_eq!(types, vec!["pkg/Marker".to_owned(), "pkg/Other".to_owned()]);
}

#[test]
fn annotation_type_index_that_is_not_utf8_is_refused() {
    let data = vec![0, 1, 0, 1, 0, 0];
    let bytes = class_bytes(Some(("RuntimeVisibleAnnotations", data)));
    let cf = parse(&bytes).expect("parse");
    assert!(try_parse_runtime_visible_annotation_types(&cf.attributes, &cf.constant_pool).is_none());
}

#[test]
fn non_class_annotation_descriptor_is_skipped() {
    // the type descriptor `I` is not an `L...;` class descriptor
    let data = vec![0, 2, 0, 10, 0, 0, 0, 8, 0, 0];
    let bytes = class_bytes(Some(("RuntimeVisibleAnnotations", data)));
    let cf = parse(&bytes).expect("parse");
    let types = parse_runtime_visible_annotation_types(&cf.attributes, &cf.constant_pool);
    assert_eq!(types, vec!["pkg/Marker".to_owned()]);
}

#[test]
fn parameter_annotation_types_per_parameter() {
    // 3 parameters declared: the first has @Marker, the second none, the
    // third @Other with a nested array value; only 2 parameters are asked for.
    let data = vec![
        3, 0, 1, 0, 8, 0, 0, 0, 0, 0, 1, 0, 9, 0, 1, 0, 10, b'[', 0, 2, b'I', 0, 10, b'Z', 0, 10,
    ];
    let bytes = class_bytes(Some(("RuntimeVisibleParameterAnnotations", data)));
    let cf = parse(&bytes).expect("parse");
    let types = parse_runtime_visible_parameter_annotation_types(&cf.attributes, &cf.constant_pool, 2);
    assert_eq!(types, vec![vec!["pkg/Marker".to_owned()], vec![]]);
    let more = parse_runtime_visible_parameter_annotation_types(&cf.attributes, &cf.constant_pool, 4);
    assert_eq!(
        more,
        vec![vec!["pkg/Marker".to_owned()], vec![], vec!["pkg/Other".to_owned()], vec![]]
    );
}

#[test]
fn class_name_agrees_with_full_parse() {
    let bytes = class_bytes(Some(("Custom", vec![9])));
    let cf = parse(&bytes).expect("parse");
    assert_eq!(
        parse_class_name(&bytes).as_deref(),
        Some(cf.constant_pool.class_name(cf.this_class))
    );
}

#[test]
fn parsed_class_links_with_its_declared_methods() {
    let bytes = class_bytes(None);
    let cf = parse(&bytes).expect("parse");
    let mut registry = ClassIdentityRegistry::new();
    let id = registry.register_defined_class(LoaderId::SYSTEM, "Foo");
    let linked = link_class_file(&cf, id, None, vec![]).expect("linkable");
    assert_eq!(linked.name, "Foo");
    assert_eq!(linked.access_flags, 0x21);
    assert_eq!(linked.methods.len(), 1);
    assert_eq!(linked.methods[0].name, "main");
    assert_eq!(linked.methods[0].descriptor, "()V");
    assert_eq!(linked.methods[0].access_flags, 0x09);
    assert!(linked.fields.is_empty());
    let mut h = ClassHierarchy::new();
    h.link(linked).expect("link");
    let target = h.declared_method_by_class_id(id, "main", "()V").expect("declared");
    assert_eq!(target.owner_class, "Foo");
    assert!(h.declared_method_by_class_id(id, "main", "(I)V").is_none());
    assert_eq!(cf.constant_pool.class_name_entry(cf.this_class), Some("Foo"));
    assert_eq!(cf.constant_pool.class_name_entry(2), None);
    assert_eq!(cf.constant_pool.class_name_entry(200), None);
}

#[test]
fn ascii_class_names_are_read_exactly() {
    let data = [
        0xCA, 0xFE, 0xBA, 0xBE, 0x00, 0x00, 0x00, 0x41, 0x00, 0x03, 0x01, 0x00, 0x09, 0x70, 0x6B, 0x67, 0x2F, 0x54,
        0x68, 0x69, 0x6E, 0x67, 0x07, 0x00, 0x01, 0x00, 0x21, 0x00, 0x02,
    ];
    assert_eq!(jvm_core::class_file::parse_class_name(&data), Some("pkg/Thing".to_string()));
    let mut longer = data.to_vec();
    longer.extend_from_slice(&[1, 2, 3]);
    assert_eq!(jvm_core::class_file::parse_class_name(&longer), Some("pkg/Thing".to_string()));
}
