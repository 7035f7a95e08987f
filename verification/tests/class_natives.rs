use jvm_core::class_file::{parse, ClassFile};
use jvm_core::class_natives::{class_native, ClassAnswer};

fn u16s(out: &mut Vec<u8>, v: u16) {
    out.extend_from_slice(&v.to_be_bytes());
}

fn utf8(cp: &mut Vec<u8>, s: &str) {
    cp.push(1);
    u16s(cp, s.len() as u16);
    cp.extend_from_slice(s.as_bytes());
}

/// A class `name` with superclass `sup` (none when empty), the access
/// flags given and the interfaces named.
fn class(name: &str, sup: &str, flags: u16, ifaces: &[&str]) -> ClassFile {
    let mut cp = Vec::new();
    let mut count: u16 = 1;
    let mut add_class = |cp: &mut Vec<u8>, n: &str| -> u16 {
        utf8(cp, n);
        cp.push(7);
        u16s(cp, count);
        count += 2;
        count - 1
    };
    let this = add_class(&mut cp, name);
    let sup_idx = if sup.is_empty() { 0 } else { add_class(&mut cp, sup) };
    let iface_idx: Vec<u16> = ifaces.iter().map(|i| add_class(&mut cp, i)).collect();
    let mut out = Vec::new();
    out.extend_from_slice(&0xCAFE_BABEu32.to_be_bytes());
    u16s(&mut out, 0);
    u16s(&mut out, 61);
    u16s(&mut out, count);
    out.extend_from_slice(&cp);
    u16s(&mut out, flags);
    u16s(&mut out, this);
    u16s(&mut out, sup_idx);
    u16s(&mut out, iface_idx.len() as u16);
    for i in iface_idx {
        u16s(&mut out, i);
    }
    u16s(&mut out, 0);
    u16s(&mut out, 0);
    u16s(&mut out, 0);
    parse(&out).expect("parse")
}

fn classes() -> Vec<ClassFile> {
    vec![
        class("pkg/A", "pkg/B", 0x0021, &["pkg/I"]),
        class("pkg/B", "java/lang/Object", 0x0021, &[]),
        class("pkg/I", "java/lang/Object", 0x0601, &[]),
    ]
}

#[test]
fn get_name_uses_dots() {
    match class_native(&classes(), "pkg/A", "getName", None) {
        Some(ClassAnswer::Text(t)) => assert_eq!(t, "pkg.A"),
        _ => panic!("expected a name"),
    }
}

#[test]
fn superclass_of_a_loaded_class_an_array_and_a_primitive() {
    let cs = classes();
    assert!(matches!(class_native(&cs, "pkg/A", "getSuperclass", None), Some(ClassAnswer::Class(Some(s))) if s == "pkg/B"));
    assert!(matches!(class_native(&cs, "[I", "getSuperclass", None), Some(ClassAnswer::Class(Some(s))) if s == "java/lang/Object"));
    assert!(matches!(class_native(&cs, "int", "getSuperclass", None), Some(ClassAnswer::Class(None))));
    assert!(matches!(class_native(&cs, "pkg/Unknown", "getSuperclass", None), Some(ClassAnswer::Class(Some(s))) if s == "java/lang/Object"));
}

#[test]
fn interfaces_and_interface_flag() {
    let cs = classes();
    match class_native(&cs, "pkg/A", "getInterfaces", None) {
        Some(ClassAnswer::Classes(v)) => assert_eq!(v, vec!["pkg/I".to_string()]),
        _ => panic!("expected interfaces"),
    }
    match class_native(&cs, "[Ljava/lang/String;", "getInterfaces", None) {
        Some(ClassAnswer::Classes(v)) => assert_eq!(v, vec!["java/lang/Cloneable".to_string(), "java/io/Serializable".to_string()]),
        _ => panic!("expected interfaces"),
    }
    assert!(matches!(class_native(&cs, "pkg/I", "isInterface", None), Some(ClassAnswer::Int(1))));
    assert!(matches!(class_native(&cs, "pkg/A", "isInterface", None), Some(ClassAnswer::Int(0))));
    assert!(matches!(class_native(&cs, "pkg/I", "getModifiers", None), Some(ClassAnswer::Int(0x0601))));
}

#[test]
fn component_types_of_arrays() {
    let cs = classes();
    assert!(matches!(class_native(&cs, "[I", "getComponentType", None), Some(ClassAnswer::Class(Some(s))) if s == "int"));
    assert!(matches!(class_native(&cs, "[Lpkg/A;", "getComponentType", None), Some(ClassAnswer::Class(Some(s))) if s == "pkg/A"));
    assert!(matches!(class_native(&cs, "[[J", "getComponentType", None), Some(ClassAnswer::Class(Some(s))) if s == "[J"));
    assert!(matches!(class_native(&cs, "pkg/A", "getComponentType", None), Some(ClassAnswer::Class(None))));
}

#[test]
fn instance_checks_follow_the_superclasses() {
    let cs = classes();
    assert!(matches!(class_native(&cs, "pkg/B", "isInstance", Some("pkg/A")), Some(ClassAnswer::Int(1))));
    assert!(matches!(class_native(&cs, "pkg/A", "isAssignableFrom", Some("pkg/B")), Some(ClassAnswer::Int(0))));
    assert!(matches!(class_native(&cs, "java/lang/Object", "isInstance", Some("[I")), Some(ClassAnswer::Int(1))));
    assert!(matches!(class_native(&cs, "pkg/B", "isInstance", None), Some(ClassAnswer::Int(0))));
    assert!(class_native(&cs, "pkg/B", "toString", None).is_none());
}

#[test]
fn for_name_turns_dots_into_slashes() {
    assert_eq!(jvm_core::class_natives::class_for_name("java.util.List"), "java/util/List");
    assert_eq!(jvm_core::class_natives::class_for_name("[Ljava.lang.String;"), "[Ljava/lang/String;");
}

#[test]
fn instance_checks_follow_the_interfaces() {
    let cs = classes();
    assert!(matches!(class_native(&cs, "pkg/I", "isInstance", Some("pkg/A")), Some(ClassAnswer::Int(1))));
    assert!(matches!(class_native(&cs, "pkg/I", "isAssignableFrom", Some("pkg/B")), Some(ClassAnswer::Int(0))));
}
