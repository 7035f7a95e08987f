use jvm_core::bytecode::Value;
use jvm_core::heap::{Heap, HeapObject, Payload};
use jvm_core::class_file::{parse, ConstantPool};
use jvm_core::string_concat::{concat_constant, concat_recipe, string_concat, ConstantText};

fn units(s: &str) -> Vec<u16> {
    s.encode_utf16().collect()
}

fn heap_with(texts: &[&str]) -> Heap {
    let mut h = Heap::new();
    for t in texts {
        h.allocate(HeapObject { class_name: "java/lang/String".to_string(), payload: Payload::JavaString(t.to_string()), fields: vec![] });
    }
    h.allocate(HeapObject { class_name: "pkg/Point".to_string(), payload: Payload::Plain, fields: vec![] });
    h
}

#[test]
fn recipe_fills_in_arguments_and_constants() {
    let h = heap_with(&["abc"]);
    let r = string_concat(
        &h,
        "x=\u{1}, s=\u{1}, c=\u{1}, b=\u{1}\u{2}!",
        &vec!['I', 'L', 'C', 'Z'],
        &vec![Value::Int(-5), Value::Ref(Some(0)), Value::Int(65), Value::Int(1)],
        &vec!["K".to_string()],
    );
    assert_eq!(r, Some(units("x=-5, s=abc, c=A, b=trueK!")));
}

#[test]
fn null_long_and_false_render_as_java_does() {
    let h = heap_with(&[]);
    let r = string_concat(&h, "\u{1}|\u{1}|\u{1}", &vec!['L', 'J', 'Z'], &vec![Value::Ref(None), Value::Long(-9000000000), Value::Int(0)], &vec![]);
    assert_eq!(r, Some(units("null|-9000000000|false")));
}

#[test]
fn missing_arguments_and_constants_add_nothing() {
    let h = heap_with(&[]);
    let r = string_concat(&h, "a\u{1}b\u{2}c", &vec![], &vec![], &vec![]);
    assert_eq!(r, Some(units("abc")));
}

#[test]
fn characters_outside_the_basic_plane_become_surrogate_pairs() {
    let h = heap_with(&[]);
    let r = string_concat(&h, "\u{1F600}", &vec![], &vec![], &vec![]);
    assert_eq!(r, Some(vec![0xd83d, 0xde00]));
}

#[test]
fn floats_and_plain_objects_are_not_rendered_here() {
    let h = heap_with(&[]);
    assert_eq!(string_concat(&h, "\u{1}", &vec!['F'], &vec![Value::Float(0)], &vec![]), None);
    assert_eq!(string_concat(&h, "\u{1}", &vec!['L'], &vec![Value::Ref(Some(0))], &vec![]), None);
}

fn pool() -> ConstantPool {
    fn u16s(out: &mut Vec<u8>, v: u16) {
        out.extend_from_slice(&v.to_be_bytes());
    }
    let mut cp = Vec::new();
    for s in ["pkg/C"] {
        cp.push(1);
        u16s(&mut cp, s.len() as u16);
        cp.extend_from_slice(s.as_bytes());
    }
    cp.push(7);
    u16s(&mut cp, 1); // 2 Class pkg/C
    cp.push(1);
    u16s(&mut cp, 4);
    cp.extend_from_slice(b"a=\x01!"); // 3
    cp.push(8);
    u16s(&mut cp, 3); // 4 String
    cp.push(3);
    cp.extend_from_slice(&42i32.to_be_bytes()); // 5 Integer
    cp.push(5);
    cp.extend_from_slice(&(-7i64).to_be_bytes()); // 6, 7 Long
    cp.push(4);
    cp.extend_from_slice(&1.5f32.to_bits().to_be_bytes()); // 8 Float
    let mut out = Vec::new();
    out.extend_from_slice(&0xCAFE_BABEu32.to_be_bytes());
    u16s(&mut out, 0);
    u16s(&mut out, 61);
    u16s(&mut out, 9);
    out.extend_from_slice(&cp);
    for v in [0x0021, 2, 0, 0, 0, 0, 0] {
        u16s(&mut out, v);
    }
    parse(&out).expect("parse").constant_pool
}

#[test]
fn the_recipe_comes_from_the_first_bootstrap_argument() {
    let p = pool();
    assert_eq!(concat_recipe(&p, &vec![4], 1), Some("a=\u{1}!".to_string()));
    assert_eq!(concat_recipe(&p, &vec![3], 1), Some("a=\u{1}!".to_string()));
    assert_eq!(concat_recipe(&p, &vec![], 2), Some("\u{1}\u{1}".to_string()));
    assert_eq!(concat_recipe(&p, &vec![5], 1), Some("\u{1}".to_string()));
    assert_eq!(concat_recipe(&p, &vec![50], 1), None);
}

#[test]
fn constants_render_as_the_concatenation_reads_them() {
    let p = pool();
    assert!(matches!(concat_constant(&p, 4), ConstantText::Text(t) if t == "a=\u{1}!"));
    assert!(matches!(concat_constant(&p, 2), ConstantText::Text(t) if t == "pkg/C"));
    assert!(matches!(concat_constant(&p, 5), ConstantText::Text(t) if t == "42"));
    assert!(matches!(concat_constant(&p, 6), ConstantText::Text(t) if t == "-7"));
    assert!(matches!(concat_constant(&p, 8), ConstantText::Elsewhere));
    assert!(matches!(concat_constant(&p, 99), ConstantText::Invalid(99)));
}
