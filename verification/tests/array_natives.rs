use jvm_core::array_natives::{array_get_length, string_get_bytes, string_to_char_array, system_arraycopy};
use jvm_core::bytecode::Value;
use jvm_core::heap::{Heap, HeapObject, Payload};

fn object(class_name: &str, payload: Payload) -> HeapObject {
    HeapObject { class_name: class_name.to_string(), payload, fields: Vec::new() }
}

#[test]
fn arraycopy_between_arrays() {
    let mut heap = Heap::new();
    let src = heap.allocate(object("[I", Payload::IntArray(vec![1, 2, 3, 4])));
    let dst = heap.allocate(object("[I", Payload::Array(vec![Value::Int(0); 4])));
    let args = vec![src, Value::Int(1), dst, Value::Int(0), Value::Int(2)];
    assert_eq!(system_arraycopy(&mut heap, &args), Some(Value::Void));
    assert_eq!(
        heap.objects[1].payload,
        Payload::Array(vec![Value::Int(2), Value::Int(3), Value::Int(0), Value::Int(0)])
    );
    assert_eq!(heap.objects[0].payload, Payload::IntArray(vec![1, 2, 3, 4]));
}

#[test]
fn arraycopy_within_one_array_moves_the_old_values() {
    let mut heap = Heap::new();
    let a = heap.allocate(object("[I", Payload::IntArray(vec![1, 2, 3, 4, 5])));
    let args = vec![a, Value::Int(0), a, Value::Int(1), Value::Int(3)];
    assert_eq!(system_arraycopy(&mut heap, &args), Some(Value::Void));
    assert_eq!(heap.objects[0].payload, Payload::IntArray(vec![1, 1, 2, 3, 5]));
}

#[test]
fn arraycopy_clamps_to_both_arrays() {
    let mut heap = Heap::new();
    let src = heap.allocate(object("[B", Payload::ByteArray(vec![0xff, 7])));
    let dst = heap.allocate(object("[I", Payload::IntArray(vec![9, 9, 9])));
    // one source element from index 1; negative positions count as 0
    let args = vec![src, Value::Int(1), dst, Value::Int(-4), Value::Int(5)];
    assert_eq!(system_arraycopy(&mut heap, &args), Some(Value::Void));
    assert_eq!(heap.objects[1].payload, Payload::IntArray(vec![7, 9, 9]));
    // bytes are read unsigned
    let args = vec![src, Value::Int(0), dst, Value::Int(2), Value::Int(5)];
    assert_eq!(system_arraycopy(&mut heap, &args), Some(Value::Void));
    assert_eq!(heap.objects[1].payload, Payload::IntArray(vec![7, 9, 255]));
}

#[test]
fn arraycopy_of_null_does_not_apply() {
    let mut heap = Heap::new();
    let dst = heap.allocate(object("[I", Payload::IntArray(vec![1])));
    let args = vec![Value::Ref(None), Value::Int(0), dst, Value::Int(0), Value::Int(1)];
    assert_eq!(system_arraycopy(&mut heap, &args), None);
    let args = vec![dst, Value::Int(0), Value::Ref(None), Value::Int(0), Value::Int(1)];
    assert_eq!(system_arraycopy(&mut heap, &args), None);
    assert_eq!(heap.objects[0].payload, Payload::IntArray(vec![1]));
}

#[test]
fn reflect_array_get_length() {
    let mut heap = Heap::new();
    let longs = heap.allocate(object("[J", Payload::LongArray(vec![1, 2, 3])));
    let plain = heap.allocate(object("java/lang/Object", Payload::Plain));
    assert_eq!(array_get_length(&heap, &vec![longs]), 3);
    assert_eq!(array_get_length(&heap, &vec![plain]), 0);
    assert_eq!(array_get_length(&heap, &vec![Value::Ref(None)]), 0);
    assert_eq!(array_get_length(&heap, &vec![]), 0);
}

#[test]
fn string_chars_and_bytes() {
    let mut heap = Heap::new();
    let s = heap.allocate(object("java/lang/String", Payload::JavaString("A\u{e9}".to_string())));
    let chars = string_to_char_array(&mut heap, 0);
    assert_eq!(chars, Value::Ref(Some(1)));
    assert_eq!(heap.objects[1].class_name, "[C");
    assert_eq!(heap.objects[1].payload, Payload::Array(vec![Value::Int(65), Value::Int(0xe9)]));
    let bytes = string_get_bytes(&mut heap, 0);
    assert_eq!(bytes, Value::Ref(Some(2)));
    assert_eq!(heap.objects[2].class_name, "[B");
    assert_eq!(heap.objects[2].payload, Payload::Array(vec![Value::Int(65), Value::Int(0xc3), Value::Int(0xa9)]));
    assert_eq!(s, Value::Ref(Some(0)));
    // an object that is no string reads as empty text
    heap.allocate(object("java/lang/Object", Payload::Plain));
    let empty = string_get_bytes(&mut heap, 3);
    assert_eq!(empty, Value::Ref(Some(4)));
    assert_eq!(heap.objects[4].payload, Payload::Array(vec![]));
}

#[test]
fn new_instance_makes_arrays_of_the_component_class() {
    let mut h = jvm_core::heap::Heap::new();
    let a = jvm_core::array_natives::array_new_instance(&mut h, "int", 3);
    assert_eq!(a, Value::Ref(Some(0)));
    assert_eq!(h.objects[0].class_name, "[I");
    assert_eq!(h.objects[0].payload, jvm_core::heap::Payload::Array(vec![Value::Int(0); 3]));
    jvm_core::array_natives::array_new_instance(&mut h, "java/lang/String", -2);
    assert_eq!(h.objects[1].class_name, "[Ljava/lang/String;");
    assert_eq!(h.objects[1].payload, jvm_core::heap::Payload::Array(vec![]));
    jvm_core::array_natives::array_new_instance(&mut h, "[J", 1);
    assert_eq!(h.objects[2].class_name, "[[J");
    assert_eq!(h.objects[2].payload, jvm_core::heap::Payload::Array(vec![Value::Ref(None)]));
}

#[test]
fn array_set_then_get_reads_the_value_back() {
    let mut h = jvm_core::heap::Heap::new();
    let a = jvm_core::array_natives::array_new_instance(&mut h, "java/lang/Object", 2);
    jvm_core::array_natives::array_set(&mut h, a, 1, Value::Ref(Some(7)));
    assert_eq!(jvm_core::array_natives::array_get(&h, a, 1), Value::Ref(Some(7)));
    assert_eq!(jvm_core::array_natives::array_get(&h, a, 5), Value::Ref(None));
    assert_eq!(jvm_core::array_natives::array_get(&h, a, -3), Value::Ref(None));
    jvm_core::array_natives::array_set(&mut h, a, -1, Value::Int(4));
    assert_eq!(jvm_core::array_natives::array_get(&h, a, 0), Value::Int(4));
    assert_eq!(jvm_core::array_natives::array_get(&h, Value::Ref(None), 0), Value::Ref(None));
}
