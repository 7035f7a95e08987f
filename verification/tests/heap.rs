use jvm_core::bytecode::{Frame, Step, Value};
use jvm_core::bytecode::step_ready;
use jvm_core::class_file::{parse, ClassFile};
use jvm_core::heap::{
    enter_exception_handler, execute_anewarray, execute_getfield, execute_heap_opcode, execute_putfield,
    heap_step_ready, Field,
    object_operand_ready, execute_ldc, Heap, HeapObject, Payload, StringPool,
};

/// Runs the code from pc 0 on the heap until a step other than `Continue`.
fn run(code: &[u8], locals: Vec<Value>, heap: &mut Heap) -> (Frame, Result<Step, String>) {
    let mut frame = Frame { locals, stack: Vec::new(), pc: 0 };
    loop {
        let op = code[frame.pc];
        frame.pc += 1;
        match execute_heap_opcode(&mut frame, heap, code, op) {
            Ok(Step::Continue) => {}
            other => return (frame, other),
        }
    }
}

fn object(class_name: &str, payload: Payload) -> HeapObject {
    HeapObject { class_name: class_name.to_string(), payload, fields: Vec::new() }
}

#[test]
fn int_array_store_then_load() {
    // iconst_3, newarray int, astore_0, aload_0, iconst_1, bipush 42, iastore,
    // aload_0, iconst_1, iaload, ireturn
    let code = [0x06, 0xbc, 10, 0x4b, 0x2a, 0x04, 0x10, 42, 0x4f, 0x2a, 0x04, 0x2e, 0xac];
    let mut heap = Heap::new();
    let (_, r) = run(&code, vec![Value::Void], &mut heap);
    assert_eq!(r, Ok(Step::Return(Value::Int(42))));
    assert_eq!(heap.objects.len(), 1);
    assert_eq!(heap.objects[0].class_name, "[I");
    assert_eq!(heap.objects[0].payload, Payload::Array(vec![Value::Int(0), Value::Int(42), Value::Int(0)]));
}

#[test]
fn newarray_then_arraylength() {
    // iconst_5, newarray long, arraylength, ireturn
    let mut heap = Heap::new();
    let (_, r) = run(&[0x08, 0xbc, 11, 0xbe, 0xac], vec![], &mut heap);
    assert_eq!(r, Ok(Step::Return(Value::Int(5))));
    assert_eq!(heap.objects[0].payload, Payload::Array(vec![Value::Long(0); 5]));
}

#[test]
fn negative_array_size_throws() {
    // iconst_m1, iconst_1, isub, newarray int
    let mut heap = Heap::new();
    let (frame, r) = run(&[0x02, 0x04, 0x64, 0xbc, 10], vec![], &mut heap);
    assert_eq!(r, Err("java/lang/NegativeArraySizeException: -2".to_string()));
    assert_eq!(frame.pc, 5);
    assert!(heap.objects.is_empty());
}

#[test]
fn load_past_the_end_throws() {
    let mut heap = Heap::new();
    let arr = heap.allocate(object("[I", Payload::IntArray(vec![1, 2, 3])));
    // aload_0, iconst_3, iaload
    let (frame, r) = run(&[0x2a, 0x06, 0x2e], vec![arr], &mut heap);
    assert_eq!(r, Err("java/lang/ArrayIndexOutOfBoundsException: Index 3 out of bounds".to_string()));
    assert!(frame.stack.is_empty());
}

#[test]
fn negative_index_throws_before_the_null_check() {
    let mut heap = Heap::new();
    // aconst_null, iconst_m1, iaload
    let (_, r) = run(&[0x01, 0x02, 0x2e], vec![], &mut heap);
    assert_eq!(r, Err("java/lang/ArrayIndexOutOfBoundsException: Index -1 out of bounds".to_string()));
}

#[test]
fn null_array_throws() {
    let mut heap = Heap::new();
    // aconst_null, iconst_0, iaload
    let (_, r) = run(&[0x01, 0x03, 0x2e], vec![], &mut heap);
    assert_eq!(r, Err("NullPointerException: iaload".to_string()));
    // aconst_null, arraylength
    let (_, r) = run(&[0x01, 0xbe], vec![], &mut heap);
    assert_eq!(r, Err("NullPointerException: arraylength".to_string()));
    // aconst_null, iconst_0, iconst_1, lastore
    let (_, r) = run(&[0x01, 0x03, 0x04, 0x50], vec![], &mut heap);
    assert_eq!(r, Err("NullPointerException: array store".to_string()));
}

#[test]
fn byte_arrays_hold_unsigned_bytes() {
    let mut heap = Heap::new();
    let arr = heap.allocate(object("[B", Payload::ByteArray(vec![0xff, 7])));
    // aload_0, iconst_0, baload, ireturn
    let (_, r) = run(&[0x2a, 0x03, 0x33, 0xac], vec![arr], &mut heap);
    assert_eq!(r, Ok(Step::Return(Value::Int(255))));
    // aload_0, iconst_1, sipush 300, bastore, return
    let (_, r) = run(&[0x2a, 0x04, 0x11, 0x01, 0x2c, 0x54, 0xb1], vec![arr], &mut heap);
    assert_eq!(r, Ok(Step::Return(Value::Void)));
    assert_eq!(heap.objects[0].payload, Payload::ByteArray(vec![0xff, 44]));
}

#[test]
fn baload_narrows_object_array_elements() {
    let mut heap = Heap::new();
    let arr = heap.allocate(object("[B", Payload::Array(vec![Value::Int(200), Value::Float(0)])));
    // aload_0, iconst_0, baload, ireturn
    let (_, r) = run(&[0x2a, 0x03, 0x33, 0xac], vec![arr], &mut heap);
    assert_eq!(r, Ok(Step::Return(Value::Int(-56))));
    // aload_0, iconst_1, baload: a float element is left to the caller
    let (frame, r) = run(&[0x2a, 0x04, 0x33], vec![arr], &mut heap);
    assert_eq!(r, Ok(Step::Delegate(0x33)));
    assert_eq!(frame.stack, vec![arr, Value::Int(1)]);
}

#[test]
fn aaload_needs_a_reference_array() {
    let mut heap = Heap::new();
    let plain = heap.allocate(object("java/lang/Object", Payload::Plain));
    let ints = heap.allocate(object("[I", Payload::IntArray(vec![1])));
    let (_, r) = run(&[0x2a, 0x03, 0x32], vec![plain], &mut heap);
    assert_eq!(r, Err("java/lang/ArrayStoreException: aaload on non-array".to_string()));
    let (_, r) = run(&[0x2a, 0x03, 0x32], vec![ints], &mut heap);
    assert_eq!(r, Err("java/lang/ArrayStoreException: aaload on non-reference array".to_string()));
}

#[test]
fn long_array_store_and_load() {
    let mut heap = Heap::new();
    let arr = heap.allocate(object("[J", Payload::LongArray(vec![0, 0])));
    // aload_0, iconst_1, lconst_1, lastore, aload_0, iconst_1, laload, lreturn
    let (_, r) = run(&[0x2a, 0x04, 0x0a, 0x50, 0x2a, 0x04, 0x2f, 0xad], vec![arr], &mut heap);
    assert_eq!(r, Ok(Step::Return(Value::Long(1))));
    assert_eq!(heap.objects[0].payload, Payload::LongArray(vec![0, 1]));
}

#[test]
fn other_opcodes_leave_the_heap_alone() {
    let mut heap = Heap::new();
    let (_, r) = run(&[0x05, 0x06, 0x60, 0xac], vec![], &mut heap);
    assert_eq!(r, Ok(Step::Return(Value::Int(5))));
    assert!(heap.objects.is_empty());
    let mut frame = Frame { locals: vec![], stack: vec![Value::Int(1)], pc: 1 };
    assert_eq!(execute_heap_opcode(&mut frame, &mut heap, &[0xbb, 0, 1], 0xbb), Ok(Step::Delegate(0xbb)));
    assert_eq!(frame.stack, vec![Value::Int(1)]);
}

#[test]
fn anewarray_makes_an_array_of_nulls() {
    let mut heap = Heap::new();
    let mut frame = Frame { locals: vec![], stack: vec![Value::Int(2)], pc: 3 };
    let r = execute_anewarray(&mut frame, &mut heap, "java/lang/String");
    assert_eq!(r, Ok(Step::Continue));
    assert_eq!(frame.stack, vec![Value::Ref(Some(0))]);
    assert_eq!(heap.objects[0].class_name, "[Ljava/lang/String;");
    assert_eq!(heap.objects[0].payload, Payload::Array(vec![Value::Ref(None), Value::Ref(None)]));
    let mut frame = Frame { locals: vec![], stack: vec![Value::Int(-3)], pc: 3 };
    let r = execute_anewarray(&mut frame, &mut heap, "java/lang/String");
    assert_eq!(r, Err("java/lang/NegativeArraySizeException: -3".to_string()));
}

#[test]
fn putfield_then_getfield_reads_back() {
    let mut heap = Heap::new();
    let obj = heap.allocate(object("Point", Payload::Plain));
    let mut frame = Frame { locals: vec![], stack: vec![obj], pc: 0 };
    // never written: the default of its descriptor
    assert_eq!(execute_getfield(&mut frame, &heap, "x", "J", "Point"), Ok(Step::Continue));
    assert_eq!(frame.stack, vec![Value::Long(0)]);
    frame.stack = vec![obj, Value::Int(7)];
    assert_eq!(execute_putfield(&mut frame, &mut heap, "x", "Point"), Ok(Step::Continue));
    assert!(frame.stack.is_empty());
    frame.stack = vec![obj, Value::Int(9)];
    assert_eq!(execute_putfield(&mut frame, &mut heap, "x", "Point"), Ok(Step::Continue));
    assert_eq!(heap.objects[0].fields.len(), 1);
    frame.stack = vec![obj];
    assert_eq!(execute_getfield(&mut frame, &heap, "x", "I", "Point"), Ok(Step::Continue));
    assert_eq!(frame.stack, vec![Value::Int(9)]);
}

#[test]
fn field_access_errors() {
    let mut heap = Heap::new();
    let mut frame = Frame { locals: vec![], stack: vec![], pc: 0 };
    assert_eq!(
        execute_getfield(&mut frame, &heap, "x", "I", "Point"),
        Err("getfield x: empty stack in Point".to_string())
    );
    frame.stack = vec![Value::Void];
    assert_eq!(
        execute_getfield(&mut frame, &heap, "x", "I", "Point"),
        Err("getfield x: expected Ref on stack, got Void in Point".to_string())
    );
    frame.stack = vec![Value::Ref(None)];
    assert_eq!(execute_getfield(&mut frame, &heap, "x", "I", "Point"), Err("NullPointerException: getfield x".to_string()));
    frame.stack = vec![Value::Int(1)];
    assert_eq!(
        execute_putfield(&mut frame, &mut heap, "x", "Point"),
        Err("putfield x: expected Ref on stack, got Void in Point".to_string())
    );
    frame.stack = vec![Value::Ref(None), Value::Int(1)];
    assert_eq!(execute_putfield(&mut frame, &mut heap, "x", "Point"), Err("NullPointerException: putfield x".to_string()));
}

#[test]
fn readiness_follows_the_operands() {
    let mut heap = Heap::new();
    let ints = heap.allocate(object("[I", Payload::IntArray(vec![1, 2])));
    let code = [0x2e];
    // iaload needs an int index over an array reference
    let frame = Frame { locals: vec![], stack: vec![ints, Value::Int(0)], pc: 1 };
    assert!(heap_step_ready(&frame, &heap, &code, 0x2e));
    let frame = Frame { locals: vec![], stack: vec![Value::Int(0)], pc: 1 };
    assert!(!heap_step_ready(&frame, &heap, &code, 0x2e));
    let frame = Frame { locals: vec![], stack: vec![Value::Long(1), Value::Int(0)], pc: 1 };
    assert!(!heap_step_ready(&frame, &heap, &code, 0x2e));
    let frame = Frame { locals: vec![], stack: vec![Value::Ref(Some(5)), Value::Int(0)], pc: 1 };
    assert!(!heap_step_ready(&frame, &heap, &code, 0x2e));
    // iastore of a long into an int array would not be an int
    let frame = Frame { locals: vec![], stack: vec![ints, Value::Int(0), Value::Long(3)], pc: 1 };
    assert!(!heap_step_ready(&frame, &heap, &code, 0x4f));
    let frame = Frame { locals: vec![], stack: vec![ints, Value::Int(0), Value::Int(3)], pc: 1 };
    assert!(heap_step_ready(&frame, &heap, &code, 0x4f));
    // a field operand may be Void, null or an object on the heap
    let frame = Frame { locals: vec![], stack: vec![Value::Void], pc: 1 };
    assert!(object_operand_ready(&frame, &heap, 0));
    let frame = Frame { locals: vec![], stack: vec![Value::Int(4)], pc: 1 };
    assert!(!object_operand_ready(&frame, &heap, 0));
}

#[test]
fn step_readiness_of_plain_instructions() {
    // iadd needs two ints
    let frame = Frame { locals: vec![], stack: vec![Value::Int(1), Value::Int(2)], pc: 1 };
    assert!(step_ready(&frame, &[0x60], 0x60));
    let frame = Frame { locals: vec![], stack: vec![Value::Int(1)], pc: 1 };
    assert!(!step_ready(&frame, &[0x60], 0x60));
    // idiv by a zero divisor throws even without a dividend
    let frame = Frame { locals: vec![], stack: vec![Value::Int(0)], pc: 1 };
    assert!(step_ready(&frame, &[0x6c], 0x6c));
    // bipush needs its operand byte
    let frame = Frame { locals: vec![], stack: vec![], pc: 1 };
    assert!(!step_ready(&frame, &[0x10], 0x10));
    assert!(step_ready(&frame, &[0x10, 5], 0x10));
    // iload_2 needs a third local
    let frame = Frame { locals: vec![Value::Int(0), Value::Int(0)], stack: vec![], pc: 1 };
    assert!(!step_ready(&frame, &[0x1c], 0x1c));
    // tableswitch whose table runs past the code
    let frame = Frame { locals: vec![], stack: vec![Value::Int(0)], pc: 1 };
    assert!(!step_ready(&frame, &[0xaa, 0, 0, 0, 0, 0, 0, 0, 0, 0, 0, 0, 0, 0, 0, 1], 0xaa));
    // new is left to the caller and always ready here
    assert!(step_ready(&frame, &[0xbb], 0xbb));
}

#[test]
fn entering_a_handler_makes_the_exception() {
    let mut heap = Heap::new();
    let mut frame = Frame { locals: vec![], stack: vec![Value::Int(1), Value::Int(2)], pc: 9 };
    let exc = enter_exception_handler(&mut frame, &mut heap, 20, None, "java/lang/ArithmeticException: / by zero");
    assert_eq!(exc, Value::Ref(Some(1)));
    assert_eq!(frame.stack, vec![exc]);
    assert_eq!(frame.pc, 20);
    assert_eq!(heap.objects[0].class_name, "java/lang/String");
    assert_eq!(
        heap.objects[0].payload,
        Payload::JavaString("java/lang/ArithmeticException: / by zero".to_string())
    );
    assert_eq!(heap.objects[1].class_name, "java/lang/ArithmeticException");
    assert_eq!(
        heap.objects[1].fields,
        vec![Field { name: "detailMessage".to_string(), value: Value::Ref(Some(0)) }]
    );
    // an `Exception: <class>: <message>` text names the class and the message
    let exc = enter_exception_handler(&mut frame, &mut heap, 4, None, "Exception: com/example/Bad: no way");
    assert_eq!(exc, Value::Ref(Some(3)));
    assert_eq!(heap.objects[2].payload, Payload::JavaString("no way".to_string()));
    assert_eq!(heap.objects[3].class_name, "com/example/Bad");
}

#[test]
fn entering_a_handler_with_a_pending_exception() {
    let mut heap = Heap::new();
    let pending = heap.allocate(object("java/io/IOException", Payload::Plain));
    let mut frame = Frame { locals: vec![], stack: vec![Value::Int(1)], pc: 9 };
    let exc = enter_exception_handler(&mut frame, &mut heap, 15, Some(pending), "ignored");
    assert_eq!(exc, pending);
    assert_eq!(frame.stack, vec![pending]);
    assert_eq!(frame.pc, 15);
    assert_eq!(heap.objects.len(), 1);
}

/// A class whose pool holds: #1 Utf8 "hi", #2 String #1, #3 Integer 42,
/// #4 Class #5, #5 Utf8 "pkg/C", #6 Long 7 (and its second slot #7).
fn constants_class() -> ClassFile {
    let mut cp: Vec<u8> = Vec::new();
    cp.extend_from_slice(&[1, 0, 2, b'h', b'i']);
    cp.extend_from_slice(&[8, 0, 1]);
    cp.extend_from_slice(&[3, 0, 0, 0, 42]);
    cp.extend_from_slice(&[7, 0, 5]);
    cp.extend_from_slice(&[1, 0, 5, b'p', b'k', b'g', b'/', b'C']);
    cp.extend_from_slice(&[5, 0, 0, 0, 0, 0, 0, 0, 7]);
    let mut out = Vec::new();
    out.extend_from_slice(&0xCAFE_BABEu32.to_be_bytes());
    out.extend_from_slice(&[0, 0, 0, 61, 0, 8]);
    out.extend_from_slice(&cp);
    out.extend_from_slice(&[0x00, 0x21, 0, 4, 0, 0, 0, 0, 0, 0, 0, 0, 0, 0]);
    parse(&out).expect("parse")
}

#[test]
fn ldc_pushes_constants_and_interns_strings() {
    let cf = constants_class();
    let mut heap = Heap::new();
    let mut pool = StringPool::new();
    let mut frame = Frame { locals: vec![], stack: vec![], pc: 2 };
    assert_eq!(execute_ldc(&mut frame, &mut heap, &mut pool, &cf.constant_pool, 3), Step::Continue);
    assert_eq!(execute_ldc(&mut frame, &mut heap, &mut pool, &cf.constant_pool, 6), Step::Continue);
    assert_eq!(frame.stack, vec![Value::Int(42), Value::Long(7)]);
    assert_eq!(execute_ldc(&mut frame, &mut heap, &mut pool, &cf.constant_pool, 2), Step::Continue);
    assert_eq!(execute_ldc(&mut frame, &mut heap, &mut pool, &cf.constant_pool, 2), Step::Continue);
    // the same text is the same object
    assert_eq!(frame.stack[2], Value::Ref(Some(0)));
    assert_eq!(frame.stack[3], Value::Ref(Some(0)));
    assert_eq!(heap.objects.len(), 1);
    assert_eq!(heap.objects[0].payload, Payload::JavaString("hi".to_string()));
    // a class constant is left to the caller
    assert_eq!(execute_ldc(&mut frame, &mut heap, &mut pool, &cf.constant_pool, 4), Step::Delegate(0x12));
    assert_eq!(frame.stack.len(), 4);
    // interning directly finds the same object
    assert_eq!(pool.intern(&mut heap, "hi"), Value::Ref(Some(0)));
    assert_eq!(pool.intern(&mut heap, "ho"), Value::Ref(Some(1)));
}

#[test]
fn a_store_leaves_other_objects_alone() {
    let mut heap = Heap::new();
    let a = heap.allocate(object("[I", Payload::IntArray(vec![1, 2])));
    let b = heap.allocate(object("[I", Payload::IntArray(vec![3, 4])));
    // aload_0, iconst_0, bipush 9, iastore, return
    let (_, r) = run(&[0x2a, 0x03, 0x10, 9, 0x4f, 0xb1], vec![a, b], &mut heap);
    assert_eq!(r, Ok(Step::Return(Value::Void)));
    assert_eq!(heap.objects[0].payload, Payload::IntArray(vec![9, 2]));
    assert_eq!(heap.objects[1].payload, Payload::IntArray(vec![3, 4]));
    assert_eq!(heap.objects.len(), 2);
}
