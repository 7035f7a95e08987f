use jvm_core::bytecode::Value;
use jvm_core::class_file::{parse, ClassFile};
use jvm_core::heap::{HeapObject, Payload};
use jvm_core::machine::{Machine, Outcome};

fn u16s(out: &mut Vec<u8>, v: u16) {
    out.extend_from_slice(&v.to_be_bytes());
}

fn utf8(cp: &mut Vec<u8>, s: &str) {
    cp.push(1);
    u16s(cp, s.len() as u16);
    cp.extend_from_slice(s.as_bytes());
}

fn pair(cp: &mut Vec<u8>, tag: u8, a: u16, b: u16) {
    cp.push(tag);
    u16s(cp, a);
    u16s(cp, b);
}

/// A method: name index, descriptor index, code, exception table
/// (start, end, handler, catch type).
struct M {
    name: u16,
    desc: u16,
    code: Vec<u8>,
    handlers: Vec<(u16, u16, u16, u16)>,
}

fn class_bytes(cp: &[u8], cp_count: u16, this_class: u16, super_class: u16, methods: &[M]) -> Vec<u8> {
    let mut out = Vec::new();
    out.extend_from_slice(&0xCAFE_BABEu32.to_be_bytes());
    u16s(&mut out, 0);
    u16s(&mut out, 61);
    u16s(&mut out, cp_count);
    out.extend_from_slice(cp);
    u16s(&mut out, 0x0021);
    u16s(&mut out, this_class);
    u16s(&mut out, super_class);
    u16s(&mut out, 0);
    u16s(&mut out, 0);
    u16s(&mut out, methods.len() as u16);
    for m in methods {
        u16s(&mut out, 0x0009);
        u16s(&mut out, m.name);
        u16s(&mut out, m.desc);
        u16s(&mut out, 1);
        u16s(&mut out, 7); // "Code"
        let len = 2 + 2 + 4 + m.code.len() + 2 + 8 * m.handlers.len() + 2;
        out.extend_from_slice(&(len as u32).to_be_bytes());
        u16s(&mut out, 4);
        u16s(&mut out, 4);
        out.extend_from_slice(&(m.code.len() as u32).to_be_bytes());
        out.extend_from_slice(&m.code);
        u16s(&mut out, m.handlers.len() as u16);
        for h in &m.handlers {
            u16s(&mut out, h.0);
            u16s(&mut out, h.1);
            u16s(&mut out, h.2);
            u16s(&mut out, h.3);
        }
        u16s(&mut out, 0);
    }
    u16s(&mut out, 0);
    out
}

/// `pkg/Main` with static methods add(II)I, main()I, div()I, safe()I,
/// callExt()I and a `<clinit>`.
fn main_class() -> ClassFile {
    let mut cp = Vec::new();
    utf8(&mut cp, "pkg/Main"); // 1
    cp.push(7);
    u16s(&mut cp, 1); // 2 Class pkg/Main
    utf8(&mut cp, "add"); // 3
    utf8(&mut cp, "(II)I"); // 4
    pair(&mut cp, 12, 3, 4); // 5
    pair(&mut cp, 10, 2, 5); // 6 Methodref add
    utf8(&mut cp, "Code"); // 7
    utf8(&mut cp, "main"); // 8
    utf8(&mut cp, "()I"); // 9
    utf8(&mut cp, "pkg/Other"); // 10
    cp.push(7);
    u16s(&mut cp, 10); // 11 Class pkg/Other
    utf8(&mut cp, "ext"); // 12
    pair(&mut cp, 12, 12, 9); // 13
    pair(&mut cp, 10, 11, 13); // 14 Methodref pkg/Other.ext()I
    utf8(&mut cp, "div"); // 15
    pair(&mut cp, 12, 15, 9); // 16
    pair(&mut cp, 10, 2, 16); // 17 Methodref div
    utf8(&mut cp, "safe"); // 18
    utf8(&mut cp, "<clinit>"); // 19
    utf8(&mut cp, "()V"); // 20
    utf8(&mut cp, "callExt"); // 21
    let methods = vec![
        M { name: 3, desc: 4, code: vec![0x1a, 0x1b, 0x60, 0xac], handlers: vec![] },
        M { name: 8, desc: 9, code: vec![0x05, 0x06, 0xb8, 0, 6, 0xac], handlers: vec![] },
        M { name: 15, desc: 9, code: vec![0x04, 0x03, 0x6c, 0xac], handlers: vec![] },
        M { name: 18, desc: 9, code: vec![0xb8, 0, 17, 0xac, 0x57, 0x10, 7, 0xac], handlers: vec![(0, 4, 4, 0)] },
        M { name: 21, desc: 9, code: vec![0xb8, 0, 14, 0x04, 0x60, 0xac], handlers: vec![] },
        M { name: 19, desc: 20, code: vec![0xb1], handlers: vec![] },
    ];
    parse(&class_bytes(&cp, 22, 2, 0, &methods)).expect("parse")
}

fn run(m: &mut Machine) -> Outcome {
    m.run_slice(1000)
}

#[test]
fn static_call_runs_the_class_initializer_then_the_callee() {
    let mut m = Machine::new(vec![main_class()]);
    assert!(m.call_method(0, "main", "()I", vec![]));
    // iconst_2, iconst_3, then the call: the class gets initialized first
    assert!(matches!(m.step(), Outcome::Continue));
    assert!(matches!(m.step(), Outcome::Continue));
    assert!(matches!(m.step(), Outcome::Continue));
    assert_eq!(m.initialized, vec![true]);
    assert_eq!(m.stack.len(), 2);
    assert_eq!(m.stack[1].method.descriptor, "()V");
    match run(&mut m) {
        Outcome::Finished(v) => assert_eq!(v, Value::Int(5)),
        _ => panic!("expected the method to finish"),
    }
    assert!(m.stack.is_empty());
}

#[test]
fn an_exception_unwinds_to_the_callers_handler() {
    let mut m = Machine::new(vec![main_class()]);
    m.initialized = vec![true];
    assert!(m.call_method(0, "safe", "()I", vec![]));
    match run(&mut m) {
        Outcome::Finished(v) => assert_eq!(v, Value::Int(7)),
        _ => panic!("expected the handler to return 7"),
    }
    // the handler got the exception object made from the error text
    let h = m.heap();
    assert_eq!(h.objects.len(), 2);
    assert_eq!(h.objects[1].class_name, "java/lang/ArithmeticException");
    assert_eq!(h.objects[0].payload, Payload::JavaString("java/lang/ArithmeticException: / by zero".to_string()));
}

#[test]
fn an_uncaught_exception_leaves_the_machine() {
    let mut m = Machine::new(vec![main_class()]);
    m.initialized = vec![true];
    assert!(m.call_method(0, "div", "()I", vec![]));
    match run(&mut m) {
        Outcome::Thrown(e) => assert_eq!(e, "java/lang/ArithmeticException: / by zero"),
        _ => panic!("expected the exception to leave"),
    }
    assert!(m.stack.is_empty());
}

#[test]
fn a_call_out_of_the_classes_is_handed_back() {
    let mut m = Machine::new(vec![main_class()]);
    m.initialized = vec![true];
    assert!(m.call_method(0, "callExt", "()I", vec![]));
    match run(&mut m) {
        Outcome::Native(c) => {
            assert_eq!(c.class_name, "pkg/Other");
            assert_eq!(c.name, "ext");
            assert_eq!(c.descriptor, "()I");
            assert!(c.args.is_empty());
        }
        _ => panic!("expected a native call"),
    }
    m.complete_native(Ok(Value::Int(41)));
    match run(&mut m) {
        Outcome::Finished(v) => assert_eq!(v, Value::Int(42)),
        _ => panic!("expected 42"),
    }
}

#[test]
fn a_native_failure_is_thrown_at_the_call() {
    let mut m = Machine::new(vec![main_class()]);
    m.initialized = vec![true];
    assert!(m.call_method(0, "callExt", "()I", vec![]));
    assert!(matches!(run(&mut m), Outcome::Native(_)));
    m.complete_native(Err("java/lang/IllegalStateException: nope".to_string()));
    match run(&mut m) {
        Outcome::Thrown(e) => assert_eq!(e, "java/lang/IllegalStateException: nope"),
        _ => panic!("expected the failure to leave"),
    }
}

#[test]
fn arguments_land_in_the_callee_locals() {
    let mut m = Machine::new(vec![main_class()]);
    assert!(m.call_method(0, "add", "(II)I", vec![Value::Int(40), Value::Int(2)]));
    assert_eq!(m.stack[0].frame.locals, vec![Value::Int(40), Value::Int(2), Value::Void, Value::Void]);
    match run(&mut m) {
        Outcome::Finished(v) => assert_eq!(v, Value::Int(42)),
        _ => panic!("expected 42"),
    }
    assert!(!m.call_method(0, "missing", "()V", vec![]));
}

#[test]
fn floating_point_is_left_to_the_caller() {
    let mut cp = Vec::new();
    utf8(&mut cp, "pkg/F"); // 1
    cp.push(7);
    u16s(&mut cp, 1); // 2
    utf8(&mut cp, "f"); // 3
    utf8(&mut cp, "()V"); // 4
    pair(&mut cp, 12, 3, 4); // 5
    pair(&mut cp, 10, 2, 5); // 6
    utf8(&mut cp, "Code"); // 7
    // fconst_1, fconst_1, fadd
    let methods = vec![M { name: 3, desc: 4, code: vec![0x0c, 0x0c, 0x62, 0xb1], handlers: vec![] }];
    let cf = parse(&class_bytes(&cp, 8, 2, 0, &methods)).expect("parse");
    let mut m = Machine::new(vec![cf]);
    assert!(m.call_method(0, "f", "()V", vec![]));
    assert!(matches!(run(&mut m), Outcome::Delegated(0x62)));
    assert_eq!(m.stack[0].frame.pc, 2);
}

/// `pkg/Obj` with a static int field `count` and static methods bump()I,
/// make()I, cast()I, throwIt()I and throwOut()I.
fn object_class() -> ClassFile {
    let mut cp = Vec::new();
    utf8(&mut cp, "pkg/Obj"); // 1
    cp.push(7);
    u16s(&mut cp, 1); // 2 Class pkg/Obj
    utf8(&mut cp, "count"); // 3
    utf8(&mut cp, "I"); // 4
    pair(&mut cp, 12, 3, 4); // 5
    pair(&mut cp, 9, 2, 5); // 6 Fieldref pkg/Obj.count:I
    utf8(&mut cp, "Code"); // 7
    utf8(&mut cp, "bump"); // 8
    utf8(&mut cp, "()I"); // 9
    utf8(&mut cp, "make"); // 10
    utf8(&mut cp, "pkg/Other"); // 11
    cp.push(7);
    u16s(&mut cp, 11); // 12 Class pkg/Other
    utf8(&mut cp, "cast"); // 13
    utf8(&mut cp, "throwIt"); // 14
    utf8(&mut cp, "throwOut"); // 15
    utf8(&mut cp, "sync"); // 16
    utf8(&mut cp, "badExit"); // 17
    let methods = vec![
        M { name: 8, desc: 9, code: vec![0xb2, 0, 6, 0x04, 0x60, 0x59, 0xb3, 0, 6, 0xac], handlers: vec![] },
        M { name: 10, desc: 9, code: vec![0xbb, 0, 2, 0xc1, 0, 2, 0xac], handlers: vec![] },
        M {
            name: 13,
            desc: 9,
            code: vec![0xbb, 0, 2, 0xc0, 0, 12, 0x57, 0x03, 0xac, 0x57, 0x10, 9, 0xac],
            handlers: vec![(0, 9, 9, 0)],
        },
        M { name: 14, desc: 9, code: vec![0xbb, 0, 2, 0xbf, 0xc1, 0, 2, 0xac], handlers: vec![(0, 4, 4, 0)] },
        M { name: 15, desc: 9, code: vec![0xbb, 0, 2, 0xbf], handlers: vec![] },
        M { name: 16, desc: 9, code: vec![0xbb, 0, 2, 0x59, 0x59, 0xc2, 0xc2, 0x59, 0xc3, 0xc3, 0x04, 0xac], handlers: vec![] },
        M { name: 17, desc: 9, code: vec![0xbb, 0, 2, 0xc3, 0x04, 0xac], handlers: vec![] },
    ];
    parse(&class_bytes(&cp, 18, 2, 0, &methods)).expect("parse")
}

fn finish(m: &mut Machine) -> Value {
    match run(m) {
        Outcome::Finished(v) => v,
        _ => panic!("expected the method to finish"),
    }
}

#[test]
fn static_fields_keep_their_value_between_calls() {
    let mut m = Machine::new(vec![object_class()]);
    assert!(m.call_method(0, "bump", "()I", vec![]));
    assert_eq!(finish(&mut m), Value::Int(1));
    assert_eq!(m.initialized, vec![true]);
    assert!(m.call_method(0, "bump", "()I", vec![]));
    assert_eq!(finish(&mut m), Value::Int(2));
    assert_eq!(m.statics.len(), 1);
    assert_eq!(m.statics[0].name, "pkg/Obj.count");
}

#[test]
fn a_new_object_is_an_instance_of_its_class() {
    let mut m = Machine::new(vec![object_class()]);
    assert!(m.call_method(0, "make", "()I", vec![]));
    assert_eq!(finish(&mut m), Value::Int(1));
    assert_eq!(m.heap().objects.len(), 1);
    assert_eq!(m.heap().objects[0].class_name, "pkg/Obj");
    assert_eq!(m.heap().objects[0].payload, Payload::Plain);
}

#[test]
fn a_failed_cast_throws_class_cast_exception() {
    let mut m = Machine::new(vec![object_class()]);
    m.initialized = vec![true];
    assert!(m.call_method(0, "cast", "()I", vec![]));
    assert_eq!(finish(&mut m), Value::Int(9));
    // the exception made from the text carries it as its message
    let h = m.heap();
    assert_eq!(h.objects.len(), 3);
    assert_eq!(h.objects[1].payload, Payload::JavaString("ClassCastException: pkg.Obj cannot be cast to pkg.Other".to_string()));
}

#[test]
fn a_thrown_object_reaches_the_handler_as_itself() {
    let mut m = Machine::new(vec![object_class()]);
    m.initialized = vec![true];
    assert!(m.call_method(0, "throwIt", "()I", vec![]));
    assert_eq!(finish(&mut m), Value::Int(1));
    // no exception object was made: the handler got the thrown one
    assert_eq!(m.heap().objects.len(), 1);
    assert!(m.thrown.is_none());
}

#[test]
fn an_uncaught_thrown_object_names_its_class_and_place() {
    let mut m = Machine::new(vec![object_class()]);
    m.initialized = vec![true];
    assert!(m.call_method(0, "throwOut", "()I", vec![]));
    match run(&mut m) {
        Outcome::Thrown(e) => assert_eq!(e, "Exception: pkg/Obj at pkg/Obj:pc3"),
        _ => panic!("expected the exception to leave"),
    }
    assert!(m.thrown.is_none());
}

#[test]
fn invoke_static_initializes_the_class_and_runs_to_the_end() {
    let mut m = Machine::new(vec![main_class()]);
    match m.invoke_static("pkg/Main", "main", "()I", vec![], 1000) {
        Some(Outcome::Finished(v)) => assert_eq!(v, Value::Int(5)),
        _ => panic!("expected main to finish"),
    }
    assert_eq!(m.initialized, vec![true]);
    assert!(m.invoke_static("pkg/Nowhere", "main", "()I", vec![], 1000).is_none());
    assert!(m.invoke_static("pkg/Main", "absent", "()I", vec![], 1000).is_none());
}

#[test]
fn invoke_virtual_looks_up_from_the_receivers_class() {
    let mut m = Machine::new(vec![object_class()]);
    m.initialized = vec![true];
    let obj = m.heap.allocate(HeapObject { class_name: "pkg/Obj".to_string(), payload: Payload::Plain, fields: vec![] });
    match m.invoke_virtual(obj, "make", "()I", vec![], 1000) {
        Some(Outcome::Finished(v)) => assert_eq!(v, Value::Int(1)),
        _ => panic!("expected make to finish"),
    }
    assert!(m.invoke_virtual(Value::Ref(None), "make", "()I", vec![], 1000).is_none());
    match m.invoke_special("pkg/Obj", obj, "bump", "()I", vec![], 1000) {
        Some(Outcome::Finished(v)) => assert_eq!(v, Value::Int(1)),
        _ => panic!("expected bump to finish"),
    }
}

/// `pkg/Cat` with a static run()Ljava/lang/String; that concatenates
/// `"n=" + 42 + "!"` through a `StringConcatFactory` call site.
fn concat_class() -> ClassFile {
    let mut cp = Vec::new();
    utf8(&mut cp, "pkg/Cat"); // 1
    cp.push(7);
    u16s(&mut cp, 1); // 2
    utf8(
        &mut cp,
        "(Ljava/lang/invoke/MethodHandles$Lookup;Ljava/lang/String;Ljava/lang/invoke/MethodType;Ljava/lang/String;[Ljava/lang/Object;)Ljava/lang/invoke/CallSite;",
    ); // 3
    utf8(&mut cp, "java/lang/invoke/StringConcatFactory"); // 4
    cp.push(7);
    u16s(&mut cp, 4); // 5
    utf8(&mut cp, "makeConcatWithConstants"); // 6
    utf8(&mut cp, "Code"); // 7
    pair(&mut cp, 12, 6, 3); // 8
    pair(&mut cp, 10, 5, 8); // 9
    cp.push(15);
    cp.push(6);
    u16s(&mut cp, 9); // 10 MethodHandle invokestatic
    utf8(&mut cp, "n=\u{1}\u{2}"); // 11
    cp.push(8);
    u16s(&mut cp, 11); // 12
    utf8(&mut cp, "!"); // 13
    cp.push(8);
    u16s(&mut cp, 13); // 14
    utf8(&mut cp, "(I)Ljava/lang/String;"); // 15
    pair(&mut cp, 12, 6, 15); // 16
    pair(&mut cp, 18, 0, 16); // 17 InvokeDynamic
    utf8(&mut cp, "BootstrapMethods"); // 18
    utf8(&mut cp, "run"); // 19
    utf8(&mut cp, "()Ljava/lang/String;"); // 20
    let methods = vec![M { name: 19, desc: 20, code: vec![0x10, 42, 0xba, 0, 17, 0, 0, 0xb0], handlers: vec![] }];
    let mut b = class_bytes(&cp, 21, 2, 0, &methods);
    b.truncate(b.len() - 2);
    u16s(&mut b, 1);
    u16s(&mut b, 18);
    b.extend_from_slice(&10u32.to_be_bytes());
    u16s(&mut b, 1);
    u16s(&mut b, 10);
    u16s(&mut b, 2);
    u16s(&mut b, 12);
    u16s(&mut b, 14);
    parse(&b).expect("parse")
}

#[test]
fn string_concatenation_call_sites_make_the_string() {
    let mut m = Machine::new(vec![concat_class()]);
    match m.invoke_static("pkg/Cat", "run", "()Ljava/lang/String;", vec![], 1000) {
        Some(Outcome::Finished(Value::Ref(Some(k)))) => {
            assert_eq!(m.heap().objects[k as usize].payload, Payload::JavaString("n=42!".to_string()));
            assert_eq!(m.heap().objects[k as usize].class_name, "java/lang/String");
        }
        Some(Outcome::Delegated(op)) => panic!("delegated {op}"),
        Some(Outcome::Fault(e)) => panic!("fault {e}"),
        Some(Outcome::Thrown(e)) => panic!("thrown {e}"),
        Some(Outcome::Native(c)) => panic!("native {}", c.name),
        Some(Outcome::Finished(v)) => panic!("finished {v:?}"),
        Some(Outcome::Continue) => panic!("continue"),
        None => panic!("none"),
    }
}

#[test]
fn monitors_are_entered_and_exited_reentrantly() {
    let mut m = Machine::new(vec![object_class()]);
    m.initialized = vec![true];
    assert!(m.call_method(0, "sync", "()I", vec![]));
    // new; dup; dup; monitorenter; monitorenter (count 2); dup; monitorexit; monitorexit
    for _ in 0..5 {
        assert!(matches!(m.step(), Outcome::Continue));
    }
    assert_eq!(m.monitors.monitor(0).map(|mon| mon.count), Some(2));
    assert_eq!(finish(&mut m), Value::Int(1));
    assert!(m.monitors.monitor(0).is_none());
}

#[test]
fn exiting_a_monitor_not_entered_throws() {
    let mut m = Machine::new(vec![object_class()]);
    m.initialized = vec![true];
    assert!(m.call_method(0, "badExit", "()I", vec![]));
    match run(&mut m) {
        Outcome::Thrown(e) => assert_eq!(e, "java/lang/IllegalMonitorStateException: monitor not entered"),
        _ => panic!("expected IllegalMonitorStateException"),
    }
}
