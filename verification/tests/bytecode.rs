use jvm_core::bytecode::{execute_opcode, new_call_frame, pop_args, step_ready, Frame, Step, Value};

/// Runs the code from pc 0 until a step other than `Continue`.
fn run(code: &[u8], locals: Vec<Value>) -> (Frame, Result<Step, String>) {
    let mut frame = Frame { locals, stack: Vec::new(), pc: 0 };
    loop {
        let op = code[frame.pc];
        frame.pc += 1;
        let r = execute_opcode(&mut frame, code, op);
        match r {
            Ok(Step::Continue) => {}
            other => return (frame, other),
        }
    }
}

#[test]
fn adds_two_constants() {
    // iconst_2, iconst_3, iadd, ireturn
    let (_, r) = run(&[0x05, 0x06, 0x60, 0xac], vec![]);
    assert_eq!(r, Ok(Step::Return(Value::Int(5))));
}

#[test]
fn integer_division_by_zero_throws() {
    // bipush 7, iconst_0, idiv
    let (frame, r) = run(&[0x10, 7, 0x03, 0x6c], vec![]);
    assert_eq!(r, Err("java/lang/ArithmeticException: / by zero".to_string()));
    assert_eq!(frame.stack, vec![Value::Int(7)]);
}

#[test]
fn loop_counts_down_with_iinc_and_branch() {
    // local0 = 3; sum in local1
    // 0: iload_0; 1: ifle +13 (-> 14); 4: iload_1; 5: iload_0; 6: iadd; 7: istore_1;
    // 8: iinc 0 -1; 11: goto -11 (-> 0); 14: iload_1; 15: ireturn
    let code = [0x1a, 0x9e, 0x00, 0x0d, 0x1b, 0x1a, 0x60, 0x3c, 0x84, 0x00, 0xff, 0xa7, 0xff, 0xf5, 0x1b, 0xac];
    let (_, r) = run(&code, vec![Value::Int(3), Value::Int(0)]);
    assert_eq!(r, Ok(Step::Return(Value::Int(6))));
}

#[test]
fn long_arithmetic_and_compare() {
    // lconst_1, lconst_1, ladd, lconst_1, lcmp, ireturn  => compare(2, 1) = 1
    let (_, r) = run(&[0x0a, 0x0a, 0x61, 0x0a, 0x94, 0xac], vec![]);
    assert_eq!(r, Ok(Step::Return(Value::Int(1))));
}

#[test]
fn stack_shuffles() {
    let mut f = Frame { locals: vec![], stack: vec![Value::Int(1), Value::Int(2)], pc: 1 };
    assert_eq!(execute_opcode(&mut f, &[0x5f], 0x5f), Ok(Step::Continue)); // swap
    assert_eq!(f.stack, vec![Value::Int(2), Value::Int(1)]);
    assert_eq!(execute_opcode(&mut f, &[0x5a], 0x5a), Ok(Step::Continue)); // dup_x1
    assert_eq!(f.stack, vec![Value::Int(1), Value::Int(2), Value::Int(1)]);
    let mut g = Frame { locals: vec![], stack: vec![Value::Long(9)], pc: 1 };
    assert_eq!(execute_opcode(&mut g, &[0x5c], 0x5c), Ok(Step::Continue)); // dup2 on a long
    assert_eq!(g.stack, vec![Value::Long(9), Value::Long(9)]);
    let mut h = Frame { locals: vec![], stack: vec![], pc: 1 };
    assert_eq!(execute_opcode(&mut h, &[0x57], 0x57), Ok(Step::Continue)); // pop on empty
    assert!(h.stack.is_empty());
}

#[test]
fn reference_branches_and_delegation() {
    // aconst_null, ifnull +5 (-> 6), iconst_0, ireturn, ..., 6: iconst_1, ireturn
    let (_, r) = run(&[0x01, 0xc6, 0x00, 0x05, 0x03, 0xac, 0x04, 0xac], vec![]);
    assert_eq!(r, Ok(Step::Return(Value::Int(1))));
    // getstatic needs the heap: delegated with the frame unchanged.
    let mut f = Frame { locals: vec![], stack: vec![Value::Int(4)], pc: 1 };
    assert_eq!(execute_opcode(&mut f, &[0xb2, 0, 1], 0xb2), Ok(Step::Delegate(0xb2)));
    assert_eq!(f.pc, 1);
    assert_eq!(f.stack, vec![Value::Int(4)]);
}

#[test]
fn tableswitch_picks_the_entry() {
    // 0: iload_0; 1: tableswitch, padding to 4, default 20, low 0, high 1, offsets 12, 16
    let mut code = vec![0x1a, 0xaa, 0x00, 0x00];
    for v in [20i32, 0, 1, 12, 16] {
        code.extend_from_slice(&v.to_be_bytes());
    }
    let mut f = Frame { locals: vec![Value::Int(1)], stack: vec![], pc: 1 };
    assert_eq!(execute_opcode(&mut f, &code, 0x1a), Ok(Step::Continue));
    f.pc = 2;
    assert_eq!(execute_opcode(&mut f, &code, 0xaa), Ok(Step::Continue));
    assert_eq!(f.pc, 1 + 16);
    assert!(f.stack.is_empty());
}

#[test]
fn call_arguments_and_frame() {
    let mut f = Frame { locals: vec![], stack: vec![Value::Int(1), Value::Long(2), Value::Int(3)], pc: 4 };
    let args = pop_args(&mut f, 2);
    assert_eq!(args, vec![Value::Long(2), Value::Int(3)]);
    assert_eq!(f.stack, vec![Value::Int(1)]);
    let more = pop_args(&mut f, 3);
    assert_eq!(more, vec![Value::Void, Value::Void, Value::Int(1)]);
    assert!(f.stack.is_empty());

    let tokens = vec!["J".to_string(), "I".to_string()];
    let frame = new_call_frame(2, &tokens, args);
    assert_eq!(frame.locals, vec![Value::Long(2), Value::Void, Value::Int(3)]);
    assert!(frame.stack.is_empty());
    assert_eq!(frame.pc, 0);
    let wide = new_call_frame(5, &tokens, vec![Value::Long(7)]);
    assert_eq!(wide.locals, vec![Value::Long(7), Value::Void, Value::Void, Value::Void, Value::Void]);
}

#[test]
fn inverted_tableswitch_throws_without_reading_the_key() {
    // tableswitch at 0: padding to 4, default 0, low 1, high 0
    let code = [0xaa, 0, 0, 0, 0, 0, 0, 0, 0, 0, 0, 1, 0, 0, 0, 0];
    let mut frame = Frame { locals: vec![], stack: vec![], pc: 1 };
    assert!(step_ready(&frame, &code, 0xaa));
    let r = execute_opcode(&mut frame, &code, 0xaa);
    assert_eq!(r, Err("tableswitch: invalid range low=1 high=0".to_string()));
    assert_eq!(frame.pc, 16);
    assert!(frame.stack.is_empty());
}
