use jvm_core::arith::{
    branch_taken, iinc, lookupswitch_target, tableswitch_target, int_binary_op, int_unary_op, lcmp, long_binary_op, long_shift_op, I2B, I2C, I2S, IADD,
    IAND, IDIV, IMUL, INEG, IOR, IREM, ISHL, ISHR, ISUB, IUSHR, IXOR, LADD, LDIV, LMUL, LREM, LSHL, LSHR, LUSHR,
};

#[test]
fn int_arithmetic_wraps() {
    assert_eq!(int_binary_op(IADD, i32::MAX, 1), Ok(i32::MIN));
    assert_eq!(int_binary_op(ISUB, i32::MIN, 1), Ok(i32::MAX));
    assert_eq!(int_binary_op(IMUL, 0x10000, 0x10000), Ok(0));
    assert_eq!(int_binary_op(IMUL, -3, 7), Ok(-21));
    assert_eq!(int_unary_op(INEG, i32::MIN), i32::MIN);
    assert_eq!(int_unary_op(INEG, 5), -5);
}

#[test]
fn int_division_truncates_toward_zero() {
    assert_eq!(int_binary_op(IDIV, 7, 2), Ok(3));
    assert_eq!(int_binary_op(IDIV, -7, 2), Ok(-3));
    assert_eq!(int_binary_op(IDIV, 7, -2), Ok(-3));
    assert_eq!(int_binary_op(IDIV, i32::MIN, -1), Ok(i32::MIN));
    assert_eq!(int_binary_op(IREM, -7, 2), Ok(-1));
    assert_eq!(int_binary_op(IREM, 7, -2), Ok(1));
    assert_eq!(int_binary_op(IREM, i32::MIN, -1), Ok(0));
    assert_eq!(int_binary_op(IDIV, 1, 0), Err("java/lang/ArithmeticException: / by zero".to_string()));
    assert_eq!(int_binary_op(IREM, 1, 0), Err("java/lang/ArithmeticException: / by zero".to_string()));
}

#[test]
fn int_division_and_remainder_recombine() {
    for (a, b) in [(7, 2), (-7, 2), (7, -2), (-7, -2), (i32::MIN, -1), (i32::MIN, 3), (0, 5)] {
        let q = int_binary_op(IDIV, a, b).unwrap();
        let r = int_binary_op(IREM, a, b).unwrap();
        assert_eq!(q.wrapping_mul(b).wrapping_add(r), a);
    }
}

#[test]
fn int_shifts_use_low_five_bits() {
    assert_eq!(int_binary_op(ISHL, 1, 33), Ok(2));
    assert_eq!(int_binary_op(ISHR, -8, 1), Ok(-4));
    assert_eq!(int_binary_op(IUSHR, -1, 28), Ok(15));
    assert_eq!(int_binary_op(IUSHR, -1, 32), Ok(-1));
    assert_eq!(int_binary_op(IAND, 0b1100, 0b1010), Ok(0b1000));
    assert_eq!(int_binary_op(IOR, 0b1100, 0b1010), Ok(0b1110));
    assert_eq!(int_binary_op(IXOR, 0b1100, 0b1010), Ok(0b0110));
}

#[test]
fn long_arithmetic() {
    assert_eq!(long_binary_op(LADD, i64::MAX, 1), Ok(i64::MIN));
    assert_eq!(long_binary_op(LMUL, 1 << 32, 1 << 32), Ok(0));
    assert_eq!(long_binary_op(LDIV, -9, 4), Ok(-2));
    assert_eq!(long_binary_op(LREM, -9, 4), Ok(-1));
    assert_eq!(long_binary_op(LDIV, i64::MIN, -1), Ok(i64::MIN));
    assert_eq!(long_binary_op(LREM, 5, 0), Err("java/lang/ArithmeticException: / by zero".to_string()));
    assert_eq!(long_shift_op(LSHL, 1, 65), 2);
    assert_eq!(long_shift_op(LSHR, -16, 2), -4);
    assert_eq!(long_shift_op(LUSHR, -1, 60), 15);
    assert_eq!(lcmp(1, 2), -1);
    assert_eq!(lcmp(2, 2), 0);
    assert_eq!(lcmp(i64::MAX, i64::MIN), 1);
}

#[test]
fn narrowing_conversions_and_iinc() {
    assert_eq!(int_unary_op(I2B, 200), -56);
    assert_eq!(int_unary_op(I2C, -1), 65535);
    assert_eq!(int_unary_op(I2S, 70000), 4464);
    assert_eq!(iinc(i32::MAX, 1), i32::MIN);
    assert_eq!(iinc(10, -3), 7);
}

#[test]
fn conditional_branches() {
    assert!(branch_taken(0x99, 0, 123)); // ifeq
    assert!(!branch_taken(0x9a, 0, 0)); // ifne
    assert!(branch_taken(0x9b, -1, 0)); // iflt
    assert!(branch_taken(0x9c, 0, 0)); // ifge
    assert!(!branch_taken(0x9d, 0, 0)); // ifgt
    assert!(branch_taken(0x9e, 0, 0)); // ifle
    assert!(branch_taken(0x9f, 3, 3)); // if_icmpeq
    assert!(branch_taken(0xa0, 3, 4)); // if_icmpne
    assert!(branch_taken(0xa1, 3, 4)); // if_icmplt
    assert!(!branch_taken(0xa2, 3, 4)); // if_icmpge
    assert!(branch_taken(0xa3, 5, 4)); // if_icmpgt
    assert!(branch_taken(0xa4, 4, 4)); // if_icmple
}

fn be(v: i32) -> [u8; 4] {
    v.to_be_bytes()
}

#[test]
fn tableswitch_picks_the_entry_or_the_default() {
    // nop; tableswitch at pc 1, operands padded to pc 4.
    let mut code = vec![0x00, 0xaa, 0, 0];
    code.extend_from_slice(&be(100)); // default
    code.extend_from_slice(&be(10)); // low
    code.extend_from_slice(&be(12)); // high
    code.extend_from_slice(&be(20));
    code.extend_from_slice(&be(30));
    code.extend_from_slice(&be(-1));
    assert_eq!(tableswitch_target(&code, 1, 10), Ok(21));
    assert_eq!(tableswitch_target(&code, 1, 11), Ok(31));
    assert_eq!(tableswitch_target(&code, 1, 12), Ok(0));
    assert_eq!(tableswitch_target(&code, 1, 9), Ok(101));
    assert_eq!(tableswitch_target(&code, 1, 13), Ok(101));

    let mut bad = vec![0xaa, 0, 0, 0];
    bad.extend_from_slice(&be(8));
    bad.extend_from_slice(&be(5));
    bad.extend_from_slice(&be(-2));
    assert_eq!(
        tableswitch_target(&bad, 0, 0),
        Err("tableswitch: invalid range low=5 high=-2".to_string())
    );
}

#[test]
fn lookupswitch_picks_the_first_matching_pair() {
    // lookupswitch at pc 3: operands start at pc 4.
    let mut code = vec![0x00, 0x00, 0x00, 0xab];
    code.extend_from_slice(&be(50)); // default
    code.extend_from_slice(&be(3)); // npairs
    for (k, off) in [(-5, 10), (7, 20), (7, 30)] {
        code.extend_from_slice(&be(k));
        code.extend_from_slice(&be(off));
    }
    assert_eq!(lookupswitch_target(&code, 3, -5), 13);
    assert_eq!(lookupswitch_target(&code, 3, 7), 23);
    assert_eq!(lookupswitch_target(&code, 3, 8), 53);
}
