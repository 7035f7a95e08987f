//! The integer instructions of the bytecode (JVMS §6.5): arithmetic, whose
//! results are the low-order bits of the true mathematical result, with
//! division truncating toward zero and shift distances cut to their low 5
//! (`int`) or 6 (`long`) bits; conditional branches; and the targets of
//! `tableswitch` and `lookupswitch`.

use vstd::prelude::*;
use crate::class_spec::be_u32;
use crate::descriptors::read_i32;
use crate::text::{int_text, push_int_text};

verus! {

pub const IADD: u8 = 0x60;
pub const LADD: u8 = 0x61;
pub const ISUB: u8 = 0x64;
pub const LSUB: u8 = 0x65;
pub const IMUL: u8 = 0x68;
pub const LMUL: u8 = 0x69;
pub const IDIV: u8 = 0x6c;
pub const LDIV: u8 = 0x6d;
pub const IREM: u8 = 0x70;
pub const LREM: u8 = 0x71;
pub const ISHL: u8 = 0x78;
pub const LSHL: u8 = 0x79;
pub const ISHR: u8 = 0x7a;
pub const LSHR: u8 = 0x7b;
pub const IUSHR: u8 = 0x7c;
pub const LUSHR: u8 = 0x7d;
pub const IAND: u8 = 0x7e;
pub const LAND: u8 = 0x7f;
pub const IOR: u8 = 0x80;
pub const LOR: u8 = 0x81;
pub const IXOR: u8 = 0x82;
pub const LXOR: u8 = 0x83;

/// The error of an integer division or remainder by zero.
pub open spec fn division_by_zero_text() -> Seq<char> {
    "java/lang/ArithmeticException: / by zero"@
}

pub open spec fn abs(x: int) -> int {
    if x < 0 {
        -x
    } else {
        x
    }
}

/// Division rounding toward zero.
pub open spec fn trunc_div(a: int, b: int) -> int {
    if (a < 0) == (b < 0) {
        abs(a) / abs(b)
    } else {
        -(abs(a) / abs(b))
    }
}

/// The remainder that goes with `trunc_div`: it has the sign of `a`.
pub open spec fn trunc_rem(a: int, b: int) -> int {
    if a < 0 {
        -(abs(a) % abs(b))
    } else {
        abs(a) % abs(b)
    }
}

/// Whether the opcode is a binary `int` arithmetic or logic instruction.
pub open spec fn is_int_binary(op: u8) -> bool {
    op == IADD || op == ISUB || op == IMUL || op == IDIV || op == IREM || op == ISHL || op == ISHR
        || op == IUSHR || op == IAND || op == IOR || op == IXOR
}

/// Whether the opcode is a binary `long` arithmetic or logic instruction
/// (shifts excepted: their distance is an `int`).
pub open spec fn is_long_binary(op: u8) -> bool {
    op == LADD || op == LSUB || op == LMUL || op == LDIV || op == LREM || op == LAND || op == LOR || op
        == LXOR
}

/// Whether the opcode is a `long` shift.
pub open spec fn is_long_shift(op: u8) -> bool {
    op == LSHL || op == LSHR || op == LUSHR
}

/// What a binary `int` instruction leaves for operands `a` and `b` (`b` on
/// top of the stack).
pub open spec fn int_binary_result(op: u8, a: i32, b: i32) -> Result<i32, Seq<char>> {
    if op == IADD {
        Ok((a + b) as i32)
    } else if op == ISUB {
        Ok((a - b) as i32)
    } else if op == IMUL {
        Ok((a * b) as i32)
    } else if op == IDIV {
        if b == 0 {
            Err(division_by_zero_text())
        } else {
            Ok(trunc_div(a as int, b as int) as i32)
        }
    } else if op == IREM {
        if b == 0 {
            Err(division_by_zero_text())
        } else {
            Ok(trunc_rem(a as int, b as int) as i32)
        }
    } else if op == ISHL {
        Ok(a << ((b & 0x1f) as u32))
    } else if op == ISHR {
        Ok(a >> ((b & 0x1f) as u32))
    } else if op == IUSHR {
        Ok(((a as u32) >> ((b & 0x1f) as u32)) as i32)
    } else if op == IAND {
        Ok(a & b)
    } else if op == IOR {
        Ok(a | b)
    } else {
        Ok(a ^ b)
    }
}

/// What a binary `long` instruction leaves for operands `a` and `b`.
pub open spec fn long_binary_result(op: u8, a: i64, b: i64) -> Result<i64, Seq<char>> {
    if op == LADD {
        Ok((a + b) as i64)
    } else if op == LSUB {
        Ok((a - b) as i64)
    } else if op == LMUL {
        Ok((a * b) as i64)
    } else if op == LDIV {
        if b == 0 {
            Err(division_by_zero_text())
        } else {
            Ok(trunc_div(a as int, b as int) as i64)
        }
    } else if op == LREM {
        if b == 0 {
            Err(division_by_zero_text())
        } else {
            Ok(trunc_rem(a as int, b as int) as i64)
        }
    } else if op == LAND {
        Ok(a & b)
    } else if op == LOR {
        Ok(a | b)
    } else {
        Ok(a ^ b)
    }
}

/// What a `long` shift leaves for value `a` and distance `s`.
pub open spec fn long_shift_result(op: u8, a: i64, s: i32) -> i64 {
    if op == LSHL {
        a << ((s & 0x3f) as u64)
    } else if op == LSHR {
        a >> ((s & 0x3f) as u64)
    } else {
        ((a as u64) >> ((s & 0x3f) as u64)) as i64
    }
}

/// `trunc_div` and `trunc_rem` of 64-bit magnitudes, computed without
/// overflow.
fn div_rem_magnitudes(a: i128, b: i128) -> (r: (i128, i128))
    requires
        b != 0,
        -0x1_0000_0000_0000_0000 <= a <= 0x1_0000_0000_0000_0000,
        -0x1_0000_0000_0000_0000 <= b <= 0x1_0000_0000_0000_0000,
    ensures
        r.0 == trunc_div(a as int, b as int),
        r.1 == trunc_rem(a as int, b as int),
{
    let ua: u128 = if a < 0 {
        (0 - a) as u128
    } else {
        a as u128
    };
    let ub: u128 = if b < 0 {
        (0 - b) as u128
    } else {
        b as u128
    };
    let q = ua / ub;
    let m = ua % ub;
    assert(q <= ua) by (nonlinear_arith)
        requires
            ub >= 1,
            q == ua / ub,
    ;
    let q = q as i128;
    let m = m as i128;
    let quotient = if (a < 0) == (b < 0) {
        q
    } else {
        0 - q
    };
    let remainder = if a < 0 {
        0 - m
    } else {
        m
    };
    (quotient, remainder)
}

/// A binary `int` arithmetic or logic instruction on `a` and `b` (`b` on
/// top of the stack); division and remainder by zero are an
/// `ArithmeticException`.
pub fn int_binary_op(op: u8, a: i32, b: i32) -> (r: Result<i32, String>)
    requires
        is_int_binary(op),
    ensures
        match r {
            Ok(v) => int_binary_result(op, a, b) == Ok::<i32, Seq<char>>(v),
            Err(e) => int_binary_result(op, a, b) == Err::<i32, Seq<char>>(e@),
        },
{
    if op == IADD {
        Ok((a as i64 + b as i64) as i32)
    } else if op == ISUB {
        Ok((a as i64 - b as i64) as i32)
    } else if op == IMUL {
        assert(-0x4000_0000_0000_0000 <= a * b <= 0x4000_0000_0000_0000) by (nonlinear_arith)
            requires
                -0x8000_0000 <= a <= 0x7fff_ffff,
                -0x8000_0000 <= b <= 0x7fff_ffff,
        ;
        Ok((a as i64 * b as i64) as i32)
    } else if op == IDIV || op == IREM {
        if b == 0 {
            return Err("java/lang/ArithmeticException: / by zero".to_string());
        }
        let (q, m) = div_rem_magnitudes(a as i128, b as i128);
        if op == IDIV {
            Ok(q as i32)
        } else {
            Ok(m as i32)
        }
    } else if op == ISHL {
        let s = b & 0x1f;
        assert(0 <= s < 32) by (bit_vector)
            requires
                s == b & 0x1f,
        ;
        Ok(a << (s as u32))
    } else if op == ISHR {
        let s = b & 0x1f;
        assert(0 <= s < 32) by (bit_vector)
            requires
                s == b & 0x1f,
        ;
        Ok(a >> (s as u32))
    } else if op == IUSHR {
        let s = b & 0x1f;
        assert(0 <= s < 32) by (bit_vector)
            requires
                s == b & 0x1f,
        ;
        Ok(((a as u32) >> (s as u32)) as i32)
    } else if op == IAND {
        Ok(a & b)
    } else if op == IOR {
        Ok(a | b)
    } else {
        Ok(a ^ b)
    }
}

/// A binary `long` arithmetic or logic instruction on `a` and `b`.
pub fn long_binary_op(op: u8, a: i64, b: i64) -> (r: Result<i64, String>)
    requires
        is_long_binary(op),
    ensures
        match r {
            Ok(v) => long_binary_result(op, a, b) == Ok::<i64, Seq<char>>(v),
            Err(e) => long_binary_result(op, a, b) == Err::<i64, Seq<char>>(e@),
        },
{
    if op == LADD {
        Ok((a as i128 + b as i128) as i64)
    } else if op == LSUB {
        Ok((a as i128 - b as i128) as i64)
    } else if op == LMUL {
        assert(-0x4000_0000_0000_0000_0000_0000_0000_0000 <= a * b <= 0x4000_0000_0000_0000_0000_0000_0000_0000)
            by (nonlinear_arith)
            requires
                -0x8000_0000_0000_0000 <= a <= 0x7fff_ffff_ffff_ffff,
                -0x8000_0000_0000_0000 <= b <= 0x7fff_ffff_ffff_ffff,
        ;
        Ok((a as i128 * b as i128) as i64)
    } else if op == LDIV || op == LREM {
        if b == 0 {
            return Err("java/lang/ArithmeticException: / by zero".to_string());
        }
        let (q, m) = div_rem_magnitudes(a as i128, b as i128);
        if op == LDIV {
            Ok(q as i64)
        } else {
            Ok(m as i64)
        }
    } else if op == LAND {
        Ok(a & b)
    } else if op == LOR {
        Ok(a | b)
    } else {
        Ok(a ^ b)
    }
}

/// A `long` shift of `a` by the distance `s` (an `int`).
pub fn long_shift_op(op: u8, a: i64, s: i32) -> (r: i64)
    requires
        is_long_shift(op),
    ensures
        r == long_shift_result(op, a, s),
{
    let d = s & 0x3f;
    assert(0 <= d < 64) by (bit_vector)
        requires
            d == s & 0x3f,
    ;
    if op == LSHL {
        a << (d as u64)
    } else if op == LSHR {
        a >> (d as u64)
    } else {
        ((a as u64) >> (d as u64)) as i64
    }
}

pub const INEG: u8 = 0x74;
pub const I2B: u8 = 0x91;
pub const I2C: u8 = 0x92;
pub const I2S: u8 = 0x93;

/// What a unary `int` instruction leaves: `ineg`, `i2b`, `i2c`, `i2s`.
pub open spec fn int_unary_result(op: u8, a: i32) -> i32 {
    if op == INEG {
        (-a) as i32
    } else if op == I2B {
        (a as i8) as i32
    } else if op == I2C {
        (a as u16) as i32
    } else {
        (a as i16) as i32
    }
}

/// A unary `int` instruction: `ineg` wraps, `i2b` and `i2s` keep the low
/// bits sign-extended, `i2c` keeps them zero-extended.
pub fn int_unary_op(op: u8, a: i32) -> (r: i32)
    requires
        op == INEG || op == I2B || op == I2C || op == I2S,
    ensures
        r == int_unary_result(op, a),
{
    if op == INEG {
        (0i64 - a as i64) as i32
    } else if op == I2B {
        (a as i8) as i32
    } else if op == I2C {
        (a as u16) as i32
    } else {
        (a as i16) as i32
    }
}

/// `lcmp`: -1, 0 or 1 as `a` is below, equal to or above `b`.
pub fn lcmp(a: i64, b: i64) -> (r: i32)
    ensures
        r == (if a < b {
            -1i32
        } else if a == b {
            0i32
        } else {
            1i32
        }),
{
    if a < b {
        -1
    } else if a == b {
        0
    } else {
        1
    }
}

/// Whether a conditional branch is taken: `ifeq` ... `ifle` (0x99 to 0x9e)
/// compare `a` with zero, `if_icmpeq` ... `if_icmple` (0x9f to 0xa4) compare
/// `a` with `b`, in the order eq, ne, lt, ge, gt, le.
pub open spec fn branch_condition(op: u8, a: i32, b: i32) -> bool {
    let other: int = if op <= 0x9e {
        0
    } else {
        b as int
    };
    let cond = if op <= 0x9e {
        op - 0x99
    } else {
        op - 0x9f
    };
    if cond == 0 {
        a == other
    } else if cond == 1 {
        a != other
    } else if cond == 2 {
        a < other
    } else if cond == 3 {
        a >= other
    } else if cond == 4 {
        a > other
    } else {
        a <= other
    }
}

/// Whether the conditional branch `op` is taken on `a` (and `b` for the
/// two-operand comparisons).
pub fn branch_taken(op: u8, a: i32, b: i32) -> (r: bool)
    requires
        0x99 <= op <= 0xa4,
    ensures
        r == branch_condition(op, a, b),
{
    let other: i32 = if op <= 0x9e {
        0
    } else {
        b
    };
    let cond: u8 = if op <= 0x9e {
        op - 0x99
    } else {
        op - 0x9f
    };
    if cond == 0 {
        a == other
    } else if cond == 1 {
        a != other
    } else if cond == 2 {
        a < other
    } else if cond == 3 {
        a >= other
    } else if cond == 4 {
        a > other
    } else {
        a <= other
    }
}

/// `iinc`: the local `v` plus the signed byte `c`, wrapping.
pub fn iinc(v: i32, c: i8) -> (r: i32)
    ensures
        r == (v + c) as i32,
{
    (v as i64 + c as i64) as i32
}

// ---------------------------------------------------------------------------
// Laws
// ---------------------------------------------------------------------------

proof fn lemma_trunc_identity(a: int, b: int)
    requires
        b != 0,
    ensures
        a == b * trunc_div(a, b) + trunc_rem(a, b),
        0 <= abs(trunc_rem(a, b)) < abs(b),
        trunc_rem(a, b) != 0 ==> (trunc_rem(a, b) < 0 <==> a < 0),
        abs(trunc_div(a, b)) <= abs(a),
{
    let x = abs(a);
    let y = abs(b);
    assert(x == y * (x / y) + x % y && 0 <= x % y < y) by (nonlinear_arith)
        requires
            y > 0,
            x >= 0,
    ;
    assert(x / y <= x) by (nonlinear_arith)
        requires
            y >= 1,
            x >= 0,
    ;
    assert(x / y >= 0) by (nonlinear_arith)
        requires
            y >= 1,
            x >= 0,
    ;
    if a < 0 && b < 0 {
        assert(a == b * (x / y) + -(x % y)) by (nonlinear_arith)
            requires
                x == -a,
                y == -b,
                x == y * (x / y) + x % y,
        ;
    } else if a < 0 {
        assert(a == b * -(x / y) + -(x % y)) by (nonlinear_arith)
            requires
                x == -a,
                y == b,
                x == y * (x / y) + x % y,
        ;
    } else if b < 0 {
        assert(a == b * -(x / y) + x % y) by (nonlinear_arith)
            requires
                x == a,
                y == -b,
                x == y * (x / y) + x % y,
        ;
    }
}

/// Division and remainder fit together (JVMS `irem`): for a non-zero
/// divisor, `(a / b) * b + (a % b)` is `a` in `int` arithmetic; the
/// remainder is smaller than the divisor in magnitude and, when not zero,
/// has the sign of the dividend.
pub proof fn law_int_div_rem(a: i32, b: i32)
    requires
        b != 0,
    ensures
        ({
            let q = int_binary_result(IDIV, a, b)->Ok_0;
            let r = int_binary_result(IREM, a, b)->Ok_0;
            &&& ((q * b + r) as i32) == a
            &&& abs(r as int) < abs(b as int)
            &&& r != 0 ==> (r < 0 <==> a < 0)
        }),
{
    lemma_trunc_identity(a as int, b as int);
    let t = trunc_div(a as int, b as int);
    let m = trunc_rem(a as int, b as int);
    let q = int_binary_result(IDIV, a, b)->Ok_0;
    let r = int_binary_result(IREM, a, b)->Ok_0;
    let x = abs(a as int);
    let y = abs(b as int);
    assert(r == m);
    if a == i32::MIN && b == -1 {
        assert(x == 0x8000_0000 && y == 1);
        assert(x / y == 0x8000_0000) by (nonlinear_arith)
            requires
                x == 0x8000_0000,
                y == 1,
        ;
        assert(t == 0x8000_0000);
        let big: u64 = 0x8000_0000;
        assert((big as i32) == -0x8000_0000i32) by (bit_vector)
            requires
                big == 0x8000_0000u64,
        ;
        assert(q == -0x8000_0000i32);
        assert(q * b + r == 0x8000_0000int);
        assert((0x8000_0000int as i32) == -0x8000_0000i32) by (bit_vector);
    } else {
        if t == 0x8000_0000 {
            assert(x / y == 0x8000_0000);
            assert(x <= 0x8000_0000);
            assert(y == 1) by (nonlinear_arith)
                requires
                    x / y == x,
                    x > 0,
                    y >= 1,
            ;
        }
        assert(-0x8000_0000 <= t <= 0x7fff_ffff);
        assert(q == t);
        assert(q * b == b * t) by (nonlinear_arith)
            requires
                q == t,
        ;
        assert(q * b + r == a);
    }
}

/// Division and remainder fit together for `long` as for `int` (JVMS
/// `lrem`).
pub proof fn law_long_div_rem(a: i64, b: i64)
    requires
        b != 0,
    ensures
        ({
            let q = long_binary_result(LDIV, a, b)->Ok_0;
            let r = long_binary_result(LREM, a, b)->Ok_0;
            &&& ((q * b + r) as i64) == a
            &&& abs(r as int) < abs(b as int)
            &&& r != 0 ==> (r < 0 <==> a < 0)
        }),
{
    lemma_trunc_identity(a as int, b as int);
    let t = trunc_div(a as int, b as int);
    let m = trunc_rem(a as int, b as int);
    let q = long_binary_result(LDIV, a, b)->Ok_0;
    let r = long_binary_result(LREM, a, b)->Ok_0;
    let x = abs(a as int);
    let y = abs(b as int);
    assert(r == m);
    if a == i64::MIN && b == -1 {
        assert(x == 0x8000_0000_0000_0000 && y == 1);
        assert(x / y == 0x8000_0000_0000_0000) by (nonlinear_arith)
            requires
                x == 0x8000_0000_0000_0000,
                y == 1,
        ;
        assert(t == 0x8000_0000_0000_0000);
        let big: u64 = 0x8000_0000_0000_0000;
        assert((big as i64) == -0x8000_0000_0000_0000i64) by (bit_vector)
            requires
                big == 0x8000_0000_0000_0000u64,
        ;
        assert(q == -0x8000_0000_0000_0000i64);
        assert(q * b + r == 0x8000_0000_0000_0000int);
        assert((0x8000_0000_0000_0000int as i64) == -0x8000_0000_0000_0000i64) by (bit_vector);
    } else {
        if t == 0x8000_0000_0000_0000 {
            assert(x / y == 0x8000_0000_0000_0000);
            assert(x <= 0x8000_0000_0000_0000);
            assert(y == 1) by (nonlinear_arith)
                requires
                    x / y == x,
                    x > 0,
                    y >= 1,
            ;
        }
        assert(-0x8000_0000_0000_0000 <= t <= 0x7fff_ffff_ffff_ffff);
        assert(q == t);
        assert(q * b == b * t) by (nonlinear_arith)
            requires
                q == t,
        ;
        assert(q * b + r == a);
    }
}

// ---------------------------------------------------------------------------
// Switches (JVMS `tableswitch`, `lookupswitch`)
// ---------------------------------------------------------------------------

/// The signed big-endian 32-bit operand at `p`.
#[verifier::opaque]
pub open spec fn be_i32(code: Seq<u8>, p: int) -> i32 {
    be_u32(code, p) as i32
}

/// Where the operands of a switch at `opcode_pc` start: after the opcode,
/// padded to a multiple of four.
pub open spec fn switch_operands(opcode_pc: int) -> int {
    let p = opcode_pc + 1;
    if p % 4 == 0 {
        p
    } else {
        p + 4 - p % 4
    }
}

/// The branch offset a `tableswitch` at `opcode_pc` picks for `key`: the
/// entry for the key when it lies in `low..=high`, else the default.
pub open spec fn tableswitch_offset(code: Seq<u8>, opcode_pc: int, key: i32) -> int {
    let p = switch_operands(opcode_pc);
    let low = be_i32(code, p + 4);
    let high = be_i32(code, p + 8);
    if low <= key <= high {
        be_i32(code, p + 12 + 4 * (key - low)) as int
    } else {
        be_i32(code, p) as int
    }
}

/// The operands of the `tableswitch` at `opcode_pc` lie inside the code,
/// all of its offsets included, and its jump stays in `int` range.
pub open spec fn tableswitch_readable(code: Seq<u8>, opcode_pc: int, key: i32) -> bool {
    let p = switch_operands(opcode_pc);
    let low = be_i32(code, p + 4);
    let high = be_i32(code, p + 8);
    &&& 0 <= opcode_pc <= i32::MAX
    &&& p + 12 <= code.len()
    &&& low <= high ==> high - low + 1 <= i32::MAX && p + 12 + 4 * (high - low + 1) <= code.len()
    &&& low <= high ==> opcode_pc + tableswitch_offset(code, opcode_pc, key) <= i32::MAX
}

/// The next pc after a `tableswitch` at `opcode_pc` on `key`, or the error
/// for a table whose `high` is below its `low`.
pub open spec fn tableswitch_result(code: Seq<u8>, opcode_pc: int, key: i32) -> Result<usize, Seq<char>> {
    let p = switch_operands(opcode_pc);
    let low = be_i32(code, p + 4);
    let high = be_i32(code, p + 8);
    if high < low {
        Err("tableswitch: invalid range low="@ + int_text(low as int) + " high="@ + int_text(high as int))
    } else {
        Ok((opcode_pc + tableswitch_offset(code, opcode_pc, key)) as usize)
    }
}

/// The key of the `k`-th match pair of a `lookupswitch` (operands at `p`).
pub open spec fn pair_key(code: Seq<u8>, p: int, k: int) -> i32 {
    be_i32(code, p + 8 + 8 * k)
}

/// The first match pair of a `lookupswitch` (operands at `p`) whose key is
/// `key`.
pub open spec fn lookup_pair(code: Seq<u8>, p: int, npairs: int, key: i32) -> Option<int> {
    if exists|k: int| 0 <= k < npairs && pair_key(code, p, k) == key {
        Some(
            choose|k: int|
                0 <= k < npairs && pair_key(code, p, k) == key && forall|j: int|
                    0 <= j < k ==> #[trigger] pair_key(code, p, j) != key,
        )
    } else {
        None
    }
}

/// The branch offset a `lookupswitch` at `opcode_pc` picks for `key`: that
/// of the first pair with the key, else the default.
pub open spec fn lookupswitch_offset(code: Seq<u8>, opcode_pc: int, key: i32) -> int {
    let p = switch_operands(opcode_pc);
    let npairs = be_i32(code, p + 4) as int;
    match lookup_pair(code, p, npairs, key) {
        Some(k) => be_i32(code, p + 12 + 8 * k) as int,
        None => be_i32(code, p) as int,
    }
}

/// The operands of the `lookupswitch` at `opcode_pc` lie inside the code,
/// all of its pairs included, and its jump stays in `int` range.
pub open spec fn lookupswitch_readable(code: Seq<u8>, opcode_pc: int, key: i32) -> bool {
    let p = switch_operands(opcode_pc);
    let npairs = be_i32(code, p + 4) as int;
    &&& 0 <= opcode_pc <= i32::MAX
    &&& p + 8 <= code.len()
    &&& npairs >= 0
    &&& p + 8 + 8 * npairs <= code.len()
    &&& opcode_pc + lookupswitch_offset(code, opcode_pc, key) <= i32::MAX
}

proof fn lemma_lookup_pair_is(code: Seq<u8>, p: int, npairs: int, key: i32, k: int)
    requires
        0 <= k < npairs,
        pair_key(code, p, k) == key,
        forall|j: int| 0 <= j < k ==> #[trigger] pair_key(code, p, j) != key,
    ensures
        lookup_pair(code, p, npairs, key) == Some(k),
{
    let c = choose|c: int|
        0 <= c < npairs && pair_key(code, p, c) == key && forall|j: int|
            0 <= j < c ==> #[trigger] pair_key(code, p, j) != key;
    assert(0 <= c < npairs && pair_key(code, p, c) == key);
    if c < k {
        assert(be_i32(code, p + 8 + 8 * c) != key);
    }
    if k < c {
        assert(be_i32(code, p + 8 + 8 * k) != key);
    }
}

fn switch_operands_of(opcode_pc: usize) -> (p: usize)
    requires
        opcode_pc <= i32::MAX,
    ensures
        p == switch_operands(opcode_pc as int),
{
    let p = opcode_pc + 1;
    if p % 4 == 0 {
        p
    } else {
        p + 4 - p % 4
    }
}

/// The operand at `*pc` as `be_i32` gives it; advances `pc` by 4.
fn read_operand(code: &[u8], pc: &mut usize) -> (v: i32)
    requires
        *old(pc) + 4 <= code@.len(),
    ensures
        v == be_i32(code@, *old(pc) as int),
        *final(pc) == *old(pc) + 4,
{
    proof {
        reveal(be_i32);
    }
    read_i32(code, pc)
}

/// The next pc after a `tableswitch` at `opcode_pc` with `key` on the
/// stack: the matching entry's offset, or the default, added to the pc of
/// the instruction; a table whose `high` is below its `low` is an error.
pub fn tableswitch_target(code: &[u8], opcode_pc: usize, key: i32) -> (r: Result<usize, String>)
    requires
        tableswitch_readable(code@, opcode_pc as int, key),
    ensures
        match r {
            Ok(t) => tableswitch_result(code@, opcode_pc as int, key) == Ok::<usize, Seq<char>>(t),
            Err(e) => tableswitch_result(code@, opcode_pc as int, key) == Err::<usize, Seq<char>>(e@),
        },
{
    let ghost c = code@;
    let mut pc = switch_operands_of(opcode_pc);
    let ghost p = pc as int;
    let default_off = read_operand(code, &mut pc);
    let low = read_operand(code, &mut pc);
    let high = read_operand(code, &mut pc);
    if high < low {
        let mut e = String::new();
        e.append("tableswitch: invalid range low=");
        push_int_text(&mut e, low as i64);
        e.append(" high=");
        push_int_text(&mut e, high as i64);
        return Err(e);
    }
    let n = code.len();
    assert(c.len() == n);
    assert(p + 12 + 4 * (high - low + 1) <= n);
    let off = if key >= low && key <= high {
        let k = (key as i64 - low as i64) as usize;
        assert(pc == p + 12);
        assert(k <= high - low);
        let mut at = pc + 4 * k;
        read_operand(code, &mut at)
    } else {
        default_off
    };
    Ok((opcode_pc as i64 + off as i64) as usize)
}

/// The next pc after a `lookupswitch` at `opcode_pc` with `key` on the
/// stack: the offset of the first pair with the key, or the default, added
/// to the pc of the instruction.
pub fn lookupswitch_target(code: &[u8], opcode_pc: usize, key: i32) -> (r: usize)
    requires
        lookupswitch_readable(code@, opcode_pc as int, key),
    ensures
        r == (opcode_pc + lookupswitch_offset(code@, opcode_pc as int, key)) as usize,
{
    let ghost c = code@;
    let mut pc = switch_operands_of(opcode_pc);
    let ghost p = pc as int;
    let default_off = read_operand(code, &mut pc);
    let npairs_raw = read_operand(code, &mut pc);
    let npairs = npairs_raw as usize;
    assert(npairs as int == be_i32(c, p + 4) as int);
    let mut k: usize = 0;
    while k < npairs
        invariant
            c == code@,
            opcode_pc <= i32::MAX,
            p == switch_operands(opcode_pc as int),
            npairs as int == be_i32(c, p + 4) as int,
            p + 8 + 8 * npairs <= c.len(),
            k <= npairs,
            pc == p + 8 + 8 * k,
            forall|j: int| 0 <= j < k ==> #[trigger] pair_key(c, p, j) != key,
        decreases npairs - k,
    {
        let pair_key_k = read_operand(code, &mut pc);
        let pair_off = read_operand(code, &mut pc);
        assert(pair_key_k == pair_key(c, p, k as int));
        if pair_key_k == key {
            proof {
                lemma_lookup_pair_is(c, p, npairs as int, key, k as int);
                assert(pair_off == be_i32(c, p + 12 + 8 * k));
            }
            return (opcode_pc as i64 + pair_off as i64) as usize;
        }
        k = k + 1;
    }
    assert(!exists|j: int| 0 <= j < npairs && pair_key(c, p, j) == key);
    (opcode_pc as i64 + default_off as i64) as usize
}

/// Whether the `tableswitch` at `opcode_pc` can be carried out on `key`,
/// as `tableswitch_readable` says.
pub fn tableswitch_ready(code: &[u8], opcode_pc: usize, key: i32) -> (r: bool)
    ensures
        r == tableswitch_readable(code@, opcode_pc as int, key),
{
    let ghost c = code@;
    if opcode_pc > 0x7fff_ffff {
        return false;
    }
    let mut pc = switch_operands_of(opcode_pc);
    let ghost p = pc as int;
    if pc > code.len() || code.len() - pc < 12 {
        return false;
    }
    let default_off = read_operand(code, &mut pc);
    let low = read_operand(code, &mut pc);
    let high = read_operand(code, &mut pc);
    if low > high {
        return true;
    }
    let count: i64 = high as i64 - low as i64 + 1;
    if count > 0x7fff_ffff {
        return false;
    }
    if (pc as u128) + 4 * (count as u128) > code.len() as u128 {
        return false;
    }
    let off = if key >= low && key <= high {
        let k = (key as i64 - low as i64) as usize;
        let mut at = pc + 4 * k;
        read_operand(code, &mut at)
    } else {
        default_off
    };
    opcode_pc as i64 + off as i64 <= 0x7fff_ffff
}

/// Whether the `lookupswitch` at `opcode_pc` can be carried out on `key`,
/// as `lookupswitch_readable` says.
pub fn lookupswitch_ready(code: &[u8], opcode_pc: usize, key: i32) -> (r: bool)
    ensures
        r == lookupswitch_readable(code@, opcode_pc as int, key),
{
    let ghost c = code@;
    if opcode_pc > 0x7fff_ffff {
        return false;
    }
    let mut pc = switch_operands_of(opcode_pc);
    let ghost p = pc as int;
    if pc > code.len() || code.len() - pc < 8 {
        return false;
    }
    let default_off = read_operand(code, &mut pc);
    let npairs_raw = read_operand(code, &mut pc);
    if npairs_raw < 0 {
        return false;
    }
    if (pc as u128) + 8 * (npairs_raw as u128) > code.len() as u128 {
        return false;
    }
    let npairs = npairs_raw as usize;
    let mut k: usize = 0;
    while k < npairs
        invariant
            c == code@,
            opcode_pc <= i32::MAX,
            p == switch_operands(opcode_pc as int),
            npairs as int == be_i32(c, p + 4) as int,
            p + 8 + 8 * npairs <= c.len(),
            k <= npairs,
            pc == p + 8 + 8 * k,
            forall|j: int| 0 <= j < k ==> #[trigger] pair_key(c, p, j) != key,
        decreases npairs - k,
    {
        let pair_key_k = read_operand(code, &mut pc);
        let pair_off = read_operand(code, &mut pc);
        assert(pair_key_k == pair_key(c, p, k as int));
        if pair_key_k == key {
            proof {
                lemma_lookup_pair_is(c, p, npairs as int, key, k as int);
                assert(pair_off == be_i32(c, p + 12 + 8 * k));
            }
            return opcode_pc as i64 + pair_off as i64 <= 0x7fff_ffff;
        }
        k = k + 1;
    }
    assert(!exists|j: int| 0 <= j < npairs && pair_key(c, p, j) == key);
    opcode_pc as i64 + default_off as i64 <= 0x7fff_ffff
}

/// Whether the `tableswitch` at `opcode_pc` has a `high` below its `low`,
/// which makes it an error whatever the key.
pub fn tableswitch_inverted(code: &[u8], opcode_pc: usize) -> (r: bool)
    requires
        tableswitch_readable(code@, opcode_pc as int, 0),
    ensures
        r == (tableswitch_result(code@, opcode_pc as int, 0) is Err),
{
    let mut pc = switch_operands_of(opcode_pc) + 4;
    let low = read_operand(code, &mut pc);
    let high = read_operand(code, &mut pc);
    high < low
}

} // verus!
