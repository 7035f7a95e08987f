//! One step of the bytecode interpreter on a frame: constants, local
//! loads and stores, stack manipulation, `int` and `long` arithmetic,
//! conditional and unconditional jumps, switches and returns. What needs
//! the heap, a constant-pool entry or a floating-point operation (field
//! access, invocation, object and array creation, `ldc`, `athrow`,
//! monitors, float and double arithmetic) is handed back to the caller as
//! a `Step::Delegate` with the frame untouched; `heap` carries out the
//! array and field instructions on top of this step.

use vstd::prelude::*;
use crate::arith::{
    branch_condition, int_binary_op, int_binary_result, int_unary_op, int_unary_result, lcmp,
    long_binary_op, long_binary_result, long_shift_op, long_shift_result, lookupswitch_offset,
    lookupswitch_readable, lookupswitch_target, switch_operands, tableswitch_readable, tableswitch_result,
    tableswitch_target, branch_taken, tableswitch_ready, lookupswitch_ready, tableswitch_inverted,
};
use crate::class_spec::{be_u16, be_u32};
use crate::descriptors::{read_i16, read_i32};
use crate::text::str_eq;

verus! {

/// A value in a local variable or on the operand stack. References are
/// handles of heap objects; `float` and `double` values are their bits.
#[derive(Clone, Copy, Debug, PartialEq, Eq, Structural)]
pub enum Value {
    Void,
    Int(i32),
    Long(i64),
    Float(u32),
    Double(u64),
    Ref(Option<u64>),
    ReturnAddress(u32),
}

/// A method activation: its local variables, operand stack and the pc of
/// the next byte to read.
pub struct Frame {
    pub locals: Vec<Value>,
    pub stack: Vec<Value>,
    pub pc: usize,
}

pub struct FrameV {
    pub locals: Seq<Value>,
    pub stack: Seq<Value>,
    pub pc: int,
}

impl View for Frame {
    type V = FrameV;

    open spec fn view(&self) -> FrameV {
        FrameV { locals: self.locals@, stack: self.stack@, pc: self.pc as int }
    }
}

/// What the interpreter does after a step.
#[derive(Clone, Copy, Debug, PartialEq, Eq, Structural)]
pub enum Step {
    /// Go on with the next instruction.
    Continue,
    /// The method returns this value (`Void` for `return`).
    Return(Value),
    /// The instruction with this opcode needs the heap, the constant pool or
    /// floating point; the frame is as it was.
    Delegate(u8),
}

// ---------------------------------------------------------------------------
// The specification of a step
// ---------------------------------------------------------------------------

/// `long` and `double` take two slots in the JVM's stack accounting.
pub open spec fn category2(v: Value) -> bool {
    v is Long || v is Double
}

/// Whether two values are the same reference (both `null`, or the same
/// object).
pub open spec fn same_ref(a: Value, b: Value) -> bool {
    match (a, b) {
        (Value::Ref(None), Value::Ref(None)) => true,
        (Value::Ref(Some(x)), Value::Ref(Some(y))) => x == y,
        _ => false,
    }
}

pub open spec fn top(f: FrameV, k: int) -> Value {
    f.stack[f.stack.len() - 1 - k]
}

pub open spec fn popped(f: FrameV, n: int) -> Seq<Value> {
    f.stack.subrange(0, f.stack.len() - n)
}

pub open spec fn with_stack(f: FrameV, s: Seq<Value>) -> FrameV {
    FrameV { stack: s, ..f }
}

pub open spec fn with_pc(f: FrameV, pc: int) -> FrameV {
    FrameV { pc, ..f }
}

/// The opcodes this module executes itself.
pub open spec fn handled(op: u8) -> bool {
    ||| op <= 0x11
    ||| 0x15 <= op <= 0x2d
    ||| 0x36 <= op <= 0x4e
    ||| 0x57 <= op <= 0x5f
    ||| (0x60 <= op <= 0x83 && is_int_or_long_arith(op))
    ||| op == 0x84 || op == 0x85 || op == 0x88 || (0x91 <= op <= 0x94)
    ||| 0x99 <= op <= 0xa7
    ||| op == 0xaa || op == 0xab
    ||| op == 0xac || op == 0xad || op == 0xae || op == 0xaf || op == 0xb0 || op == 0xb1
    ||| op == 0xc6 || op == 0xc7 || op == 0xc8
}

/// The `int` and `long` arithmetic opcodes among 0x60..=0x83.
pub open spec fn is_int_or_long_arith(op: u8) -> bool {
    let k = (op - 0x60) % 4;
    op >= 0x78 || k == 0 || k == 1
}

/// Constants and pushes of immediate operands.
pub open spec fn const_value(f: FrameV, code: Seq<u8>, op: u8) -> Value {
    if op == 0x01 {
        Value::Ref(None)
    } else if 0x02 <= op <= 0x08 {
        Value::Int((op - 0x03) as i32)
    } else if op == 0x09 || op == 0x0a {
        Value::Long((op - 0x09) as i64)
    } else if op == 0x0b || op == 0x0c || op == 0x0d {
        Value::Float(if op == 0x0b {
            0
        } else if op == 0x0c {
            0x3f80_0000
        } else {
            0x4000_0000
        })
    } else if op == 0x0e || op == 0x0f {
        Value::Double(if op == 0x0e {
            0
        } else {
            0x3ff0_0000_0000_0000
        })
    } else if op == 0x10 {
        Value::Int(code[f.pc] as i8 as i32)
    } else {
        Value::Int(be_u16(code, f.pc) as i16 as i32)
    }
}

/// The bytes of immediate operands an opcode reads.
pub open spec fn operand_bytes(op: u8) -> int {
    if op == 0x10 || 0x15 <= op <= 0x19 || 0x36 <= op <= 0x3a {
        1
    } else if op == 0x11 || op == 0x84 || 0x99 <= op <= 0xa7 || op == 0xc6 || op == 0xc7 {
        2
    } else if op == 0xc8 {
        4
    } else {
        0
    }
}

/// The local variable a load or store opcode names.
pub open spec fn local_index(f: FrameV, code: Seq<u8>, op: u8) -> int {
    if 0x15 <= op <= 0x19 || 0x36 <= op <= 0x3a {
        code[f.pc] as int
    } else if 0x1a <= op <= 0x2d {
        ((op - 0x1a) % 4) as int
    } else {
        ((op - 0x3b) % 4) as int
    }
}

/// The pc a taken 16-bit branch goes to.
pub open spec fn branch_target(f: FrameV, code: Seq<u8>) -> int {
    ((f.pc + 2 - 3 + (be_u16(code, f.pc) as i16) as int) as i32) as usize as int
}

/// Whether a conditional branch at `op` is taken on the frame.
pub open spec fn taken(f: FrameV, op: u8) -> bool {
    if op <= 0x9e {
        branch_condition(op, top(f, 0)->Int_0, 0)
    } else if op <= 0xa4 {
        branch_condition(op, top(f, 1)->Int_0, top(f, 0)->Int_0)
    } else if op == 0xa5 {
        same_ref(top(f, 1), top(f, 0))
    } else if op == 0xa6 {
        !same_ref(top(f, 1), top(f, 0))
    } else if op == 0xc6 {
        top(f, 0) == Value::Ref(None)
    } else {
        top(f, 0) != Value::Ref(None)
    }
}

/// The number of values a conditional branch pops.
pub open spec fn branch_pops(op: u8) -> int {
    if op <= 0x9e || op == 0xc6 || op == 0xc7 {
        1
    } else {
        2
    }
}

/// The stack after a stack-manipulation opcode (0x57..=0x5f).
pub open spec fn shuffled(f: FrameV, op: u8) -> Seq<Value> {
    let v1 = top(f, 0);
    let v2 = top(f, 1);
    let v3 = top(f, 2);
    let v4 = top(f, 3);
    if op == 0x57 {
        if f.stack.len() == 0 {
            f.stack
        } else {
            popped(f, 1)
        }
    } else if op == 0x58 {
        if category2(v1) {
            popped(f, 1)
        } else if f.stack.len() >= 2 {
            popped(f, 2)
        } else {
            Seq::empty()
        }
    } else if op == 0x59 {
        f.stack.push(v1)
    } else if op == 0x5a {
        popped(f, 2) + seq![v1, v2, v1]
    } else if op == 0x5b {
        if category2(v2) {
            popped(f, 2) + seq![v1, v2, v1]
        } else {
            popped(f, 3) + seq![v1, v3, v2, v1]
        }
    } else if op == 0x5c {
        if category2(v1) {
            popped(f, 1) + seq![v1, v1]
        } else {
            popped(f, 2) + seq![v2, v1, v2, v1]
        }
    } else if op == 0x5d {
        if category2(v1) {
            popped(f, 2) + seq![v1, v2, v1]
        } else {
            popped(f, 3) + seq![v2, v1, v3, v2, v1]
        }
    } else if op == 0x5e {
        if category2(v1) {
            if category2(v2) {
                popped(f, 2) + seq![v1, v2, v1]
            } else {
                popped(f, 3) + seq![v1, v3, v2, v1]
            }
        } else if category2(v3) {
            popped(f, 3) + seq![v2, v1, v3, v2, v1]
        } else {
            popped(f, 4) + seq![v2, v1, v4, v3, v2, v1]
        }
    } else {
        popped(f, 2) + seq![v1, v2]
    }
}

/// The values a stack-manipulation opcode needs on the stack.
pub open spec fn shuffle_needs(f: FrameV, op: u8) -> int {
    let v1 = top(f, 0);
    let v2 = top(f, 1);
    let v3 = top(f, 2);
    if op == 0x57 {
        0
    } else if op == 0x59 || op == 0x58 {
        1
    } else if op == 0x5c {
        if f.stack.len() >= 1 && category2(v1) {
            1
        } else {
            2
        }
    } else if op == 0x5a || op == 0x5f {
        2
    } else if op == 0x5b || op == 0x5d {
        if op == 0x5b && f.stack.len() >= 2 && category2(v2) {
            2
        } else if op == 0x5d && f.stack.len() >= 1 && category2(v1) {
            2
        } else {
            3
        }
    } else {
        if f.stack.len() >= 2 && category2(v1) && category2(v2) {
            2
        } else if f.stack.len() >= 3 && (category2(v1) || category2(v3)) {
            3
        } else {
            4
        }
    }
}

/// The result of an arithmetic opcode on the frame: the stack with the
/// operands replaced by the result, or the error for a division by zero
/// (the divisor popped).
pub open spec fn arith_step(f: FrameV, op: u8) -> (Seq<Value>, Result<Step, Seq<char>>) {
    if op == 0x74 || op == 0x91 || op == 0x92 || op == 0x93 {
        (popped(f, 1).push(Value::Int(int_unary_result(op, top(f, 0)->Int_0))), Ok(Step::Continue))
    } else if op == 0x75 {
        (popped(f, 1).push(Value::Long((0 - top(f, 0)->Long_0) as i64)), Ok(Step::Continue))
    } else if op == 0x85 {
        (popped(f, 1).push(Value::Long(top(f, 0)->Int_0 as i64)), Ok(Step::Continue))
    } else if op == 0x88 {
        (popped(f, 1).push(Value::Int(top(f, 0)->Long_0 as i32)), Ok(Step::Continue))
    } else if op == 0x94 {
        let a = top(f, 1)->Long_0;
        let b = top(f, 0)->Long_0;
        (popped(f, 2).push(Value::Int(if a < b { -1i32 } else if a == b { 0i32 } else { 1i32 })), Ok(Step::Continue))
    } else if op % 2 == 0 {
        match int_binary_result(op, top(f, 1)->Int_0, top(f, 0)->Int_0) {
            Ok(v) => (popped(f, 2).push(Value::Int(v)), Ok(Step::Continue)),
            Err(e) => (popped(f, 1), Err(e)),
        }
    } else if op == 0x79 || op == 0x7b || op == 0x7d {
        (
            popped(f, 2).push(Value::Long(long_shift_result(op, top(f, 1)->Long_0, top(f, 0)->Int_0))),
            Ok(Step::Continue),
        )
    } else {
        match long_binary_result(op, top(f, 1)->Long_0, top(f, 0)->Long_0) {
            Ok(v) => (popped(f, 2).push(Value::Long(v)), Ok(Step::Continue)),
            Err(e) => (popped(f, 1), Err(e)),
        }
    }
}

/// The operands an arithmetic opcode needs: `int`s, `long`s, or a `long`
/// and an `int` shift distance.
pub open spec fn arith_ok(f: FrameV, op: u8) -> bool {
    let n = f.stack.len();
    if op == 0x74 || op == 0x91 || op == 0x92 || op == 0x93 || op == 0x85 {
        n >= 1 && top(f, 0) is Int
    } else if op == 0x75 || op == 0x88 {
        n >= 1 && top(f, 0) is Long
    } else if op == 0x94 {
        n >= 2 && top(f, 0) is Long && top(f, 1) is Long
    } else if op % 2 == 0 {
        n >= 1 && top(f, 0) is Int && ((op == 0x6c || op == 0x70) && top(f, 0)->Int_0 == 0 || (n >= 2 && top(
            f,
            1,
        ) is Int))
    } else if op == 0x79 || op == 0x7b || op == 0x7d {
        n >= 2 && top(f, 0) is Int && top(f, 1) is Long
    } else {
        n >= 1 && top(f, 0) is Long && ((op == 0x6d || op == 0x71) && top(f, 0)->Long_0 == 0 || (n >= 2 && top(
            f,
            1,
        ) is Long))
    }
}

/// The frame and outcome of executing `op` (the pc already past it) on the
/// frame `f` with method code `code`.
pub open spec fn step_spec(f: FrameV, code: Seq<u8>, op: u8) -> (FrameV, Result<Step, Seq<char>>) {
    if !handled(op) {
        (f, Ok(Step::Delegate(op)))
    } else if op == 0x00 {
        (f, Ok(Step::Continue))
    } else if op <= 0x11 {
        (
            FrameV { stack: f.stack.push(const_value(f, code, op)), pc: f.pc + operand_bytes(op), ..f },
            Ok(Step::Continue),
        )
    } else if 0x15 <= op <= 0x2d {
        let i = local_index(f, code, op);
        (
            FrameV { stack: f.stack.push(f.locals[i]), pc: f.pc + operand_bytes(op), ..f },
            Ok(Step::Continue),
        )
    } else if 0x36 <= op <= 0x4e {
        let i = local_index(f, code, op);
        (
            FrameV { locals: f.locals.update(i, top(f, 0)), stack: popped(f, 1), pc: f.pc + operand_bytes(op) },
            Ok(Step::Continue),
        )
    } else if 0x57 <= op <= 0x5f {
        (with_stack(f, shuffled(f, op)), Ok(Step::Continue))
    } else if op == 0x84 {
        let i = code[f.pc] as int;
        let c = code[f.pc + 1] as i8;
        let locals = match f.locals[i] {
            Value::Int(v) => f.locals.update(i, Value::Int((v + c) as i32)),
            _ => f.locals,
        };
        (FrameV { locals, pc: f.pc + 2, ..f }, Ok(Step::Continue))
    } else if (0x60 <= op <= 0x83) || op == 0x85 || op == 0x88 || (0x91 <= op <= 0x94) {
        let (s, r) = arith_step(f, op);
        (with_stack(f, s), r)
    } else if (0x99 <= op <= 0xa6) || op == 0xc6 || op == 0xc7 {
        let g = with_stack(f, popped(f, branch_pops(op)));
        if taken(f, op) {
            (with_pc(g, branch_target(f, code)), Ok(Step::Continue))
        } else {
            (with_pc(g, f.pc + 2), Ok(Step::Continue))
        }
    } else if op == 0xa7 {
        (with_pc(f, branch_target(f, code)), Ok(Step::Continue))
    } else if op == 0xc8 {
        (with_pc(f, ((f.pc + 4 - 5 + be_u32(code, f.pc) as i32) as i32) as usize as int), Ok(Step::Continue))
    } else if op == 0xaa {
        match tableswitch_result(code, f.pc - 1, top(f, 0)->Int_0) {
            Ok(t) => (FrameV { stack: popped(f, 1), pc: t as int, ..f }, Ok(Step::Continue)),
            Err(e) => (with_pc(f, switch_operands(f.pc - 1) + 12), Err(e)),
        }
    } else if op == 0xab {
        (
            FrameV {
                stack: popped(f, 1),
                pc: (f.pc - 1 + lookupswitch_offset(code, f.pc - 1, top(f, 0)->Int_0)) as usize as int,
                ..f
            },
            Ok(Step::Continue),
        )
    } else if op == 0xb1 {
        (f, Ok(Step::Return(Value::Void)))
    } else {
        (with_stack(f, popped(f, 1)), Ok(Step::Return(top(f, 0))))
    }
}

/// The inputs on which a step does not stop the interpreter: the operands
/// it reads are in the code, the locals it names exist, the stack holds
/// what it pops, of the types the opcode works on, and jump targets are
/// computed within `int` range.
pub open spec fn step_ok(f: FrameV, code: Seq<u8>, op: u8) -> bool {
    let n = f.stack.len();
    if !handled(op) || op == 0x00 {
        true
    } else if op <= 0x11 {
        f.pc + operand_bytes(op) <= code.len()
    } else if 0x15 <= op <= 0x2d {
        f.pc + operand_bytes(op) <= code.len() && local_index(f, code, op) < f.locals.len()
    } else if 0x36 <= op <= 0x4e {
        f.pc + operand_bytes(op) <= code.len() && local_index(f, code, op) < f.locals.len() && n >= 1
    } else if 0x57 <= op <= 0x5f {
        n >= shuffle_needs(f, op)
    } else if op == 0x84 {
        f.pc + 2 <= code.len() && (code[f.pc] as int) < f.locals.len()
    } else if (0x60 <= op <= 0x83) || op == 0x85 || op == 0x88 || (0x91 <= op <= 0x94) {
        arith_ok(f, op)
    } else if (0x99 <= op <= 0xa6) || op == 0xc6 || op == 0xc7 {
        &&& f.pc + 2 <= code.len()
        &&& f.pc + 2 <= i32::MAX
        &&& n >= branch_pops(op)
        &&& (op <= 0x9e ==> top(f, 0) is Int)
        &&& (0x9f <= op <= 0xa4 ==> top(f, 0) is Int && top(f, 1) is Int)
        &&& i32::MIN <= f.pc + 2 - 3 + (be_u16(code, f.pc) as i16) as int <= i32::MAX
    } else if op == 0xa7 {
        &&& f.pc + 2 <= code.len()
        &&& f.pc + 2 <= i32::MAX
        &&& i32::MIN <= f.pc + 2 - 3 + (be_u16(code, f.pc) as i16) as int <= i32::MAX
    } else if op == 0xc8 {
        &&& f.pc + 4 <= code.len()
        &&& f.pc + 4 <= i32::MAX
        &&& i32::MIN <= f.pc + 4 - 5 + (be_u32(code, f.pc) as i32) as int <= i32::MAX
    } else if op == 0xaa {
        1 <= f.pc && if n >= 1 && top(f, 0) is Int {
            tableswitch_readable(code, f.pc - 1, top(f, 0)->Int_0)
        } else {
            tableswitch_readable(code, f.pc - 1, 0) && tableswitch_result(code, f.pc - 1, 0) is Err
        }
    } else if op == 0xab {
        1 <= f.pc && n >= 1 && top(f, 0) is Int && lookupswitch_readable(code, f.pc - 1, top(f, 0)->Int_0)
    } else if op == 0xb1 {
        true
    } else {
        n >= 1
    }
}

// ---------------------------------------------------------------------------
// Execution
// ---------------------------------------------------------------------------

/// The outcome of a step as a value.
pub open spec fn outcome_view(r: Result<Step, String>) -> Result<Step, Seq<char>> {
    match r {
        Ok(s) => Ok(s),
        Err(e) => Err(e@),
    }
}

pub(crate) fn pop_value(stack: &mut Vec<Value>) -> (v: Value)
    requires
        old(stack)@.len() > 0,
    ensures
        v == old(stack)@.last(),
        final(stack)@ == old(stack)@.drop_last(),
{
    match stack.pop() {
        Some(v) => v,
        None => vstd::pervasive::unreached(),
    }
}

fn pop_int(stack: &mut Vec<Value>) -> (v: i32)
    requires
        old(stack)@.len() > 0,
        old(stack)@.last() is Int,
    ensures
        v == old(stack)@.last()->Int_0,
        final(stack)@ == old(stack)@.drop_last(),
{
    match pop_value(stack) {
        Value::Int(v) => v,
        _ => vstd::pervasive::unreached(),
    }
}

fn pop_long(stack: &mut Vec<Value>) -> (v: i64)
    requires
        old(stack)@.len() > 0,
        old(stack)@.last() is Long,
    ensures
        v == old(stack)@.last()->Long_0,
        final(stack)@ == old(stack)@.drop_last(),
{
    match pop_value(stack) {
        Value::Long(v) => v,
        _ => vstd::pervasive::unreached(),
    }
}

fn is_category2(v: Value) -> (r: bool)
    ensures
        r == category2(v),
{
    match v {
        Value::Long(_) | Value::Double(_) => true,
        _ => false,
    }
}

fn exec_push(frame: &mut Frame, code: &[u8], op: u8) -> (r: Result<Step, String>)
    requires
        0x01 <= op <= 0x11,
        step_ok(old(frame)@, code@, op),
    ensures
        (final(frame)@, outcome_view(r)) == step_spec(old(frame)@, code@, op),
{
    let v = if op == 0x01 {
        Value::Ref(None)
    } else if op <= 0x08 {
        Value::Int(op as i32 - 3)
    } else if op <= 0x0a {
        Value::Long(op as i64 - 9)
    } else if op == 0x0b {
        Value::Float(0)
    } else if op == 0x0c {
        Value::Float(0x3f80_0000)
    } else if op == 0x0d {
        Value::Float(0x4000_0000)
    } else if op == 0x0e {
        Value::Double(0)
    } else if op == 0x0f {
        Value::Double(0x3ff0_0000_0000_0000)
    } else if op == 0x10 {
        let b = code[frame.pc] as i8;
        frame.pc = frame.pc + 1;
        Value::Int(b as i32)
    } else {
        let v = read_i16(code, &mut frame.pc);
        Value::Int(v as i32)
    };
    frame.stack.push(v);
    Ok(Step::Continue)
}

fn exec_local(frame: &mut Frame, code: &[u8], op: u8) -> (r: Result<Step, String>)
    requires
        (0x15 <= op <= 0x2d) || (0x36 <= op <= 0x4e),
        step_ok(old(frame)@, code@, op),
    ensures
        (final(frame)@, outcome_view(r)) == step_spec(old(frame)@, code@, op),
{
    let i: usize = if (0x15 <= op && op <= 0x19) || (0x36 <= op && op <= 0x3a) {
        let i = code[frame.pc] as usize;
        frame.pc = frame.pc + 1;
        i
    } else if op <= 0x2d {
        ((op - 0x1a) % 4) as usize
    } else {
        ((op - 0x3b) % 4) as usize
    };
    if op <= 0x2d {
        let v = frame.locals[i];
        frame.stack.push(v);
    } else {
        let v = pop_value(&mut frame.stack);
        frame.locals.set(i, v);
    }
    Ok(Step::Continue)
}

fn exec_shuffle(frame: &mut Frame, code: &[u8], op: u8) -> (r: Result<Step, String>)
    requires
        0x57 <= op <= 0x5f,
        step_ok(old(frame)@, code@, op),
    ensures
        (final(frame)@, outcome_view(r)) == step_spec(old(frame)@, code@, op),
{
    let ghost f = frame@;
    let s = &mut frame.stack;
    if op == 0x57 {
        if s.len() > 0 {
            pop_value(s);
        }
    } else if op == 0x58 {
        let v1 = pop_value(s);
        if !is_category2(v1) {
            if s.len() > 0 {
                pop_value(s);
            }
        }
    } else if op == 0x59 {
        let v1 = s[s.len() - 1];
        s.push(v1);
    } else if op == 0x5a {
        let v1 = pop_value(s);
        let v2 = pop_value(s);
        s.push(v1);
        s.push(v2);
        s.push(v1);
    } else if op == 0x5b {
        let v1 = pop_value(s);
        let v2 = pop_value(s);
        if is_category2(v2) {
            s.push(v1);
            s.push(v2);
            s.push(v1);
        } else {
            let v3 = pop_value(s);
            s.push(v1);
            s.push(v3);
            s.push(v2);
            s.push(v1);
        }
    } else if op == 0x5c {
        let v1 = pop_value(s);
        if is_category2(v1) {
            s.push(v1);
            s.push(v1);
        } else {
            let v2 = pop_value(s);
            s.push(v2);
            s.push(v1);
            s.push(v2);
            s.push(v1);
        }
    } else if op == 0x5d {
        let v1 = pop_value(s);
        if is_category2(v1) {
            let v2 = pop_value(s);
            s.push(v1);
            s.push(v2);
            s.push(v1);
        } else {
            let v2 = pop_value(s);
            let v3 = pop_value(s);
            s.push(v2);
            s.push(v1);
            s.push(v3);
            s.push(v2);
            s.push(v1);
        }
    } else if op == 0x5e {
        let v1 = pop_value(s);
        if is_category2(v1) {
            let v2 = pop_value(s);
            if is_category2(v2) {
                s.push(v1);
                s.push(v2);
                s.push(v1);
            } else {
                let v3 = pop_value(s);
                s.push(v1);
                s.push(v3);
                s.push(v2);
                s.push(v1);
            }
        } else {
            let v2 = pop_value(s);
            let v3 = pop_value(s);
            if is_category2(v3) {
                s.push(v2);
                s.push(v1);
                s.push(v3);
                s.push(v2);
                s.push(v1);
            } else {
                let v4 = pop_value(s);
                s.push(v2);
                s.push(v1);
                s.push(v4);
                s.push(v3);
                s.push(v2);
                s.push(v1);
            }
        }
    } else {
        let v1 = pop_value(s);
        let v2 = pop_value(s);
        s.push(v1);
        s.push(v2);
    }
    assert(frame@.stack =~= shuffled(f, op));
    Ok(Step::Continue)
}

fn exec_arith(frame: &mut Frame, op: u8) -> (r: Result<Step, String>)
    requires
        (0x60 <= op <= 0x83 && is_int_or_long_arith(op)) || op == 0x85 || op == 0x88 || (0x91 <= op <= 0x94),
        arith_ok(old(frame)@, op),
    ensures
        final(frame)@ == with_stack(old(frame)@, arith_step(old(frame)@, op).0),
        outcome_view(r) == arith_step(old(frame)@, op).1,
{
    let ghost f = frame@;
    let s = &mut frame.stack;
    let r = if op == 0x74 || op == 0x91 || op == 0x92 || op == 0x93 {
        let a = pop_int(s);
        s.push(Value::Int(int_unary_op(op, a)));
        Ok(Step::Continue)
    } else if op == 0x75 {
        let a = pop_long(s);
        s.push(Value::Long((0i128 - a as i128) as i64));
        Ok(Step::Continue)
    } else if op == 0x85 {
        let a = pop_int(s);
        s.push(Value::Long(a as i64));
        Ok(Step::Continue)
    } else if op == 0x88 {
        let a = pop_long(s);
        s.push(Value::Int(a as i32));
        Ok(Step::Continue)
    } else if op == 0x94 {
        let b = pop_long(s);
        let a = pop_long(s);
        s.push(Value::Int(compare_longs(a, b)));
        Ok(Step::Continue)
    } else if op % 2 == 0 {
        let b = pop_int(s);
        if (op == 0x6c || op == 0x70) && b == 0 {
            match int_binary_op(op, 0, b) {
                Ok(_) => vstd::pervasive::unreached(),
                Err(e) => Err(e),
            }
        } else {
            let a = pop_int(s);
            match int_binary_op(op, a, b) {
                Ok(v) => {
                    s.push(Value::Int(v));
                    Ok(Step::Continue)
                },
                Err(_) => vstd::pervasive::unreached(),
            }
        }
    } else if op == 0x79 || op == 0x7b || op == 0x7d {
        let d = pop_int(s);
        let a = pop_long(s);
        s.push(Value::Long(long_shift_op(op, a, d)));
        Ok(Step::Continue)
    } else {
        let b = pop_long(s);
        if (op == 0x6d || op == 0x71) && b == 0 {
            match long_binary_op(op, 0, b) {
                Ok(_) => vstd::pervasive::unreached(),
                Err(e) => Err(e),
            }
        } else {
            let a = pop_long(s);
            match long_binary_op(op, a, b) {
                Ok(v) => {
                    s.push(Value::Long(v));
                    Ok(Step::Continue)
                },
                Err(_) => vstd::pervasive::unreached(),
            }
        }
    };
    assert(frame.stack@ =~= arith_step(f, op).0);
    r
}

fn compare_longs(a: i64, b: i64) -> (r: i32)
    ensures
        r == (if a < b {
            -1i32
        } else if a == b {
            0i32
        } else {
            1i32
        }),
{
    lcmp(a, b)
}

fn jump_target(pc: usize, back: i32, off: i32) -> (t: usize)
    requires
        pc <= i32::MAX,
        3 <= back <= 5,
        i32::MIN <= pc - back + off <= i32::MAX,
    ensures
        t == ((pc - back + off) as i32) as usize,
{
    (pc as i32 - back + off) as usize
}

fn same_reference(a: Value, b: Value) -> (r: bool)
    ensures
        r == same_ref(a, b),
{
    match (a, b) {
        (Value::Ref(None), Value::Ref(None)) => true,
        (Value::Ref(Some(x)), Value::Ref(Some(y))) => x == y,
        _ => false,
    }
}

fn exec_branch(frame: &mut Frame, code: &[u8], op: u8) -> (r: Result<Step, String>)
    requires
        (0x99 <= op <= 0xa7) || op == 0xc6 || op == 0xc7 || op == 0xc8,
        step_ok(old(frame)@, code@, op),
    ensures
        (final(frame)@, outcome_view(r)) == step_spec(old(frame)@, code@, op),
{
    let ghost f = frame@;
    if op == 0xc8 {
        let off = read_i32(code, &mut frame.pc);
        frame.pc = jump_target(frame.pc, 5, off);
        return Ok(Step::Continue);
    }
    let off = read_i16(code, &mut frame.pc);
    if op == 0xa7 {
        frame.pc = jump_target(frame.pc, 3, off as i32);
        return Ok(Step::Continue);
    }
    let go = if op <= 0x9e {
        let v = pop_int(&mut frame.stack);
        branch_taken(op, v, 0)
    } else if op <= 0xa4 {
        let b = pop_int(&mut frame.stack);
        let a = pop_int(&mut frame.stack);
        branch_taken(op, a, b)
    } else if op == 0xa5 || op == 0xa6 {
        let b = pop_value(&mut frame.stack);
        let a = pop_value(&mut frame.stack);
        let same = same_reference(a, b);
        if op == 0xa5 {
            same
        } else {
            !same
        }
    } else {
        let v = pop_value(&mut frame.stack);
        let null = match v {
            Value::Ref(None) => true,
            _ => false,
        };
        if op == 0xc6 {
            null
        } else {
            !null
        }
    };
    assert(frame@.stack =~= popped(f, branch_pops(op)));
    if go {
        frame.pc = jump_target(frame.pc, 3, off as i32);
    }
    Ok(Step::Continue)
}

fn exec_switch(frame: &mut Frame, code: &[u8], op: u8) -> (r: Result<Step, String>)
    requires
        op == 0xaa || op == 0xab,
        step_ok(old(frame)@, code@, op),
    ensures
        (final(frame)@, outcome_view(r)) == step_spec(old(frame)@, code@, op),
{
    let base = frame.pc - 1;
    let n = frame.stack.len();
    let key = if n > 0 {
        match frame.stack[n - 1] {
            Value::Int(k) => k,
            _ => 0,
        }
    } else {
        0
    };
    if op == 0xaa {
        match tableswitch_target(code, base, key) {
            Ok(t) => {
                pop_value(&mut frame.stack);
                frame.pc = t;
                Ok(Step::Continue)
            },
            Err(e) => {
                let p = if (base + 1) % 4 == 0 {
                    base + 1
                } else {
                    base + 1 + 4 - (base + 1) % 4
                };
                frame.pc = p + 12;
                Err(e)
            },
        }
    } else {
        let t = lookupswitch_target(code, base, key);
        pop_value(&mut frame.stack);
        frame.pc = t;
        Ok(Step::Continue)
    }
}

/// Execute the instruction `opcode` (the pc already past it) on the frame,
/// as `step_spec` says: the frame changes as the instruction does, and the
/// step tells the caller to go on, that the method returns, or to carry
/// out the instruction itself; an `Err` is the exception it throws.
pub fn execute_opcode(frame: &mut Frame, code: &[u8], opcode: u8) -> (r: Result<Step, String>)
    requires
        step_ok(old(frame)@, code@, opcode),
    ensures
        (final(frame)@, outcome_view(r)) == step_spec(old(frame)@, code@, opcode),
{
    let op = opcode;
    let ghost f = frame@;
    let arith = (0x60 <= op && op <= 0x83 && (op >= 0x78 || (op - 0x60) % 4 == 0 || (op - 0x60) % 4 == 1))
        || op == 0x85 || op == 0x88 || (0x91 <= op && op <= 0x94);
    assert(arith == ((0x60 <= op <= 0x83 && is_int_or_long_arith(op)) || op == 0x85 || op == 0x88 || (0x91 <= op
        <= 0x94)));
    if op == 0x00 {
        Ok(Step::Continue)
    } else if op <= 0x11 {
        exec_push(frame, code, op)
    } else if (0x15 <= op && op <= 0x2d) || (0x36 <= op && op <= 0x4e) {
        exec_local(frame, code, op)
    } else if 0x57 <= op && op <= 0x5f {
        exec_shuffle(frame, code, op)
    } else if op == 0x84 {
        let i = code[frame.pc] as usize;
        let c = code[frame.pc + 1] as i8;
        frame.pc = frame.pc + 2;
        match frame.locals[i] {
            Value::Int(v) => {
                frame.locals.set(i, Value::Int(crate::arith::iinc(v, c)));
            },
            _ => {},
        }
        Ok(Step::Continue)
    } else if arith {
        exec_arith(frame, op)
    } else if (0x99 <= op && op <= 0xa7) || op == 0xc6 || op == 0xc7 || op == 0xc8 {
        exec_branch(frame, code, op)
    } else if op == 0xaa || op == 0xab {
        exec_switch(frame, code, op)
    } else if op == 0xb1 {
        Ok(Step::Return(Value::Void))
    } else if 0xac <= op && op <= 0xb0 {
        let v = pop_value(&mut frame.stack);
        Ok(Step::Return(v))
    } else {
        Ok(Step::Delegate(op))
    }
}

fn int_at(stack: &Vec<Value>, k: usize) -> (r: bool)
    ensures
        r == (k < stack@.len() && stack@[stack@.len() - 1 - k] is Int),
{
    k < stack.len() && match stack[stack.len() - 1 - k] {
        Value::Int(_) => true,
        _ => false,
    }
}

fn long_at(stack: &Vec<Value>, k: usize) -> (r: bool)
    ensures
        r == (k < stack@.len() && stack@[stack@.len() - 1 - k] is Long),
{
    k < stack.len() && match stack[stack.len() - 1 - k] {
        Value::Long(_) => true,
        _ => false,
    }
}

fn wide_at(stack: &Vec<Value>, k: usize) -> (r: bool)
    ensures
        r == (k < stack@.len() && category2(stack@[stack@.len() - 1 - k])),
{
    k < stack.len() && is_category2(stack[stack.len() - 1 - k])
}

fn arith_ready(frame: &Frame, op: u8) -> (r: bool)
    requires
        (0x60 <= op <= 0x83 && is_int_or_long_arith(op)) || op == 0x85 || op == 0x88 || (0x91 <= op <= 0x94),
    ensures
        r == arith_ok(frame@, op),
{
    let st = &frame.stack;
    let n = st.len();
    if op == 0x74 || op == 0x91 || op == 0x92 || op == 0x93 || op == 0x85 {
        int_at(st, 0)
    } else if op == 0x75 || op == 0x88 {
        long_at(st, 0)
    } else if op == 0x94 {
        long_at(st, 0) && long_at(st, 1)
    } else if op % 2 == 0 {
        int_at(st, 0) && (((op == 0x6c || op == 0x70) && st[n - 1] == Value::Int(0)) || int_at(st, 1))
    } else if op == 0x79 || op == 0x7b || op == 0x7d {
        int_at(st, 0) && long_at(st, 1)
    } else {
        long_at(st, 0) && (((op == 0x6d || op == 0x71) && st[n - 1] == Value::Long(0)) || long_at(st, 1))
    }
}

/// Whether a jump from the instruction before `pc` by `off` stays in `int`
/// range.
fn jump_in_range(pc: usize, back: i64, off: i64) -> (r: bool)
    requires
        pc <= i32::MAX,
        3 <= back <= 5,
        i32::MIN <= off <= i32::MAX,
    ensures
        r == (i32::MIN <= pc - back + off <= i32::MAX),
{
    let t = pc as i64 - back + off;
    -0x8000_0000 <= t && t <= 0x7fff_ffff
}

/// Whether the instruction `op` (the pc already past it) can be carried
/// out on the frame, as `step_ok` says.
pub fn step_ready(frame: &Frame, code: &[u8], op: u8) -> (r: bool)
    ensures
        r == step_ok(frame@, code@, op),
{
    let n = frame.stack.len();
    let pc = frame.pc;
    let len = code.len();
    let arith = (0x60 <= op && op <= 0x83 && (op >= 0x78 || (op - 0x60) % 4 == 0 || (op - 0x60) % 4 == 1))
        || op == 0x85 || op == 0x88 || (0x91 <= op && op <= 0x94);
    assert(arith == ((0x60 <= op <= 0x83 && is_int_or_long_arith(op)) || op == 0x85 || op == 0x88 || (0x91 <= op
        <= 0x94)));
    if op == 0x00 {
        true
    } else if op <= 0x11 {
        let need: usize = if op == 0x10 {
            1
        } else if op == 0x11 {
            2
        } else {
            0
        };
        pc <= len && len - pc >= need
    } else if (0x15 <= op && op <= 0x2d) || (0x36 <= op && op <= 0x4e) {
        let named = (0x15 <= op && op <= 0x19) || (0x36 <= op && op <= 0x3a);
        if !(pc <= len) || (named && !(pc < len)) {
            return false;
        }
        let i: usize = if named {
            code[pc] as usize
        } else if op <= 0x2d {
            ((op - 0x1a) % 4) as usize
        } else {
            ((op - 0x3b) % 4) as usize
        };
        i < frame.locals.len() && (op <= 0x2d || n >= 1)
    } else if 0x57 <= op && op <= 0x5f {
        let st = &frame.stack;
        let c1 = wide_at(st, 0);
        let c2 = wide_at(st, 1);
        let c3 = wide_at(st, 2);
        let need: usize = if op == 0x57 {
            0
        } else if op == 0x59 || op == 0x58 {
            1
        } else if op == 0x5c {
            if c1 {
                1
            } else {
                2
            }
        } else if op == 0x5a || op == 0x5f {
            2
        } else if op == 0x5b || op == 0x5d {
            if op == 0x5b && c2 {
                2
            } else if op == 0x5d && c1 {
                2
            } else {
                3
            }
        } else {
            if c1 && c2 {
                2
            } else if n >= 3 && (c1 || c3) {
                3
            } else {
                4
            }
        };
        n >= need
    } else if op == 0x84 {
        pc <= len && len - pc >= 2 && (code[pc] as usize) < frame.locals.len()
    } else if arith {
        arith_ready(frame, op)
    } else if (0x99 <= op && op <= 0xa7) || op == 0xc6 || op == 0xc7 {
        if !(pc <= len && len - pc >= 2 && pc <= 0x7fff_fffd) {
            return false;
        }
        let mut at = pc;
        let off = read_i16(code, &mut at);
        if !jump_in_range(pc + 2, 3, off as i64) {
            return false;
        }
        if op == 0xa7 {
            true
        } else if op <= 0x9e || op == 0xc6 || op == 0xc7 {
            n >= 1 && (op > 0x9e || int_at(&frame.stack, 0))
        } else {
            n >= 2 && (op > 0xa4 || (int_at(&frame.stack, 0) && int_at(&frame.stack, 1)))
        }
    } else if op == 0xc8 {
        if !(pc <= len && len - pc >= 4 && pc <= 0x7fff_fffb) {
            return false;
        }
        let mut at = pc;
        let off = read_i32(code, &mut at);
        jump_in_range(pc + 4, 5, off as i64)
    } else if op == 0xaa || op == 0xab {
        if !(1 <= pc) {
            return false;
        }
        if !int_at(&frame.stack, 0) {
            return op == 0xaa && tableswitch_ready(code, pc - 1, 0) && tableswitch_inverted(code, pc - 1);
        }
        let key = match frame.stack[n - 1] {
            Value::Int(k) => k,
            _ => 0,
        };
        if op == 0xaa {
            tableswitch_ready(code, pc - 1, key)
        } else {
            lookupswitch_ready(code, pc - 1, key)
        }
    } else if op == 0xb1 {
        true
    } else if 0xac <= op && op <= 0xb0 {
        n >= 1
    } else {
        true
    }
}

// ---------------------------------------------------------------------------
// Arguments and the frame of a call
// ---------------------------------------------------------------------------

/// The `n` values a call takes from the stack, in call order: the top `n`
/// values, with `Void` in front for any the stack lacks.
pub open spec fn args_of(stack: Seq<Value>, n: int) -> Seq<Value> {
    if n <= stack.len() {
        stack.subrange(stack.len() - n, stack.len() as int)
    } else {
        Seq::new((n - stack.len()) as nat, |i: int| Value::Void) + stack
    }
}

/// The stack after a call took `n` values from it.
pub open spec fn stack_after_args(stack: Seq<Value>, n: int) -> Seq<Value> {
    if n <= stack.len() {
        stack.subrange(0, stack.len() - n)
    } else {
        Seq::empty()
    }
}

/// Pop the `n` arguments of a call from the operand stack, returned in call
/// order.
pub fn pop_args(frame: &mut Frame, n: usize) -> (args: Vec<Value>)
    ensures
        args@ == args_of(old(frame)@.stack, n as int),
        final(frame)@.stack == stack_after_args(old(frame)@.stack, n as int),
        final(frame)@.locals == old(frame)@.locals,
        final(frame)@.pc == old(frame)@.pc,
{
    let ghost s0 = frame.stack@;
    let ghost l0 = frame.locals@;
    let ghost p0 = frame.pc;
    let mut rev: Vec<Value> = Vec::new();
    let mut k: usize = 0;
    while k < n
        invariant
            k <= n,
            frame.locals@ == l0,
            frame.pc == p0,
            frame.stack@ == stack_after_args(s0, k as int),
            rev@.len() == k,
            forall|j: int| 0 <= j < k ==> #[trigger] rev@[j] == args_of(s0, n as int)[n - 1 - j],
        decreases n - k,
    {
        let ghost before = frame.stack@;
        let v = match frame.stack.pop() {
            Some(v) => v,
            None => Value::Void,
        };
        proof {
            let a = args_of(s0, n as int);
            if k < s0.len() {
                assert(before == s0.subrange(0, s0.len() - k));
                assert(v == s0[s0.len() - 1 - k]);
                if n <= s0.len() {
                    assert(a[n - 1 - k] == s0[s0.len() - n + (n - 1 - k)]);
                } else {
                    assert(a[n - 1 - k] == s0[(n - 1 - k) - (n - s0.len())]);
                }
            } else {
                assert(before.len() == 0);
                assert(v == Value::Void);
                assert(a[n - 1 - k] == Value::Void);
            }
        }
        rev.push(v);
        proof {
            if k + 1 <= s0.len() {
                assert(frame.stack@ =~= stack_after_args(s0, k + 1));
            } else {
                assert(frame.stack@ =~= stack_after_args(s0, k + 1));
            }
        }
        k = k + 1;
    }
    let mut args: Vec<Value> = Vec::new();
    let mut i: usize = n;
    while i > 0
        invariant
            i <= n,
            rev@.len() == n,
            forall|j: int| 0 <= j < n ==> #[trigger] rev@[j] == args_of(s0, n as int)[n - 1 - j],
            args@.len() == n - i,
            forall|j: int| 0 <= j < n - i ==> #[trigger] args@[j] == args_of(s0, n as int)[j],
        decreases i,
    {
        i = i - 1;
        args.push(rev[i]);
    }
    assert(args@ =~= args_of(s0, n as int));
    args
}

/// The slots a parameter of this descriptor takes: two for `long` and
/// `double`, else one.
pub open spec fn slot_width(t: Seq<char>) -> int {
    if t == "J"@ || t == "D"@ {
        2
    } else {
        1
    }
}

/// The slots all the parameters take.
pub open spec fn param_slots(toks: Seq<Seq<char>>) -> int
    decreases toks.len(),
{
    if toks.len() == 0 {
        0
    } else {
        param_slots(toks.drop_last()) + slot_width(toks.last())
    }
}

/// The locals `l` with the arguments from the `k`-th on stored from slot
/// `li`, each after the slots of the ones before it.
pub open spec fn placed(l: Seq<Value>, toks: Seq<Seq<char>>, args: Seq<Value>, k: int, li: int) -> Seq<Value>
    decreases toks.len() - k,
{
    if k < 0 || k >= toks.len() || k >= args.len() || li < 0 || li >= l.len() {
        l
    } else {
        placed(l.update(li, args[k]), toks, args, k + 1, li + slot_width(toks[k]))
    }
}

/// The locals of a new frame: `Void` in as many slots as the method's
/// `max_locals` or its parameters need, whichever is more, with the
/// arguments stored in their slots.
pub open spec fn call_locals(max_locals: int, toks: Seq<Seq<char>>, args: Seq<Value>) -> Seq<Value> {
    let n = if max_locals >= param_slots(toks) {
        max_locals
    } else {
        param_slots(toks)
    };
    placed(Seq::new(n as nat, |i: int| Value::Void), toks, args, 0, 0)
}

proof fn lemma_param_slots_bounds(toks: Seq<Seq<char>>)
    ensures
        toks.len() <= param_slots(toks) <= 2 * toks.len(),
    decreases toks.len(),
{
    if toks.len() > 0 {
        lemma_param_slots_bounds(toks.drop_last());
    }
}

fn width_of(t: &String) -> (w: usize)
    ensures
        w == slot_width(t@),
{
    if str_eq(t.as_str(), "J") || str_eq(t.as_str(), "D") {
        2
    } else {
        1
    }
}

/// The frame in which a called method starts: its locals as
/// `call_locals` says (the arguments already adapted to the parameter
/// types), an empty stack, and pc 0.
pub fn new_call_frame(max_locals: usize, param_tokens: &Vec<String>, args: Vec<Value>) -> (f: Frame)
    requires
        param_tokens@.len() <= usize::MAX / 2,
    ensures
        f@.locals == call_locals(max_locals as int, param_tokens@.map_values(|t: String| t@), args@),
        f@.stack == Seq::<Value>::empty(),
        f@.pc == 0,
{
    let ghost toks = param_tokens@.map_values(|t: String| t@);
    let mut req: usize = 0;
    let mut k: usize = 0;
    proof {
        lemma_param_slots_bounds(toks);
    }
    while k < param_tokens.len()
        invariant
            toks == param_tokens@.map_values(|t: String| t@),
            param_tokens@.len() <= usize::MAX / 2,
            k <= param_tokens@.len(),
            req == param_slots(toks.take(k as int)),
            req <= 2 * k,
        decreases param_tokens.len() - k,
    {
        proof {
            assert(toks.take(k + 1).drop_last() =~= toks.take(k as int));
        }
        req = req + width_of(&param_tokens[k]);
        k = k + 1;
    }
    assert(toks.take(k as int) =~= toks);
    let n = if max_locals >= req {
        max_locals
    } else {
        req
    };
    let mut locals: Vec<Value> = Vec::new();
    let mut i: usize = 0;
    while i < n
        invariant
            i <= n,
            locals@ == Seq::new(i as nat, |j: int| Value::Void),
        decreases n - i,
    {
        locals.push(Value::Void);
        assert(locals@ =~= Seq::new((i + 1) as nat, |j: int| Value::Void));
        i = i + 1;
    }
    let ghost l0 = locals@;
    let mut li: usize = 0;
    let mut k: usize = 0;
    while k < args.len() && k < param_tokens.len() && li < locals.len()
        invariant
            toks == param_tokens@.map_values(|t: String| t@),
            k <= args@.len(),
            k <= param_tokens@.len(),
            li <= 2 * k,
            param_tokens@.len() <= usize::MAX / 2,
            locals@.len() == n,
            placed(l0, toks, args@, 0, 0) == placed(locals@, toks, args@, k as int, li as int),
        decreases param_tokens.len() - k,
    {
        locals.set(li, args[k]);
        li = li + width_of(&param_tokens[k]);
        k = k + 1;
    }
    Frame { locals, stack: Vec::new(), pc: 0 }
}

/// `dup_x2` on three values of one slot each, `..., v3, v2, v1`, leaves
/// `..., v1, v3, v2, v1`: what lies below is kept, a copy of the top goes
/// beneath the two values under it, and those keep their order.
pub proof fn law_dup_x2_inserts_the_top_below_two(f: FrameV, code: Seq<u8>)
    requires
        f.stack.len() >= 3,
        !category2(top(f, 1)),
    ensures
        ({
            let (g, r) = step_spec(f, code, 0x5b);
            let n = f.stack.len() as int;
            &&& r == Ok::<Step, Seq<char>>(Step::Continue)
            &&& g.stack.len() == n + 1
            &&& forall|i: int| 0 <= i < n - 3 ==> g.stack[i] == f.stack[i]
            &&& g.stack[n - 3] == f.stack[n - 1]
            &&& g.stack[n - 2] == f.stack[n - 3]
            &&& g.stack[n - 1] == f.stack[n - 2]
            &&& g.stack[n] == f.stack[n - 1]
            &&& g.pc == f.pc
            &&& g.locals == f.locals
        }),
{
}

/// `dup`, `dup_x1`, `swap` and `pop` on values of one slot each: `dup`
/// pushes a copy of the top; `dup_x1` on `..., v2, v1` leaves
/// `..., v1, v2, v1`; `swap` exchanges the two top values; `pop` drops the
/// top. What lies below is kept, and the pc and locals are left alone.
pub proof fn law_one_slot_stack_shuffles(f: FrameV, code: Seq<u8>)
    requires
        f.stack.len() >= 2,
    ensures
        ({
            let n = f.stack.len() as int;
            let (d, rd) = step_spec(f, code, 0x59);
            let (x, rx) = step_spec(f, code, 0x5a);
            let (w, rw) = step_spec(f, code, 0x5f);
            let (p, rp) = step_spec(f, code, 0x57);
            &&& rd == Ok::<Step, Seq<char>>(Step::Continue) && d.stack.len() == n + 1 && d.stack[n] == f.stack[n - 1]
                && d.stack.subrange(0, n) == f.stack
            &&& rx == Ok::<Step, Seq<char>>(Step::Continue) && x.stack.len() == n + 1 && x.stack.subrange(0, n - 2)
                == f.stack.subrange(0, n - 2) && x.stack[n - 2] == f.stack[n - 1] && x.stack[n - 1] == f.stack[n - 2]
                && x.stack[n] == f.stack[n - 1]
            &&& rw == Ok::<Step, Seq<char>>(Step::Continue) && w.stack.len() == n && w.stack.subrange(0, n - 2)
                == f.stack.subrange(0, n - 2) && w.stack[n - 2] == f.stack[n - 1] && w.stack[n - 1] == f.stack[n - 2]
            &&& rp == Ok::<Step, Seq<char>>(Step::Continue) && p.stack == f.stack.subrange(0, n - 1)
            &&& d.pc == f.pc && x.pc == f.pc && w.pc == f.pc && p.pc == f.pc
            &&& d.locals == f.locals && x.locals == f.locals && w.locals == f.locals && p.locals == f.locals
        }),
{
    let n = f.stack.len() as int;
    let (d, rd) = step_spec(f, code, 0x59);
    let (x, rx) = step_spec(f, code, 0x5a);
    let (w, rw) = step_spec(f, code, 0x5f);
    assert(d.stack.subrange(0, n) =~= f.stack);
    assert(x.stack.subrange(0, n - 2) =~= f.stack.subrange(0, n - 2));
    assert(w.stack.subrange(0, n - 2) =~= f.stack.subrange(0, n - 2));
}

/// `dup2` on `..., v2, v1` of one slot each leaves `..., v2, v1, v2, v1`,
/// and on a two-slot top `..., v1` leaves `..., v1, v1`; `dup_x2` with a
/// two-slot second value `..., v2, v1` leaves `..., v1, v2, v1`.
pub proof fn law_two_slot_stack_shuffles(f: FrameV, code: Seq<u8>)
    requires
        f.stack.len() >= 2,
    ensures
        ({
            let n = f.stack.len() as int;
            let (d, rd) = step_spec(f, code, 0x5c);
            let (x, rx) = step_spec(f, code, 0x5b);
            &&& rd == Ok::<Step, Seq<char>>(Step::Continue)
            &&& !category2(top(f, 0)) ==> d.stack == f.stack + seq![f.stack[n - 2], f.stack[n - 1]]
            &&& category2(top(f, 0)) ==> d.stack == f.stack.push(f.stack[n - 1])
            &&& category2(top(f, 1)) ==> x.stack == f.stack.subrange(0, n - 2) + seq![
                f.stack[n - 1],
                f.stack[n - 2],
                f.stack[n - 1],
            ]
        }),
{
    let n = f.stack.len() as int;
    let (d, rd) = step_spec(f, code, 0x5c);
    if !category2(top(f, 0)) {
        assert(d.stack =~= f.stack + seq![f.stack[n - 2], f.stack[n - 1]]);
    } else {
        assert(d.stack =~= f.stack.push(f.stack[n - 1]));
    }
}

} // verus!
