//! The object heap and the array instructions that work on it.
//!
//! A reference on the operand stack is the index of an object in the
//! heap. An object has its class name and a payload: the elements of an
//! array, the characters of a string, or nothing the interpreter reads
//! here. Instance fields are looked up through the constant pool and are
//! not part of this model.

use vstd::prelude::*;
use crate::bytecode::{Value, Frame, FrameV, Step, outcome_view, step_spec, step_ok, execute_opcode, top, popped,
    with_stack, pop_value, step_ready};
use crate::exceptions::{exception_class_text, exception_from_err_msg, exception_message_text};
use crate::frame::{array_oob, array_oob_text};
use crate::class_file::{ConstantPool, ConstantPoolEntry};
use crate::class_spec::CpEntry;
use crate::static_fields::{DefaultValue, default_value_of, default_value_for_descriptor};
use crate::text::{chars_of, int_text, push_int_text, str_eq};

verus! {

/// What an object holds besides its class name.
#[derive(Clone, Debug, PartialEq, Eq)]
pub enum Payload {
    Plain,
    JavaString(String),
    Array(Vec<Value>),
    ByteArray(Vec<u8>),
    IntArray(Vec<i32>),
    LongArray(Vec<i64>),
    /// A payload of the runtime (a lambda) that the array instructions
    /// never read.
    Native,
}

pub enum PayloadV {
    Plain,
    JavaString(Seq<char>),
    Array(Seq<Value>),
    ByteArray(Seq<u8>),
    IntArray(Seq<i32>),
    LongArray(Seq<i64>),
    Native,
}

impl View for Payload {
    type V = PayloadV;

    open spec fn view(&self) -> PayloadV {
        match self {
            Payload::Plain => PayloadV::Plain,
            Payload::JavaString(s) => PayloadV::JavaString(s@),
            Payload::Array(v) => PayloadV::Array(v@),
            Payload::ByteArray(v) => PayloadV::ByteArray(v@),
            Payload::IntArray(v) => PayloadV::IntArray(v@),
            Payload::LongArray(v) => PayloadV::LongArray(v@),
            Payload::Native => PayloadV::Native,
        }
    }
}

/// An instance field of an object and its value.
#[derive(Clone, Debug, PartialEq, Eq)]
pub struct Field {
    pub name: String,
    pub value: Value,
}

/// An object on the heap: its class, its payload and the instance fields
/// written so far (a field never written reads as its type's default).
#[derive(Clone, Debug, PartialEq, Eq)]
pub struct HeapObject {
    pub class_name: String,
    pub payload: Payload,
    pub fields: Vec<Field>,
}

pub struct ObjectV {
    pub class_name: Seq<char>,
    pub payload: PayloadV,
    pub fields: Seq<(Seq<char>, Value)>,
}

pub open spec fn field_views(s: Seq<Field>) -> Seq<(Seq<char>, Value)> {
    s.map_values(|x: Field| (x.name@, x.value))
}

impl View for HeapObject {
    type V = ObjectV;

    open spec fn view(&self) -> ObjectV {
        ObjectV { class_name: self.class_name@, payload: self.payload@, fields: field_views(self.fields@) }
    }
}

/// The heap: the object a reference `Ref(Some(k))` names is `objects[k]`.
pub struct Heap {
    pub objects: Vec<HeapObject>,
}

pub open spec fn object_views(s: Seq<HeapObject>) -> Seq<ObjectV> {
    s.map_values(|o: HeapObject| o@)
}

impl View for Heap {
    type V = Seq<ObjectV>;

    open spec fn view(&self) -> Seq<ObjectV> {
        object_views(self.objects@)
    }
}

impl Heap {
    /// An empty heap.
    pub fn new() -> (h: Heap)
        ensures
            h@ == Seq::<ObjectV>::empty(),
    {
        let h = Heap { objects: Vec::new() };
        assert(h@ =~= Seq::<ObjectV>::empty());
        h
    }

    /// Put an object on the heap and return the reference to it.
    pub fn allocate(&mut self, obj: HeapObject) -> (r: Value)
        requires
            old(self)@.len() < u64::MAX,
        ensures
            r == Value::Ref(Some(old(self)@.len() as u64)),
            final(self)@ == old(self)@.push(obj@),
    {
        let k = self.objects.len();
        let ghost before = self.objects@;
        self.objects.push(obj);
        assert(object_views(self.objects@) =~= object_views(before).push(obj@));
        Value::Ref(Some(k as u64))
    }

    /// The number of objects on the heap.
    pub fn len(&self) -> (n: usize)
        ensures
            n == self@.len(),
    {
        self.objects.len()
    }
}

// ---------------------------------------------------------------------------
// The specification of the array instructions
// ---------------------------------------------------------------------------

/// The object a value refers to as an array operand: `Some(None)` for
/// `null` (a `Void` slot or `int` 0 count as `null`), `Some(Some(k))` for
/// the object `k`, and `None` for a value that is no reference at all.
pub open spec fn ref_target(v: Value) -> Option<Option<u64>> {
    match v {
        Value::Ref(r) => Some(r),
        Value::Void => Some(None),
        Value::Int(i) => if i == 0 { Some(None) } else { None },
        _ => None,
    }
}

/// `v` is a usable array operand on the heap `h`.
pub open spec fn ref_ok(v: Value, h: Seq<ObjectV>) -> bool {
    ref_target(v) matches Some(r) && (r matches Some(k) ==> k < h.len())
}

/// The array instructions this module executes: the element loads and
/// stores but `aastore`, `newarray` and `arraylength`.
pub open spec fn array_op(op: u8) -> bool {
    (0x2e <= op <= 0x35) || (0x4f <= op <= 0x56 && op != 0x53) || op == 0xbc || op == 0xbe
}

pub open spec fn is_load(op: u8) -> bool {
    0x2e <= op <= 0x35
}

pub open spec fn is_store(op: u8) -> bool {
    0x4f <= op <= 0x56 && op != 0x53
}

/// The message of the `NullPointerException` an instruction raises on a
/// `null` array.
pub open spec fn npe_text(op: u8) -> Seq<char> {
    if op == 0x2e {
        "NullPointerException: iaload"@
    } else if op == 0x32 {
        "NullPointerException: aaload"@
    } else if op == 0x33 {
        "NullPointerException: baload"@
    } else if op == 0x34 {
        "NullPointerException: caload"@
    } else if is_load(op) {
        "NullPointerException: array load"@
    } else if op == 0x4f {
        "NullPointerException: iastore"@
    } else if op == 0x54 {
        "NullPointerException: bastore"@
    } else if op == 0x55 {
        "NullPointerException: castore"@
    } else if is_store(op) {
        "NullPointerException: array store"@
    } else {
        "NullPointerException: arraylength"@
    }
}

pub open spec fn aaload_non_array_text() -> Seq<char> {
    "java/lang/ArrayStoreException: aaload on non-array"@
}

pub open spec fn aaload_primitive_text() -> Seq<char> {
    "java/lang/ArrayStoreException: aaload on non-reference array"@
}

/// An element of an object array read by `baload`, as an `int` before
/// narrowing to a byte; `None` where that takes a floating-point
/// conversion or unboxing, which the caller does.
pub open spec fn byte_source(v: Value) -> Option<i32> {
    match v {
        Value::Int(i) => Some(i),
        Value::Long(l) => Some(l as i32),
        Value::Float(_) | Value::Double(_) | Value::Ref(_) => None,
        _ => Some(0),
    }
}

/// The element an array load reads at index `i >= 0` of `o`: the value,
/// the exception, or `Ok(None)` where the caller carries out the load.
pub open spec fn loaded(o: ObjectV, i: int, op: u8) -> Result<Option<Value>, Seq<char>> {
    if op == 0x32 {
        if !(o.class_name.len() > 0 && o.class_name[0] == '[') {
            Err(aaload_non_array_text())
        } else {
            match o.payload {
                PayloadV::Array(v) => if i < v.len() { Ok(Some(v[i])) } else { Err(array_oob_text(i)) },
                _ => Err(aaload_primitive_text()),
            }
        }
    } else if op == 0x33 {
        match o.payload {
            PayloadV::ByteArray(v) => if i < v.len() {
                Ok(Some(Value::Int(v[i] as i32)))
            } else {
                Err(array_oob_text(i))
            },
            PayloadV::Array(v) => if i < v.len() {
                match byte_source(v[i]) {
                    Some(b) => Ok(Some(Value::Int((b as i8) as i32))),
                    None => Ok(None),
                }
            } else {
                Err(array_oob_text(i))
            },
            _ => Ok(Some(Value::Int(0))),
        }
    } else if op == 0x2e {
        match o.payload {
            PayloadV::IntArray(v) => if i < v.len() { Ok(Some(Value::Int(v[i]))) } else { Err(array_oob_text(i)) },
            PayloadV::Array(v) => if i < v.len() { Ok(Some(v[i])) } else { Err(array_oob_text(i)) },
            _ => Ok(Some(Value::Int(0))),
        }
    } else if op == 0x34 {
        match o.payload {
            PayloadV::Array(v) => if i < v.len() { Ok(Some(v[i])) } else { Err(array_oob_text(i)) },
            _ => Ok(Some(Value::Int(0))),
        }
    } else {
        match o.payload {
            PayloadV::Array(v) => if i < v.len() { Ok(Some(v[i])) } else { Err(array_oob_text(i)) },
            PayloadV::LongArray(v) => if i < v.len() { Ok(Some(Value::Long(v[i]))) } else { Err(array_oob_text(i)) },
            PayloadV::IntArray(v) => if i < v.len() { Ok(Some(Value::Int(v[i]))) } else { Err(array_oob_text(i)) },
            _ => Ok(Some(Value::Int(0))),
        }
    }
}

/// The payload after an array store of `val` at index `i >= 0`, or the
/// exception. Payloads the instruction does not write stay as they are.
pub open spec fn stored(p: PayloadV, i: int, val: Value, op: u8) -> Result<PayloadV, Seq<char>> {
    match p {
        PayloadV::Array(v) => if i < v.len() {
            if op == 0x54 {
                Ok(PayloadV::Array(v.update(i, Value::Int(((val->Int_0) as u8) as i32))))
            } else {
                Ok(PayloadV::Array(v.update(i, val)))
            }
        } else {
            Err(array_oob_text(i))
        },
        PayloadV::IntArray(v) => if op == 0x4f {
            if i < v.len() { Ok(PayloadV::IntArray(v.update(i, val->Int_0))) } else { Err(array_oob_text(i)) }
        } else {
            Ok(p)
        },
        PayloadV::LongArray(v) => if op == 0x50 || op == 0x51 || op == 0x52 || op == 0x56 {
            if i < v.len() { Ok(PayloadV::LongArray(v.update(i, val->Long_0))) } else { Err(array_oob_text(i)) }
        } else {
            Ok(p)
        },
        PayloadV::ByteArray(v) => if op == 0x54 {
            if i < v.len() { Ok(PayloadV::ByteArray(v.update(i, (val->Int_0) as u8))) } else { Err(array_oob_text(i)) }
        } else {
            Ok(p)
        },
        _ => Ok(p),
    }
}

/// The number of elements `arraylength` reports for an object.
pub open spec fn array_len(p: PayloadV) -> int {
    match p {
        PayloadV::Array(v) => v.len() as int,
        PayloadV::ByteArray(v) => v.len() as int,
        PayloadV::IntArray(v) => v.len() as int,
        PayloadV::LongArray(v) => v.len() as int,
        _ => 0,
    }
}

/// The class of the array `newarray` makes for an element type code.
pub open spec fn newarray_class(atype: u8) -> Seq<char> {
    if atype == 4 {
        "[Z"@
    } else if atype == 5 {
        "[C"@
    } else if atype == 6 {
        "[F"@
    } else if atype == 7 {
        "[D"@
    } else if atype == 8 {
        "[B"@
    } else if atype == 9 {
        "[S"@
    } else if atype == 10 {
        "[I"@
    } else if atype == 11 {
        "[J"@
    } else {
        "[Ljava/lang/Object;"@
    }
}

/// The initial element of such an array.
pub open spec fn newarray_default(atype: u8) -> Value {
    if atype == 6 {
        Value::Float(0)
    } else if atype == 7 {
        Value::Double(0)
    } else if atype == 11 {
        Value::Long(0)
    } else if 4 <= atype <= 10 {
        Value::Int(0)
    } else {
        Value::Ref(None)
    }
}

pub open spec fn negative_size_text(n: int) -> Seq<char> {
    "java/lang/NegativeArraySizeException: "@ + int_text(n)
}

/// The frame, heap and outcome of an array instruction.
pub open spec fn array_step(f: FrameV, h: Seq<ObjectV>, code: Seq<u8>, op: u8) -> (
    FrameV,
    Seq<ObjectV>,
    Result<Step, Seq<char>>,
) {
    if is_load(op) {
        let i = top(f, 0)->Int_0;
        let g = with_stack(f, popped(f, 2));
        if i < 0 {
            (g, h, Err(array_oob_text(i as int)))
        } else {
            match ref_target(top(f, 1))->Some_0 {
                None => (g, h, Err(npe_text(op))),
                Some(k) => match loaded(h[k as int], i as int, op) {
                    Ok(Some(v)) => (with_stack(f, popped(f, 2).push(v)), h, Ok(Step::Continue)),
                    Ok(None) => (f, h, Ok(Step::Delegate(op))),
                    Err(e) => (g, h, Err(e)),
                },
            }
        }
    } else if is_store(op) {
        let val = top(f, 0);
        let i = top(f, 1)->Int_0;
        let g = with_stack(f, popped(f, 3));
        if i < 0 {
            (g, h, Err(array_oob_text(i as int)))
        } else {
            match ref_target(top(f, 2))->Some_0 {
                None => (g, h, Err(npe_text(op))),
                Some(k) => match stored(h[k as int].payload, i as int, val, op) {
                    Ok(p) => (g, h.update(k as int, ObjectV { payload: p, ..h[k as int] }), Ok(Step::Continue)),
                    Err(e) => (g, h, Err(e)),
                },
            }
        }
    } else if op == 0xbe {
        let g = with_stack(f, popped(f, 1));
        match ref_target(top(f, 0))->Some_0 {
            None => (g, h, Err(npe_text(op))),
            Some(k) => (
                with_stack(f, popped(f, 1).push(Value::Int(array_len(h[k as int].payload) as i32))),
                h,
                Ok(Step::Continue),
            ),
        }
    } else {
        let atype = code[f.pc];
        let n = top(f, 0)->Int_0;
        if n < 0 {
            (FrameV { stack: popped(f, 1), pc: f.pc + 1, ..f }, h, Err(negative_size_text(n as int)))
        } else {
            (
                FrameV { stack: popped(f, 1).push(Value::Ref(Some(h.len() as u64))), pc: f.pc + 1, ..f },
                h.push(
                    ObjectV {
                        class_name: newarray_class(atype),
                        payload: PayloadV::Array(Seq::new(n as nat, |j: int| newarray_default(atype))),
                        fields: Seq::empty(),
                    },
                ),
                Ok(Step::Continue),
            )
        }
    }
}

/// A value stored into an `int` or `long` array (at an index that is not
/// negative) has the element's type.
pub open spec fn store_value_ok(f: FrameV, h: Seq<ObjectV>, op: u8) -> bool {
    let val = top(f, 0);
    match ref_target(top(f, 2))->Some_0 {
        Some(k) => top(f, 1)->Int_0 >= 0 ==> {
            &&& (op == 0x4f && h[k as int].payload is IntArray ==> val is Int)
            &&& ((op == 0x50 || op == 0x51 || op == 0x52 || op == 0x56) && h[k as int].payload is LongArray
                ==> val is Long)
        },
        None => true,
    }
}

/// The inputs on which an array instruction does not stop the
/// interpreter: the stack holds the operands, the index is an `int`, the
/// array operand is a reference (or `null`) to an object on the heap, and
/// a value stored into an `int`, `long` or byte array has that type.
pub open spec fn array_step_ok(f: FrameV, h: Seq<ObjectV>, code: Seq<u8>, op: u8) -> bool {
    let n = f.stack.len();
    if is_load(op) {
        n >= 2 && top(f, 0) is Int && ref_ok(top(f, 1), h)
    } else if is_store(op) {
        &&& n >= 3
        &&& top(f, 1) is Int
        &&& ref_ok(top(f, 2), h)
        &&& (op == 0x54 ==> top(f, 0) is Int)
        &&& store_value_ok(f, h, op)
    } else if op == 0xbe {
        n >= 1 && ref_ok(top(f, 0), h)
    } else {
        f.pc < code.len() && n >= 1 && top(f, 0) is Int && h.len() < u64::MAX
    }
}

// ---------------------------------------------------------------------------
// Execution
// ---------------------------------------------------------------------------

fn owned(s: &str) -> (r: String)
    ensures
        r@ == s@,
{
    let mut r = String::new();
    r.append(s);
    r
}

fn npe_message(op: u8) -> (m: String)
    ensures
        m@ == npe_text(op),
{
    if op == 0x2e {
        owned("NullPointerException: iaload")
    } else if op == 0x32 {
        owned("NullPointerException: aaload")
    } else if op == 0x33 {
        owned("NullPointerException: baload")
    } else if op == 0x34 {
        owned("NullPointerException: caload")
    } else if 0x2e <= op && op <= 0x35 {
        owned("NullPointerException: array load")
    } else if op == 0x4f {
        owned("NullPointerException: iastore")
    } else if op == 0x54 {
        owned("NullPointerException: bastore")
    } else if op == 0x55 {
        owned("NullPointerException: castore")
    } else if 0x4f <= op && op <= 0x56 && op != 0x53 {
        owned("NullPointerException: array store")
    } else {
        owned("NullPointerException: arraylength")
    }
}

/// The heap index an array operand names, `None` for `null`.
pub(crate) fn target_index(v: Value, heap_len: usize) -> (r: Option<usize>)
    requires
        ref_target(v) is Some,
        ref_target(v)->Some_0 matches Some(k) ==> k < heap_len,
    ensures
        match ref_target(v)->Some_0 {
            Some(k) => r == Some(k as usize),
            None => r is None,
        },
{
    match v {
        Value::Ref(Some(k)) => Some(k as usize),
        _ => None,
    }
}

fn is_array_class(name: &String) -> (r: bool)
    ensures
        r == (name@.len() > 0 && name@[0] == '['),
{
    let c = chars_of(name.as_str());
    c.len() > 0 && c[0] == '['
}

fn byte_of(v: Value) -> (r: Option<i32>)
    ensures
        r == byte_source(v),
{
    match v {
        Value::Int(i) => Some(i),
        Value::Long(l) => Some(l as i32),
        Value::Float(_) | Value::Double(_) | Value::Ref(_) => None,
        _ => Some(0),
    }
}

fn load_element(obj: &HeapObject, idx: usize, i: i32, op: u8) -> (r: Result<Option<Value>, String>)
    requires
        is_load(op),
        i >= 0,
        idx == i,
    ensures
        match loaded(obj@, i as int, op) {
            Ok(x) => r == Ok::<Option<Value>, String>(x),
            Err(e) => r matches Err(m) && m@ == e,
        },
{
    if op == 0x32 {
        if !is_array_class(&obj.class_name) {
            return Err(owned("java/lang/ArrayStoreException: aaload on non-array"));
        }
        match &obj.payload {
            Payload::Array(v) => if idx < v.len() { Ok(Some(v[idx])) } else { Err(array_oob(i)) },
            _ => Err(owned("java/lang/ArrayStoreException: aaload on non-reference array")),
        }
    } else if op == 0x33 {
        match &obj.payload {
            Payload::ByteArray(v) => if idx < v.len() {
                Ok(Some(Value::Int(v[idx] as i32)))
            } else {
                Err(array_oob(i))
            },
            Payload::Array(v) => if idx < v.len() {
                match byte_of(v[idx]) {
                    Some(b) => Ok(Some(Value::Int((b as i8) as i32))),
                    None => Ok(None),
                }
            } else {
                Err(array_oob(i))
            },
            _ => Ok(Some(Value::Int(0))),
        }
    } else if op == 0x2e {
        match &obj.payload {
            Payload::IntArray(v) => if idx < v.len() { Ok(Some(Value::Int(v[idx]))) } else { Err(array_oob(i)) },
            Payload::Array(v) => if idx < v.len() { Ok(Some(v[idx])) } else { Err(array_oob(i)) },
            _ => Ok(Some(Value::Int(0))),
        }
    } else if op == 0x34 {
        match &obj.payload {
            Payload::Array(v) => if idx < v.len() { Ok(Some(v[idx])) } else { Err(array_oob(i)) },
            _ => Ok(Some(Value::Int(0))),
        }
    } else {
        match &obj.payload {
            Payload::Array(v) => if idx < v.len() { Ok(Some(v[idx])) } else { Err(array_oob(i)) },
            Payload::LongArray(v) => if idx < v.len() { Ok(Some(Value::Long(v[idx]))) } else { Err(array_oob(i)) },
            Payload::IntArray(v) => if idx < v.len() { Ok(Some(Value::Int(v[idx]))) } else { Err(array_oob(i)) },
            _ => Ok(Some(Value::Int(0))),
        }
    }
}

fn store_element(obj: &mut HeapObject, idx: usize, i: i32, val: Value, op: u8) -> (r: Result<(), String>)
    requires
        is_store(op),
        i >= 0,
        idx == i,
        op == 0x54 ==> val is Int,
        op == 0x4f && old(obj)@.payload is IntArray ==> val is Int,
        (op == 0x50 || op == 0x51 || op == 0x52 || op == 0x56) && old(obj)@.payload is LongArray ==> val is Long,
    ensures
        match stored(old(obj)@.payload, i as int, val, op) {
            Ok(p) => r is Ok && final(obj)@ == (ObjectV { payload: p, ..old(obj)@ }),
            Err(e) => (r matches Err(m) && m@ == e) && final(obj)@ == old(obj)@,
        },
{
    let long_store = op == 0x50 || op == 0x51 || op == 0x52 || op == 0x56;
    match &mut obj.payload {
        Payload::Array(v) => {
            if idx < v.len() {
                if op == 0x54 {
                    let b = match val {
                        Value::Int(x) => x as u8,
                        _ => 0,
                    };
                    v.set(idx, Value::Int(b as i32));
                } else {
                    v.set(idx, val);
                }
                Ok(())
            } else {
                Err(array_oob(i))
            }
        },
        Payload::IntArray(v) => {
            if op == 0x4f {
                if idx < v.len() {
                    let x = match val {
                        Value::Int(x) => x,
                        _ => 0,
                    };
                    v.set(idx, x);
                    Ok(())
                } else {
                    Err(array_oob(i))
                }
            } else {
                Ok(())
            }
        },
        Payload::LongArray(v) => {
            if long_store {
                if idx < v.len() {
                    let x = match val {
                        Value::Long(x) => x,
                        _ => 0,
                    };
                    v.set(idx, x);
                    Ok(())
                } else {
                    Err(array_oob(i))
                }
            } else {
                Ok(())
            }
        },
        Payload::ByteArray(v) => {
            if op == 0x54 {
                if idx < v.len() {
                    let x = match val {
                        Value::Int(x) => x as u8,
                        _ => 0,
                    };
                    v.set(idx, x);
                    Ok(())
                } else {
                    Err(array_oob(i))
                }
            } else {
                Ok(())
            }
        },
        _ => Ok(()),
    }
}

fn array_length(obj: &HeapObject) -> (n: usize)
    ensures
        n == array_len(obj@.payload),
{
    match &obj.payload {
        Payload::Array(v) => v.len(),
        Payload::ByteArray(v) => v.len(),
        Payload::IntArray(v) => v.len(),
        Payload::LongArray(v) => v.len(),
        _ => 0,
    }
}

fn newarray_class_name(atype: u8) -> (r: String)
    ensures
        r@ == newarray_class(atype),
{
    if atype == 4 {
        owned("[Z")
    } else if atype == 5 {
        owned("[C")
    } else if atype == 6 {
        owned("[F")
    } else if atype == 7 {
        owned("[D")
    } else if atype == 8 {
        owned("[B")
    } else if atype == 9 {
        owned("[S")
    } else if atype == 10 {
        owned("[I")
    } else if atype == 11 {
        owned("[J")
    } else {
        owned("[Ljava/lang/Object;")
    }
}

fn newarray_element(atype: u8) -> (v: Value)
    ensures
        v == newarray_default(atype),
{
    if atype == 6 {
        Value::Float(0)
    } else if atype == 7 {
        Value::Double(0)
    } else if atype == 11 {
        Value::Long(0)
    } else if 4 <= atype && atype <= 10 {
        Value::Int(0)
    } else {
        Value::Ref(None)
    }
}

fn int_operand(v: Value) -> (x: i32)
    requires
        v is Int,
    ensures
        x == v->Int_0,
{
    match v {
        Value::Int(x) => x,
        _ => 0,
    }
}

fn exec_load(frame: &mut Frame, heap: &Heap, op: u8) -> (r: Result<Step, String>)
    requires
        is_load(op),
        array_step_ok(old(frame)@, heap@, Seq::empty(), op),
    ensures
        (final(frame)@, heap@, outcome_view(r)) == array_step(old(frame)@, heap@, Seq::empty(), op),
{
    let ghost f = frame@;
    let n = frame.stack.len();
    let i = int_operand(frame.stack[n - 1]);
    let arr = frame.stack[n - 2];
    if i < 0 {
        pop_value(&mut frame.stack);
        pop_value(&mut frame.stack);
        assert(frame@.stack =~= popped(f, 2));
        return Err(array_oob(i));
    }
    match target_index(arr, heap.objects.len()) {
        None => {
            pop_value(&mut frame.stack);
            pop_value(&mut frame.stack);
            assert(frame@.stack =~= popped(f, 2));
            Err(npe_message(op))
        },
        Some(k) => {
            assert(heap.objects@[k as int]@ == heap@[k as int]);
            match load_element(&heap.objects[k], i as usize, i, op) {
                Ok(Some(v)) => {
                    pop_value(&mut frame.stack);
                    pop_value(&mut frame.stack);
                    assert(frame@.stack =~= popped(f, 2));
                    frame.stack.push(v);
                    Ok(Step::Continue)
                },
                Ok(None) => Ok(Step::Delegate(op)),
                Err(e) => {
                    pop_value(&mut frame.stack);
                    pop_value(&mut frame.stack);
                    assert(frame@.stack =~= popped(f, 2));
                    Err(e)
                },
            }
        },
    }
}

fn exec_store(frame: &mut Frame, heap: &mut Heap, op: u8) -> (r: Result<Step, String>)
    requires
        is_store(op),
        array_step_ok(old(frame)@, old(heap)@, Seq::empty(), op),
    ensures
        (final(frame)@, final(heap)@, outcome_view(r)) == array_step(old(frame)@, old(heap)@, Seq::empty(), op),
{
    let ghost f = frame@;
    let ghost h = heap@;
    let val = pop_value(&mut frame.stack);
    let i = int_operand(pop_value(&mut frame.stack));
    let arr = pop_value(&mut frame.stack);
    assert(frame@.stack =~= popped(f, 3));
    if i < 0 {
        return Err(array_oob(i));
    }
    match target_index(arr, heap.objects.len()) {
        None => Err(npe_message(op)),
        Some(k) => {
            let ghost before = heap.objects@;
            assert(before[k as int]@ == h[k as int]);
            let r = store_element(&mut heap.objects[k], i as usize, i, val, op);
            assert(heap.objects@ == before.update(k as int, heap.objects@[k as int]));
            assert(object_views(heap.objects@) =~= object_views(before).update(k as int, heap.objects@[k as int]@));
            match r {
                Ok(()) => Ok(Step::Continue),
                Err(e) => {
                    assert(object_views(heap.objects@) =~= h);
                    Err(e)
                },
            }
        },
    }
}

fn exec_newarray(frame: &mut Frame, heap: &mut Heap, code: &[u8]) -> (r: Result<Step, String>)
    requires
        array_step_ok(old(frame)@, old(heap)@, code@, 0xbc),
    ensures
        (final(frame)@, final(heap)@, outcome_view(r)) == array_step(old(frame)@, old(heap)@, code@, 0xbc),
{
    let ghost f = frame@;
    let atype = code[frame.pc];
    frame.pc = frame.pc + 1;
    let count = int_operand(pop_value(&mut frame.stack));
    if count < 0 {
        let mut m = owned("java/lang/NegativeArraySizeException: ");
        push_int_text(&mut m, count as i64);
        return Err(m);
    }
    let d = newarray_element(atype);
    let mut elems: Vec<Value> = Vec::new();
    let mut j: i32 = 0;
    while j < count
        invariant
            0 <= j <= count,
            elems@ =~= Seq::new(j as nat, |x: int| d),
        decreases count - j,
    {
        elems.push(d);
        j = j + 1;
    }
    let obj = HeapObject { class_name: newarray_class_name(atype), payload: Payload::Array(elems), fields: Vec::new() };
    assert(field_views(obj.fields@) =~= Seq::empty());
    let r = heap.allocate(obj);
    frame.stack.push(r);
    Ok(Step::Continue)
}

/// Execute the array instruction `opcode` (the pc already past it) on the
/// frame and the heap, as `array_step` says.
pub fn execute_array_opcode(frame: &mut Frame, heap: &mut Heap, code: &[u8], opcode: u8) -> (r: Result<Step, String>)
    requires
        array_op(opcode),
        array_step_ok(old(frame)@, old(heap)@, code@, opcode),
    ensures
        (final(frame)@, final(heap)@, outcome_view(r)) == array_step(old(frame)@, old(heap)@, code@, opcode),
{
    let op = opcode;
    if 0x2e <= op && op <= 0x35 {
        exec_load(frame, heap, op)
    } else if op == 0xbc {
        exec_newarray(frame, heap, code)
    } else if op == 0xbe {
        let arr = pop_value(&mut frame.stack);
        match target_index(arr, heap.objects.len()) {
            None => Err(npe_message(op)),
            Some(k) => {
                assert(heap.objects@[k as int]@ == heap@[k as int]);
                let len = array_length(&heap.objects[k]);
                frame.stack.push(Value::Int(len as i32));
                Ok(Step::Continue)
            },
        }
    } else {
        exec_store(frame, heap, op)
    }
}

/// The frame, heap and outcome of executing any instruction on the
/// frame and the heap: an array instruction as `array_step` says, any
/// other as `step_spec` says, with the heap unchanged.
pub open spec fn heap_step(f: FrameV, h: Seq<ObjectV>, code: Seq<u8>, op: u8) -> (
    FrameV,
    Seq<ObjectV>,
    Result<Step, Seq<char>>,
) {
    if array_op(op) {
        array_step(f, h, code, op)
    } else {
        let (g, r) = step_spec(f, code, op);
        (g, h, r)
    }
}

pub open spec fn heap_step_ok(f: FrameV, h: Seq<ObjectV>, code: Seq<u8>, op: u8) -> bool {
    if array_op(op) {
        array_step_ok(f, h, code, op)
    } else {
        step_ok(f, code, op)
    }
}

/// Execute the instruction `opcode` (the pc already past it) on the frame
/// and the heap, as `heap_step` says; what neither this module nor
/// `bytecode` executes comes back as `Step::Delegate` with both untouched.
pub fn execute_heap_opcode(frame: &mut Frame, heap: &mut Heap, code: &[u8], opcode: u8) -> (r: Result<Step, String>)
    requires
        heap_step_ok(old(frame)@, old(heap)@, code@, opcode),
    ensures
        (final(frame)@, final(heap)@, outcome_view(r)) == heap_step(old(frame)@, old(heap)@, code@, opcode),
{
    let op = opcode;
    if (0x2e <= op && op <= 0x35) || (0x4f <= op && op <= 0x56 && op != 0x53) || op == 0xbc || op == 0xbe {
        execute_array_opcode(frame, heap, code, op)
    } else {
        execute_opcode(frame, code, op)
    }
}

/// The frame, heap and outcome of `anewarray` of the element class
/// `elem_class` resolved from the instruction's operand.
pub open spec fn anewarray_step(f: FrameV, h: Seq<ObjectV>, elem_class: Seq<char>) -> (
    FrameV,
    Seq<ObjectV>,
    Result<Step, Seq<char>>,
) {
    let n = top(f, 0)->Int_0;
    if n < 0 {
        (with_stack(f, popped(f, 1)), h, Err(negative_size_text(n as int)))
    } else {
        (
            with_stack(f, popped(f, 1).push(Value::Ref(Some(h.len() as u64)))),
            h.push(
                ObjectV {
                    class_name: "[L"@ + elem_class + ";"@,
                    payload: PayloadV::Array(Seq::new(n as nat, |j: int| Value::Ref(None))),
                    fields: Seq::empty(),
                },
            ),
            Ok(Step::Continue),
        )
    }
}

/// `anewarray` of the element class `elem_class` resolved from the
/// instruction's operand: a new array of `null`s of the popped length.
pub fn execute_anewarray(frame: &mut Frame, heap: &mut Heap, elem_class: &str) -> (r: Result<Step, String>)
    requires
        old(frame)@.stack.len() >= 1,
        top(old(frame)@, 0) is Int,
        old(heap)@.len() < u64::MAX,
    ensures
        (final(frame)@, final(heap)@, outcome_view(r)) == anewarray_step(old(frame)@, old(heap)@, elem_class@),
{
    let count = int_operand(pop_value(&mut frame.stack));
    if count < 0 {
        let mut m = owned("java/lang/NegativeArraySizeException: ");
        push_int_text(&mut m, count as i64);
        return Err(m);
    }
    let mut elems: Vec<Value> = Vec::new();
    let mut j: i32 = 0;
    while j < count
        invariant
            0 <= j <= count,
            elems@ =~= Seq::new(j as nat, |x: int| Value::Ref(None)),
        decreases count - j,
    {
        elems.push(Value::Ref(None));
        j = j + 1;
    }
    let mut name = two_texts("[L", elem_class);
    name.append(";");
    let obj = HeapObject { class_name: name, payload: Payload::Array(elems), fields: Vec::new() };
    assert(field_views(obj.fields@) =~= Seq::empty());
    let r = heap.allocate(obj);
    frame.stack.push(r);
    Ok(Step::Continue)
}

// ---------------------------------------------------------------------------
// Instance fields
// ---------------------------------------------------------------------------

/// The value of a field never written: zero of its type, or `null`.
pub open spec fn default_field_value(desc: Seq<char>) -> Value {
    match default_value_of(desc) {
        DefaultValue::Int => Value::Int(0),
        DefaultValue::Long => Value::Long(0),
        DefaultValue::Float => Value::Float(0),
        DefaultValue::Double => Value::Double(0),
        DefaultValue::Null => Value::Ref(None),
    }
}

pub open spec fn has_field(fs: Seq<(Seq<char>, Value)>, name: Seq<char>) -> bool {
    exists|j: int| 0 <= j < fs.len() && fs[j].0 == name
}

/// The first position of the field `name`.
pub open spec fn first_field(fs: Seq<(Seq<char>, Value)>, name: Seq<char>) -> int {
    choose|j: int| 0 <= j < fs.len() && fs[j].0 == name && forall|m: int| 0 <= m < j ==> fs[m].0 != name
}

/// What `getfield` reads from an object's fields.
pub open spec fn field_value(fs: Seq<(Seq<char>, Value)>, name: Seq<char>, desc: Seq<char>) -> Value {
    if has_field(fs, name) {
        fs[first_field(fs, name)].1
    } else {
        default_field_value(desc)
    }
}

/// The fields after `putfield` writes `v` to `name`.
pub open spec fn fields_after_put(fs: Seq<(Seq<char>, Value)>, name: Seq<char>, v: Value) -> Seq<(Seq<char>, Value)> {
    if has_field(fs, name) {
        fs.update(first_field(fs, name), (name, v))
    } else {
        fs.push((name, v))
    }
}

pub open spec fn void_operand_text(insn: Seq<char>, name: Seq<char>, class_name: Seq<char>) -> Seq<char> {
    insn + name + ": expected Ref on stack, got Void in "@ + class_name
}

pub open spec fn getfield_empty_text(name: Seq<char>, class_name: Seq<char>) -> Seq<char> {
    "getfield "@ + name + ": empty stack in "@ + class_name
}

/// The frame, heap and outcome of `getfield` of the field `name` with
/// descriptor `desc`, executed in a method of `class_name`.
pub open spec fn getfield_step(f: FrameV, h: Seq<ObjectV>, name: Seq<char>, desc: Seq<char>, class_name: Seq<char>) -> (
    FrameV,
    Result<Step, Seq<char>>,
) {
    if f.stack.len() == 0 {
        (f, Err(getfield_empty_text(name, class_name)))
    } else if top(f, 0) is Void {
        (with_stack(f, popped(f, 1)), Err(void_operand_text("getfield "@, name, class_name)))
    } else {
        match ref_target(top(f, 0))->Some_0 {
            None => (with_stack(f, popped(f, 1)), Err("NullPointerException: getfield "@ + name)),
            Some(k) => (
                with_stack(f, popped(f, 1).push(field_value(h[k as int].fields, name, desc))),
                Ok(Step::Continue),
            ),
        }
    }
}

/// The frame, heap and outcome of `putfield` of the field `name`.
pub open spec fn putfield_step(f: FrameV, h: Seq<ObjectV>, name: Seq<char>, class_name: Seq<char>) -> (
    FrameV,
    Seq<ObjectV>,
    Result<Step, Seq<char>>,
) {
    let n = f.stack.len();
    let val = if n >= 1 { top(f, 0) } else { Value::Void };
    let obj = if n >= 2 { top(f, 1) } else { Value::Void };
    let g = with_stack(f, if n >= 2 { popped(f, 2) } else { Seq::empty() });
    if obj is Void {
        (g, h, Err(void_operand_text("putfield "@, name, class_name)))
    } else {
        match ref_target(obj)->Some_0 {
            None => (g, h, Err("NullPointerException: putfield "@ + name)),
            Some(k) => (
                g,
                h.update(k as int, ObjectV { fields: fields_after_put(h[k as int].fields, name, val), ..h[k as int] }),
                Ok(Step::Continue),
            ),
        }
    }
}

/// The first position of `name` among the fields, if any.
pub(crate) fn find_field(fields: &Vec<Field>, name: &str) -> (r: Option<usize>)
    ensures
        match r {
            Some(j) => has_field(field_views(fields@), name@) && j == first_field(field_views(fields@), name@)
                && j < fields@.len(),
            None => !has_field(field_views(fields@), name@),
        },
{
    let ghost fs = field_views(fields@);
    let mut i: usize = 0;
    while i < fields.len()
        invariant
            i <= fields@.len(),
            fs == field_views(fields@),
            forall|m: int| 0 <= m < i ==> fs[m].0 != name@,
        decreases fields.len() - i,
    {
        if str_eq(fields[i].name.as_str(), name) {
            assert(fs[i as int].0 == name@);
            assert(has_field(fs, name@));
            let ghost j = first_field(fs, name@);
            assert(0 <= j < fs.len() && fs[j].0 == name@ && forall|m: int| 0 <= m < j ==> fs[m].0 != name@);
            assert(j == i);
            return Some(i);
        }
        i = i + 1;
    }
    None
}

pub(crate) fn default_for(desc: &str) -> (v: Value)
    ensures
        v == default_field_value(desc@),
{
    match default_value_for_descriptor(desc) {
        DefaultValue::Int => Value::Int(0),
        DefaultValue::Long => Value::Long(0),
        DefaultValue::Float => Value::Float(0),
        DefaultValue::Double => Value::Double(0),
        DefaultValue::Null => Value::Ref(None),
    }
}

fn two_texts(a: &str, b: &str) -> (r: String)
    ensures
        r@ == a@ + b@,
{
    let mut r = owned(a);
    r.append(b);
    r
}

/// `getfield` of the field `name` (descriptor `desc`) resolved from the
/// instruction's operand, in a method of `class_name`: the object's value
/// of the field, or the field's default when it was never written.
pub fn execute_getfield(frame: &mut Frame, heap: &Heap, name: &str, desc: &str, class_name: &str) -> (r: Result<
    Step,
    String,
>)
    requires
        old(frame)@.stack.len() > 0 ==> top(old(frame)@, 0) is Void || ref_ok(top(old(frame)@, 0), heap@),
    ensures
        (final(frame)@, outcome_view(r)) == getfield_step(old(frame)@, heap@, name@, desc@, class_name@),
{
    let ghost f = frame@;
    if frame.stack.len() == 0 {
        let mut e = two_texts("getfield ", name);
        e.append(": empty stack in ");
        e.append(class_name);
        return Err(e);
    }
    let obj = pop_value(&mut frame.stack);
    assert(frame@.stack =~= popped(f, 1));
    if let Value::Void = obj {
        let mut e = two_texts("getfield ", name);
        e.append(": expected Ref on stack, got Void in ");
        e.append(class_name);
        return Err(e);
    }
    match target_index(obj, heap.objects.len()) {
        None => Err(two_texts("NullPointerException: getfield ", name)),
        Some(k) => {
            assert(heap.objects@[k as int]@ == heap@[k as int]);
            let fields = &heap.objects[k].fields;
            let v = match find_field(fields, name) {
                Some(j) => fields[j].value,
                None => default_for(desc),
            };
            frame.stack.push(v);
            Ok(Step::Continue)
        },
    }
}

pub(crate) fn put_field(fields: &mut Vec<Field>, name: &str, v: Value)
    ensures
        field_views(final(fields)@) == fields_after_put(field_views(old(fields)@), name@, v),
{
    let ghost before = fields@;
    match find_field(fields, name) {
        Some(j) => {
            fields.set(j, Field { name: owned(name), value: v });
            assert(field_views(fields@) =~= field_views(before).update(j as int, (name@, v)));
        },
        None => {
            fields.push(Field { name: owned(name), value: v });
            assert(field_views(fields@) =~= field_views(before).push((name@, v)));
        },
    }
}

/// `putfield` of the field `name` resolved from the instruction's operand,
/// in a method of `class_name`.
pub fn execute_putfield(frame: &mut Frame, heap: &mut Heap, name: &str, class_name: &str) -> (r: Result<Step, String>)
    requires
        old(frame)@.stack.len() >= 2 ==> top(old(frame)@, 1) is Void || ref_ok(top(old(frame)@, 1), old(heap)@),
    ensures
        (final(frame)@, final(heap)@, outcome_view(r)) == putfield_step(old(frame)@, old(heap)@, name@, class_name@),
{
    let ghost f = frame@;
    let ghost h = heap@;
    let val = if frame.stack.len() > 0 { pop_value(&mut frame.stack) } else { Value::Void };
    let obj = if frame.stack.len() > 0 { pop_value(&mut frame.stack) } else { Value::Void };
    assert(frame@.stack =~= (if f.stack.len() >= 2 { popped(f, 2) } else { Seq::empty() }));
    if let Value::Void = obj {
        let mut e = two_texts("putfield ", name);
        e.append(": expected Ref on stack, got Void in ");
        e.append(class_name);
        return Err(e);
    }
    match target_index(obj, heap.objects.len()) {
        None => Err(two_texts("NullPointerException: putfield ", name)),
        Some(k) => {
            let ghost before = heap.objects@;
            assert(before[k as int]@ == h[k as int]);
            put_field(&mut heap.objects[k].fields, name, val);
            assert(object_views(heap.objects@) =~= object_views(before).update(k as int, heap.objects@[k as int]@));
            Ok(Step::Continue)
        },
    }
}

// ---------------------------------------------------------------------------
// Interned strings and `ldc`
// ---------------------------------------------------------------------------

/// The interned strings: each text once, with the reference to the
/// `java/lang/String` object that holds it.
pub struct StringPool {
    entries: Vec<Field>,
}

impl View for StringPool {
    type V = Seq<(Seq<char>, Value)>;

    closed spec fn view(&self) -> Seq<(Seq<char>, Value)> {
        field_views(self.entries@)
    }
}

/// The `java/lang/String` object holding `t`.
pub open spec fn string_object(t: Seq<char>) -> ObjectV {
    ObjectV { class_name: "java/lang/String"@, payload: PayloadV::JavaString(t), fields: Seq::empty() }
}

/// The pool, heap and reference after interning `t`: the reference already
/// in the pool, or a new string object that the pool then records.
pub open spec fn interned(pool: Seq<(Seq<char>, Value)>, h: Seq<ObjectV>, t: Seq<char>) -> (
    Seq<(Seq<char>, Value)>,
    Seq<ObjectV>,
    Value,
) {
    if has_field(pool, t) {
        (pool, h, pool[first_field(pool, t)].1)
    } else {
        let r = Value::Ref(Some(h.len() as u64));
        (pool.push((t, r)), h.push(string_object(t)), r)
    }
}

impl StringPool {
    /// An empty pool.
    pub fn new() -> (p: StringPool)
        ensures
            p@ == Seq::<(Seq<char>, Value)>::empty(),
    {
        let p = StringPool { entries: Vec::new() };
        assert(p@ =~= Seq::<(Seq<char>, Value)>::empty());
        p
    }

    /// The interned string object for `text`, made on first use.
    pub fn intern(&mut self, heap: &mut Heap, text: &str) -> (r: Value)
        requires
            old(heap)@.len() < u64::MAX,
        ensures
            (final(self)@, final(heap)@, r) == interned(old(self)@, old(heap)@, text@),
    {
        match find_field(&self.entries, text) {
            Some(j) => self.entries[j].value,
            None => {
                let obj = HeapObject { class_name: owned("java/lang/String"), payload: Payload::JavaString(owned(text)), fields: Vec::new() };
                assert(field_views(obj.fields@) =~= Seq::empty());
                let r = heap.allocate(obj);
                let ghost before = self.entries@;
                self.entries.push(Field { name: owned(text), value: r });
                assert(field_views(self.entries@) =~= field_views(before).push((text@, r)));
                r
            },
        }
    }
}

/// Interning a text a second time gives the same reference and changes
/// neither the pool nor the heap.
pub proof fn law_intern_is_idempotent(pool: Seq<(Seq<char>, Value)>, h: Seq<ObjectV>, t: Seq<char>)
    ensures
        ({
            let (p1, h1, r1) = interned(pool, h, t);
            interned(p1, h1, t) == (p1, h1, r1)
        }),
{
    let (p1, h1, r1) = interned(pool, h, t);
    lemma_first_field_after_put(pool, t, r1);
    if has_field(pool, t) {
        lemma_first_field(pool, t);
        assert(pool.update(first_field(pool, t), (t, r1)) =~= pool);
    }
}

/// The frame, heap and pool after `ldc` of the constant at `idx`: numbers
/// are pushed as they are, a string constant as its interned object, and
/// any other constant but a class as `null`; a class constant is left to
/// the caller, with nothing changed.
pub open spec fn ldc_step(f: FrameV, h: Seq<ObjectV>, pool: Seq<(Seq<char>, Value)>, cp: Seq<CpEntry>, idx: u16) -> (
    FrameV,
    Seq<ObjectV>,
    Seq<(Seq<char>, Value)>,
    Step,
) {
    match cp[idx as int] {
        CpEntry::String { string_index } => {
            let t = match cp[string_index as int] {
                CpEntry::Utf8(s) => s,
                _ => Seq::empty(),
            };
            let (p2, h2, r) = interned(pool, h, t);
            (FrameV { stack: f.stack.push(r), ..f }, h2, p2, Step::Continue)
        },
        CpEntry::Class { .. } => (f, h, pool, Step::Delegate(0x12)),
        e => (FrameV { stack: f.stack.push(ldc_number(e)), ..f }, h, pool, Step::Continue),
    }
}

/// The value `ldc` pushes for a constant that is no string or class.
pub open spec fn ldc_number(e: CpEntry) -> Value {
    match e {
        CpEntry::Integer(v) => Value::Int(v),
        CpEntry::Float(v) => Value::Float(v),
        CpEntry::Long(v) => Value::Long(v),
        CpEntry::Double(v) => Value::Double(v),
        _ => Value::Ref(None),
    }
}

/// What `ldc` reads lies in the constant pool.
pub open spec fn ldc_ok(cp: Seq<CpEntry>, idx: u16) -> bool {
    &&& (idx as int) < cp.len()
    &&& cp[idx as int] matches CpEntry::String { string_index } ==> (string_index as int) < cp.len()
}

/// `ldc` of the constant at `idx` (read from the instruction's operand by
/// the caller), as `ldc_step` says.
pub fn execute_ldc(frame: &mut Frame, heap: &mut Heap, pool: &mut StringPool, cp: &ConstantPool, idx: u16) -> (r: Step)
    requires
        ldc_ok(cp@, idx),
        old(heap)@.len() < u64::MAX,
    ensures
        (final(frame)@, final(heap)@, final(pool)@, r) == ldc_step(old(frame)@, old(heap)@, old(pool)@, cp@, idx),
{
    let ghost f = frame@;
    let ghost h = heap@;
    let ghost p = pool@;
    let e = cp.get(idx);
    assert(e@ == cp@[idx as int]);
    let v = match e {
        ConstantPoolEntry::String { string_index } => {
            let t = cp.get(*string_index);
            let text: &str = match t {
                ConstantPoolEntry::Utf8(s) => s.as_str(),
                _ => "",
            };
            proof {
                reveal_strlit("");
            }
            assert(text@ == match cp@[*string_index as int] {
                CpEntry::Utf8(s) => s,
                _ => Seq::empty(),
            });
            pool.intern(heap, text)
        },
        ConstantPoolEntry::Class { .. } => {
            return Step::Delegate(0x12);
        },
        ConstantPoolEntry::Integer(v) => Value::Int(*v),
        ConstantPoolEntry::Float(v) => Value::Float(*v),
        ConstantPoolEntry::Long(v) => Value::Long(*v),
        ConstantPoolEntry::Double(v) => Value::Double(*v),
        _ => Value::Ref(None),
    };
    frame.stack.push(v);
    Step::Continue
}

// ---------------------------------------------------------------------------
// Entering an exception handler
// ---------------------------------------------------------------------------

/// The heap and the exception object after making the exception an
/// internal error text stands for: a `java/lang/String` with its detail
/// message, and an object of its class whose `detailMessage` field refers
/// to that string.
pub open spec fn made_exception(h: Seq<ObjectV>, err_msg: Seq<char>) -> (Seq<ObjectV>, Value) {
    let text = ObjectV {
        class_name: "java/lang/String"@,
        payload: PayloadV::JavaString(exception_message_text(err_msg)),
        fields: Seq::empty(),
    };
    let exc = ObjectV {
        class_name: exception_class_text(err_msg),
        payload: PayloadV::Plain,
        fields: seq![("detailMessage"@, Value::Ref(Some(h.len() as u64)))],
    };
    (h.push(text).push(exc), Value::Ref(Some((h.len() + 1) as u64)))
}

/// The frame and heap on entering the handler at `handler_pc` for the error
/// `err_msg`: the stack holds only the exception, the pending one if there
/// is one, else one made from the error text.
pub open spec fn handler_entry(f: FrameV, h: Seq<ObjectV>, handler_pc: int, pending: Option<Value>, err_msg: Seq<char>) -> (
    FrameV,
    Seq<ObjectV>,
) {
    match pending {
        Some(v) => (FrameV { stack: seq![v], pc: handler_pc, ..f }, h),
        None => {
            let (h2, e) = made_exception(h, err_msg);
            (FrameV { stack: seq![e], pc: handler_pc, ..f }, h2)
        },
    }
}

/// Enter the handler at `handler_pc` that the exception table gives for
/// the error `err_msg` thrown in this frame, as `handler_entry` says.
pub fn enter_exception_handler(
    frame: &mut Frame,
    heap: &mut Heap,
    handler_pc: usize,
    pending: Option<Value>,
    err_msg: &str,
) -> (exc: Value)
    requires
        old(heap)@.len() + 2 < u64::MAX,
    ensures
        (final(frame)@, final(heap)@) == handler_entry(old(frame)@, old(heap)@, handler_pc as int, pending, err_msg@),
        exc == final(frame)@.stack[0],
{
    let ghost h = heap@;
    let exc = match pending {
        Some(v) => v,
        None => {
            let (class, msg) = exception_from_err_msg(err_msg);
            let text = heap.allocate(HeapObject { class_name: owned("java/lang/String"), payload: Payload::JavaString(msg), fields: Vec::new() });
            let mut fields: Vec<Field> = Vec::new();
            fields.push(Field { name: owned("detailMessage"), value: text });
            let obj = HeapObject { class_name: class, payload: Payload::Plain, fields };
            assert(field_views(obj.fields@) =~= seq![("detailMessage"@, Value::Ref(Some(h.len() as u64)))]);
            let e = heap.allocate(obj);
            proof {
                let empty: Seq<Field> = Seq::empty();
                assert(field_views(empty) =~= Seq::empty());
            }
            assert(heap@ =~= made_exception(h, err_msg@).0);
            e
        },
    };
    frame.stack = Vec::new();
    frame.stack.push(exc);
    frame.pc = handler_pc;
    assert(frame@.stack =~= seq![exc]);
    exc
}

// ---------------------------------------------------------------------------
// What an instruction needs
// ---------------------------------------------------------------------------

fn ref_usable(v: Value, heap_len: usize) -> (r: bool)
    ensures
        r == (ref_target(v) matches Some(t) && (t matches Some(k) ==> k < heap_len)),
{
    match v {
        Value::Ref(Some(k)) => k < heap_len as u64,
        Value::Ref(None) | Value::Void => true,
        Value::Int(i) => i == 0,
        _ => false,
    }
}

/// Whether the `k`-th value from the top, if the stack holds it, is a
/// usable object operand of `getfield` (`k == 0`) or `putfield` (`k == 1`):
/// `Void`, or a reference or `null` on the heap.
pub fn object_operand_ready(frame: &Frame, heap: &Heap, k: usize) -> (r: bool)
    ensures
        r == (k < frame@.stack.len() ==> top(frame@, k as int) is Void || ref_ok(top(frame@, k as int), heap@)),
{
    let n = frame.stack.len();
    if k >= n {
        return true;
    }
    let v = frame.stack[n - 1 - k];
    match v {
        Value::Void => true,
        _ => ref_usable(v, heap.objects.len()),
    }
}

fn store_value_ready(frame: &Frame, heap: &Heap, op: u8) -> (r: bool)
    requires
        is_store(op),
        frame@.stack.len() >= 3,
        top(frame@, 1) is Int,
        ref_ok(top(frame@, 2), heap@),
    ensures
        r == store_value_ok(frame@, heap@, op),
{
    let n = frame.stack.len();
    let val = frame.stack[n - 1];
    let i = int_operand(frame.stack[n - 2]);
    match target_index(frame.stack[n - 3], heap.objects.len()) {
        None => true,
        Some(k) => {
            assert(heap.objects@[k as int]@ == heap@[k as int]);
            if i < 0 {
                return true;
            }
            let is_int = match val {
                Value::Int(_) => true,
                _ => false,
            };
            let is_long = match val {
                Value::Long(_) => true,
                _ => false,
            };
            match &heap.objects[k].payload {
                Payload::IntArray(_) => op != 0x4f || is_int,
                Payload::LongArray(_) => !(op == 0x50 || op == 0x51 || op == 0x52 || op == 0x56) || is_long,
                _ => true,
            }
        },
    }
}

/// Whether the instruction `op` (the pc already past it) can be carried
/// out on the frame and the heap, as `heap_step_ok` says.
pub fn heap_step_ready(frame: &Frame, heap: &Heap, code: &[u8], op: u8) -> (r: bool)
    ensures
        r == heap_step_ok(frame@, heap@, code@, op),
{
    let st = &frame.stack;
    let n = st.len();
    let len = heap.objects.len();
    let is_int = |k: usize| -> (b: bool)
        ensures
            b == (k < st@.len() && st@[st@.len() - 1 - k] is Int),
        {
            k < st.len() && match st[st.len() - 1 - k] {
                Value::Int(_) => true,
                _ => false,
            }
        };
    if 0x2e <= op && op <= 0x35 {
        n >= 2 && is_int(0) && ref_usable(st[n - 2], len)
    } else if 0x4f <= op && op <= 0x56 && op != 0x53 {
        if !(n >= 3 && is_int(1) && ref_usable(st[n - 3], len)) {
            return false;
        }
        if op == 0x54 && !is_int(0) {
            return false;
        }
        store_value_ready(frame, heap, op)
    } else if op == 0xbe {
        n >= 1 && ref_usable(st[n - 1], len)
    } else if op == 0xbc {
        frame.pc < code.len() && is_int(0) && (len as u64) < 0xffff_ffff_ffff_ffff
    } else {
        step_ready(frame, code, op)
    }
}

// ---------------------------------------------------------------------------
// Laws
// ---------------------------------------------------------------------------

/// An element stored by `iastore` into an object array, or an `int` stored
/// into an `int` array, at an index within the array is what `iaload` at
/// that index reads back.
pub proof fn law_array_store_then_load(f: FrameV, h: Seq<ObjectV>, code: Seq<u8>, k: u64, i: i32, v: Value)
    requires
        k < h.len(),
        0 <= i < array_len(h[k as int].payload),
        h[k as int].payload is Array || (h[k as int].payload is IntArray && v is Int),
        f.stack.len() >= 3,
        top(f, 0) == v,
        top(f, 1) == Value::Int(i),
        top(f, 2) == Value::Ref(Some(k)),
    ensures
        ({
            let (g, h2, r) = array_step(f, h, code, 0x4f);
            let f2 = with_stack(g, g.stack.push(Value::Ref(Some(k))).push(Value::Int(i)));
            &&& r == Ok::<Step, Seq<char>>(Step::Continue)
            &&& g.stack == popped(f, 3)
            &&& h2.len() == h.len()
            &&& array_step(f2, h2, code, 0x2e) == (with_stack(g, g.stack.push(v)), h2, Ok::<Step, Seq<char>>(
                Step::Continue,
            ))
        }),
{
    let (g, h2, r) = array_step(f, h, code, 0x4f);
    let f2 = with_stack(g, g.stack.push(Value::Ref(Some(k))).push(Value::Int(i)));
    assert(top(f2, 0) == Value::Int(i));
    assert(top(f2, 1) == Value::Ref(Some(k)));
    assert(popped(f2, 2) =~= g.stack);
}

/// An array store changes at most the array it stores into: every other
/// object stays as it was, and the heap keeps its size.
pub proof fn law_store_touches_one_object(f: FrameV, h: Seq<ObjectV>, code: Seq<u8>, op: u8, j: int)
    requires
        is_store(op),
        array_step_ok(f, h, code, op),
        0 <= j < h.len(),
        !(ref_target(top(f, 2))->Some_0 matches Some(k) && k == j),
    ensures
        ({
            let (g, h2, r) = array_step(f, h, code, op);
            h2.len() == h.len() && h2[j] == h[j]
        }),
{
}

/// The array `newarray` makes for a count `n >= 0` has length `n`.
pub proof fn law_newarray_length(f: FrameV, h: Seq<ObjectV>, code: Seq<u8>, n: i32)
    requires
        f.pc < code.len(),
        f.stack.len() >= 1,
        top(f, 0) == Value::Int(n),
        n >= 0,
        h.len() < u64::MAX,
    ensures
        ({
            let (g, h2, r) = array_step(f, h, code, 0xbc);
            &&& r == Ok::<Step, Seq<char>>(Step::Continue)
            &&& h2.len() == h.len() + 1
            &&& array_step(g, h2, code, 0xbe) == (with_stack(g, popped(g, 1).push(Value::Int(n))), h2, Ok::<
                Step,
                Seq<char>,
            >(Step::Continue))
        }),
{
    let (g, h2, r) = array_step(f, h, code, 0xbc);
    assert(top(g, 0) == Value::Ref(Some(h.len() as u64)));
    assert(h2[h.len() as int].payload == PayloadV::Array(Seq::new(n as nat, |j: int| newarray_default(code[f.pc]))));
}

proof fn lemma_minimal_match(fs: Seq<(Seq<char>, Value)>, name: Seq<char>, j: int)
    requires
        0 <= j < fs.len(),
        fs[j].0 == name,
    ensures
        exists|c: int| 0 <= c < fs.len() && fs[c].0 == name && forall|m: int| 0 <= m < c ==> fs[m].0 != name,
    decreases j,
{
    if exists|m: int| 0 <= m < j && fs[m].0 == name {
        let m = choose|m: int| 0 <= m < j && fs[m].0 == name;
        lemma_minimal_match(fs, name, m);
    } else {
        assert(forall|m: int| 0 <= m < j ==> fs[m].0 != name);
    }
}

proof fn lemma_first_field(fs: Seq<(Seq<char>, Value)>, name: Seq<char>)
    requires
        has_field(fs, name),
    ensures
        ({
            let c = first_field(fs, name);
            0 <= c < fs.len() && fs[c].0 == name && forall|m: int| 0 <= m < c ==> fs[m].0 != name
        }),
{
    let j = choose|j: int| 0 <= j < fs.len() && fs[j].0 == name;
    lemma_minimal_match(fs, name, j);
}

pub(crate) proof fn lemma_first_field_after_put(fs: Seq<(Seq<char>, Value)>, name: Seq<char>, v: Value)
    ensures
        has_field(fields_after_put(fs, name, v), name),
        fields_after_put(fs, name, v)[first_field(fields_after_put(fs, name, v), name)] == (name, v),
{
    let fs2 = fields_after_put(fs, name, v);
    let j = if has_field(fs, name) {
        let j0 = first_field(fs, name);
        lemma_first_field(fs, name);
        assert(0 <= j0 < fs.len() && fs[j0].0 == name && forall|m: int| 0 <= m < j0 ==> fs[m].0 != name);
        j0
    } else {
        fs.len() as int
    };
    assert(fs2[j] == (name, v));
    assert(forall|m: int| 0 <= m < j ==> fs2[m] == fs[m]);
    assert(forall|m: int| 0 <= m < j ==> fs2[m].0 != name);
    assert(has_field(fs2, name));
    let c = first_field(fs2, name);
    assert(0 <= c < fs2.len() && fs2[c].0 == name && forall|m: int| 0 <= m < c ==> fs2[m].0 != name);
    if c < j {
        assert(fs2[c].0 != name);
    } else if c > j {
        assert(fs2[j].0 != name);
    }
    assert(c == j);
}

/// A value `putfield` writes to a field of an object is what `getfield` of
/// that field on that object reads back, whatever its descriptor.
pub proof fn law_putfield_then_getfield(
    f: FrameV,
    h: Seq<ObjectV>,
    k: u64,
    v: Value,
    name: Seq<char>,
    desc: Seq<char>,
    class_name: Seq<char>,
)
    requires
        k < h.len(),
        f.stack.len() >= 2,
        top(f, 0) == v,
        top(f, 1) == Value::Ref(Some(k)),
    ensures
        ({
            let (g, h2, r) = putfield_step(f, h, name, class_name);
            let f2 = with_stack(g, g.stack.push(Value::Ref(Some(k))));
            &&& r == Ok::<Step, Seq<char>>(Step::Continue)
            &&& g.stack == popped(f, 2)
            &&& getfield_step(f2, h2, name, desc, class_name) == (with_stack(g, g.stack.push(v)), Ok::<
                Step,
                Seq<char>,
            >(Step::Continue))
        }),
{
    let (g, h2, r) = putfield_step(f, h, name, class_name);
    let f2 = with_stack(g, g.stack.push(Value::Ref(Some(k))));
    lemma_first_field_after_put(h[k as int].fields, name, v);
    assert(top(f2, 0) == Value::Ref(Some(k)));
    assert(popped(f2, 1) =~= g.stack);
    assert(h2[k as int].fields == fields_after_put(h[k as int].fields, name, v));
}

} // verus!
