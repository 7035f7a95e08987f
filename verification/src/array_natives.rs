//! The natives that work on arrays on the heap: `System.arraycopy`,
//! `java.lang.reflect.Array.getLength`, and `String.toCharArray` and
//! `String.getBytes`, which make arrays of a string's characters and bytes.

use vstd::prelude::*;
use crate::bytecode::Value;
use crate::heap::{Heap, HeapObject, ObjectV, Payload, PayloadV, array_len, object_views, ref_ok, ref_target, target_index};
use crate::text::chars_of;
use vstd::utf8::encode_utf8;

verus! {

/// The object the `i`-th argument names, `None` for a missing or `null`
/// argument.
pub open spec fn arg_target(args: Seq<Value>, i: int) -> Option<u64> {
    if i < args.len() {
        ref_target(args[i])->Some_0
    } else {
        None
    }
}

/// The `i`-th argument as a position: negative values and a missing
/// argument count as 0.
pub open spec fn arg_position(args: Seq<Value>, i: int) -> int {
    if i < args.len() {
        let x = args[i]->Int_0;
        if x < 0 {
            0
        } else {
            x as int
        }
    } else {
        0
    }
}

pub open spec fn arg_ref_ok(args: Seq<Value>, i: int, h: Seq<ObjectV>) -> bool {
    i < args.len() ==> ref_ok(args[i], h)
}

pub open spec fn arg_int_ok(args: Seq<Value>, i: int) -> bool {
    i < args.len() ==> args[i] is Int
}

/// The elements of an array as values: bytes read unsigned.
pub open spec fn elements(p: PayloadV) -> Option<Seq<Value>> {
    match p {
        PayloadV::Array(v) => Some(v),
        PayloadV::ByteArray(v) => Some(v.map_values(|b: u8| Value::Int(b as i32))),
        PayloadV::IntArray(v) => Some(v.map_values(|x: i32| Value::Int(x))),
        PayloadV::LongArray(v) => Some(v.map_values(|x: i64| Value::Long(x))),
        _ => None,
    }
}

/// How many elements the source offers from `src_pos` for a copy of
/// `len`.
pub open spec fn copy_count(src_len: int, src_pos: int, len: int) -> int {
    let end = if src_pos + len < src_len {
        src_pos + len
    } else {
        src_len
    };
    if end > src_pos {
        end - src_pos
    } else {
        0
    }
}

/// How many of them fit into the destination from `dst_pos`.
pub open spec fn write_count(dst_len: int, dst_pos: int, count: int) -> int {
    if dst_pos < dst_len && count > 0 {
        if dst_pos + count < dst_len {
            count
        } else {
            dst_len - dst_pos
        }
    } else {
        0
    }
}

/// `dst` with the elements `dst_pos..dst_pos + wc` replaced by `f` of the
/// source values from `src_pos`.
pub open spec fn overwritten<T>(dst: Seq<T>, dst_pos: int, wc: int, vals: Seq<Value>, src_pos: int, f: spec_fn(Value) -> T) -> Seq<T> {
    Seq::new(
        dst.len(),
        |j: int|
            if dst_pos <= j < dst_pos + wc {
                f(vals[src_pos + j - dst_pos])
            } else {
                dst[j]
            },
    )
}

/// The destination payload after the copy of `count` source values from
/// `src_pos` to `dst_pos`.
pub open spec fn copied(p: PayloadV, dst_pos: int, vals: Seq<Value>, src_pos: int, count: int) -> PayloadV {
    match p {
        PayloadV::Array(v) => PayloadV::Array(
            overwritten(v, dst_pos, write_count(v.len() as int, dst_pos, count), vals, src_pos, |x: Value| x),
        ),
        PayloadV::ByteArray(v) => PayloadV::ByteArray(
            overwritten(
                v,
                dst_pos,
                write_count(v.len() as int, dst_pos, count),
                vals,
                src_pos,
                |x: Value| (x->Int_0) as u8,
            ),
        ),
        PayloadV::IntArray(v) => PayloadV::IntArray(
            overwritten(v, dst_pos, write_count(v.len() as int, dst_pos, count), vals, src_pos, |x: Value| x->Int_0),
        ),
        PayloadV::LongArray(v) => PayloadV::LongArray(
            overwritten(v, dst_pos, write_count(v.len() as int, dst_pos, count), vals, src_pos, |x: Value| x->Long_0),
        ),
        _ => p,
    }
}

/// The heap after `System.arraycopy(src, srcPos, dst, dstPos, len)`, or
/// `None` where the native does not apply (a `null` or missing array): the
/// source's elements are read first, so a copy within one array moves the
/// old values; a source that is no array copies nothing.
pub open spec fn arraycopy_result(h: Seq<ObjectV>, args: Seq<Value>) -> Option<Seq<ObjectV>> {
    match (arg_target(args, 0), arg_target(args, 2)) {
        (Some(s), Some(d)) => match elements(h[s as int].payload) {
            None => Some(h),
            Some(vals) => {
                let src_pos = arg_position(args, 1);
                let count = copy_count(vals.len() as int, src_pos, arg_position(args, 4));
                Some(
                    h.update(
                        d as int,
                        ObjectV {
                            payload: copied(h[d as int].payload, arg_position(args, 3), vals, src_pos, count),
                            ..h[d as int]
                        },
                    ),
                )
            },
        },
        _ => None,
    }
}

/// The copied values have the destination's element type.
pub open spec fn copy_types_ok(dst: PayloadV, dst_pos: int, vals: Seq<Value>, src_pos: int, count: int) -> bool {
    let wc = write_count(array_len(dst), dst_pos, count);
    &&& (dst is ByteArray || dst is IntArray) ==> forall|k: int| 0 <= k < wc ==> #[trigger] vals[src_pos + k] is Int
    &&& dst is LongArray ==> forall|k: int| 0 <= k < wc ==> #[trigger] vals[src_pos + k] is Long
}

/// The arguments `System.arraycopy` reads are of the kinds it reads them
/// as, in the order it reads them.
pub open spec fn arraycopy_ok(h: Seq<ObjectV>, args: Seq<Value>) -> bool {
    &&& arg_ref_ok(args, 0, h)
    &&& arg_target(args, 0) is Some ==> {
        &&& arg_int_ok(args, 1)
        &&& arg_ref_ok(args, 2, h)
        &&& arg_target(args, 2) is Some ==> {
            &&& arg_int_ok(args, 3)
            &&& arg_int_ok(args, 4)
            &&& elements(h[arg_target(args, 0)->Some_0 as int].payload) matches Some(vals) ==> copy_types_ok(
                h[arg_target(args, 2)->Some_0 as int].payload,
                arg_position(args, 3),
                vals,
                arg_position(args, 1),
                copy_count(vals.len() as int, arg_position(args, 1), arg_position(args, 4)),
            )
        }
    }
}

fn target_arg(args: &Vec<Value>, i: usize, heap_len: usize) -> (r: Option<usize>)
    requires
        arg_ref_ok(args@, i as int, Seq::new(heap_len as nat, |j: int| arbitrary::<ObjectV>())),
    ensures
        match arg_target(args@, i as int) {
            Some(k) => r == Some(k as usize) && k < heap_len,
            None => r is None,
        },
{
    if i < args.len() {
        target_index(args[i], heap_len)
    } else {
        None
    }
}

fn position_arg(args: &Vec<Value>, i: usize) -> (r: usize)
    requires
        arg_int_ok(args@, i as int),
    ensures
        r == arg_position(args@, i as int),
{
    if i < args.len() {
        match args[i] {
            Value::Int(x) => if x < 0 {
                0
            } else {
                x as usize
            },
            _ => 0,
        }
    } else {
        0
    }
}

fn elements_of(p: &Payload) -> (r: Option<Vec<Value>>)
    ensures
        match elements(p@) {
            Some(vals) => r matches Some(v) && v@ == vals,
            None => r is None,
        },
{
    match p {
        Payload::Array(v) => {
            let mut out: Vec<Value> = Vec::new();
            let mut i: usize = 0;
            while i < v.len()
                invariant
                    i <= v@.len(),
                    out@ =~= v@.take(i as int),
                decreases v@.len() - i,
            {
                out.push(v[i]);
                i = i + 1;
            }
            assert(out@ =~= v@);
            Some(out)
        },
        Payload::ByteArray(v) => {
            let mut out: Vec<Value> = Vec::new();
            let mut i: usize = 0;
            while i < v.len()
                invariant
                    i <= v@.len(),
                    out@ =~= v@.take(i as int).map_values(|b: u8| Value::Int(b as i32)),
                decreases v@.len() - i,
            {
                out.push(Value::Int(v[i] as i32));
                i = i + 1;
            }
            assert(v@.take(i as int) =~= v@);
            Some(out)
        },
        Payload::IntArray(v) => {
            let mut out: Vec<Value> = Vec::new();
            let mut i: usize = 0;
            while i < v.len()
                invariant
                    i <= v@.len(),
                    out@ =~= v@.take(i as int).map_values(|x: i32| Value::Int(x)),
                decreases v@.len() - i,
            {
                out.push(Value::Int(v[i]));
                i = i + 1;
            }
            assert(v@.take(i as int) =~= v@);
            Some(out)
        },
        Payload::LongArray(v) => {
            let mut out: Vec<Value> = Vec::new();
            let mut i: usize = 0;
            while i < v.len()
                invariant
                    i <= v@.len(),
                    out@ =~= v@.take(i as int).map_values(|x: i64| Value::Long(x)),
                decreases v@.len() - i,
            {
                out.push(Value::Long(v[i]));
                i = i + 1;
            }
            assert(v@.take(i as int) =~= v@);
            Some(out)
        },
        _ => None,
    }
}

fn count_for(src_len: usize, src_pos: usize, len: usize) -> (c: usize)
    requires
        src_pos <= i32::MAX,
        len <= i32::MAX,
    ensures
        c == copy_count(src_len as int, src_pos as int, len as int),
        src_pos + c <= src_len || c == 0,
{
    let end = if src_pos + len < src_len {
        src_pos + len
    } else {
        src_len
    };
    if end > src_pos {
        end - src_pos
    } else {
        0
    }
}

fn written_for(dst_len: usize, dst_pos: usize, count: usize) -> (w: usize)
    requires
        dst_pos <= i32::MAX,
        count <= i32::MAX,
    ensures
        w == write_count(dst_len as int, dst_pos as int, count as int),
        w <= count,
        w > 0 ==> dst_pos + w <= dst_len,
{
    if dst_pos < dst_len && count > 0 {
        if dst_pos + count < dst_len {
            count
        } else {
            dst_len - dst_pos
        }
    } else {
        0
    }
}

fn int_of(v: Value) -> (x: i32)
    requires
        v is Int,
    ensures
        x == v->Int_0,
{
    match v {
        Value::Int(x) => x,
        _ => 0,
    }
}

fn long_of(v: Value) -> (x: i64)
    requires
        v is Long,
    ensures
        x == v->Long_0,
{
    match v {
        Value::Long(x) => x,
        _ => 0,
    }
}

fn in_window(j: usize, dst_pos: usize, wc: usize) -> (r: bool)
    ensures
        r == (dst_pos <= j < dst_pos + wc),
{
    dst_pos <= j && j - dst_pos < wc
}

fn overwrite_values(v: &Vec<Value>, dst_pos: usize, wc: usize, vals: &Vec<Value>, src_pos: usize) -> (r: Vec<Value>)
    requires
        wc > 0 ==> dst_pos + wc <= v@.len() && src_pos + wc <= vals.len(),
    ensures
        r@ == overwritten(v@, dst_pos as int, wc as int, vals@, src_pos as int, |x: Value| x),
{
    let mut out: Vec<Value> = Vec::new();
    let mut j: usize = 0;
    while j < v.len()
        invariant
            j <= v@.len(),
            wc > 0 ==> dst_pos + wc <= v@.len() && src_pos + wc <= vals.len(),
            out@ =~= overwritten(v@, dst_pos as int, wc as int, vals@, src_pos as int, |x: Value| x).take(j as int),
        decreases v@.len() - j,
    {
        let x = if in_window(j, dst_pos, wc) {
            vals[src_pos + (j - dst_pos)]
        } else {
            v[j]
        };
        out.push(x);
        j = j + 1;
    }
    out
}

fn overwrite_bytes(v: &Vec<u8>, dst_pos: usize, wc: usize, vals: &Vec<Value>, src_pos: usize) -> (r: Vec<u8>)
    requires
        wc > 0 ==> dst_pos + wc <= v@.len() && src_pos + wc <= vals.len(),
        forall|k: int| 0 <= k < wc ==> #[trigger] vals@[src_pos + k] is Int,
    ensures
        r@ == overwritten(v@, dst_pos as int, wc as int, vals@, src_pos as int, |x: Value| (x->Int_0) as u8),
{
    let mut out: Vec<u8> = Vec::new();
    let mut j: usize = 0;
    while j < v.len()
        invariant
            j <= v@.len(),
            wc > 0 ==> dst_pos + wc <= v@.len() && src_pos + wc <= vals.len(),
            forall|k: int| 0 <= k < wc ==> #[trigger] vals@[src_pos + k] is Int,
            out@ =~= overwritten(v@, dst_pos as int, wc as int, vals@, src_pos as int, |x: Value| (x->Int_0) as u8).take(
                j as int,
            ),
        decreases v@.len() - j,
    {
        let x = if in_window(j, dst_pos, wc) {
            let k = j - dst_pos;
            assert(vals@[src_pos + k as int] is Int);
            int_of(vals[src_pos + k]) as u8
        } else {
            v[j]
        };
        out.push(x);
        j = j + 1;
    }
    out
}

fn overwrite_ints(v: &Vec<i32>, dst_pos: usize, wc: usize, vals: &Vec<Value>, src_pos: usize) -> (r: Vec<i32>)
    requires
        wc > 0 ==> dst_pos + wc <= v@.len() && src_pos + wc <= vals.len(),
        forall|k: int| 0 <= k < wc ==> #[trigger] vals@[src_pos + k] is Int,
    ensures
        r@ == overwritten(v@, dst_pos as int, wc as int, vals@, src_pos as int, |x: Value| x->Int_0),
{
    let mut out: Vec<i32> = Vec::new();
    let mut j: usize = 0;
    while j < v.len()
        invariant
            j <= v@.len(),
            wc > 0 ==> dst_pos + wc <= v@.len() && src_pos + wc <= vals.len(),
            forall|k: int| 0 <= k < wc ==> #[trigger] vals@[src_pos + k] is Int,
            out@ =~= overwritten(v@, dst_pos as int, wc as int, vals@, src_pos as int, |x: Value| x->Int_0).take(j as int),
        decreases v@.len() - j,
    {
        let x = if in_window(j, dst_pos, wc) {
            let k = j - dst_pos;
            assert(vals@[src_pos + k as int] is Int);
            int_of(vals[src_pos + k])
        } else {
            v[j]
        };
        out.push(x);
        j = j + 1;
    }
    out
}

fn overwrite_longs(v: &Vec<i64>, dst_pos: usize, wc: usize, vals: &Vec<Value>, src_pos: usize) -> (r: Vec<i64>)
    requires
        wc > 0 ==> dst_pos + wc <= v@.len() && src_pos + wc <= vals.len(),
        forall|k: int| 0 <= k < wc ==> #[trigger] vals@[src_pos + k] is Long,
    ensures
        r@ == overwritten(v@, dst_pos as int, wc as int, vals@, src_pos as int, |x: Value| x->Long_0),
{
    let mut out: Vec<i64> = Vec::new();
    let mut j: usize = 0;
    while j < v.len()
        invariant
            j <= v@.len(),
            wc > 0 ==> dst_pos + wc <= v@.len() && src_pos + wc <= vals.len(),
            forall|k: int| 0 <= k < wc ==> #[trigger] vals@[src_pos + k] is Long,
            out@ =~= overwritten(v@, dst_pos as int, wc as int, vals@, src_pos as int, |x: Value| x->Long_0).take(
                j as int,
            ),
        decreases v@.len() - j,
    {
        let x = if in_window(j, dst_pos, wc) {
            let k = j - dst_pos;
            assert(vals@[src_pos + k as int] is Long);
            long_of(vals[src_pos + k])
        } else {
            v[j]
        };
        out.push(x);
        j = j + 1;
    }
    out
}

fn copied_payload(p: &Payload, dst_pos: usize, vals: &Vec<Value>, src_pos: usize, count: usize) -> (r: Option<Payload>)
    requires
        dst_pos <= i32::MAX,
        count <= i32::MAX,
        count > 0 ==> src_pos + count <= vals@.len(),
        copy_types_ok(p@, dst_pos as int, vals@, src_pos as int, count as int),
    ensures
        match r {
            Some(q) => q@ == copied(p@, dst_pos as int, vals@, src_pos as int, count as int),
            None => copied(p@, dst_pos as int, vals@, src_pos as int, count as int) == p@,
        },
{
    match p {
        Payload::Array(v) => {
            let wc = written_for(v.len(), dst_pos, count);
            Some(Payload::Array(overwrite_values(v, dst_pos, wc, vals, src_pos)))
        },
        Payload::ByteArray(v) => {
            let wc = written_for(v.len(), dst_pos, count);
            Some(Payload::ByteArray(overwrite_bytes(v, dst_pos, wc, vals, src_pos)))
        },
        Payload::IntArray(v) => {
            let wc = written_for(v.len(), dst_pos, count);
            Some(Payload::IntArray(overwrite_ints(v, dst_pos, wc, vals, src_pos)))
        },
        Payload::LongArray(v) => {
            let wc = written_for(v.len(), dst_pos, count);
            Some(Payload::LongArray(overwrite_longs(v, dst_pos, wc, vals, src_pos)))
        },
        _ => None,
    }
}

/// `System.arraycopy(src, srcPos, dst, dstPos, len)` on the heap, as
/// `arraycopy_result` says: `Some(Void)` with the destination written, or
/// `None` (the heap untouched) where an array is `null` or missing.
pub fn system_arraycopy(heap: &mut Heap, args: &Vec<Value>) -> (r: Option<Value>)
    requires
        arraycopy_ok(old(heap)@, args@),
    ensures
        match arraycopy_result(old(heap)@, args@) {
            Some(h2) => r == Some(Value::Void) && final(heap)@ == h2,
            None => r is None && final(heap)@ == old(heap)@,
        },
{
    let ghost h = heap@;
    let n = heap.objects.len();
    let s = match target_arg(args, 0, n) {
        Some(s) => s,
        None => {
            return None;
        },
    };
    let src_pos = position_arg(args, 1);
    let d = match target_arg(args, 2, n) {
        Some(d) => d,
        None => {
            return None;
        },
    };
    let dst_pos = position_arg(args, 3);
    let len = position_arg(args, 4);
    assert(heap.objects@[s as int]@ == h[s as int]);
    assert(heap.objects@[d as int]@ == h[d as int]);
    let vals = match elements_of(&heap.objects[s].payload) {
        Some(v) => v,
        None => {
            return Some(Value::Void);
        },
    };
    let count = count_for(vals.len(), src_pos, len);
    if let Some(q) = copied_payload(&heap.objects[d].payload, dst_pos, &vals, src_pos, count) {
        let ghost before = heap.objects@;
        heap.objects[d].payload = q;
        assert(heap.objects@ == before.update(d as int, heap.objects@[d as int]));
        assert(object_views(heap.objects@) =~= object_views(before).update(d as int, heap.objects@[d as int]@));
    } else {
        assert(h.update(d as int, ObjectV { payload: h[d as int].payload, ..h[d as int] }) =~= h);
    }
    Some(Value::Void)
}

/// `java.lang.reflect.Array.getLength(array)`: the number of elements, 0
/// for `null`, a missing argument or an object that is no array.
pub fn array_get_length(heap: &Heap, args: &Vec<Value>) -> (r: i32)
    requires
        arg_ref_ok(args@, 0, heap@),
    ensures
        r == match arg_target(args@, 0) {
            Some(k) => array_len(heap@[k as int].payload) as i32,
            None => 0i32,
        },
{
    match target_arg(args, 0, heap.objects.len()) {
        Some(k) => {
            assert(heap.objects@[k as int]@ == heap@[k as int]);
            let n: usize = match &heap.objects[k].payload {
                Payload::Array(v) => v.len(),
                Payload::ByteArray(v) => v.len(),
                Payload::IntArray(v) => v.len(),
                Payload::LongArray(v) => v.len(),
                _ => 0,
            };
            n as i32
        },
        None => 0,
    }
}

/// The array class `Array.newInstance` makes for elements of the class
/// `component`: a primitive's array class, one more dimension of an array
/// class, or an array of the named class.
pub open spec fn component_array_class(component: Seq<char>) -> Seq<char> {
    if component == "boolean"@ {
        "[Z"@
    } else if component == "byte"@ {
        "[B"@
    } else if component == "char"@ {
        "[C"@
    } else if component == "short"@ {
        "[S"@
    } else if component == "int"@ {
        "[I"@
    } else if component == "long"@ {
        "[J"@
    } else if component == "float"@ {
        "[F"@
    } else if component == "double"@ {
        "[D"@
    } else if component.len() > 0 && component[0] == '[' {
        seq!['['] + component
    } else {
        "[L"@ + component + ";"@
    }
}

/// The value each element of a new array of `component` starts with.
pub open spec fn component_default(component: Seq<char>) -> Value {
    if component == "long"@ {
        Value::Long(0)
    } else if component == "float"@ {
        Value::Float(0)
    } else if component == "double"@ {
        Value::Double(0)
    } else if component == "boolean"@ || component == "byte"@ || component == "char"@ || component == "short"@
        || component == "int"@ {
        Value::Int(0)
    } else {
        Value::Ref(None)
    }
}

/// The array `Array.newInstance(component, len)` makes: a negative length
/// counts as 0.
pub open spec fn new_instance_object(component: Seq<char>, len: i32) -> ObjectV {
    let n: nat = if len < 0 {
        0
    } else {
        len as nat
    };
    ObjectV {
        class_name: component_array_class(component),
        payload: PayloadV::Array(Seq::new(n, |i: int| component_default(component))),
        fields: Seq::empty(),
    }
}

fn component_class_text(component: &str) -> (r: String)
    ensures
        r@ == component_array_class(component@),
{
    if crate::text::str_eq(component, "boolean") {
        owned_text("[Z")
    } else if crate::text::str_eq(component, "byte") {
        owned_text("[B")
    } else if crate::text::str_eq(component, "char") {
        owned_text("[C")
    } else if crate::text::str_eq(component, "short") {
        owned_text("[S")
    } else if crate::text::str_eq(component, "int") {
        owned_text("[I")
    } else if crate::text::str_eq(component, "long") {
        owned_text("[J")
    } else if crate::text::str_eq(component, "float") {
        owned_text("[F")
    } else if crate::text::str_eq(component, "double") {
        owned_text("[D")
    } else {
        let cs = chars_of(component);
        if cs.len() > 0 && cs[0] == '[' {
            let mut r = owned_text("[");
            r.append(component);
            proof {
                reveal_strlit("[");
            }
            r
        } else {
            let mut r = owned_text("[L");
            r.append(component);
            r.append(";");
            r
        }
    }
}

fn component_default_value(component: &str) -> (v: Value)
    ensures
        v == component_default(component@),
{
    if crate::text::str_eq(component, "long") {
        Value::Long(0)
    } else if crate::text::str_eq(component, "float") {
        Value::Float(0)
    } else if crate::text::str_eq(component, "double") {
        Value::Double(0)
    } else if crate::text::str_eq(component, "boolean") || crate::text::str_eq(component, "byte")
        || crate::text::str_eq(component, "char") || crate::text::str_eq(component, "short")
        || crate::text::str_eq(component, "int") {
        Value::Int(0)
    } else {
        Value::Ref(None)
    }
}

/// `java.lang.reflect.Array.newInstance(component, len)`, the component
/// class given by its name (`java/lang/Object` when the class argument is
/// `null`): the new array's reference.
pub fn array_new_instance(heap: &mut Heap, component: &str, len: i32) -> (r: Value)
    requires
        old(heap)@.len() < u64::MAX,
    ensures
        r == Value::Ref(Some(old(heap)@.len() as u64)),
        final(heap)@ == old(heap)@.push(new_instance_object(component@, len)),
{
    let d = component_default_value(component);
    let n: usize = if len < 0 {
        0
    } else {
        len as usize
    };
    let mut vals: Vec<Value> = Vec::new();
    let mut i: usize = 0;
    while i < n
        invariant
            i <= n,
            vals@ =~= Seq::new(i as nat, |j: int| component_default(component@)),
            d == component_default(component@),
        decreases n - i,
    {
        vals.push(d);
        i = i + 1;
    }
    let name = component_class_text(component);
    let o = new_array_object(name.as_str(), vals);
    assert(o@ == new_instance_object(component@, len));
    heap.allocate(o)
}

/// The element `Array.get(array, idx)` reads, before it is boxed: a
/// negative index counts as 0, a byte is read unsigned, and an index past
/// the end, `null` or an object that is no array give `null`.
pub open spec fn array_element(h: Seq<ObjectV>, arr: Value, idx: i32) -> Value {
    let i: int = if idx < 0 {
        0
    } else {
        idx as int
    };
    match arr {
        Value::Ref(Some(k)) => if k < h.len() {
            match h[k as int].payload {
                PayloadV::Array(v) => if i < v.len() {
                    v[i]
                } else {
                    Value::Ref(None)
                },
                PayloadV::ByteArray(v) => if i < v.len() {
                    Value::Int(v[i] as i32)
                } else {
                    Value::Ref(None)
                },
                PayloadV::IntArray(v) => if i < v.len() {
                    Value::Int(v[i])
                } else {
                    Value::Ref(None)
                },
                PayloadV::LongArray(v) => if i < v.len() {
                    Value::Long(v[i])
                } else {
                    Value::Ref(None)
                },
                _ => Value::Ref(None),
            }
        } else {
            Value::Ref(None)
        },
        _ => Value::Ref(None),
    }
}

/// `java.lang.reflect.Array.get(array, idx)`: the element, as
/// `array_element` says.
pub fn array_get(heap: &Heap, arr: Value, idx: i32) -> (r: Value)
    ensures
        r == array_element(heap@, arr, idx),
{
    let i: usize = if idx < 0 {
        0
    } else {
        idx as usize
    };
    match arr {
        Value::Ref(Some(k)) => {
            if k >= heap.objects.len() as u64 {
                return Value::Ref(None);
            }
            assert(heap.objects@[k as int]@ == heap@[k as int]);
            match &heap.objects[k as usize].payload {
                Payload::Array(v) => if i < v.len() {
                    v[i]
                } else {
                    Value::Ref(None)
                },
                Payload::ByteArray(v) => if i < v.len() {
                    Value::Int(v[i] as i32)
                } else {
                    Value::Ref(None)
                },
                Payload::IntArray(v) => if i < v.len() {
                    Value::Int(v[i])
                } else {
                    Value::Ref(None)
                },
                Payload::LongArray(v) => if i < v.len() {
                    Value::Long(v[i])
                } else {
                    Value::Ref(None)
                },
                _ => Value::Ref(None),
            }
        },
        _ => Value::Ref(None),
    }
}

/// The array's elements after `Array.set(array, idx, value)`: a negative
/// index counts as 0; an element of a reference array is replaced by the
/// value, one of a `byte[]` by an `int` value's low byte, of an `int[]`
/// by an `int` value and of a `long[]` by a `long` value; nothing changes
/// for an index past the end or a value of another kind.
pub open spec fn payload_after_set(p: PayloadV, idx: i32, value: Value) -> PayloadV {
    let i: int = if idx < 0 {
        0
    } else {
        idx as int
    };
    match p {
        PayloadV::Array(v) => if i < v.len() {
            PayloadV::Array(v.update(i, value))
        } else {
            p
        },
        PayloadV::ByteArray(v) => match value {
            Value::Int(x) => if i < v.len() {
                PayloadV::ByteArray(v.update(i, x as u8))
            } else {
                p
            },
            _ => p,
        },
        PayloadV::IntArray(v) => match value {
            Value::Int(x) => if i < v.len() {
                PayloadV::IntArray(v.update(i, x))
            } else {
                p
            },
            _ => p,
        },
        PayloadV::LongArray(v) => match value {
            Value::Long(x) => if i < v.len() {
                PayloadV::LongArray(v.update(i, x))
            } else {
                p
            },
            _ => p,
        },
        _ => p,
    }
}

/// `java.lang.reflect.Array.set(array, idx, value)` on the heap: the
/// array `arr` refers to gets its elements as `payload_after_set` says;
/// nothing changes for `null` or a reference past the heap.
pub fn array_set(heap: &mut Heap, arr: Value, idx: i32, value: Value)
    ensures
        final(heap)@ == match arr {
            Value::Ref(Some(k)) => if k < old(heap)@.len() {
                old(heap)@.update(
                    k as int,
                    ObjectV { payload: payload_after_set(old(heap)@[k as int].payload, idx, value), ..old(heap)@[k as int] },
                )
            } else {
                old(heap)@
            },
            _ => old(heap)@,
        },
{
    let ghost h = heap@;
    let k = match arr {
        Value::Ref(Some(k)) => k,
        _ => {
            return;
        },
    };
    if k >= heap.objects.len() as u64 {
        return;
    }
    let k = k as usize;
    assert(heap.objects@[k as int]@ == h[k as int]);
    let i: usize = if idx < 0 {
        0
    } else {
        idx as usize
    };
    let ghost before = heap.objects@;
    match &mut heap.objects[k].payload {
        Payload::Array(v) => {
            if i < v.len() {
                v.set(i, value);
            }
        },
        Payload::ByteArray(v) => {
            if let Value::Int(x) = value {
                if i < v.len() {
                    v.set(i, x as u8);
                }
            }
        },
        Payload::IntArray(v) => {
            if let Value::Int(x) = value {
                if i < v.len() {
                    v.set(i, x);
                }
            }
        },
        Payload::LongArray(v) => {
            if let Value::Long(x) = value {
                if i < v.len() {
                    v.set(i, x);
                }
            }
        },
        _ => {},
    }
    assert(heap.objects@ == before.update(k as int, heap.objects@[k as int]));
    assert(object_views(heap.objects@) =~= object_views(before).update(k as int, heap.objects@[k as int]@));
}

/// What `Array.set` writes into an element of a reference array is what
/// `Array.get` of that element reads back.
pub proof fn law_array_set_then_get(h: Seq<ObjectV>, k: u64, idx: i32, v: Value)
    requires
        k < h.len(),
        h[k as int].payload matches PayloadV::Array(els) && 0 <= idx < els.len(),
    ensures
        array_element(
            h.update(k as int, ObjectV { payload: payload_after_set(h[k as int].payload, idx, v), ..h[k as int] }),
            Value::Ref(Some(k)),
            idx,
        ) == v,
{
}

/// The text of a `java/lang/String` object; empty for any other object.
pub open spec fn string_text(o: ObjectV) -> Seq<char> {
    match o.payload {
        PayloadV::JavaString(t) => t,
        _ => Seq::empty(),
    }
}

/// The `char[]` `toCharArray` makes: one `int` per character.
pub open spec fn char_array_of(t: Seq<char>) -> ObjectV {
    ObjectV {
        class_name: "[C"@,
        payload: PayloadV::Array(t.map_values(|c: char| Value::Int((c as u32) as i32))),
        fields: Seq::empty(),
    }
}

/// The `byte[]` `getBytes` makes: one `int` per byte of the UTF-8
/// encoding, read unsigned.
pub open spec fn byte_array_of(t: Seq<char>) -> ObjectV {
    ObjectV {
        class_name: "[B"@,
        payload: PayloadV::Array(encode_utf8(t).map_values(|b: u8| Value::Int(b as i32))),
        fields: Seq::empty(),
    }
}

fn owned_text(s: &str) -> (r: String)
    ensures
        r@ == s@,
{
    let mut r = String::new();
    r.append(s);
    r
}

fn new_array_object(class_name: &str, values: Vec<Value>) -> (o: HeapObject)
    ensures
        o@ == (ObjectV { class_name: class_name@, payload: PayloadV::Array(values@), fields: Seq::empty() }),
{
    let o = HeapObject { class_name: owned_text(class_name), payload: Payload::Array(values), fields: Vec::new() };
    assert(o@.fields =~= Seq::empty());
    o
}

/// `String.toCharArray()` on the string object `this`.
pub fn string_to_char_array(heap: &mut Heap, this: u64) -> (r: Value)
    requires
        this < old(heap)@.len(),
        old(heap)@.len() < u64::MAX,
    ensures
        r == Value::Ref(Some(old(heap)@.len() as u64)),
        final(heap)@ == old(heap)@.push(char_array_of(string_text(old(heap)@[this as int]))),
{
    let ghost h = heap@;
    let n = heap.objects.len();
    assert(this < n);
    let k = this as usize;
    assert(k as int == this as int);
    assert(heap.objects@[k as int]@ == h[k as int]);
    let chars: Vec<char> = match &heap.objects[k].payload {
        Payload::JavaString(t) => chars_of(t.as_str()),
        _ => Vec::new(),
    };
    let ghost t = string_text(h[k as int]);
    assert(chars@ == t);
    let mut values: Vec<Value> = Vec::new();
    let mut i: usize = 0;
    while i < chars.len()
        invariant
            i <= chars@.len(),
            values@ =~= chars@.take(i as int).map_values(|c: char| Value::Int((c as u32) as i32)),
        decreases chars@.len() - i,
    {
        values.push(Value::Int(chars[i] as u32 as i32));
        i = i + 1;
    }
    assert(chars@.take(i as int) =~= chars@);
    let obj = new_array_object("[C", values);
    proof {
        reveal_strlit("[C");
    }
    heap.allocate(obj)
}

/// `String.getBytes()` on the string object `this`.
pub fn string_get_bytes(heap: &mut Heap, this: u64) -> (r: Value)
    requires
        this < old(heap)@.len(),
        old(heap)@.len() < u64::MAX,
    ensures
        r == Value::Ref(Some(old(heap)@.len() as u64)),
        final(heap)@ == old(heap)@.push(byte_array_of(string_text(old(heap)@[this as int]))),
{
    let ghost h = heap@;
    let n = heap.objects.len();
    assert(this < n);
    let k = this as usize;
    assert(k as int == this as int);
    assert(heap.objects@[k as int]@ == h[k as int]);
    let text: String = match &heap.objects[k].payload {
        Payload::JavaString(t) => owned_text(t.as_str()),
        _ => String::new(),
    };
    assert(text@ == string_text(h[k as int]));
    let bytes = text.as_str().as_bytes();
    assert(bytes@ == encode_utf8(text@));
    let mut values: Vec<Value> = Vec::new();
    let mut i: usize = 0;
    while i < bytes.len()
        invariant
            i <= bytes@.len(),
            values@ =~= bytes@.take(i as int).map_values(|b: u8| Value::Int(b as i32)),
        decreases bytes@.len() - i,
    {
        values.push(Value::Int(bytes[i] as i32));
        i = i + 1;
    }
    assert(bytes@.take(i as int) =~= bytes@);
    let obj = new_array_object("[B", values);
    proof {
        reveal_strlit("[B");
    }
    heap.allocate(obj)
}

} // verus!
