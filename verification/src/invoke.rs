//! Decisions of `invokevirtual` on objects the runtime made itself: the
//! `toString` and `hashCode` of a record computed from its components, and
//! the call a lambda object forwards to its implementation method.

use vstd::prelude::*;
use crate::bytecode::Value;
use crate::descriptors::{arg_kinds, count_args};
use crate::text::str_eq;

verus! {

// ---------------------------------------------------------------------------
// Records
// ---------------------------------------------------------------------------

/// A record's `hashCode` from the hash codes of its components:
/// `h * 31 + c` over them, wrapping, from 0.
pub open spec fn record_hash(cs: Seq<i32>) -> i32
    decreases cs.len(),
{
    if cs.len() == 0 {
        0
    } else {
        (record_hash(cs.drop_last()) * 31 + cs.last()) as i32
    }
}

/// The record `hashCode` of the component hash codes.
pub fn record_hash_code(component_hashes: &Vec<i32>) -> (h: i32)
    ensures
        h == record_hash(component_hashes@),
{
    let mut h: i32 = 0;
    let mut i: usize = 0;
    while i < component_hashes.len()
        invariant
            i <= component_hashes@.len(),
            h == record_hash(component_hashes@.take(i as int)),
        decreases component_hashes@.len() - i,
    {
        assert(component_hashes@.take(i + 1).drop_last() =~= component_hashes@.take(i as int));
        h = (h as i64 * 31 + component_hashes[i] as i64) as i32;
        i = i + 1;
    }
    assert(component_hashes@.take(i as int) =~= component_hashes@);
    h
}

/// The first `k` components as `name=value`, joined by `", "`.
pub open spec fn record_components_text(names: Seq<String>, values: Seq<String>, k: int) -> Seq<char>
    decreases k,
{
    if k <= 0 {
        Seq::empty()
    } else if k == 1 {
        names[0]@ + "="@ + values[0]@
    } else {
        record_components_text(names, values, k - 1) + ", "@ + names[k - 1]@ + "="@ + values[k - 1]@
    }
}

/// A record's `toString`: `Name[a=1, b=x]`, over as many components as
/// there are both names and value texts.
pub open spec fn record_text(simple_name: Seq<char>, names: Seq<String>, values: Seq<String>) -> Seq<char> {
    let k = if names.len() < values.len() { names.len() } else { values.len() };
    simple_name + "["@ + record_components_text(names, values, k as int) + "]"@
}

/// The record `toString` from its simple name, its component names and the
/// text of each component's value.
pub fn record_to_string(simple_name: &str, component_names: &Vec<String>, value_texts: &Vec<String>) -> (r: String)
    ensures
        r@ == record_text(simple_name@, component_names@, value_texts@),
{
    let k = if component_names.len() < value_texts.len() { component_names.len() } else { value_texts.len() };
    let mut parts = String::new();
    let mut i: usize = 0;
    while i < k
        invariant
            k <= component_names@.len(),
            k <= value_texts@.len(),
            i <= k,
            parts@ == record_components_text(component_names@, value_texts@, i as int),
        decreases k - i,
    {
        if i > 0 {
            parts.append(", ");
        }
        parts.append(component_names[i].as_str());
        parts.append("=");
        parts.append(value_texts[i].as_str());
        i = i + 1;
    }
    let mut r = String::new();
    r.append(simple_name);
    r.append("[");
    r.append(parts.as_str());
    r.append("]");
    r
}

// ---------------------------------------------------------------------------
// Lambdas
// ---------------------------------------------------------------------------

/// How a lambda object calls its implementation method, by the reference
/// kind of its method handle.
#[derive(Clone, Copy, Debug, PartialEq, Eq, Structural)]
pub enum LambdaCall {
    /// `invokeVirtual`, `invokeSpecial`, `invokeInterface`: the first
    /// argument is the receiver.
    Virtual,
    /// `newInvokeSpecial`: a constructor reference.
    Constructor,
    /// Any other kind: a static call.
    Static,
}

pub open spec fn lambda_call_of(ref_kind: u8) -> LambdaCall {
    if ref_kind == 5 || ref_kind == 7 || ref_kind == 9 {
        LambdaCall::Virtual
    } else if ref_kind == 8 {
        LambdaCall::Constructor
    } else {
        LambdaCall::Static
    }
}

/// Whether a virtual call of `method_name` with `descriptor` on a lambda
/// object is a call of its functional method: same name, same number of
/// arguments.
pub fn lambda_applies(method_name: &str, descriptor: &str, sam_method: &str, sam_desc: &str) -> (r: bool)
    ensures
        r == (method_name@ == sam_method@ && arg_kinds(descriptor@).len() == arg_kinds(sam_desc@).len()),
{
    str_eq(method_name, sam_method) && count_args(descriptor) == count_args(sam_desc)
}

pub open spec fn missing_receiver_text() -> Seq<char> {
    "Lambda invoke_virtual: missing receiver argument"@
}

/// The call a lambda object makes: the captured values come before the
/// call's own arguments; for a virtual call the first of them is the
/// receiver, and there must be one.
pub open spec fn lambda_arguments_of(captured: Seq<Value>, args: Seq<Value>, ref_kind: u8) -> Result<
    (LambdaCall, Option<Value>, Seq<Value>),
    Seq<char>,
> {
    let full = captured + args;
    match lambda_call_of(ref_kind) {
        LambdaCall::Virtual => if full.len() == 0 {
            Err(missing_receiver_text())
        } else {
            Ok((LambdaCall::Virtual, Some(full[0]), full.drop_first()))
        },
        k => Ok((k, None, full)),
    }
}

/// The kind, receiver and arguments of the call a lambda object forwards,
/// as `lambda_arguments_of` says.
pub fn lambda_arguments(captured: &Vec<Value>, args: Vec<Value>, ref_kind: u8) -> (r: Result<
    (LambdaCall, Option<Value>, Vec<Value>),
    String,
>)
    ensures
        match r {
            Ok((k, recv, rest)) => lambda_arguments_of(captured@, args@, ref_kind) == Ok::<
                (LambdaCall, Option<Value>, Seq<Value>),
                Seq<char>,
            >((k, recv, rest@)),
            Err(e) => lambda_arguments_of(captured@, args@, ref_kind) == Err::<
                (LambdaCall, Option<Value>, Seq<Value>),
                Seq<char>,
            >(e@),
        },
{
    let mut full: Vec<Value> = Vec::new();
    let mut i: usize = 0;
    while i < captured.len()
        invariant
            i <= captured@.len(),
            full@ =~= captured@.take(i as int),
        decreases captured@.len() - i,
    {
        full.push(captured[i]);
        i = i + 1;
    }
    let mut j: usize = 0;
    while j < args.len()
        invariant
            j <= args@.len(),
            full@ =~= captured@ + args@.take(j as int),
        decreases args@.len() - j,
    {
        full.push(args[j]);
        j = j + 1;
    }
    assert(full@ =~= captured@ + args@);
    let kind = if ref_kind == 5 || ref_kind == 7 || ref_kind == 9 {
        LambdaCall::Virtual
    } else if ref_kind == 8 {
        LambdaCall::Constructor
    } else {
        LambdaCall::Static
    };
    if let LambdaCall::Virtual = kind {
        if full.len() == 0 {
            let mut e = String::new();
            e.append("Lambda invoke_virtual: missing receiver argument");
            return Err(e);
        }
        let recv = full.remove(0);
        return Ok((kind, Some(recv), full));
    }
    Ok((kind, None, full))
}

} // verus!
