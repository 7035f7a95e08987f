//! Decisions of method invocation that need no heap: whether a resolved
//! method may be called by `invokestatic`, which `Object` methods an
//! `invokevirtual` hands to the monitors, and whether a call pushes a
//! result.

use vstd::prelude::*;
use crate::hierarchy::{ResolvedMethodTarget, TargetV};
use crate::resolution::ACC_STATIC;
use crate::text::str_eq;

verus! {

/// The error for a call whose kind does not match the method it resolved
/// to: `owner.namedescriptor`.
pub open spec fn incompatible_change_text(t: TargetV) -> Seq<char> {
    "java/lang/IncompatibleClassChangeError: "@ + t.owner_class + "."@ + t.name + t.descriptor
}

/// `invokestatic` may call the method it resolved to only when that method
/// is static; otherwise it throws `IncompatibleClassChangeError`.
pub fn check_static_target(target: &ResolvedMethodTarget) -> (r: Result<(), String>)
    ensures
        target.access_flags & ACC_STATIC != 0 ==> r is Ok,
        target.access_flags & ACC_STATIC == 0 ==> (r matches Err(e) && e@ == incompatible_change_text(target@)),
{
    if target.access_flags & ACC_STATIC != 0 {
        return Ok(());
    }
    let mut e = String::new();
    e.append("java/lang/IncompatibleClassChangeError: ");
    e.append(target.owner_class.as_str());
    e.append(".");
    e.append(target.name.as_str());
    e.append(target.descriptor.as_str());
    Err(e)
}

/// An `Object` method that `invokevirtual` carries out on the monitors.
#[derive(Clone, Copy, Debug, PartialEq, Eq, Structural)]
pub enum MonitorCall {
    Wait,
    Notify,
    NotifyAll,
}

/// The monitor operation a virtual call of `name` with `desc` is: `wait()`
/// and `wait(long)` (whose timeout is ignored), `notify()`, `notifyAll()`.
pub open spec fn monitor_call_of(name: Seq<char>, desc: Seq<char>) -> Option<MonitorCall> {
    if name == "wait"@ && (desc == "()V"@ || desc == "(J)V"@) {
        Some(MonitorCall::Wait)
    } else if name == "notify"@ && desc == "()V"@ {
        Some(MonitorCall::Notify)
    } else if name == "notifyAll"@ && desc == "()V"@ {
        Some(MonitorCall::NotifyAll)
    } else {
        None
    }
}

/// The monitor operation a virtual call is, if any, as `monitor_call_of`
/// says.
pub fn monitor_call(name: &str, desc: &str) -> (r: Option<MonitorCall>)
    ensures
        r == monitor_call_of(name@, desc@),
{
    if str_eq(name, "wait") && (str_eq(desc, "()V") || str_eq(desc, "(J)V")) {
        Some(MonitorCall::Wait)
    } else if str_eq(name, "notify") && str_eq(desc, "()V") {
        Some(MonitorCall::Notify)
    } else if str_eq(name, "notifyAll") && str_eq(desc, "()V") {
        Some(MonitorCall::NotifyAll)
    } else {
        None
    }
}

/// Whether a call of a method with descriptor `desc` pushes a result: its
/// descriptor does not end in `)V`.
pub open spec fn pushes_result(desc: Seq<char>) -> bool {
    !(desc.len() >= 2 && desc[desc.len() - 2] == ')' && desc[desc.len() - 1] == 'V')
}

pub fn returns_value(desc: &str) -> (r: bool)
    ensures
        r == pushes_result(desc@),
{
    let cs = crate::text::chars_of(desc);
    let n = cs.len();
    !(n >= 2 && cs[n - 2] == ')' && cs[n - 1] == 'V')
}

} // verus!
