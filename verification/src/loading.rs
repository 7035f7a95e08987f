//! The decisions around resolving a symbolic class reference (JVMS §5.3):
//! which loader initiates the lookup, what the lookup's outcome makes of
//! the registry, and how array classes get their defining loader. Asking a
//! user-defined class loader runs Java code and parsing a class reads its
//! bytes; the interpreter does both and hands the outcome here.

use vstd::prelude::*;
use crate::class_identity::{initiated, registered, ClassId, ClassIdentityRegistry, LoaderId, RegistryV};
use crate::exceptions::{contains, contains_chars, slice_chars, string_of};
use crate::resolution::{array_descriptor_for_component, array_descriptor_text};
use crate::text::chars_of;

verus! {

/// The loader that initiates lookups from the class `caller`: its defining
/// loader, or the system loader when the class has no record.
pub open spec fn initiating_loader_of(r: RegistryV, caller: ClassId) -> LoaderId {
    if r.records.contains_key(caller) {
        r.records[caller].defining_loader
    } else {
        LoaderId::SYSTEM
    }
}

/// The error for a class that cannot be found.
pub open spec fn no_class_def_text(name: Seq<char>) -> Seq<char> {
    "java/lang/NoClassDefFoundError: "@ + name
}

/// The error for a class whose bytes do not parse.
pub open spec fn class_format_text(name: Seq<char>) -> Seq<char> {
    "java/lang/ClassFormatError: malformed class file for "@ + name
}

/// The class a local lookup finds: the one the initiating loader defined
/// under the name, else the system loader's, else the bootstrap loader's.
pub open spec fn defined_for_lookup(r: RegistryV, l: LoaderId, name: Seq<char>) -> Option<ClassId> {
    if r.defined.contains_key((l, name)) {
        Some(r.defined[(l, name)])
    } else if r.defined.contains_key((LoaderId::SYSTEM, name)) {
        Some(r.defined[(LoaderId::SYSTEM, name)])
    } else if r.defined.contains_key((LoaderId::BOOTSTRAP, name)) {
        Some(r.defined[(LoaderId::BOOTSTRAP, name)])
    } else {
        None
    }
}

/// The loader that initiates lookups from the class `caller_class_id`.
pub fn initiating_loader_for(registry: &ClassIdentityRegistry, caller_class_id: ClassId) -> (l: LoaderId)
    requires
        registry.wf(),
    ensures
        l == initiating_loader_of(registry@, caller_class_id),
{
    match registry.class_record(caller_class_id) {
        Some(record) => record.defining_loader,
        None => LoaderId::SYSTEM,
    }
}

pub(crate) fn no_class_def(internal_name: &str) -> (e: String)
    ensures
        e@ == no_class_def_text(internal_name@),
{
    let mut e = String::new();
    e.append("java/lang/NoClassDefFoundError: ");
    e.append(internal_name);
    e
}

/// The end of a lookup that asked the initiating loader's
/// `loadClass`: `Ok(Some(id))` when it returned the class `id`, `Ok(None)`
/// when it returned something else, `Err` with the exception text when it
/// threw. A class that was found is recorded as initiated by the loader; a
/// `ClassNotFoundException` becomes a `NoClassDefFoundError`; any other
/// exception passes through.
pub fn finish_loader_lookup(
    registry: &mut ClassIdentityRegistry,
    initiating_loader: LoaderId,
    internal_name: &str,
    outcome: Result<Option<ClassId>, String>,
) -> (r: Result<ClassId, String>)
    requires
        old(registry).wf(),
    ensures
        final(registry).wf(),
        match outcome {
            Ok(Some(id)) => r == Ok::<ClassId, String>(id) && final(registry)@ == initiated(
                old(registry)@,
                initiating_loader,
                internal_name@,
                id,
            ),
            Ok(None) => (r matches Err(e) && e@ == no_class_def_text(internal_name@)) && final(registry)@
                == old(registry)@,
            Err(x) => final(registry)@ == old(registry)@ && if contains(
                x@,
                "java/lang/ClassNotFoundException"@,
            ) {
                r matches Err(e) && e@ == no_class_def_text(internal_name@)
            } else {
                r matches Err(e) && e@ == x@
            },
        },
{
    match outcome {
        Ok(Some(class_id)) => {
            registry.record_initiating_loader(initiating_loader, internal_name, class_id);
            Ok(class_id)
        },
        Ok(None) => Err(no_class_def(internal_name)),
        Err(err) => {
            let not_found = chars_of("java/lang/ClassNotFoundException");
            proof {
                reveal_strlit("java/lang/ClassNotFoundException");
            }
            if contains_chars(&chars_of(&err), &not_found) {
                Err(no_class_def(internal_name))
            } else {
                Err(err)
            }
        },
    }
}

/// The end of a lookup that the VM made itself, after loading the class
/// from its own class path (`parse_failed` when its bytes did not parse):
/// the class defined under the name by the initiating loader, else the
/// system loader, else the bootstrap loader, recorded as initiated by the
/// initiating loader.
pub fn finish_local_lookup(
    registry: &mut ClassIdentityRegistry,
    initiating_loader: LoaderId,
    internal_name: &str,
    parse_failed: bool,
) -> (r: Result<ClassId, String>)
    requires
        old(registry).wf(),
    ensures
        final(registry).wf(),
        parse_failed ==> (r matches Err(e) && e@ == class_format_text(internal_name@)) && final(registry)@
            == old(registry)@,
        !parse_failed ==> match defined_for_lookup(old(registry)@, initiating_loader, internal_name@) {
            Some(id) => r == Ok::<ClassId, String>(id) && final(registry)@ == initiated(
                old(registry)@,
                initiating_loader,
                internal_name@,
                id,
            ),
            None => (r matches Err(e) && e@ == no_class_def_text(internal_name@)) && final(registry)@
                == old(registry)@,
        },
{
    if parse_failed {
        let mut e = String::new();
        e.append("java/lang/ClassFormatError: malformed class file for ");
        e.append(internal_name);
        return Err(e);
    }
    let found = match registry.class_id_for_defined(initiating_loader, internal_name) {
        Some(id) => Some(id),
        None => match registry.class_id_for_defined(LoaderId::SYSTEM, internal_name) {
            Some(id) => Some(id),
            None => registry.class_id_for_defined(LoaderId::BOOTSTRAP, internal_name),
        },
    };
    match found {
        Some(class_id) => {
            registry.record_initiating_loader(initiating_loader, internal_name, class_id);
            Ok(class_id)
        },
        None => Err(no_class_def(internal_name)),
    }
}

/// A lookup that found a class is remembered: the next lookup of the same
/// name from the same initiating loader finds that class among the classes
/// the loader initiated, without asking again, and what each loader defined
/// is unchanged.
pub proof fn law_found_class_is_remembered(r: RegistryV, l: LoaderId, name: Seq<char>, id: ClassId)
    ensures
        initiated(r, l, name, id).initiating.contains_key((l, name)),
        initiated(r, l, name, id).initiating[(l, name)] == id,
        initiated(r, l, name, id).defined == r.defined,
        initiated(r, l, name, id).records == r.records,
{
}

// ---------------------------------------------------------------------------
// Array classes
// ---------------------------------------------------------------------------

/// What an array class descriptor's component is: a primitive type, a
/// class (by internal name), or another array class (by descriptor).
#[derive(Clone, Debug, PartialEq, Eq)]
pub enum ArrayComponent {
    Primitive,
    Class(String),
    Array(String),
}

/// An array component as a value.
pub enum ArrayComponentV {
    Primitive,
    Class(Seq<char>),
    Array(Seq<char>),
}

impl View for ArrayComponent {
    type V = ArrayComponentV;

    open spec fn view(&self) -> ArrayComponentV {
        match self {
            ArrayComponent::Primitive => ArrayComponentV::Primitive,
            ArrayComponent::Class(n) => ArrayComponentV::Class(n@),
            ArrayComponent::Array(d) => ArrayComponentV::Array(d@),
        }
    }
}

/// Whether a descriptor character names a primitive type.
pub open spec fn primitive_tag(c: char) -> bool {
    c == 'Z' || c == 'B' || c == 'C' || c == 'S' || c == 'I' || c == 'J' || c == 'F' || c == 'D'
}

/// The component of the array class descriptor `d` (which starts with
/// `[`); `None` when the descriptor names no valid component.
pub open spec fn array_component_of(d: Seq<char>) -> Option<ArrayComponentV> {
    if d.len() < 2 {
        None
    } else if primitive_tag(d[1]) {
        Some(ArrayComponentV::Primitive)
    } else if d[1] == 'L' {
        if d.len() >= 3 && d.last() == ';' {
            Some(ArrayComponentV::Class(d.subrange(2, d.len() - 1)))
        } else {
            None
        }
    } else if d[1] == '[' {
        Some(ArrayComponentV::Array(d.drop_first()))
    } else {
        None
    }
}

/// The component of an array class descriptor; `NoClassDefFoundError` when
/// it names none.
pub fn array_component(descriptor: &str) -> (r: Result<ArrayComponent, String>)
    ensures
        match array_component_of(descriptor@) {
            Some(c) => r matches Ok(x) && x@ == c,
            None => r matches Err(e) && e@ == no_class_def_text(descriptor@),
        },
{
    let d = chars_of(descriptor);
    if d.len() < 2 {
        return Err(no_class_def(descriptor));
    }
    let c = d[1];
    if c == 'Z' || c == 'B' || c == 'C' || c == 'S' || c == 'I' || c == 'J' || c == 'F' || c == 'D' {
        Ok(ArrayComponent::Primitive)
    } else if c == 'L' {
        if d.len() >= 3 && d[d.len() - 1] == ';' {
            Ok(ArrayComponent::Class(string_of(&slice_chars(&d, 2, d.len() - 1))))
        } else {
            Err(no_class_def(descriptor))
        }
    } else if c == '[' {
        let rest = slice_chars(&d, 1, d.len());
        assert(rest@ =~= d@.drop_first());
        Ok(ArrayComponent::Array(string_of(&rest)))
    } else {
        Err(no_class_def(descriptor))
    }
}

/// The defining loader of an array class: the bootstrap loader for arrays
/// of primitives; else that of the component class (when it has a record),
/// defaulting to the system loader for a class component and to the
/// bootstrap loader for an array component.
pub open spec fn array_loader_of(r: RegistryV, component: ArrayComponentV, component_class_id: Option<ClassId>) -> LoaderId {
    match component {
        ArrayComponentV::Primitive => LoaderId::BOOTSTRAP,
        ArrayComponentV::Class(_) => match component_class_id {
            Some(c) => if r.records.contains_key(c) {
                r.records[c].defining_loader
            } else {
                LoaderId::SYSTEM
            },
            None => LoaderId::SYSTEM,
        },
        ArrayComponentV::Array(_) => match component_class_id {
            Some(c) => if r.records.contains_key(c) {
                r.records[c].defining_loader
            } else {
                LoaderId::BOOTSTRAP
            },
            None => LoaderId::BOOTSTRAP,
        },
    }
}

/// The defining loader of the array class whose component is `component`,
/// resolved (for a class or array component) to `component_class_id`.
pub fn array_defining_loader(
    registry: &ClassIdentityRegistry,
    component: &ArrayComponent,
    component_class_id: Option<ClassId>,
) -> (l: LoaderId)
    requires
        registry.wf(),
    ensures
        l == array_loader_of(registry@, component@, component_class_id),
{
    match component {
        ArrayComponent::Primitive => LoaderId::BOOTSTRAP,
        ArrayComponent::Class(_) => match component_class_id {
            Some(c) => match registry.class_record(c) {
                Some(record) => record.defining_loader,
                None => LoaderId::SYSTEM,
            },
            None => LoaderId::SYSTEM,
        },
        ArrayComponent::Array(_) => match component_class_id {
            Some(c) => match registry.class_record(c) {
                Some(record) => record.defining_loader,
                None => LoaderId::BOOTSTRAP,
            },
            None => LoaderId::BOOTSTRAP,
        },
    }
}

/// The registry after an array class is defined by `l` under `d` and
/// recorded as initiated by `l` and by the caller's loader `c`.
pub open spec fn array_registered(r: RegistryV, l: LoaderId, c: LoaderId, d: Seq<char>) -> (RegistryV, ClassId) {
    let (r1, id) = registered(r, l, d);
    let r2 = initiated(r1, l, d, id);
    (if c != l {
        initiated(r2, c, d, id)
    } else {
        r2
    }, id)
}

/// The loader that initiates the lookup of an array class from `caller`:
/// its defining loader, or the bootstrap loader when it has no record.
pub open spec fn array_initiating_loader_of(r: RegistryV, caller: ClassId) -> LoaderId {
    if r.records.contains_key(caller) {
        r.records[caller].defining_loader
    } else {
        LoaderId::BOOTSTRAP
    }
}

/// Define the array class `descriptor` under its defining loader, and record
/// it as initiated by that loader and by the loader of the class that
/// asked.
pub fn finish_array_class(
    registry: &mut ClassIdentityRegistry,
    caller_class_id: ClassId,
    descriptor: &str,
    defining_loader: LoaderId,
) -> (id: ClassId)
    requires
        old(registry).wf(),
        old(registry)@.next_class_id < u64::MAX,
    ensures
        final(registry).wf(),
        (final(registry)@, id) == array_registered(
            old(registry)@,
            defining_loader,
            array_initiating_loader_of(old(registry)@, caller_class_id),
            descriptor@,
        ),
{
    let initiating_loader = match registry.class_record(caller_class_id) {
        Some(record) => record.defining_loader,
        None => LoaderId::BOOTSTRAP,
    };
    let class_id = registry.register_defined_class(defining_loader, descriptor);
    registry.record_initiating_loader(defining_loader, descriptor, class_id);
    if initiating_loader != defining_loader {
        registry.record_initiating_loader(initiating_loader, descriptor, class_id);
    }
    class_id
}

/// The array class whose component is the class `component_class_id`:
/// defined by the component's loader under the array descriptor, and
/// recorded as initiated by that loader and by the loader of the class
/// that asked; a component id with no record is a `NoClassDefFoundError`.
pub fn resolve_array_class_for_component(
    registry: &mut ClassIdentityRegistry,
    caller_class_id: ClassId,
    component_class_id: ClassId,
) -> (r: Result<ClassId, String>)
    requires
        old(registry).wf(),
        old(registry)@.next_class_id < u64::MAX,
    ensures
        final(registry).wf(),
        old(registry)@.records.contains_key(component_class_id) ==> ({
            let rec = old(registry)@.records[component_class_id];
            r matches Ok(id) && (final(registry)@, id) == array_registered(
                old(registry)@,
                rec.defining_loader,
                array_initiating_loader_of(old(registry)@, caller_class_id),
                array_descriptor_text(rec.internal_name),
            )
        }),
        !old(registry)@.records.contains_key(component_class_id) ==> (r matches Err(e) && e@
            == "java/lang/NoClassDefFoundError: invalid array component"@) && final(registry)@ == old(registry)@,
{
    let (name, defining_loader) = match registry.class_record(component_class_id) {
        Some(record) => (record.internal_name.clone(), record.defining_loader),
        None => {
            return Err("java/lang/NoClassDefFoundError: invalid array component".to_string());
        },
    };
    let descriptor = array_descriptor_for_component(&name);
    Ok(finish_array_class(registry, caller_class_id, &descriptor, defining_loader))
}

/// The array class of a primitive type: defined by the bootstrap loader
/// under `descriptor` and recorded as initiated by it.
pub fn primitive_array_class_id(registry: &mut ClassIdentityRegistry, descriptor: &str) -> (id: ClassId)
    requires
        old(registry).wf(),
        old(registry)@.next_class_id < u64::MAX,
    ensures
        final(registry).wf(),
        ({
            let (r1, c) = registered(old(registry)@, LoaderId::BOOTSTRAP, descriptor@);
            id == c && final(registry)@ == initiated(r1, LoaderId::BOOTSTRAP, descriptor@, c)
        }),
{
    let class_id = registry.register_defined_class(LoaderId::BOOTSTRAP, descriptor);
    registry.record_initiating_loader(LoaderId::BOOTSTRAP, descriptor, class_id);
    class_id
}

} // verus!
