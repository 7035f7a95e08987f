//! Small decisions made while resolving classes and members.

use vstd::prelude::*;
use crate::class_file::{ConstantPoolEntry, ConstantPool, cp_name_and_type, cp_class_name};
use crate::class_spec::{cp_utf8, CpEntry};
use crate::descriptors::cp_slice_view;
use crate::text::{chars_of, str_eq};

verus! {

pub const ACC_PUBLIC: u16 = 0x0001;
pub const ACC_PRIVATE: u16 = 0x0002;
pub const ACC_STATIC: u16 = 0x0008;

/// Whether a method with these flags is a public instance method.
pub fn is_public_instance_method(access_flags: u16) -> (r: bool)
    ensures
        r == (access_flags & ACC_PUBLIC != 0 && access_flags & ACC_STATIC == 0),
{
    access_flags & ACC_PUBLIC != 0 && access_flags & ACC_STATIC == 0
}

/// Whether an interface method with these flags is inherited (neither
/// private nor static).
pub fn is_inherited_interface_method_candidate(access_flags: u16) -> (r: bool)
    ensures
        r == (access_flags & (ACC_PRIVATE | ACC_STATIC) == 0),
{
    access_flags & (ACC_PRIVATE | ACC_STATIC) == 0
}

/// Whether a class mirror with this name is made by the VM itself: array
/// classes and the primitive types.
pub open spec fn vm_defined_mirror(name: Seq<char>) -> bool {
    (name.len() > 0 && name[0] == '[') || name == "boolean"@ || name == "byte"@ || name == "char"@
        || name == "short"@ || name == "int"@ || name == "long"@ || name == "float"@ || name
        == "double"@ || name == "void"@
}

/// Whether a class mirror with this name is made by the VM itself: array
/// classes and the primitive types.
pub fn is_vm_defined_mirror_name(internal_name: &str) -> (r: bool)
    ensures
        r == vm_defined_mirror(internal_name@),
{
    let cs = chars_of(internal_name);
    if cs.len() > 0 && cs[0] == '[' {
        return true;
    }
    str_eq(internal_name, "boolean") || str_eq(internal_name, "byte") || str_eq(internal_name, "char")
        || str_eq(internal_name, "short") || str_eq(internal_name, "int") || str_eq(internal_name, "long")
        || str_eq(internal_name, "float") || str_eq(internal_name, "double") || str_eq(internal_name, "void")
}

/// The descriptor of the array class whose components have the given class
/// name (or array descriptor).
pub open spec fn array_descriptor_text(component: Seq<char>) -> Seq<char> {
    if component.len() > 0 && component[0] == '[' {
        "["@ + component
    } else {
        "[L"@ + component + ";"@
    }
}

/// The descriptor of the array class whose components have the given class
/// name (or array descriptor).
pub fn array_descriptor_for_component(component: &str) -> (r: String)
    ensures
        r@ == array_descriptor_text(component@),
{
    let cs = chars_of(component);
    let mut r = String::new();
    if cs.len() > 0 && cs[0] == '[' {
        r.append("[");
        r.append(component);
    } else {
        r.append("[L");
        r.append(component);
        r.append(";");
    }
    r
}

/// The name and descriptor a `NameAndType` constant names, when it is one
/// and both are `Utf8` constants.
pub open spec fn member_name_and_descriptor_of(cp: Seq<CpEntry>, index: u16) -> Option<(Seq<char>, Seq<char>)> {
    if (index as int) < cp.len() {
        match cp[index as int] {
            CpEntry::NameAndType { name_index, descriptor_index } => match (
                cp_utf8(cp, name_index),
                cp_utf8(cp, descriptor_index),
            ) {
                (Some(n), Some(d)) => Some((n, d)),
                _ => None,
            },
            _ => None,
        }
    } else {
        None
    }
}

fn utf8_at(cp: &[ConstantPoolEntry], index: u16) -> (r: Option<String>)
    ensures
        match r {
            Some(s) => cp_utf8(cp_slice_view(cp), index) == Some(s@),
            None => cp_utf8(cp_slice_view(cp), index) is None,
        },
{
    if (index as usize) < cp.len() {
        match &cp[index as usize] {
            ConstantPoolEntry::Utf8(s) => Some(s.clone()),
            _ => None,
        }
    } else {
        None
    }
}

/// The name and descriptor a `NameAndType` constant names.
pub fn member_name_and_descriptor(cp: &[ConstantPoolEntry], name_and_type_index: u16) -> (r: Option<(String, String)>)
    ensures
        match r {
            Some((n, d)) => member_name_and_descriptor_of(cp_slice_view(cp), name_and_type_index) == Some(
                (n@, d@),
            ),
            None => member_name_and_descriptor_of(cp_slice_view(cp), name_and_type_index) is None,
        },
{
    if (name_and_type_index as usize) >= cp.len() {
        return None;
    }
    match &cp[name_and_type_index as usize] {
        ConstantPoolEntry::NameAndType { name_index, descriptor_index } => {
            let name = match utf8_at(cp, *name_index) {
                Some(n) => n,
                None => {
                    return None;
                },
            };
            let descriptor = match utf8_at(cp, *descriptor_index) {
                Some(d) => d,
                None => {
                    return None;
                },
            };
            Some((name, descriptor))
        },
        _ => None,
    }
}

/// The name and descriptor of the field that the `Fieldref` entry at
/// `index` names.
pub open spec fn fieldref_member_of(cp: Seq<CpEntry>, index: u16) -> Option<(Seq<char>, Seq<char>)> {
    if (index as int) < cp.len() {
        match cp[index as int] {
            CpEntry::Fieldref { name_and_type_index, .. } => cp_name_and_type(cp, name_and_type_index),
            _ => None,
        }
    } else {
        None
    }
}

/// The name and descriptor of the field a `getfield` or `putfield` operand
/// names, or `None` when the entry is no `Fieldref` of a `NameAndType`.
pub fn fieldref_member(pool: &ConstantPool, index: u16) -> (r: Option<(String, String)>)
    ensures
        match r {
            Some((n, d)) => fieldref_member_of(pool@, index) == Some((n@, d@)),
            None => fieldref_member_of(pool@, index) is None,
        },
{
    let nt = match pool.entry(index) {
        Some(ConstantPoolEntry::Fieldref { name_and_type_index, .. }) => *name_and_type_index,
        _ => {
            return None;
        },
    };
    match pool.entry(nt) {
        Some(ConstantPoolEntry::NameAndType { name_index, descriptor_index }) => {
            match (pool.utf8_entry(*name_index), pool.utf8_entry(*descriptor_index)) {
                (Some(n), Some(d)) => {
                    let mut name = String::new();
                    name.append(n);
                    let mut desc = String::new();
                    desc.append(d);
                    Some((name, desc))
                },
                _ => None,
            }
        },
        _ => None,
    }
}

/// The class that the `Fieldref` entry at `index` belongs to.
pub open spec fn fieldref_class_of(cp: Seq<CpEntry>, index: u16) -> Option<Seq<char>> {
    if (index as int) < cp.len() {
        match cp[index as int] {
            CpEntry::Fieldref { class_index, .. } => cp_class_name(cp, class_index),
            _ => None,
        }
    } else {
        None
    }
}

/// The class a `getstatic` or `putstatic` operand names, or `None` when
/// the entry is no `Fieldref` of a class.
pub fn fieldref_class(pool: &ConstantPool, index: u16) -> (r: Option<String>)
    ensures
        match r {
            Some(c) => fieldref_class_of(pool@, index) == Some(c@),
            None => fieldref_class_of(pool@, index) is None,
        },
{
    match pool.entry(index) {
        Some(ConstantPoolEntry::Fieldref { class_index, .. }) => match pool.class_name_entry(*class_index) {
            Some(c) => Some(owned_str(c)),
            None => None,
        },
        _ => None,
    }
}

/// The class, name and descriptor of the method that the `Methodref` or
/// `InterfaceMethodref` entry at `index` names.
pub open spec fn methodref_member_of(cp: Seq<CpEntry>, index: u16) -> Option<(Seq<char>, Seq<char>, Seq<char>)> {
    if (index as int) < cp.len() {
        match cp[index as int] {
            CpEntry::Methodref { class_index, name_and_type_index }
            | CpEntry::InterfaceMethodref { class_index, name_and_type_index } => match (
                cp_class_name(cp, class_index),
                cp_name_and_type(cp, name_and_type_index),
            ) {
                (Some(c), Some((n, d))) => Some((c, n, d)),
                _ => None,
            },
            _ => None,
        }
    } else {
        None
    }
}

fn owned_str(s: &str) -> (r: String)
    ensures
        r@ == s@,
{
    let mut r = String::new();
    r.append(s);
    r
}

/// The class, name and descriptor an `invoke*` operand names, or `None`
/// when the entry is no method reference of a class and a `NameAndType`.
pub fn methodref_member(pool: &ConstantPool, index: u16) -> (r: Option<(String, String, String)>)
    ensures
        match r {
            Some((c, n, d)) => methodref_member_of(pool@, index) == Some((c@, n@, d@)),
            None => methodref_member_of(pool@, index) is None,
        },
{
    let (ci, nt) = match pool.entry(index) {
        Some(ConstantPoolEntry::Methodref { class_index, name_and_type_index }) => (*class_index, *name_and_type_index),
        Some(ConstantPoolEntry::InterfaceMethodref { class_index, name_and_type_index }) => (
            *class_index,
            *name_and_type_index,
        ),
        _ => {
            return None;
        },
    };
    let c = match pool.class_name_entry(ci) {
        Some(c) => c,
        None => {
            return None;
        },
    };
    match pool.entry(nt) {
        Some(ConstantPoolEntry::NameAndType { name_index, descriptor_index }) => {
            match (pool.utf8_entry(*name_index), pool.utf8_entry(*descriptor_index)) {
                (Some(n), Some(d)) => Some((owned_str(c), owned_str(n), owned_str(d))),
                _ => None,
            }
        },
        _ => None,
    }
}

} // verus!
