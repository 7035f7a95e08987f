//! Decoding an `invokedynamic` call site from the constant pool and the
//! class's bootstrap methods: the name and descriptor it is called with,
//! the class whose bootstrap method links it, and for a lambda the method
//! handle it implements and the descriptor of the interface method. The
//! machine makes the string a concatenation call site links to; making the
//! lambda object or the switch is left to its caller.

use vstd::prelude::*;
use crate::class_file::{BootstrapMethod, ConstantPool, ConstantPoolEntry};
use crate::class_spec::{BootstrapMethodV, CpEntry};

verus! {

/// A method handle constant naming a method: its kind, class, name and
/// descriptor.
#[derive(Debug, PartialEq)]
pub struct MethodHandleRef {
    pub kind: u8,
    pub class_name: String,
    pub name: String,
    pub descriptor: String,
}

pub struct MethodHandleRefV {
    pub kind: u8,
    pub class_name: Seq<char>,
    pub name: Seq<char>,
    pub descriptor: Seq<char>,
}

impl View for MethodHandleRef {
    type V = MethodHandleRefV;

    open spec fn view(&self) -> MethodHandleRefV {
        MethodHandleRefV {
            kind: self.kind,
            class_name: self.class_name@,
            name: self.name@,
            descriptor: self.descriptor@,
        }
    }
}

/// What an `invokedynamic` call site says.
#[derive(Debug, PartialEq)]
pub struct CallSite {
    pub name: String,
    pub descriptor: String,
    /// The index of its bootstrap method in the class's table.
    pub bootstrap_index: u16,
    /// The class of the bootstrap method (empty when the handle does not
    /// name a `Methodref` of a `Class`).
    pub bootstrap_class: String,
    /// The method handle of bootstrap argument 1, for a lambda's
    /// implementation.
    pub implementation: Option<MethodHandleRef>,
    /// The descriptor of the `MethodType` of bootstrap argument 0 (empty
    /// when there is none).
    pub interface_descriptor: String,
}

pub struct CallSiteV {
    pub name: Seq<char>,
    pub descriptor: Seq<char>,
    pub bootstrap_index: u16,
    pub bootstrap_class: Seq<char>,
    pub implementation: Option<MethodHandleRefV>,
    pub interface_descriptor: Seq<char>,
}

impl View for CallSite {
    type V = CallSiteV;

    open spec fn view(&self) -> CallSiteV {
        CallSiteV {
            name: self.name@,
            descriptor: self.descriptor@,
            bootstrap_index: self.bootstrap_index,
            bootstrap_class: self.bootstrap_class@,
            implementation: match self.implementation {
                Some(h) => Some(h@),
                None => None,
            },
            interface_descriptor: self.interface_descriptor@,
        }
    }
}

/// Why a call site cannot be decoded.
#[derive(Debug, PartialEq, Eq, Clone, Copy, Structural)]
pub enum IndyError {
    /// The entry at this index is not an `InvokeDynamic`.
    NotInvokeDynamic(u16),
    /// The entry at this index is not a `NameAndType`.
    NotNameAndType(u16),
    /// The bootstrap method index is past the table, which has this many.
    BadBootstrapIndex(u16, usize),
}

/// The text of entry `i` when it is a `Utf8`, else nothing.
pub open spec fn utf8_or_empty(cp: Seq<CpEntry>, i: u16) -> Seq<char> {
    match cp[i as int] {
        CpEntry::Utf8(s) => s,
        _ => Seq::empty(),
    }
}

/// The text of entry `i` when it is a `Utf8`; `None` past the end or for
/// another entry.
pub open spec fn utf8_at(cp: Seq<CpEntry>, i: u16) -> Option<Seq<char>> {
    if (i as int) < cp.len() {
        match cp[i as int] {
            CpEntry::Utf8(s) => Some(s),
            _ => None,
        }
    } else {
        None
    }
}

/// The class of the bootstrap method handle at `i`: the class of the
/// `Methodref` it refers to, else empty.
pub open spec fn bootstrap_class_of(cp: Seq<CpEntry>, i: u16) -> Seq<char> {
    match cp[i as int] {
        CpEntry::MethodHandle { reference_index, .. } => match cp[reference_index as int] {
            CpEntry::Methodref { class_index, .. } => match cp[class_index as int] {
                CpEntry::Class { name_index } => utf8_or_empty(cp, name_index),
                _ => Seq::empty(),
            },
            _ => Seq::empty(),
        },
        _ => Seq::empty(),
    }
}

/// Reading the bootstrap method handle at `i` stays inside the pool.
pub open spec fn bootstrap_class_readable(cp: Seq<CpEntry>, i: u16) -> bool {
    &&& (i as int) < cp.len()
    &&& cp[i as int] matches CpEntry::MethodHandle { reference_index, .. } ==> {
        &&& (reference_index as int) < cp.len()
        &&& cp[reference_index as int] matches CpEntry::Methodref { class_index, .. } ==> {
            &&& (class_index as int) < cp.len()
            &&& cp[class_index as int] matches CpEntry::Class { name_index } ==> (name_index as int) < cp.len()
        }
    }
}

/// The method handle at `i`, when it refers to a `Methodref` or an
/// `InterfaceMethodref` whose class and name and type read.
pub open spec fn method_handle_at(cp: Seq<CpEntry>, i: u16) -> Option<MethodHandleRefV> {
    if (i as int) < cp.len() {
        match cp[i as int] {
            CpEntry::MethodHandle { reference_kind, reference_index } => if (reference_index as int) < cp.len() {
                let (c, nt) = match cp[reference_index as int] {
                    CpEntry::Methodref { class_index, name_and_type_index } => (
                        Some(class_index),
                        name_and_type_index,
                    ),
                    CpEntry::InterfaceMethodref { class_index, name_and_type_index } => (
                        Some(class_index),
                        name_and_type_index,
                    ),
                    _ => (None, 0u16),
                };
                match c {
                    None => None,
                    Some(ci) => {
                        let cls = if (ci as int) < cp.len() {
                            match cp[ci as int] {
                                CpEntry::Class { name_index } => utf8_at(cp, name_index),
                                _ => None,
                            }
                        } else {
                            None
                        };
                        let nd = if (nt as int) < cp.len() {
                            match cp[nt as int] {
                                CpEntry::NameAndType { name_index, descriptor_index } => match (
                                    utf8_at(cp, name_index),
                                    utf8_at(cp, descriptor_index),
                                ) {
                                    (Some(n), Some(d)) => Some((n, d)),
                                    _ => None,
                                },
                                _ => None,
                            }
                        } else {
                            None
                        };
                        match (cls, nd) {
                            (Some(k), Some((n, d))) => Some(
                                MethodHandleRefV { kind: reference_kind, class_name: k, name: n, descriptor: d },
                            ),
                            _ => None,
                        }
                    },
                }
            } else {
                None
            },
            _ => None,
        }
    } else {
        None
    }
}

/// The descriptor of the `MethodType` at `i`, else empty.
pub open spec fn method_type_at(cp: Seq<CpEntry>, i: u16) -> Seq<char> {
    if (i as int) < cp.len() {
        match cp[i as int] {
            CpEntry::MethodType { descriptor_index } => match utf8_at(cp, descriptor_index) {
                Some(d) => d,
                None => Seq::empty(),
            },
            _ => Seq::empty(),
        }
    } else {
        Seq::empty()
    }
}

/// Decoding the call site at `idx` reads only entries inside the pool.
pub open spec fn indy_readable(cp: Seq<CpEntry>, bms: Seq<BootstrapMethodV>, idx: u16) -> bool {
    &&& (idx as int) < cp.len()
    &&& cp[idx as int] matches CpEntry::InvokeDynamic { bootstrap_method_attr_index: b, name_and_type_index: nt } ==> {
        &&& (nt as int) < cp.len()
        &&& cp[nt as int] matches CpEntry::NameAndType { name_index, descriptor_index } ==> {
            &&& (name_index as int) < cp.len()
            &&& (descriptor_index as int) < cp.len()
            &&& (b as int) < bms.len() ==> bootstrap_class_readable(cp, bms[b as int].bootstrap_method_ref)
        }
    }
}

/// The call site at `idx`, or why it cannot be decoded.
pub open spec fn indy_plan(cp: Seq<CpEntry>, bms: Seq<BootstrapMethodV>, idx: u16) -> Result<CallSiteV, IndyError> {
    match cp[idx as int] {
        CpEntry::InvokeDynamic { bootstrap_method_attr_index: b, name_and_type_index: nt } => match cp[nt as int] {
            CpEntry::NameAndType { name_index, descriptor_index } => if (b as int) < bms.len() {
                let bm = bms[b as int];
                Ok(
                    CallSiteV {
                        name: utf8_or_empty(cp, name_index),
                        descriptor: utf8_or_empty(cp, descriptor_index),
                        bootstrap_index: b,
                        bootstrap_class: bootstrap_class_of(cp, bm.bootstrap_method_ref),
                        implementation: if bm.bootstrap_arguments.len() > 1 {
                            method_handle_at(cp, bm.bootstrap_arguments[1])
                        } else {
                            None
                        },
                        interface_descriptor: if bm.bootstrap_arguments.len() > 0 {
                            method_type_at(cp, bm.bootstrap_arguments[0])
                        } else {
                            Seq::empty()
                        },
                    },
                )
            } else {
                Err(IndyError::BadBootstrapIndex(b, bms.len() as usize))
            },
            _ => Err(IndyError::NotNameAndType(nt)),
        },
        _ => Err(IndyError::NotInvokeDynamic(idx)),
    }
}

fn utf8_text_at(cp: &ConstantPool, i: u16) -> (r: Option<String>)
    ensures
        match r {
            Some(s) => utf8_at(cp@, i) == Some(s@),
            None => utf8_at(cp@, i) is None,
        },
{
    match cp.entry(i) {
        Some(ConstantPoolEntry::Utf8(s)) => Some(s.clone()),
        _ => None,
    }
}

fn utf8_or_empty_at(cp: &ConstantPool, i: u16) -> (s: String)
    requires
        (i as int) < cp@.len(),
    ensures
        s@ == utf8_or_empty(cp@, i),
{
    match utf8_text_at(cp, i) {
        Some(s) => s,
        None => String::new(),
    }
}

fn bootstrap_class(cp: &ConstantPool, i: u16) -> (s: String)
    requires
        bootstrap_class_readable(cp@, i),
    ensures
        s@ == bootstrap_class_of(cp@, i),
{
    match cp.entry(i) {
        Some(ConstantPoolEntry::MethodHandle { reference_index, .. }) => match cp.entry(*reference_index) {
            Some(ConstantPoolEntry::Methodref { class_index, .. }) => match cp.entry(*class_index) {
                Some(ConstantPoolEntry::Class { name_index }) => utf8_or_empty_at(cp, *name_index),
                _ => String::new(),
            },
            _ => String::new(),
        },
        _ => String::new(),
    }
}

fn method_handle(cp: &ConstantPool, i: u16) -> (r: Option<MethodHandleRef>)
    ensures
        match method_handle_at(cp@, i) {
            Some(h) => r matches Some(x) && x@ == h,
            None => r is None,
        },
{
    let (kind, reference_index) = match cp.entry(i) {
        Some(ConstantPoolEntry::MethodHandle { reference_kind, reference_index }) => (*reference_kind, *reference_index),
        _ => {
            return None;
        },
    };
    let (class_index, nt) = match cp.entry(reference_index) {
        Some(ConstantPoolEntry::Methodref { class_index, name_and_type_index }) => (*class_index, *name_and_type_index),
        Some(ConstantPoolEntry::InterfaceMethodref { class_index, name_and_type_index }) => (
            *class_index,
            *name_and_type_index,
        ),
        _ => {
            return None;
        },
    };
    let class_name = match cp.entry(class_index) {
        Some(ConstantPoolEntry::Class { name_index }) => match utf8_text_at(cp, *name_index) {
            Some(s) => s,
            None => {
                return None;
            },
        },
        _ => {
            return None;
        },
    };
    let (name, descriptor) = match cp.entry(nt) {
        Some(ConstantPoolEntry::NameAndType { name_index, descriptor_index }) => match (
            utf8_text_at(cp, *name_index),
            utf8_text_at(cp, *descriptor_index),
        ) {
            (Some(n), Some(d)) => (n, d),
            _ => {
                return None;
            },
        },
        _ => {
            return None;
        },
    };
    Some(MethodHandleRef { kind, class_name, name, descriptor })
}

fn method_type(cp: &ConstantPool, i: u16) -> (s: String)
    ensures
        s@ == method_type_at(cp@, i),
{
    match cp.entry(i) {
        Some(ConstantPoolEntry::MethodType { descriptor_index }) => match utf8_text_at(cp, *descriptor_index) {
            Some(d) => d,
            None => String::new(),
        },
        _ => String::new(),
    }
}

fn bootstrap_class_ready(cp: &ConstantPool, i: u16) -> (r: bool)
    ensures
        r == bootstrap_class_readable(cp@, i),
{
    match cp.entry(i) {
        None => false,
        Some(ConstantPoolEntry::MethodHandle { reference_index, .. }) => match cp.entry(*reference_index) {
            None => false,
            Some(ConstantPoolEntry::Methodref { class_index, .. }) => match cp.entry(*class_index) {
                None => false,
                Some(ConstantPoolEntry::Class { name_index }) => cp.entry(*name_index).is_some(),
                Some(_) => true,
            },
            Some(_) => true,
        },
        Some(_) => true,
    }
}

/// Whether decoding the call site at `idx` stays inside the pool and the
/// table, as `indy_readable` says.
pub fn indy_ready(cp: &ConstantPool, bootstrap_methods: &Vec<BootstrapMethod>, idx: u16) -> (r: bool)
    ensures
        r == indy_readable(cp@, bootstrap_methods@.map_values(|b: BootstrapMethod| b@), idx),
{
    let ghost bms = bootstrap_methods@.map_values(|b: BootstrapMethod| b@);
    match cp.entry(idx) {
        None => false,
        Some(ConstantPoolEntry::InvokeDynamic { bootstrap_method_attr_index, name_and_type_index }) => {
            match cp.entry(*name_and_type_index) {
                None => false,
                Some(ConstantPoolEntry::NameAndType { name_index, descriptor_index }) => {
                    if cp.entry(*name_index).is_none() || cp.entry(*descriptor_index).is_none() {
                        return false;
                    }
                    let b = *bootstrap_method_attr_index as usize;
                    if b < bootstrap_methods.len() {
                        assert(bms[b as int] == bootstrap_methods@[b as int]@);
                        bootstrap_class_ready(cp, bootstrap_methods[b].bootstrap_method_ref)
                    } else {
                        true
                    }
                },
                Some(_) => true,
            }
        },
        Some(_) => true,
    }
}

/// Decode the `invokedynamic` call site at `idx`, as `indy_plan` says.
pub fn resolve_invokedynamic(cp: &ConstantPool, bootstrap_methods: &Vec<BootstrapMethod>, idx: u16) -> (r: Result<
    CallSite,
    IndyError,
>)
    requires
        indy_readable(cp@, bootstrap_methods@.map_values(|b: BootstrapMethod| b@), idx),
    ensures
        match indy_plan(cp@, bootstrap_methods@.map_values(|b: BootstrapMethod| b@), idx) {
            Ok(c) => r matches Ok(x) && x@ == c,
            Err(e) => r == Err::<CallSite, IndyError>(e),
        },
{
    let ghost bms = bootstrap_methods@.map_values(|b: BootstrapMethod| b@);
    let (b, nt) = match cp.entry(idx) {
        Some(ConstantPoolEntry::InvokeDynamic { bootstrap_method_attr_index, name_and_type_index }) => (
            *bootstrap_method_attr_index,
            *name_and_type_index,
        ),
        _ => {
            return Err(IndyError::NotInvokeDynamic(idx));
        },
    };
    let (name_index, descriptor_index) = match cp.entry(nt) {
        Some(ConstantPoolEntry::NameAndType { name_index, descriptor_index }) => (*name_index, *descriptor_index),
        _ => {
            return Err(IndyError::NotNameAndType(nt));
        },
    };
    let name = utf8_or_empty_at(cp, name_index);
    let descriptor = utf8_or_empty_at(cp, descriptor_index);
    if (b as usize) >= bootstrap_methods.len() {
        return Err(IndyError::BadBootstrapIndex(b, bootstrap_methods.len()));
    }
    let bm = &bootstrap_methods[b as usize];
    assert(bms[b as int] == bm@);
    let bootstrap_class = bootstrap_class(cp, bm.bootstrap_method_ref);
    let n_args = bm.bootstrap_arguments.len();
    let implementation = if n_args > 1 {
        method_handle(cp, bm.bootstrap_arguments[1])
    } else {
        None
    };
    let interface_descriptor = if n_args > 0 {
        method_type(cp, bm.bootstrap_arguments[0])
    } else {
        String::new()
    };
    Ok(CallSite { name, descriptor, bootstrap_index: b, bootstrap_class, implementation, interface_descriptor })
}

} // verus!
