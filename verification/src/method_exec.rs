//! Finding a method among a class's declared methods by name and
//! descriptor, and gathering what executing it needs: its owner's name and
//! class identity, its flags, its bytecode and exception table, and the
//! class's bootstrap methods.

use vstd::prelude::*;
use crate::class_file::{
    cp_class_name, first_code_position, Attribute, BootstrapMethod, ClassFile, ConstantPool,
    ExceptionTableEntry, MethodInfo,
};
use crate::class_identity::{ClassId, ClassIdentityRegistry, RegistryV};
use crate::class_spec::{cp_utf8, BootstrapMethodV, CpEntry, MemberV};
use crate::hierarchy::{loaded_class_id, loaded_class_id_by_name};
use crate::text::str_eq;

verus! {

/// Whether the member `m` has the name `name` and the descriptor `desc`.
pub open spec fn member_matches(cp: Seq<CpEntry>, m: MemberV, name: Seq<char>, desc: Seq<char>) -> bool {
    &&& cp_utf8(cp, m.name_index) == Some(name)
    &&& cp_utf8(cp, m.descriptor_index) == Some(desc)
}

/// The members can be searched in order for `name` and `desc`: the name of
/// each member up to the first match is a `Utf8` entry, and so is the
/// descriptor of each one that has the name.
pub open spec fn member_scan_ok(cp: Seq<CpEntry>, ms: Seq<MemberV>, name: Seq<char>, desc: Seq<char>) -> bool
    decreases ms.len(),
{
    if ms.len() == 0 {
        true
    } else {
        let m = ms[0];
        &&& cp_utf8(cp, m.name_index) is Some
        &&& cp_utf8(cp, m.name_index) == Some(name) ==> cp_utf8(cp, m.descriptor_index) is Some
        &&& (member_matches(cp, m, name, desc) || member_scan_ok(cp, ms.drop_first(), name, desc))
    }
}

/// The position of the first member with the name and descriptor.
pub open spec fn member_position(cp: Seq<CpEntry>, ms: Seq<MemberV>, name: Seq<char>, desc: Seq<char>) -> Option<int>
    decreases ms.len(),
{
    if ms.len() == 0 {
        None
    } else if member_matches(cp, ms[0], name, desc) {
        Some(0)
    } else {
        match member_position(cp, ms.drop_first(), name, desc) {
            Some(i) => Some(i + 1),
            None => None,
        }
    }
}

/// The first position `k` at which `member_position` found a match is
/// one, and no earlier member matches.
pub proof fn lemma_member_position(cp: Seq<CpEntry>, ms: Seq<MemberV>, name: Seq<char>, desc: Seq<char>)
    ensures
        match member_position(cp, ms, name, desc) {
            Some(k) => 0 <= k < ms.len() && member_matches(cp, ms[k], name, desc) && forall|j: int|
                0 <= j < k ==> !member_matches(cp, #[trigger] ms[j], name, desc),
            None => forall|j: int| 0 <= j < ms.len() ==> !member_matches(cp, #[trigger] ms[j], name, desc),
        },
    decreases ms.len(),
{
    if ms.len() > 0 {
        lemma_member_position(cp, ms.drop_first(), name, desc);
        assert forall|j: int| 0 < j < ms.len() implies ms[j] == ms.drop_first()[j - 1] by {}
    }
}

/// The index of the first of `methods` named `name` with descriptor `desc`.
pub fn find_method_index(cp: &ConstantPool, methods: &Vec<MethodInfo>, name: &str, desc: &str) -> (r: Option<usize>)
    requires
        member_scan_ok(cp@, methods@.map_values(|m: MethodInfo| m@), name@, desc@),
    ensures
        match member_position(cp@, methods@.map_values(|m: MethodInfo| m@), name@, desc@) {
            Some(k) => r matches Some(i) && i as int == k,
            None => r is None,
        },
{
    let ghost ms = methods@.map_values(|m: MethodInfo| m@);
    let mut i: usize = 0;
    assert(ms.subrange(0, ms.len() as int) =~= ms);
    while i < methods.len()
        invariant
            ms == methods@.map_values(|m: MethodInfo| m@),
            i <= ms.len(),
            member_scan_ok(cp@, ms.subrange(i as int, ms.len() as int), name@, desc@),
            member_position(cp@, ms, name@, desc@) == match member_position(
                cp@,
                ms.subrange(i as int, ms.len() as int),
                name@,
                desc@,
            ) {
                Some(k) => Some(k + i),
                None => None,
            },
        decreases methods.len() - i,
    {
        let m = &methods[i];
        let ghost rest = ms.subrange(i as int, ms.len() as int);
        assert(rest[0] == m@);
        let n = cp.utf8(m.name_index);
        if str_eq(n, name) {
            let d = cp.utf8(m.descriptor_index);
            if str_eq(d, desc) {
                assert(member_matches(cp@, rest[0], name@, desc@));
                return Some(i);
            }
        }
        assert(!member_matches(cp@, rest[0], name@, desc@));
        assert(rest.drop_first() =~= ms.subrange(i + 1, ms.len() as int));
        i = i + 1;
    }
    None
}

/// What executing a resolved method needs.
pub struct MethodExecInfo {
    /// The identity of the owning class, when the system or bootstrap loader
    /// defined it.
    pub class_id: Option<ClassId>,
    /// The owning class's internal name.
    pub class_name: String,
    /// The method's descriptor.
    pub descriptor: String,
    pub access_flags: u16,
    /// `Code.max_locals`, 0 for a method without code.
    pub max_locals: usize,
    /// Whether the method has a `Code` attribute (it is neither abstract
    /// nor native).
    pub has_code: bool,
    pub code: Vec<u8>,
    pub exception_table: Vec<ExceptionTableEntry>,
    /// The owning class's bootstrap methods.
    pub bootstrap_methods: Vec<BootstrapMethod>,
}

pub struct MethodExecInfoV {
    pub class_id: Option<ClassId>,
    pub class_name: Seq<char>,
    pub descriptor: Seq<char>,
    pub access_flags: u16,
    pub max_locals: int,
    pub has_code: bool,
    pub code: Seq<u8>,
    pub exception_table: Seq<ExceptionTableEntry>,
    pub bootstrap_methods: Seq<BootstrapMethodV>,
}

impl View for MethodExecInfo {
    type V = MethodExecInfoV;

    open spec fn view(&self) -> MethodExecInfoV {
        MethodExecInfoV {
            class_id: self.class_id,
            class_name: self.class_name@,
            descriptor: self.descriptor@,
            access_flags: self.access_flags,
            max_locals: self.max_locals as int,
            has_code: self.has_code,
            code: self.code@,
            exception_table: self.exception_table@,
            bootstrap_methods: self.bootstrap_methods@.map_values(|b: BootstrapMethod| b@),
        }
    }
}

/// The bootstrap methods of the first `BootstrapMethods` attribute, or none.
pub open spec fn first_bootstrap_methods(s: Seq<Attribute>) -> Seq<BootstrapMethodV>
    decreases s.len(),
{
    if s.len() == 0 {
        Seq::empty()
    } else {
        match s[0] {
            Attribute::BootstrapMethods(v) => v@.map_values(|b: BootstrapMethod| b@),
            _ => first_bootstrap_methods(s.drop_first()),
        }
    }
}

/// The method `name` with descriptor `desc` of the class `cf` can be looked
/// up: the scan for it reads only `Utf8` entries, and when it is found the
/// class's own name is a `Class` entry.
pub open spec fn exec_info_readable(cf: ClassFile, name: Seq<char>, desc: Seq<char>) -> bool {
    &&& member_scan_ok(cf@.constant_pool, cf@.methods, name, desc)
    &&& member_position(cf@.constant_pool, cf@.methods, name, desc) is Some ==> cp_class_name(
        cf@.constant_pool,
        cf.this_class,
    ) is Some
}

/// The internal name that the class `cf` gives itself.
pub open spec fn own_name(cf: ClassFile) -> Seq<char> {
    cp_class_name(cf@.constant_pool, cf.this_class).unwrap()
}

/// What executing the method `name` with descriptor `desc` declared by `cf`
/// needs, with `class_id` as the owner's identity, or `None` when `cf`
/// declares no such method.
pub open spec fn exec_info_with_id(cf: ClassFile, name: Seq<char>, desc: Seq<char>, class_id: Option<ClassId>) -> Option<MethodExecInfoV> {
    match member_position(cf@.constant_pool, cf@.methods, name, desc) {
        None => None,
        Some(k) => {
            let m = cf.methods@[k];
            let owner = own_name(cf);
            let bms = first_bootstrap_methods(cf.attributes@);
            match first_code_position(m.attributes@) {
                Some(j) => match m.attributes@[j] {
                    Attribute::Code(c) => Some(
                        MethodExecInfoV {
                            class_id: class_id,
                            class_name: owner,
                            descriptor: desc,
                            access_flags: m.access_flags,
                            max_locals: c.max_locals as int,
                            has_code: true,
                            code: c.code@,
                            exception_table: c.exception_table@,
                            bootstrap_methods: bms,
                        },
                    ),
                    _ => None,
                },
                None => Some(
                    MethodExecInfoV {
                        class_id: class_id,
                        class_name: owner,
                        descriptor: desc,
                        access_flags: m.access_flags,
                        max_locals: 0,
                        has_code: false,
                        code: Seq::empty(),
                        exception_table: Seq::empty(),
                        bootstrap_methods: bms,
                    },
                ),
            }
        },
    }
}

/// What executing the method needs, the owner's identity being the class
/// that the system loader, else the bootstrap loader, defined under its name.
pub open spec fn exec_info_of(r: RegistryV, cf: ClassFile, name: Seq<char>, desc: Seq<char>) -> Option<MethodExecInfoV> {
    exec_info_with_id(cf, name, desc, loaded_class_id(r, own_name(cf)))
}

fn copy_vec<T: Copy>(v: &Vec<T>) -> (r: Vec<T>)
    ensures
        r@ == v@,
{
    let mut r: Vec<T> = Vec::new();
    let mut i: usize = 0;
    while i < v.len()
        invariant
            i <= v.len(),
            r@ == v@.subrange(0, i as int),
        decreases v.len() - i,
    {
        r.push(v[i]);
        assert(v@.subrange(0, i + 1) =~= v@.subrange(0, i as int).push(v@[i as int]));
        i = i + 1;
    }
    assert(v@.subrange(0, v@.len() as int) =~= v@);
    r
}

fn copy_bootstrap_methods(v: &Vec<BootstrapMethod>) -> (r: Vec<BootstrapMethod>)
    ensures
        r@.map_values(|b: BootstrapMethod| b@) == v@.map_values(|b: BootstrapMethod| b@),
{
    let mut r: Vec<BootstrapMethod> = Vec::new();
    let mut i: usize = 0;
    while i < v.len()
        invariant
            i <= v.len(),
            r@.map_values(|b: BootstrapMethod| b@) == v@.subrange(0, i as int).map_values(
                |b: BootstrapMethod| b@,
            ),
        decreases v.len() - i,
    {
        let b = &v[i];
        let copy = BootstrapMethod {
            bootstrap_method_ref: b.bootstrap_method_ref,
            bootstrap_arguments: copy_vec(&b.bootstrap_arguments),
        };
        let ghost before = r@;
        r.push(copy);
        assert(r@.map_values(|b: BootstrapMethod| b@) =~= before.map_values(|b: BootstrapMethod| b@).push(
            copy@,
        ));
        assert(v@.subrange(0, i + 1).map_values(|b: BootstrapMethod| b@) =~= v@.subrange(
            0,
            i as int,
        ).map_values(|b: BootstrapMethod| b@).push(v@[i as int]@));
        i = i + 1;
    }
    assert(v@.subrange(0, v@.len() as int) =~= v@);
    r
}

fn bootstrap_methods_of(attributes: &Vec<Attribute>) -> (r: Vec<BootstrapMethod>)
    ensures
        r@.map_values(|b: BootstrapMethod| b@) == first_bootstrap_methods(attributes@),
{
    let mut k: usize = 0;
    assert(attributes@.subrange(0, attributes@.len() as int) =~= attributes@);
    while k < attributes.len()
        invariant
            k <= attributes@.len(),
            first_bootstrap_methods(attributes@) == first_bootstrap_methods(
                attributes@.subrange(k as int, attributes@.len() as int),
            ),
        decreases attributes@.len() - k,
    {
        let ghost rest = attributes@.subrange(k as int, attributes@.len() as int);
        assert(rest[0] == attributes@[k as int]);
        if let Attribute::BootstrapMethods(bms) = &attributes[k] {
            return copy_bootstrap_methods(bms);
        }
        assert(rest.drop_first() =~= attributes@.subrange(k + 1, attributes@.len() as int));
        k = k + 1;
    }
    Vec::new()
}

pub(crate) fn gather_exec_info(cf: &ClassFile, method_name: &str, descriptor: &str, class_id: Option<ClassId>) -> (r: Option<
    MethodExecInfo,
>)
    requires
        exec_info_readable(*cf, method_name@, descriptor@),
    ensures
        match exec_info_with_id(*cf, method_name@, descriptor@, class_id) {
            Some(v) => r matches Some(info) && info@ == v,
            None => r is None,
        },
{
    let cp = &cf.constant_pool;
    assert(cf@.methods =~= cf.methods@.map_values(|m: MethodInfo| m@));
    let idx = match find_method_index(cp, &cf.methods, method_name, descriptor) {
        Some(i) => i,
        None => {
            return None;
        },
    };
    let ghost k = idx as int;
    proof {
        lemma_member_position(cf@.constant_pool, cf@.methods, method_name@, descriptor@);
    }
    assert(member_position(cf@.constant_pool, cf@.methods, method_name@, descriptor@) == Some(k));
    let m = &cf.methods[idx];
    assert(cf@.methods[k] == m@);
    assert(member_matches(cf@.constant_pool, m@, method_name@, descriptor@));
    assert(cp@ == cf@.constant_pool);
    let class_name = cp.class_name(cf.this_class).to_owned();
    let d = cp.utf8(m.descriptor_index).to_owned();
    let bootstrap_methods = bootstrap_methods_of(&cf.attributes);
    match m.code() {
        Some(ca) => Some(
            MethodExecInfo {
                class_id,
                class_name,
                descriptor: d,
                access_flags: m.access_flags,
                max_locals: ca.max_locals as usize,
                has_code: true,
                code: copy_vec(&ca.code),
                exception_table: copy_vec(&ca.exception_table),
                bootstrap_methods,
            },
        ),
        None => Some(
            MethodExecInfo {
                class_id,
                class_name,
                descriptor: d,
                access_flags: m.access_flags,
                max_locals: 0,
                has_code: false,
                code: Vec::new(),
                exception_table: Vec::new(),
                bootstrap_methods,
            },
        ),
    }
}

/// Gather what executing the method `method_name` with descriptor
/// `descriptor` of the class `cf` needs (the class that declares the
/// method, as the method owner lookup by name found it); the owner's
/// identity is looked up by its name. `None` when the class declares no
/// such method.
pub fn method_exec_info(registry: &ClassIdentityRegistry, cf: &ClassFile, method_name: &str, descriptor: &str) -> (r:
    Option<MethodExecInfo>)
    requires
        exec_info_readable(*cf, method_name@, descriptor@),
    ensures
        match exec_info_of(registry@, *cf, method_name@, descriptor@) {
            Some(v) => r matches Some(info) && info@ == v,
            None => r is None,
        },
{
    match gather_exec_info(cf, method_name, descriptor, None) {
        None => None,
        Some(info) => {
            let class_id = loaded_class_id_by_name(registry, info.class_name.as_str());
            Some(MethodExecInfo { class_id, ..info })
        },
    }
}

/// The same for a method whose owner was found by class identity: the
/// owner's identity is `owner_class_id`, the class `cf` holds.
pub fn method_exec_info_for_class_id(owner_class_id: ClassId, cf: &ClassFile, method_name: &str, descriptor: &str) -> (r:
    Option<MethodExecInfo>)
    requires
        exec_info_readable(*cf, method_name@, descriptor@),
    ensures
        match exec_info_with_id(*cf, method_name@, descriptor@, Some(owner_class_id)) {
            Some(v) => r matches Some(info) && info@ == v,
            None => r is None,
        },
{
    gather_exec_info(cf, method_name, descriptor, Some(owner_class_id))
}

/// Whether the method `name` with descriptor `desc` of `cf` can be looked
/// up, as `exec_info_readable` says.
pub fn exec_info_ready(cf: &ClassFile, name: &str, desc: &str) -> (r: bool)
    ensures
        r == exec_info_readable(*cf, name@, desc@),
{
    let cp = &cf.constant_pool;
    let ghost ms = cf@.methods;
    assert(cf@.methods =~= cf.methods@.map_values(|m: MethodInfo| m@));
    let mut i: usize = 0;
    assert(ms.subrange(0, ms.len() as int) =~= ms);
    while i < cf.methods.len()
        invariant
            ms == cf@.methods,
            ms == cf.methods@.map_values(|m: MethodInfo| m@),
            cp@ == cf@.constant_pool,
            i <= ms.len(),
            member_scan_ok(cp@, ms, name@, desc@) == member_scan_ok(cp@, ms.subrange(i as int, ms.len() as int), name@, desc@),
            member_position(cp@, ms, name@, desc@) == match member_position(
                cp@,
                ms.subrange(i as int, ms.len() as int),
                name@,
                desc@,
            ) {
                Some(k) => Some(k + i),
                None => None,
            },
        decreases cf.methods.len() - i,
    {
        let m = &cf.methods[i];
        let ghost rest = ms.subrange(i as int, ms.len() as int);
        assert(rest[0] == m@);
        assert(rest.drop_first() =~= ms.subrange(i + 1, ms.len() as int));
        let n = match cp.utf8_entry(m.name_index) {
            Some(n) => n,
            None => {
                return false;
            },
        };
        if str_eq(n, name) {
            let d = match cp.utf8_entry(m.descriptor_index) {
                Some(d) => d,
                None => {
                    return false;
                },
            };
            if str_eq(d, desc) {
                assert(member_matches(cp@, rest[0], name@, desc@));
                return cp.class_name_entry(cf.this_class).is_some();
            }
        }
        i = i + 1;
    }
    true
}

} // verus!
