//! Linked classes and the resolution of members through the class hierarchy
//! (JVMS §5.4.3.2 fields, §5.4.3.3 methods, §5.4.3.4 interface methods).
//!
//! A class enters the hierarchy once it has been parsed and its direct
//! supertypes have been resolved to class ids. Supertypes that could not be
//! resolved are simply absent, as resolution skips them. Since a supertype is
//! linked before its subtypes, every edge points to a class linked earlier,
//! so the hierarchy has no cycles.

use vstd::prelude::*;
use crate::class_identity::{registered, ClassId, ClassIdentityRegistry, LoaderId, RegistryV};
use crate::resolution::{
    is_public_instance_method, is_vm_defined_mirror_name, vm_defined_mirror, ACC_PRIVATE, ACC_PUBLIC, ACC_STATIC,
};
use crate::class_file::{cp_class_name, ClassFile, ConstantPool, ConstantPoolEntry, ExceptionTableEntry};
use crate::class_spec::{cp_utf8, ClassFileV, CpEntry, MemberV};
use crate::descriptors::cp_slice_view;
use crate::resolution::{member_name_and_descriptor, member_name_and_descriptor_of};
use crate::descriptors::{arg_kinds, class_ref_readable, count_args, resolve_class_name, resolved_class_name};
use crate::frame::{check_final_static_field_write_resolved, final_field_write_text, static_write_allowed};
use crate::exceptions::{before, before_chars, exception_class_from_err_msg, exception_class_text, slice_chars, string_of};
use crate::text::{chars_of, nat_text, push_nat_text, str_eq};

verus! {

pub const ACC_INTERFACE: u16 = 0x0200;
pub const ACC_ABSTRACT: u16 = 0x0400;

/// A method or field a class declares.
#[derive(Clone, Debug)]
pub struct MemberDecl {
    pub name: String,
    pub descriptor: String,
    pub access_flags: u16,
}

/// A declared member as a value.
pub struct MemberDeclV {
    pub name: Seq<char>,
    pub descriptor: Seq<char>,
    pub access_flags: u16,
}

impl View for MemberDecl {
    type V = MemberDeclV;

    open spec fn view(&self) -> MemberDeclV {
        MemberDeclV { name: self.name@, descriptor: self.descriptor@, access_flags: self.access_flags }
    }
}

/// A parsed class with its direct supertypes resolved.
#[derive(Debug)]
pub struct LinkedClass {
    pub id: ClassId,
    /// Internal name (`pkg/Thing`).
    pub name: String,
    pub access_flags: u16,
    /// The resolved superclass; `None` for `java/lang/Object` or when the
    /// superclass could not be resolved.
    pub super_id: Option<ClassId>,
    /// The resolved direct superinterfaces, in declaration order.
    pub interface_ids: Vec<ClassId>,
    pub methods: Vec<MemberDecl>,
    pub fields: Vec<MemberDecl>,
}

/// A linked class as a value.
pub struct LinkedClassV {
    pub id: ClassId,
    pub name: Seq<char>,
    pub access_flags: u16,
    pub super_id: Option<ClassId>,
    pub interface_ids: Seq<ClassId>,
    pub methods: Seq<MemberDeclV>,
    pub fields: Seq<MemberDeclV>,
}

impl View for LinkedClass {
    type V = LinkedClassV;

    open spec fn view(&self) -> LinkedClassV {
        LinkedClassV {
            id: self.id,
            name: self.name@,
            access_flags: self.access_flags,
            super_id: self.super_id,
            interface_ids: self.interface_ids@,
            methods: self.methods@.map_values(|m: MemberDecl| m@),
            fields: self.fields@.map_values(|f: MemberDecl| f@),
        }
    }
}

/// The member a symbolic reference resolved to: the class that declares it
/// and the declaration itself.
#[derive(Clone, Debug)]
pub struct ResolvedMethodTarget {
    pub owner_class_id: ClassId,
    pub owner_class: String,
    pub name: String,
    pub descriptor: String,
    pub access_flags: u16,
}

/// The field a symbolic reference resolved to.
#[derive(Clone, Debug)]
pub struct ResolvedFieldTarget {
    pub owner_class_id: ClassId,
    pub owner_class: String,
    pub name: String,
    pub descriptor: String,
    pub access_flags: u16,
}

/// A resolved member as a value.
pub struct TargetV {
    pub owner_class_id: ClassId,
    pub owner_class: Seq<char>,
    pub name: Seq<char>,
    pub descriptor: Seq<char>,
    pub access_flags: u16,
}

impl View for ResolvedMethodTarget {
    type V = TargetV;

    open spec fn view(&self) -> TargetV {
        TargetV {
            owner_class_id: self.owner_class_id,
            owner_class: self.owner_class@,
            name: self.name@,
            descriptor: self.descriptor@,
            access_flags: self.access_flags,
        }
    }
}

impl View for ResolvedFieldTarget {
    type V = TargetV;

    open spec fn view(&self) -> TargetV {
        TargetV {
            owner_class_id: self.owner_class_id,
            owner_class: self.owner_class@,
            name: self.name@,
            descriptor: self.descriptor@,
            access_flags: self.access_flags,
        }
    }
}

// ---------------------------------------------------------------------------
// The hierarchy as a value
// ---------------------------------------------------------------------------

/// The position of the class with this id: the last one linked under it, or
/// -1 when there is none.
pub open spec fn pos_of(s: Seq<LinkedClassV>, id: ClassId) -> int
    decreases s.len(),
{
    if s.len() == 0 {
        -1
    } else if s.last().id == id {
        s.len() - 1
    } else {
        pos_of(s.drop_last(), id)
    }
}

/// Ids are unique, and every supertype edge points to a class linked
/// earlier.
pub open spec fn hierarchy_wf(s: Seq<LinkedClassV>) -> bool {
    &&& forall|i: int| 0 <= i < s.len() ==> pos_of(s, #[trigger] s[i].id) == i
    &&& forall|i: int|
        0 <= i < s.len() ==> match (#[trigger] s[i]).super_id {
            Some(p) => 0 <= pos_of(s, p) < i,
            None => true,
        }
    &&& forall|i: int, j: int|
        0 <= i < s.len() && 0 <= j < s[i].interface_ids.len() ==> 0 <= pos_of(
            s,
            #[trigger] s[i].interface_ids[j],
        ) < i
}

/// `pos_of` is the last position that holds the id, or -1 when none does.
pub proof fn lemma_pos_of(s: Seq<LinkedClassV>, id: ClassId)
    ensures
        -1 <= pos_of(s, id) < s.len(),
        pos_of(s, id) >= 0 ==> s[pos_of(s, id)].id == id,
        forall|k: int| pos_of(s, id) < k < s.len() ==> s[k].id != id,
    decreases s.len(),
{
    if s.len() > 0 && s.last().id != id {
        lemma_pos_of(s.drop_last(), id);
        assert forall|k: int| pos_of(s, id) < k < s.len() implies s[k].id != id by {
            if k < s.len() - 1 {
                assert(s[k] == s.drop_last()[k]);
            }
        }
    }
}

/// The index of the first member with this name and descriptor.
pub open spec fn first_member(ms: Seq<MemberDeclV>, name: Seq<char>, descriptor: Seq<char>) -> Option<int> {
    if exists|k: int| 0 <= k < ms.len() && member_matches(ms[k], name, descriptor) {
        Some(
            choose|k: int|
                0 <= k < ms.len() && member_matches(ms[k], name, descriptor) && forall|j: int|
                    0 <= j < k ==> !member_matches(#[trigger] ms[j], name, descriptor),
        )
    } else {
        None
    }
}

/// Whether a member has this name and descriptor.
pub open spec fn member_matches(m: MemberDeclV, name: Seq<char>, descriptor: Seq<char>) -> bool {
    m.name == name && m.descriptor == descriptor
}

/// A member that matches has a first match at or before it, and that is
/// what `first_member` gives.
proof fn lemma_first_member_some(ms: Seq<MemberDeclV>, name: Seq<char>, descriptor: Seq<char>, k: int)
    requires
        0 <= k < ms.len(),
        member_matches(ms[k], name, descriptor),
    ensures
        first_member(ms, name, descriptor) matches Some(f) && 0 <= f <= k && member_matches(
            ms[f],
            name,
            descriptor,
        ),
    decreases k,
{
    if exists|j: int| 0 <= j < k && member_matches(ms[j], name, descriptor) {
        let j = choose|j: int| 0 <= j < k && member_matches(ms[j], name, descriptor);
        lemma_first_member_some(ms, name, descriptor, j);
    } else {
        lemma_first_member_is(ms, name, descriptor, k);
    }
}

proof fn lemma_first_member_is(ms: Seq<MemberDeclV>, name: Seq<char>, descriptor: Seq<char>, k: int)
    requires
        0 <= k < ms.len(),
        member_matches(ms[k], name, descriptor),
        forall|j: int| 0 <= j < k ==> !member_matches(#[trigger] ms[j], name, descriptor),
    ensures
        first_member(ms, name, descriptor) == Some(k),
{
    let c = choose|c: int|
        0 <= c < ms.len() && member_matches(ms[c], name, descriptor) && forall|j: int|
            0 <= j < c ==> !member_matches(#[trigger] ms[j], name, descriptor);
    assert(0 <= c < ms.len() && member_matches(ms[c], name, descriptor));
    if c < k {
        assert(!member_matches(ms[c], name, descriptor));
    }
    if k < c {
        assert(!member_matches(ms[k], name, descriptor));
    }
}

/// The resolved form of a member declared by a class.
pub open spec fn target_of(c: LinkedClassV, m: MemberDeclV) -> TargetV {
    TargetV {
        owner_class_id: c.id,
        owner_class: c.name,
        name: m.name,
        descriptor: m.descriptor,
        access_flags: m.access_flags,
    }
}

/// The method with this name and descriptor that the class itself declares.
pub open spec fn declared_method(s: Seq<LinkedClassV>, id: ClassId, name: Seq<char>, descriptor: Seq<char>) -> Option<TargetV> {
    let p = pos_of(s, id);
    if p < 0 {
        None
    } else {
        match first_member(s[p].methods, name, descriptor) {
            Some(k) => Some(target_of(s[p], s[p].methods[k])),
            None => None,
        }
    }
}

/// The field with this name and descriptor that the class itself declares.
pub open spec fn declared_field(s: Seq<LinkedClassV>, id: ClassId, name: Seq<char>, descriptor: Seq<char>) -> Option<TargetV> {
    let p = pos_of(s, id);
    if p < 0 {
        None
    } else {
        match first_member(s[p].fields, name, descriptor) {
            Some(k) => Some(target_of(s[p], s[p].fields[k])),
            None => None,
        }
    }
}

/// The direct superinterfaces of a class (none when it is not linked).
pub open spec fn direct_interfaces(s: Seq<LinkedClassV>, id: ClassId) -> Seq<ClassId> {
    let p = pos_of(s, id);
    if p < 0 {
        Seq::empty()
    } else {
        s[p].interface_ids
    }
}

/// Why a class could not be linked.
#[derive(Clone, Copy, Debug, PartialEq, Eq, Structural)]
pub enum LinkError {
    /// A class with this id is linked already.
    DuplicateClass(ClassId),
    /// This supertype is not linked yet.
    MissingSupertype(ClassId),
}

/// The classes linked so far, in link order.
pub struct ClassHierarchy {
    classes: Vec<LinkedClass>,
}

impl View for ClassHierarchy {
    type V = Seq<LinkedClassV>;

    closed spec fn view(&self) -> Seq<LinkedClassV> {
        self.classes@.map_values(|c: LinkedClass| c@)
    }
}

impl ClassHierarchy {
    pub open spec fn wf(&self) -> bool {
        hierarchy_wf(self@)
    }

    /// An empty hierarchy.
    pub fn new() -> (h: Self)
        ensures
            h.wf(),
            h@ == Seq::<LinkedClassV>::empty(),
    {
        let h = ClassHierarchy { classes: Vec::new() };
        assert(h@ =~= Seq::<LinkedClassV>::empty());
        h
    }

    /// The position of the class with this id.
    fn index_of(&self, id: ClassId) -> (r: Option<usize>)
        ensures
            match r {
                Some(k) => k == pos_of(self@, id),
                None => pos_of(self@, id) == -1,
            },
    {
        proof {
            lemma_pos_of(self@, id);
        }
        let mut i = self.classes.len();
        while i > 0
            invariant
                i <= self.classes.len(),
                self@.len() == self.classes.len(),
                -1 <= pos_of(self@, id) < self@.len(),
                pos_of(self@, id) >= 0 ==> self@[pos_of(self@, id)].id == id,
                forall|k: int| pos_of(self@, id) < k < self@.len() ==> self@[k].id != id,
                forall|k: int| i <= k < self@.len() ==> self@[k].id != id,
            decreases i,
        {
            i = i - 1;
            if self.classes[i].id == id {
                assert(self@[i as int].id == id);
                return Some(i);
            }
            assert(self@[i as int].id != id);
        }
        None
    }

    /// The linked class with this id.
    pub fn get_class_by_id(&self, id: ClassId) -> (r: Option<&LinkedClass>)
        ensures
            match r {
                Some(c) => pos_of(self@, id) >= 0 && c@ == self@[pos_of(self@, id)] && c.id == id,
                None => pos_of(self@, id) < 0,
            },
    {
        proof {
            lemma_pos_of(self@, id);
        }
        match self.index_of(id) {
            Some(k) => Some(&self.classes[k]),
            None => None,
        }
    }

    /// Link a class whose supertypes are linked already.
    pub fn link(&mut self, class: LinkedClass) -> (r: Result<(), LinkError>)
        requires
            old(self).wf(),
        ensures
            final(self).wf(),
            match r {
                Ok(()) => final(self)@ == old(self)@.push(class@),
                Err(LinkError::DuplicateClass(id)) => id == class.id && pos_of(old(self)@, id) >= 0
                    && final(self)@ == old(self)@,
                Err(LinkError::MissingSupertype(id)) => pos_of(old(self)@, id) < 0 && (class.super_id
                    == Some(id) || class.interface_ids@.contains(id)) && final(self)@ == old(self)@,
            },
            r is Ok <==> (pos_of(old(self)@, class.id) < 0 && (match class.super_id {
                Some(p) => pos_of(old(self)@, p) >= 0,
                None => true,
            }) && forall|j: int|
                0 <= j < class.interface_ids@.len() ==> pos_of(old(self)@, #[trigger] class.interface_ids@[j]) >= 0),
    {
        proof {
            lemma_pos_of(self@, class.id);
        }
        if self.index_of(class.id).is_some() {
            return Err(LinkError::DuplicateClass(class.id));
        }
        if let Some(p) = class.super_id {
            if self.index_of(p).is_none() {
                return Err(LinkError::MissingSupertype(p));
            }
        }
        let mut j: usize = 0;
        while j < class.interface_ids.len()
            invariant
                j <= class.interface_ids.len(),
                self@ == old(self)@,
                self.wf(),
                forall|k: int| 0 <= k < j ==> pos_of(self@, #[trigger] class.interface_ids@[k]) >= 0,
            decreases class.interface_ids.len() - j,
        {
            let iid = class.interface_ids[j];
            if self.index_of(iid).is_none() {
                assert(class.interface_ids@.contains(iid)) by {
                    assert(class.interface_ids@[j as int] == iid);
                }
                return Err(LinkError::MissingSupertype(iid));
            }
            j = j + 1;
        }
        let ghost s = self@;
        let ghost c = class@;
        self.classes.push(class);
        proof {
            let t = self@;
            assert(t =~= s.push(c));
            lemma_pos_push(s, c);
            assert forall|i: int| 0 <= i < t.len() implies pos_of(t, #[trigger] t[i].id) == i by {
                if i < s.len() {
                    assert(t[i] == s[i]);
                }
            }
            assert forall|i: int|
                0 <= i < t.len() implies match (#[trigger] t[i]).super_id {
                Some(p) => 0 <= pos_of(t, p) < i,
                None => true,
            } by {
                if i < s.len() {
                    assert(t[i] == s[i]);
                    if let Some(p) = s[i].super_id {
                        lemma_pos_of(s, p);
                    }
                } else {
                    if let Some(p) = c.super_id {
                        lemma_pos_of(s, p);
                    }
                }
            }
            assert forall|i: int, j: int|
                0 <= i < t.len() && 0 <= j < t[i].interface_ids.len() implies 0 <= pos_of(
                t,
                #[trigger] t[i].interface_ids[j],
            ) < i by {
                if i < s.len() {
                    assert(t[i] == s[i]);
                    lemma_pos_of(s, s[i].interface_ids[j]);
                } else {
                    lemma_pos_of(s, c.interface_ids[j]);
                }
            }
        }
        Ok(())
    }
}

/// Linking a class keeps the positions of the other ids.
proof fn lemma_pos_push(s: Seq<LinkedClassV>, c: LinkedClassV)
    ensures
        pos_of(s.push(c), c.id) == s.len(),
        forall|id: ClassId| id != c.id ==> #[trigger] pos_of(s.push(c), id) == pos_of(s, id),
{
    assert(s.push(c).drop_last() =~= s);
}

/// The resolved members as values.
pub open spec fn targets_view(v: Seq<ResolvedMethodTarget>) -> Seq<TargetV> {
    v.map_values(|t: ResolvedMethodTarget| t@)
}

/// Whether the interface reaches `ancestor` through one or more
/// superinterface edges, looking from its `k`-th direct superinterface on.
pub open spec fn extends_from(s: Seq<LinkedClassV>, child: ClassId, ancestor: ClassId, k: int) -> bool
    decreases pos_of(s, child), direct_interfaces(s, child).len() - k,
{
    let ifs = direct_interfaces(s, child);
    if k < 0 || k >= ifs.len() {
        false
    } else {
        ifs[k] == ancestor || (0 <= pos_of(s, ifs[k]) < pos_of(s, child) && extends_from(
            s,
            ifs[k],
            ancestor,
            0,
        )) || extends_from(s, child, ancestor, k + 1)
    }
}

/// Whether `child` reaches `ancestor` through one or more superinterface
/// edges.
pub open spec fn interface_extends(s: Seq<LinkedClassV>, child: ClassId, ancestor: ClassId) -> bool {
    extends_from(s, child, ancestor, 0)
}

fn contains_id(v: &Vec<ClassId>, id: ClassId) -> (r: bool)
    ensures
        r == v@.contains(id),
{
    let mut i: usize = 0;
    while i < v.len()
        invariant
            i <= v.len(),
            forall|k: int| 0 <= k < i ==> v@[k] != id,
        decreases v.len() - i,
    {
        if v[i] == id {
            assert(v@[i as int] == id);
            return true;
        }
        i = i + 1;
    }
    false
}

/// The position of the first member with this name and descriptor.
fn find_member(ms: &Vec<MemberDecl>, name: &str, descriptor: &str) -> (r: Option<usize>)
    ensures
        match r {
            Some(k) => k < ms.len() && first_member(ms@.map_values(|m: MemberDecl| m@), name@, descriptor@)
                == Some(k as int),
            None => first_member(ms@.map_values(|m: MemberDecl| m@), name@, descriptor@) is None,
        },
{
    let ghost v = ms@.map_values(|m: MemberDecl| m@);
    let mut i: usize = 0;
    while i < ms.len()
        invariant
            i <= ms.len(),
            v == ms@.map_values(|m: MemberDecl| m@),
            forall|j: int| 0 <= j < i ==> !member_matches(#[trigger] v[j], name@, descriptor@),
        decreases ms.len() - i,
    {
        if str_eq(&ms[i].name, name) && str_eq(&ms[i].descriptor, descriptor) {
            proof {
                lemma_first_member_is(v, name@, descriptor@, i as int);
            }
            return Some(i);
        }
        assert(!member_matches(v[i as int], name@, descriptor@));
        i = i + 1;
    }
    assert(!exists|k: int| 0 <= k < v.len() && member_matches(v[k], name@, descriptor@));
    None
}

impl ClassHierarchy {
    /// The method with this name and descriptor that the class itself
    /// declares.
    pub fn declared_method_by_class_id(&self, class_id: ClassId, method_name: &str, descriptor: &str) -> (r: Option<ResolvedMethodTarget>)
        ensures
            match r {
                Some(t) => declared_method(self@, class_id, method_name@, descriptor@) == Some(t@),
                None => declared_method(self@, class_id, method_name@, descriptor@) is None,
            },
    {
        let class = match self.get_class_by_id(class_id) {
            Some(c) => c,
            None => {
                return None;
            },
        };
        match find_member(&class.methods, method_name, descriptor) {
            Some(k) => {
                let m = &class.methods[k];
                Some(
                    ResolvedMethodTarget {
                        owner_class_id: class.id,
                        owner_class: class.name.clone(),
                        name: m.name.clone(),
                        descriptor: m.descriptor.clone(),
                        access_flags: m.access_flags,
                    },
                )
            },
            None => None,
        }
    }

    /// The field with this name and descriptor that the class itself
    /// declares.
    fn declared_field_by_class_id(&self, class_id: ClassId, field_name: &str, descriptor: &str) -> (r: Option<ResolvedFieldTarget>)
        ensures
            match r {
                Some(t) => declared_field(self@, class_id, field_name@, descriptor@) == Some(t@),
                None => declared_field(self@, class_id, field_name@, descriptor@) is None,
            },
    {
        let class = match self.get_class_by_id(class_id) {
            Some(c) => c,
            None => {
                return None;
            },
        };
        match find_member(&class.fields, field_name, descriptor) {
            Some(k) => {
                let f = &class.fields[k];
                Some(
                    ResolvedFieldTarget {
                        owner_class_id: class.id,
                        owner_class: class.name.clone(),
                        name: f.name.clone(),
                        descriptor: f.descriptor.clone(),
                        access_flags: f.access_flags,
                    },
                )
            },
            None => None,
        }
    }

    /// The direct superinterfaces of a class (none when it is not linked).
    pub fn direct_interface_ids(&self, class_id: ClassId) -> (r: Vec<ClassId>)
        ensures
            r@ == direct_interfaces(self@, class_id),
    {
        let mut r: Vec<ClassId> = Vec::new();
        match self.get_class_by_id(class_id) {
            Some(class) => {
                let mut i: usize = 0;
                while i < class.interface_ids.len()
                    invariant
                        i <= class.interface_ids.len(),
                        r@ == class.interface_ids@.subrange(0, i as int),
                    decreases class.interface_ids.len() - i,
                {
                    r.push(class.interface_ids[i]);
                    i = i + 1;
                    assert(r@ =~= class.interface_ids@.subrange(0, i as int));
                }
                assert(r@ =~= class.interface_ids@);
            },
            None => {},
        }
        r
    }

    /// Whether the class is an interface (false when it is not linked).
    pub fn class_is_interface_by_id(&self, class_id: ClassId) -> (r: bool)
        ensures
            r == (pos_of(self@, class_id) >= 0 && self@[pos_of(self@, class_id)].access_flags & ACC_INTERFACE
                != 0),
    {
        match self.get_class_by_id(class_id) {
            Some(class) => class.access_flags & ACC_INTERFACE != 0,
            None => false,
        }
    }

    /// Whether `child` reaches `ancestor` through one or more superinterface
    /// edges.
    pub fn interface_extends_by_id(&self, child_interface_id: ClassId, ancestor_interface_id: ClassId) -> (r: bool)
        requires
            self.wf(),
        ensures
            r == interface_extends(self@, child_interface_id, ancestor_interface_id),
    {
        let mut seen: Vec<ClassId> = Vec::new();
        self.interface_extends_by_id_inner(child_interface_id, ancestor_interface_id, &mut seen)
    }

    /// As `interface_extends_by_id`, remembering in `seen` the interfaces
    /// known not to reach `ancestor`.
    fn interface_extends_by_id_inner(&self, child_interface_id: ClassId, ancestor_interface_id: ClassId, seen: &mut Vec<ClassId>) -> (r: bool)
        requires
            self.wf(),
            forall|x: ClassId| old(seen)@.contains(x) ==> !interface_extends(self@, x, ancestor_interface_id),
        ensures
            r == interface_extends(self@, child_interface_id, ancestor_interface_id),
            forall|x: ClassId| final(seen)@.contains(x) ==> !interface_extends(self@, x, ancestor_interface_id),
        decreases pos_of(self@, child_interface_id),
    {
        if contains_id(seen, child_interface_id) {
            return false;
        }
        let ghost s = self@;
        let ghost p = pos_of(s, child_interface_id);
        let ifs = self.direct_interface_ids(child_interface_id);
        proof {
            lemma_pos_of(s, child_interface_id);
        }
        let mut k: usize = 0;
        while k < ifs.len()
            invariant
                self.wf(),
                s == self@,
                p == pos_of(s, child_interface_id),
                -1 <= p < s.len(),
                ifs@ == direct_interfaces(s, child_interface_id),
                p < 0 ==> ifs@.len() == 0,
                p >= 0 ==> ifs@ == s[p].interface_ids,
                k <= ifs.len(),
                interface_extends(s, child_interface_id, ancestor_interface_id) == extends_from(
                    s,
                    child_interface_id,
                    ancestor_interface_id,
                    k as int,
                ),
                forall|x: ClassId| seen@.contains(x) ==> !interface_extends(s, x, ancestor_interface_id),
            decreases ifs.len() - k,
        {
            let d = ifs[k];
            if d == ancestor_interface_id {
                return true;
            }
            assert(0 <= pos_of(s, d) < p) by {
                assert(s[p].interface_ids[k as int] == d);
            }
            if self.interface_extends_by_id_inner(d, ancestor_interface_id, seen) {
                return true;
            }
            k = k + 1;
        }
        let ghost prev = seen@;
        seen.push(child_interface_id);
        proof {
            assert forall|x: ClassId| seen@.contains(x) implies !interface_extends(s, x, ancestor_interface_id) by {
                if x != child_interface_id {
                    let i = choose|i: int| 0 <= i < seen@.len() && seen@[i] == x;
                    assert(prev[i] == x);
                }
            }
        }
        false
    }
}

// ---------------------------------------------------------------------------
// Maximally-specific superinterface methods (JVMS §5.4.3.3)
// ---------------------------------------------------------------------------

/// Whether an interface method with these flags is inherited (neither
/// private nor static).
pub open spec fn inherited_candidate(access_flags: u16) -> bool {
    access_flags & (ACC_PRIVATE | ACC_STATIC) == 0
}

/// The inherited methods found from interface `iid` on, depth first in
/// declaration order, each interface visited once: the interfaces visited
/// afterwards and the methods found.
pub open spec fn collect_candidates(
    s: Seq<LinkedClassV>,
    iid: ClassId,
    name: Seq<char>,
    descriptor: Seq<char>,
    seen: Seq<ClassId>,
) -> (Seq<ClassId>, Seq<TargetV>)
    decreases pos_of(s, iid), 2int, 0int,
{
    if seen.contains(iid) {
        (seen, Seq::empty())
    } else {
        let own = match declared_method(s, iid, name, descriptor) {
            Some(t) => if inherited_candidate(t.access_flags) {
                seq![t]
            } else {
                Seq::empty()
            },
            None => Seq::empty(),
        };
        if pos_of(s, iid) < 0 {
            (seen.push(iid), own)
        } else {
            let rest = collect_candidates_from(s, iid, 0, name, descriptor, seen.push(iid));
            (rest.0, own + rest.1)
        }
    }
}

/// As `collect_candidates`, for the direct superinterfaces of `owner` from
/// the `k`-th on.
pub open spec fn collect_candidates_from(
    s: Seq<LinkedClassV>,
    owner: ClassId,
    k: int,
    name: Seq<char>,
    descriptor: Seq<char>,
    seen: Seq<ClassId>,
) -> (Seq<ClassId>, Seq<TargetV>)
    decreases pos_of(s, owner), 1int, direct_interfaces(s, owner).len() - k,
{
    let ifs = direct_interfaces(s, owner);
    if k < 0 || k >= ifs.len() {
        (seen, Seq::empty())
    } else {
        let first = if 0 <= pos_of(s, ifs[k]) < pos_of(s, owner) {
            collect_candidates(s, ifs[k], name, descriptor, seen)
        } else {
            (seen, Seq::empty())
        };
        let rest = collect_candidates_from(s, owner, k + 1, name, descriptor, first.0);
        (rest.0, first.1 + rest.1)
    }
}

/// The inherited methods with this name and descriptor in the
/// superinterfaces of a class, depth first in declaration order.
pub open spec fn superinterface_candidates(s: Seq<LinkedClassV>, id: ClassId, name: Seq<char>, descriptor: Seq<char>) -> Seq<TargetV> {
    collect_candidates_from(s, id, 0, name, descriptor, Seq::empty()).1
}

/// Whether another candidate's interface extends the interface of
/// candidate `i`.
pub open spec fn shadowed(s: Seq<LinkedClassV>, cands: Seq<TargetV>, i: int) -> bool {
    exists|j: int|
        0 <= j < cands.len() && cands[j].owner_class_id != cands[i].owner_class_id
            && #[trigger] interface_extends(s, cands[j].owner_class_id, cands[i].owner_class_id)
}

/// Whether candidate `i` is maximally specific and not abstract.
#[verifier::opaque]
pub open spec fn concrete_maximal(s: Seq<LinkedClassV>, cands: Seq<TargetV>, i: int) -> bool {
    !shadowed(s, cands, i) && cands[i].access_flags & ACC_ABSTRACT == 0
}

/// The candidate that is alone in being maximally specific and not
/// abstract, if there is one.
pub open spec fn unique_concrete(s: Seq<LinkedClassV>, cands: Seq<TargetV>) -> Option<int> {
    if exists|i: int|
        0 <= i < cands.len() && concrete_maximal(s, cands, i) && forall|j: int|
            0 <= j < cands.len() && #[trigger] concrete_maximal(s, cands, j) ==> j == i {
        Some(
            choose|i: int|
                0 <= i < cands.len() && concrete_maximal(s, cands, i) && forall|j: int|
                    0 <= j < cands.len() && #[trigger] concrete_maximal(s, cands, j) ==> j == i,
        )
    } else {
        None
    }
}

/// The method chosen among the superinterface candidates: the single
/// maximally-specific non-abstract one when there is exactly one, else the
/// first candidate.
pub open spec fn chosen_candidate(s: Seq<LinkedClassV>, cands: Seq<TargetV>) -> Option<TargetV> {
    match unique_concrete(s, cands) {
        Some(i) => Some(cands[i]),
        None => if cands.len() > 0 {
            Some(cands[0])
        } else {
            None
        },
    }
}

impl ClassHierarchy {
    fn collect_interface_method_candidates(
        &self,
        interface_id: ClassId,
        method_name: &str,
        descriptor: &str,
        seen: &mut Vec<ClassId>,
        candidates: &mut Vec<ResolvedMethodTarget>,
    )
        requires
            self.wf(),
        ensures
            final(seen)@ == collect_candidates(self@, interface_id, method_name@, descriptor@, old(seen)@).0,
            targets_view(final(candidates)@) == targets_view(old(candidates)@) + collect_candidates(
                self@,
                interface_id,
                method_name@,
                descriptor@,
                old(seen)@,
            ).1,
        decreases pos_of(self@, interface_id),
    {
        let ghost s = self@;
        if contains_id(seen, interface_id) {
            assert(targets_view(candidates@) =~= targets_view(candidates@) + Seq::<TargetV>::empty());
            return;
        }
        let ghost seen0 = seen@;
        let ghost cands0 = targets_view(candidates@);
        seen.push(interface_id);
        match self.declared_method_by_class_id(interface_id, method_name, descriptor) {
            Some(target) => {
                if target.access_flags & (ACC_PRIVATE | ACC_STATIC) == 0 {
                    candidates.push(target);
                }
            },
            None => {},
        }
        let ghost own = match declared_method(s, interface_id, method_name@, descriptor@) {
            Some(t) => if inherited_candidate(t.access_flags) {
                seq![t]
            } else {
                Seq::<TargetV>::empty()
            },
            None => Seq::<TargetV>::empty(),
        };
        assert(targets_view(candidates@) =~= cands0 + own);
        let ifs = self.direct_interface_ids(interface_id);
        proof {
            lemma_pos_of(s, interface_id);
        }
        let ghost p = pos_of(s, interface_id);
        let ghost total = collect_candidates_from(s, interface_id, 0, method_name@, descriptor@, seen0.push(interface_id));
        let mut k: usize = 0;
        while k < ifs.len()
            invariant
                self.wf(),
                s == self@,
                p == pos_of(s, interface_id),
                -1 <= p < s.len(),
                ifs@ == direct_interfaces(s, interface_id),
                p < 0 ==> ifs@.len() == 0,
                p >= 0 ==> ifs@ == s[p].interface_ids,
                k <= ifs.len(),
                collect_candidates_from(s, interface_id, k as int, method_name@, descriptor@, seen@).0
                    == total.0,
                targets_view(candidates@) + collect_candidates_from(
                    s,
                    interface_id,
                    k as int,
                    method_name@,
                    descriptor@,
                    seen@,
                ).1 == cands0 + own + total.1,
            decreases ifs.len() - k,
        {
            let d = ifs[k];
            assert(0 <= pos_of(s, d) < p) by {
                assert(s[p].interface_ids[k as int] == d);
            }
            let ghost before_seen = seen@;
            let ghost before = targets_view(candidates@);
            self.collect_interface_method_candidates(d, method_name, descriptor, seen, candidates);
            proof {
                let first = collect_candidates(s, d, method_name@, descriptor@, before_seen);
                let rest = collect_candidates_from(
                    s,
                    interface_id,
                    k + 1,
                    method_name@,
                    descriptor@,
                    first.0,
                );
                assert(collect_candidates_from(s, interface_id, k as int, method_name@, descriptor@, before_seen)
                    == (rest.0, first.1 + rest.1));
                assert(targets_view(candidates@) + rest.1 =~= before + (first.1 + rest.1));
            }
            k = k + 1;
        }
        proof {
            if p < 0 {
                assert(collect_candidates(s, interface_id, method_name@, descriptor@, seen0) == (
                    seen0.push(interface_id),
                    own,
                ));
            }
            assert(targets_view(candidates@) =~= cands0 + (own + total.1));
        }
    }

    /// The inherited methods with this name and descriptor in the
    /// superinterfaces of a class, depth first in declaration order, each
    /// interface visited once.
    pub fn superinterface_method_candidates(&self, class_or_interface_id: ClassId, method_name: &str, descriptor: &str) -> (r: Vec<ResolvedMethodTarget>)
        requires
            self.wf(),
        ensures
            targets_view(r@) == superinterface_candidates(self@, class_or_interface_id, method_name@, descriptor@),
    {
        let ghost s = self@;
        let mut candidates: Vec<ResolvedMethodTarget> = Vec::new();
        let mut seen: Vec<ClassId> = Vec::new();
        let ifs = self.direct_interface_ids(class_or_interface_id);
        proof {
            lemma_pos_of(s, class_or_interface_id);
        }
        let ghost p = pos_of(s, class_or_interface_id);
        let ghost total = collect_candidates_from(
            s,
            class_or_interface_id,
            0,
            method_name@,
            descriptor@,
            Seq::empty(),
        );
        assert(seen@ =~= Seq::<ClassId>::empty());
        assert(targets_view(candidates@) =~= Seq::<TargetV>::empty());
        let mut k: usize = 0;
        while k < ifs.len()
            invariant
                self.wf(),
                s == self@,
                p == pos_of(s, class_or_interface_id),
                -1 <= p < s.len(),
                ifs@ == direct_interfaces(s, class_or_interface_id),
                p < 0 ==> ifs@.len() == 0,
                p >= 0 ==> ifs@ == s[p].interface_ids,
                k <= ifs.len(),
                collect_candidates_from(s, class_or_interface_id, k as int, method_name@, descriptor@, seen@).0
                    == total.0,
                targets_view(candidates@) + collect_candidates_from(
                    s,
                    class_or_interface_id,
                    k as int,
                    method_name@,
                    descriptor@,
                    seen@,
                ).1 == total.1,
            decreases ifs.len() - k,
        {
            let d = ifs[k];
            assert(0 <= pos_of(s, d) < p) by {
                assert(s[p].interface_ids[k as int] == d);
            }
            let ghost before_seen = seen@;
            let ghost before = targets_view(candidates@);
            self.collect_interface_method_candidates(d, method_name, descriptor, &mut seen, &mut candidates);
            proof {
                let first = collect_candidates(s, d, method_name@, descriptor@, before_seen);
                let rest = collect_candidates_from(
                    s,
                    class_or_interface_id,
                    k + 1,
                    method_name@,
                    descriptor@,
                    first.0,
                );
                assert(collect_candidates_from(
                    s,
                    class_or_interface_id,
                    k as int,
                    method_name@,
                    descriptor@,
                    before_seen,
                ) == (rest.0, first.1 + rest.1));
                assert(targets_view(candidates@) + rest.1 =~= before + (first.1 + rest.1));
            }
            k = k + 1;
        }
        assert(targets_view(candidates@) =~= total.1);
        candidates
    }
}

/// The class that `java/lang/Object`-style lookups by name find: the one the
/// system loader defined under that name, else the one the bootstrap loader
/// defined.
pub open spec fn loaded_class_id(r: RegistryV, internal_name: Seq<char>) -> Option<ClassId> {
    if r.defined.contains_key((LoaderId::SYSTEM, internal_name)) {
        Some(r.defined[(LoaderId::SYSTEM, internal_name)])
    } else if r.defined.contains_key((LoaderId::BOOTSTRAP, internal_name)) {
        Some(r.defined[(LoaderId::BOOTSTRAP, internal_name)])
    } else {
        None
    }
}

/// Whether a method with these flags is a public instance method.
pub open spec fn public_instance(access_flags: u16) -> bool {
    access_flags & ACC_PUBLIC != 0 && access_flags & ACC_STATIC == 0
}

/// The public instance method of `java/lang/Object` with this name and
/// descriptor, which every interface has as a member.
pub open spec fn object_public_method(s: Seq<LinkedClassV>, r: RegistryV, name: Seq<char>, descriptor: Seq<char>) -> Option<TargetV> {
    match loaded_class_id(r, "java/lang/Object"@) {
        Some(oid) => match declared_method(s, oid, name, descriptor) {
            Some(t) => if public_instance(t.access_flags) {
                Some(t)
            } else {
                None
            },
            None => None,
        },
        None => None,
    }
}

/// The method a `Methodref` to class `id` resolves to: declared by the
/// class, else found in its superclass chain, else chosen among the
/// maximally-specific superinterface methods.
pub open spec fn method_owner(s: Seq<LinkedClassV>, id: ClassId, name: Seq<char>, descriptor: Seq<char>) -> Option<TargetV>
    decreases pos_of(s, id),
{
    let p = pos_of(s, id);
    if p < 0 {
        None
    } else if declared_method(s, id, name, descriptor) is Some {
        declared_method(s, id, name, descriptor)
    } else {
        let from_super = match s[p].super_id {
            Some(sid) => if 0 <= pos_of(s, sid) < p {
                method_owner(s, sid, name, descriptor)
            } else {
                None
            },
            None => None,
        };
        if from_super is Some {
            from_super
        } else {
            chosen_candidate(s, superinterface_candidates(s, id, name, descriptor))
        }
    }
}

/// The method an `InterfaceMethodref` to interface `id` resolves to:
/// declared by the interface, else a public instance method of
/// `java/lang/Object`, else chosen among the maximally-specific
/// superinterface methods.
pub open spec fn interface_method_owner(
    s: Seq<LinkedClassV>,
    r: RegistryV,
    id: ClassId,
    name: Seq<char>,
    descriptor: Seq<char>,
) -> Option<TargetV> {
    if declared_method(s, id, name, descriptor) is Some {
        declared_method(s, id, name, descriptor)
    } else if object_public_method(s, r, name, descriptor) is Some {
        object_public_method(s, r, name, descriptor)
    } else {
        chosen_candidate(s, superinterface_candidates(s, id, name, descriptor))
    }
}

/// The class a lookup by name finds among the loaded classes.
pub fn loaded_class_id_by_name(registry: &ClassIdentityRegistry, internal_name: &str) -> (r: Option<ClassId>)
    ensures
        r == loaded_class_id(registry@, internal_name@),
{
    match registry.class_id_for_defined(LoaderId::SYSTEM, internal_name) {
        Some(id) => Some(id),
        None => registry.class_id_for_defined(LoaderId::BOOTSTRAP, internal_name),
    }
}

proof fn lemma_unique_concrete_is(s: Seq<LinkedClassV>, c: Seq<TargetV>, f: int)
    requires
        0 <= f < c.len(),
        concrete_maximal(s, c, f),
        forall|j: int| 0 <= j < c.len() && #[trigger] concrete_maximal(s, c, j) ==> j == f,
    ensures
        unique_concrete(s, c) == Some(f),
{
    let i = choose|i: int|
        0 <= i < c.len() && concrete_maximal(s, c, i) && forall|j: int|
            0 <= j < c.len() && #[trigger] concrete_maximal(s, c, j) ==> j == i;
    assert(i == f);
}

/// With no concrete maximal candidate, or two, none is alone.
proof fn lemma_no_unique_concrete(s: Seq<LinkedClassV>, c: Seq<TargetV>, f: int, g: int)
    requires
        (forall|j: int| 0 <= j < c.len() ==> !#[trigger] concrete_maximal(s, c, j)) || (0 <= f < c.len()
            && 0 <= g < c.len() && f != g && concrete_maximal(s, c, f) && concrete_maximal(s, c, g)),
    ensures
        unique_concrete(s, c) is None,
{
    if unique_concrete(s, c) is Some {
        let i = unique_concrete(s, c)->0;
        assert(0 <= i < c.len() && concrete_maximal(s, c, i));
        assert(forall|j: int| 0 <= j < c.len() && #[trigger] concrete_maximal(s, c, j) ==> j == i);
        if 0 <= f < c.len() && 0 <= g < c.len() && f != g && concrete_maximal(s, c, f) && concrete_maximal(s, c, g) {
            assert(f == i);
            assert(g == i);
        }
    }
}

/// The class id a `Class` mirror with this name stands for: the class the
/// system loader, else the bootstrap loader, defined under the name; failing
/// both, a new class registered under the bootstrap loader for array and
/// primitive names and under the system loader otherwise.
pub fn class_id_for_mirror_name(registry: &mut ClassIdentityRegistry, internal_name: &str) -> (id: ClassId)
    requires
        old(registry).wf(),
        old(registry)@.next_class_id < u64::MAX,
    ensures
        final(registry).wf(),
        match loaded_class_id(old(registry)@, internal_name@) {
            Some(c) => id == c && final(registry)@ == old(registry)@,
            None => (final(registry)@, id) == registered(
                old(registry)@,
                if vm_defined_mirror(internal_name@) {
                    LoaderId::BOOTSTRAP
                } else {
                    LoaderId::SYSTEM
                },
                internal_name@,
            ),
        },
{
    match loaded_class_id_by_name(registry, internal_name) {
        Some(id) => id,
        None => {
            let defining_loader = if is_vm_defined_mirror_name(internal_name) {
                LoaderId::BOOTSTRAP
            } else {
                LoaderId::SYSTEM
            };
            registry.register_defined_class(defining_loader, internal_name)
        },
    }
}

impl ClassHierarchy {
    /// Whether some other candidate's interface extends the interface of
    /// candidate `i`.
    fn shadowed_by_subinterface(&self, candidates: &Vec<ResolvedMethodTarget>, i: usize) -> (r: bool)
        requires
            self.wf(),
            i < candidates.len(),
        ensures
            r == shadowed(self@, targets_view(candidates@), i as int),
    {
        let ghost c = targets_view(candidates@);
        let mut j: usize = 0;
        while j < candidates.len()
            invariant
                self.wf(),
                i < candidates.len(),
                c == targets_view(candidates@),
                j <= candidates.len(),
                forall|k: int|
                    0 <= k < j ==> !(c[k].owner_class_id != c[i as int].owner_class_id
                        && #[trigger] interface_extends(self@, c[k].owner_class_id, c[i as int].owner_class_id)),
            decreases candidates.len() - j,
        {
            if candidates[j].owner_class_id != candidates[i].owner_class_id
                && self.interface_extends_by_id(candidates[j].owner_class_id, candidates[i].owner_class_id) {
                assert(c[j as int].owner_class_id != c[i as int].owner_class_id && interface_extends(
                    self@,
                    c[j as int].owner_class_id,
                    c[i as int].owner_class_id,
                ));
                return true;
            }
            j = j + 1;
        }
        false
    }

    /// The single maximally-specific non-abstract candidate when there is
    /// exactly one, else the first candidate.
    pub fn choose_superinterface_method_candidate(&self, candidates: Vec<ResolvedMethodTarget>) -> (r: Option<ResolvedMethodTarget>)
        requires
            self.wf(),
        ensures
            match r {
                Some(t) => chosen_candidate(self@, targets_view(candidates@)) == Some(t@),
                None => chosen_candidate(self@, targets_view(candidates@)) is None,
            },
    {
        let ghost s = self@;
        let ghost c = targets_view(candidates@);
        let mut first: Option<usize> = None;
        let mut several = false;
        let mut index: usize = 0;
        while index < candidates.len()
            invariant
                self.wf(),
                s == self@,
                c == targets_view(candidates@),
                index <= candidates.len(),
                first is None ==> forall|j: int| 0 <= j < index ==> !#[trigger] concrete_maximal(s, c, j),
                first matches Some(f) ==> f < index && concrete_maximal(s, c, f as int),
                !several ==> forall|j: int|
                    0 <= j < index && #[trigger] concrete_maximal(s, c, j) ==> first == Some(j as usize),
                several ==> (first matches Some(f) && exists|j: int|
                    0 <= j < index && j != f && #[trigger] concrete_maximal(s, c, j)),
            decreases candidates.len() - index,
        {
            let shadowed = self.shadowed_by_subinterface(&candidates, index);
            let concrete = !shadowed && candidates[index].access_flags & ACC_ABSTRACT == 0;
            assert(concrete == concrete_maximal(s, c, index as int)) by {
                reveal(concrete_maximal);
            }
            if concrete {
                match first {
                    Some(f) => {
                        several = true;
                        assert(index as int != f);
                    },
                    None => {
                        first = Some(index);
                    },
                }
            }
            index = index + 1;
        }
        let mut candidates = candidates;
        match first {
            Some(f) => {
                if !several {
                    proof {
                        lemma_unique_concrete_is(s, c, f as int);
                    }
                    return Some(candidates.remove(f));
                } else {
                    proof {
                        let j = choose|j: int| 0 <= j < index && j != f && #[trigger] concrete_maximal(s, c, j);
                        lemma_no_unique_concrete(s, c, f as int, j);
                    }
                }
            },
            None => {
                proof {
                    lemma_no_unique_concrete(s, c, 0, 0);
                }
            },
        }
        if candidates.len() > 0 {
            Some(candidates.remove(0))
        } else {
            None
        }
    }

    /// The method a `Methodref` to class `class_id` resolves to (JVMS
    /// §5.4.3.3): declared by the class, else found in its superclass chain,
    /// else chosen among the maximally-specific superinterface methods.
    pub fn find_method_owner_by_class_id(&self, class_id: ClassId, method_name: &str, descriptor: &str) -> (r: Option<ResolvedMethodTarget>)
        requires
            self.wf(),
        ensures
            match r {
                Some(t) => method_owner(self@, class_id, method_name@, descriptor@) == Some(t@),
                None => method_owner(self@, class_id, method_name@, descriptor@) is None,
            },
        decreases pos_of(self@, class_id),
    {
        let ghost s = self@;
        if let Some(target) = self.declared_method_by_class_id(class_id, method_name, descriptor) {
            return Some(target);
        }
        let class = match self.get_class_by_id(class_id) {
            Some(c) => c,
            None => {
                return None;
            },
        };
        proof {
            lemma_pos_of(s, class_id);
        }
        let ghost p = pos_of(s, class_id);
        if let Some(super_id) = class.super_id {
            assert(0 <= pos_of(s, super_id) < p) by {
                assert(s[p].super_id == Some(super_id));
            }
            if let Some(target) = self.find_method_owner_by_class_id(super_id, method_name, descriptor) {
                return Some(target);
            }
        }
        let candidates = self.superinterface_method_candidates(class_id, method_name, descriptor);
        self.choose_superinterface_method_candidate(candidates)
    }

    /// The public instance method of `java/lang/Object` with this name and
    /// descriptor.
    pub fn object_public_instance_method(&self, registry: &ClassIdentityRegistry, method_name: &str, descriptor: &str) -> (r: Option<ResolvedMethodTarget>)
        ensures
            match r {
                Some(t) => object_public_method(self@, registry@, method_name@, descriptor@) == Some(t@),
                None => object_public_method(self@, registry@, method_name@, descriptor@) is None,
            },
    {
        let object_id = match loaded_class_id_by_name(registry, "java/lang/Object") {
            Some(id) => id,
            None => {
                return None;
            },
        };
        let target = match self.declared_method_by_class_id(object_id, method_name, descriptor) {
            Some(t) => t,
            None => {
                return None;
            },
        };
        if is_public_instance_method(target.access_flags) {
            Some(target)
        } else {
            None
        }
    }

    /// The method an `InterfaceMethodref` to interface `interface_id`
    /// resolves to (JVMS §5.4.3.4): declared by the interface, else a public
    /// instance method of `java/lang/Object`, else chosen among the
    /// maximally-specific superinterface methods.
    pub fn find_interface_method_owner_by_class_id(
        &self,
        registry: &ClassIdentityRegistry,
        interface_id: ClassId,
        method_name: &str,
        descriptor: &str,
    ) -> (r: Option<ResolvedMethodTarget>)
        requires
            self.wf(),
        ensures
            match r {
                Some(t) => interface_method_owner(self@, registry@, interface_id, method_name@, descriptor@)
                    == Some(t@),
                None => interface_method_owner(self@, registry@, interface_id, method_name@, descriptor@) is None,
            },
    {
        if let Some(target) = self.declared_method_by_class_id(interface_id, method_name, descriptor) {
            return Some(target);
        }
        if let Some(target) = self.object_public_instance_method(registry, method_name, descriptor) {
            return Some(target);
        }
        let candidates = self.superinterface_method_candidates(interface_id, method_name, descriptor);
        self.choose_superinterface_method_candidate(candidates)
    }
}

// ---------------------------------------------------------------------------
// Fields (JVMS §5.4.3.2)
// ---------------------------------------------------------------------------

/// The field a `Fieldref` to class `id` resolves to: declared by the class,
/// else found through its direct superinterfaces in declaration order, else
/// through its superclass.
pub open spec fn field_owner(s: Seq<LinkedClassV>, id: ClassId, name: Seq<char>, descriptor: Seq<char>) -> Option<TargetV>
    decreases pos_of(s, id), 1int, 0int,
{
    let p = pos_of(s, id);
    if p < 0 {
        None
    } else if declared_field(s, id, name, descriptor) is Some {
        declared_field(s, id, name, descriptor)
    } else {
        let from_interfaces = field_owner_from(s, id, 0, name, descriptor);
        if from_interfaces is Some {
            from_interfaces
        } else {
            match s[p].super_id {
                Some(sid) => if 0 <= pos_of(s, sid) < p {
                    field_owner(s, sid, name, descriptor)
                } else {
                    None
                },
                None => None,
            }
        }
    }
}

/// The field found through the direct superinterfaces of `owner` from the
/// `k`-th on.
pub open spec fn field_owner_from(s: Seq<LinkedClassV>, owner: ClassId, k: int, name: Seq<char>, descriptor: Seq<char>) -> Option<TargetV>
    decreases pos_of(s, owner), 0int, direct_interfaces(s, owner).len() - k,
{
    let ifs = direct_interfaces(s, owner);
    if k < 0 || k >= ifs.len() {
        None
    } else {
        let here = if 0 <= pos_of(s, ifs[k]) < pos_of(s, owner) {
            field_owner(s, ifs[k], name, descriptor)
        } else {
            None
        };
        if here is Some {
            here
        } else {
            field_owner_from(s, owner, k + 1, name, descriptor)
        }
    }
}

impl ClassHierarchy {
    /// The field a `Fieldref` to class `class_id` resolves to (JVMS
    /// §5.4.3.2): declared by the class, else found through its direct
    /// superinterfaces in declaration order, else through its superclass.
    pub fn find_field_owner_by_class_id(&self, class_id: ClassId, field_name: &str, descriptor: &str) -> (r: Option<ResolvedFieldTarget>)
        requires
            self.wf(),
        ensures
            match r {
                Some(t) => field_owner(self@, class_id, field_name@, descriptor@) == Some(t@),
                None => field_owner(self@, class_id, field_name@, descriptor@) is None,
            },
        decreases pos_of(self@, class_id),
    {
        let ghost s = self@;
        proof {
            lemma_pos_of(s, class_id);
        }
        let ghost p = pos_of(s, class_id);
        if let Some(target) = self.declared_field_by_class_id(class_id, field_name, descriptor) {
            return Some(target);
        }
        let class = match self.get_class_by_id(class_id) {
            Some(c) => c,
            None => {
                return None;
            },
        };
        let mut k: usize = 0;
        while k < class.interface_ids.len()
            invariant
                self.wf(),
                s == self@,
                0 <= p < s.len(),
                p == pos_of(s, class_id),
                class@ == s[p],
                declared_field(s, class_id, field_name@, descriptor@) is None,
                direct_interfaces(s, class_id) == class.interface_ids@,
                k <= class.interface_ids.len(),
                field_owner_from(s, class_id, 0, field_name@, descriptor@) == field_owner_from(
                    s,
                    class_id,
                    k as int,
                    field_name@,
                    descriptor@,
                ),
            decreases class.interface_ids.len() - k,
        {
            let interface_id = class.interface_ids[k];
            assert(0 <= pos_of(s, interface_id) < p) by {
                assert(s[p].interface_ids[k as int] == interface_id);
            }
            if let Some(target) = self.find_field_owner_by_class_id(interface_id, field_name, descriptor) {
                return Some(target);
            }
            k = k + 1;
        }
        if let Some(super_id) = class.super_id {
            assert(0 <= pos_of(s, super_id) < p) by {
                assert(s[p].super_id == Some(super_id));
            }
            return self.find_field_owner_by_class_id(super_id, field_name, descriptor);
        }
        None
    }
}

// ---------------------------------------------------------------------------
// Symbolic references in the constant pool
// ---------------------------------------------------------------------------

/// A member reference as the constant pool writes it: the index of its
/// `Class` constant, the member's name and descriptor, and whether it is an
/// `InterfaceMethodref`.
#[derive(Clone, Debug)]
pub struct SymbolicMember {
    pub class_index: u16,
    pub name: String,
    pub descriptor: String,
    pub is_interface: bool,
}

/// A member reference as a value.
pub struct SymbolicMemberV {
    pub class_index: u16,
    pub name: Seq<char>,
    pub descriptor: Seq<char>,
    pub is_interface: bool,
}

impl View for SymbolicMember {
    type V = SymbolicMemberV;

    open spec fn view(&self) -> SymbolicMemberV {
        SymbolicMemberV {
            class_index: self.class_index,
            name: self.name@,
            descriptor: self.descriptor@,
            is_interface: self.is_interface,
        }
    }
}

/// The reference a member reference constant makes, when its
/// `NameAndType` is well formed.
pub open spec fn symbolic_of(cp: Seq<CpEntry>, class_index: u16, name_and_type_index: u16, is_interface: bool) -> Option<SymbolicMemberV> {
    match member_name_and_descriptor_of(cp, name_and_type_index) {
        Some((n, d)) => Some(SymbolicMemberV { class_index, name: n, descriptor: d, is_interface }),
        None => None,
    }
}

/// The method reference at `idx`: a `Methodref` or `InterfaceMethodref`.
pub open spec fn method_reference_of(cp: Seq<CpEntry>, idx: u16) -> Option<SymbolicMemberV> {
    if (idx as int) < cp.len() {
        match cp[idx as int] {
            CpEntry::Methodref { class_index, name_and_type_index } => symbolic_of(
                cp,
                class_index,
                name_and_type_index,
                false,
            ),
            CpEntry::InterfaceMethodref { class_index, name_and_type_index } => symbolic_of(
                cp,
                class_index,
                name_and_type_index,
                true,
            ),
            _ => None,
        }
    } else {
        None
    }
}

/// The field reference at `idx`.
pub open spec fn field_reference_of(cp: Seq<CpEntry>, idx: u16) -> Option<SymbolicMemberV> {
    if (idx as int) < cp.len() {
        match cp[idx as int] {
            CpEntry::Fieldref { class_index, name_and_type_index } => symbolic_of(
                cp,
                class_index,
                name_and_type_index,
                false,
            ),
            _ => None,
        }
    } else {
        None
    }
}

/// The error for a method reference that is not one.
pub open spec fn invalid_method_reference_text(idx: u16) -> Seq<char> {
    "java/lang/NoSuchMethodError: invalid method reference #"@ + nat_text(idx as nat)
}

/// The error for a field reference that is not one.
pub open spec fn invalid_field_reference_text(idx: u16) -> Seq<char> {
    "java/lang/NoSuchFieldError: invalid field reference #"@ + nat_text(idx as nat)
}

/// The name error messages give a class id: its internal name, or
/// `<invalid>` for an id with no record.
pub open spec fn record_name(r: RegistryV, id: ClassId) -> Seq<char> {
    if r.records.contains_key(id) {
        r.records[id].internal_name
    } else {
        "<invalid>"@
    }
}

/// Whether the linked class with this id is an interface.
pub open spec fn is_interface_class(s: Seq<LinkedClassV>, id: ClassId) -> bool {
    pos_of(s, id) >= 0 && s[pos_of(s, id)].access_flags & ACC_INTERFACE != 0
}

/// The outcome of resolving a method reference against the class it names.
pub open spec fn method_resolution(
    s: Seq<LinkedClassV>,
    r: RegistryV,
    id: ClassId,
    m: SymbolicMemberV,
) -> Result<TargetV, Seq<char>> {
    if m.is_interface != is_interface_class(s, id) {
        if m.is_interface {
            Err(
                "java/lang/IncompatibleClassChangeError: InterfaceMethodref resolved to non-interface "@
                    + record_name(r, id),
            )
        } else {
            Err("java/lang/IncompatibleClassChangeError: Methodref resolved to interface "@ + record_name(r, id))
        }
    } else {
        let found = if m.is_interface {
            interface_method_owner(s, r, id, m.name, m.descriptor)
        } else {
            method_owner(s, id, m.name, m.descriptor)
        };
        match found {
            Some(t) => Ok(t),
            None => Err(
                "java/lang/NoSuchMethodError: "@ + record_name(r, id) + "."@ + m.name + m.descriptor,
            ),
        }
    }
}

/// The outcome of resolving a field reference against the class it names.
pub open spec fn field_resolution(s: Seq<LinkedClassV>, r: RegistryV, id: ClassId, m: SymbolicMemberV) -> Result<TargetV, Seq<char>> {
    match field_owner(s, id, m.name, m.descriptor) {
        Some(t) => Ok(t),
        None => Err(
            "java/lang/NoSuchFieldError: "@ + record_name(r, id) + "."@ + m.name + ":"@ + m.descriptor,
        ),
    }
}

fn symbolic_member(cp: &[ConstantPoolEntry], class_index: u16, name_and_type_index: u16, is_interface: bool) -> (r: Option<SymbolicMember>)
    ensures
        match r {
            Some(m) => symbolic_of(cp_slice_view(cp), class_index, name_and_type_index, is_interface) == Some(m@),
            None => symbolic_of(cp_slice_view(cp), class_index, name_and_type_index, is_interface) is None,
        },
{
    match member_name_and_descriptor(cp, name_and_type_index) {
        Some((name, descriptor)) => Some(SymbolicMember { class_index, name, descriptor, is_interface }),
        None => None,
    }
}

/// The method reference at `idx`: a `Methodref` or `InterfaceMethodref`
/// with a well-formed `NameAndType`.
pub fn symbolic_method_reference(cp: &[ConstantPoolEntry], idx: u16) -> (r: Result<SymbolicMember, String>)
    ensures
        match r {
            Ok(m) => method_reference_of(cp_slice_view(cp), idx) == Some(m@),
            Err(e) => method_reference_of(cp_slice_view(cp), idx) is None && e@ == invalid_method_reference_text(idx),
        },
{
    let found = if (idx as usize) < cp.len() {
        match &cp[idx as usize] {
            ConstantPoolEntry::Methodref { class_index, name_and_type_index } => symbolic_member(
                cp,
                *class_index,
                *name_and_type_index,
                false,
            ),
            ConstantPoolEntry::InterfaceMethodref { class_index, name_and_type_index } => symbolic_member(
                cp,
                *class_index,
                *name_and_type_index,
                true,
            ),
            _ => None,
        }
    } else {
        None
    };
    match found {
        Some(m) => Ok(m),
        None => {
            let mut e = String::new();
            e.append("java/lang/NoSuchMethodError: invalid method reference #");
            push_nat_text(&mut e, idx as u64);
            Err(e)
        },
    }
}

/// The field reference at `idx`: a `Fieldref` with a well-formed
/// `NameAndType`.
pub fn symbolic_field_reference(cp: &[ConstantPoolEntry], idx: u16) -> (r: Result<SymbolicMember, String>)
    ensures
        match r {
            Ok(m) => field_reference_of(cp_slice_view(cp), idx) == Some(m@),
            Err(e) => field_reference_of(cp_slice_view(cp), idx) is None && e@ == invalid_field_reference_text(idx),
        },
{
    let found = if (idx as usize) < cp.len() {
        match &cp[idx as usize] {
            ConstantPoolEntry::Fieldref { class_index, name_and_type_index } => symbolic_member(
                cp,
                *class_index,
                *name_and_type_index,
                false,
            ),
            _ => None,
        }
    } else {
        None
    };
    match found {
        Some(m) => Ok(m),
        None => {
            let mut e = String::new();
            e.append("java/lang/NoSuchFieldError: invalid field reference #");
            push_nat_text(&mut e, idx as u64);
            Err(e)
        },
    }
}

fn record_name_of(registry: &ClassIdentityRegistry, class_id: ClassId) -> (r: String)
    requires
        registry.wf(),
    ensures
        r@ == record_name(registry@, class_id),
{
    match registry.class_record(class_id) {
        Some(record) => record.internal_name.clone(),
        None => {
            let mut r = String::new();
            r.append("<invalid>");
            r
        },
    }
}

impl ClassHierarchy {
    /// Resolve a method reference against the class its `Class` constant
    /// resolved to: an `InterfaceMethodref` must name an interface and a
    /// `Methodref` a class, and the member must be found.
    pub fn resolve_method_reference(
        &self,
        registry: &ClassIdentityRegistry,
        referenced_class_id: ClassId,
        reference: &SymbolicMember,
    ) -> (r: Result<ResolvedMethodTarget, String>)
        requires
            self.wf(),
            registry.wf(),
        ensures
            match r {
                Ok(t) => method_resolution(self@, registry@, referenced_class_id, reference@) == Ok::<
                    TargetV,
                    Seq<char>,
                >(t@),
                Err(e) => method_resolution(self@, registry@, referenced_class_id, reference@) == Err::<
                    TargetV,
                    Seq<char>,
                >(e@),
            },
    {
        let is_interface = self.class_is_interface_by_id(referenced_class_id);
        if reference.is_interface != is_interface {
            let referenced_class = record_name_of(registry, referenced_class_id);
            let mut e = String::new();
            if reference.is_interface {
                e.append("java/lang/IncompatibleClassChangeError: InterfaceMethodref resolved to non-interface ");
            } else {
                e.append("java/lang/IncompatibleClassChangeError: Methodref resolved to interface ");
            }
            e.append(&referenced_class);
            return Err(e);
        }
        let target = if reference.is_interface {
            self.find_interface_method_owner_by_class_id(
                registry,
                referenced_class_id,
                &reference.name,
                &reference.descriptor,
            )
        } else {
            self.find_method_owner_by_class_id(referenced_class_id, &reference.name, &reference.descriptor)
        };
        match target {
            Some(t) => Ok(t),
            None => {
                let referenced_class = record_name_of(registry, referenced_class_id);
                let mut e = String::new();
                e.append("java/lang/NoSuchMethodError: ");
                e.append(&referenced_class);
                e.append(".");
                e.append(&reference.name);
                e.append(&reference.descriptor);
                Err(e)
            },
        }
    }

    /// Resolve a field reference against the class its `Class` constant
    /// resolved to.
    pub fn resolve_field_reference(
        &self,
        registry: &ClassIdentityRegistry,
        referenced_class_id: ClassId,
        reference: &SymbolicMember,
    ) -> (r: Result<ResolvedFieldTarget, String>)
        requires
            self.wf(),
            registry.wf(),
        ensures
            match r {
                Ok(t) => field_resolution(self@, registry@, referenced_class_id, reference@) == Ok::<
                    TargetV,
                    Seq<char>,
                >(t@),
                Err(e) => field_resolution(self@, registry@, referenced_class_id, reference@) == Err::<
                    TargetV,
                    Seq<char>,
                >(e@),
            },
    {
        match self.find_field_owner_by_class_id(referenced_class_id, &reference.name, &reference.descriptor) {
            Some(t) => Ok(t),
            None => {
                let referenced_class = record_name_of(registry, referenced_class_id);
                let mut e = String::new();
                e.append("java/lang/NoSuchFieldError: ");
                e.append(&referenced_class);
                e.append(".");
                e.append(&reference.name);
                e.append(":");
                e.append(&reference.descriptor);
                Err(e)
            },
        }
    }
}

// ---------------------------------------------------------------------------
// Laws
// ---------------------------------------------------------------------------

/// Every member in the list is declared, under this name and descriptor, by
/// the class it names as owner.
pub open spec fn all_declared_methods(s: Seq<LinkedClassV>, c: Seq<TargetV>, name: Seq<char>, descriptor: Seq<char>) -> bool {
    forall|k: int| 0 <= k < c.len() ==> declared_method(s, (#[trigger] c[k]).owner_class_id, name, descriptor) == Some(c[k])
}

/// A declared member has the name and descriptor asked for, and its owner
/// is the class asked about.
proof fn lemma_declared_method(s: Seq<LinkedClassV>, id: ClassId, name: Seq<char>, descriptor: Seq<char>)
    ensures
        declared_method(s, id, name, descriptor) matches Some(t) ==> t.owner_class_id == id && t.name == name
            && t.descriptor == descriptor,
{
    lemma_pos_of(s, id);
    let p = pos_of(s, id);
    if p >= 0 {
        let ms = s[p].methods;
        if exists|k: int| 0 <= k < ms.len() && member_matches(ms[k], name, descriptor) {
            let k = choose|k: int| 0 <= k < ms.len() && member_matches(ms[k], name, descriptor);
            lemma_first_member_some(ms, name, descriptor, k);
        }
    }
}

proof fn lemma_field_declared(s: Seq<LinkedClassV>, id: ClassId, name: Seq<char>, descriptor: Seq<char>)
    ensures
        declared_field(s, id, name, descriptor) matches Some(t) ==> t.owner_class_id == id && t.name == name
            && t.descriptor == descriptor,
{
    lemma_pos_of(s, id);
    let p = pos_of(s, id);
    if p >= 0 {
        let fs = s[p].fields;
        if exists|k: int| 0 <= k < fs.len() && member_matches(fs[k], name, descriptor) {
            let k = choose|k: int| 0 <= k < fs.len() && member_matches(fs[k], name, descriptor);
            lemma_first_member_some(fs, name, descriptor, k);
        }
    }
}

proof fn lemma_all_declared_concat(s: Seq<LinkedClassV>, a: Seq<TargetV>, b: Seq<TargetV>, name: Seq<char>, descriptor: Seq<char>)
    requires
        all_declared_methods(s, a, name, descriptor),
        all_declared_methods(s, b, name, descriptor),
    ensures
        all_declared_methods(s, a + b, name, descriptor),
{
    assert forall|k: int| 0 <= k < (a + b).len() implies declared_method(
        s,
        (#[trigger] (a + b)[k]).owner_class_id,
        name,
        descriptor,
    ) == Some((a + b)[k]) by {
        if k < a.len() {
            assert((a + b)[k] == a[k]);
        } else {
            assert((a + b)[k] == b[k - a.len()]);
        }
    }
}

proof fn lemma_collect_declared(s: Seq<LinkedClassV>, iid: ClassId, name: Seq<char>, descriptor: Seq<char>, seen: Seq<ClassId>)
    ensures
        all_declared_methods(s, collect_candidates(s, iid, name, descriptor, seen).1, name, descriptor),
    decreases pos_of(s, iid), 2int, 0int,
{
    if !seen.contains(iid) {
        lemma_declared_method(s, iid, name, descriptor);
        let own = match declared_method(s, iid, name, descriptor) {
            Some(t) => if inherited_candidate(t.access_flags) {
                seq![t]
            } else {
                Seq::empty()
            },
            None => Seq::empty(),
        };
        assert(all_declared_methods(s, own, name, descriptor));
        if pos_of(s, iid) >= 0 {
            lemma_collect_from_declared(s, iid, 0, name, descriptor, seen.push(iid));
            let rest = collect_candidates_from(s, iid, 0, name, descriptor, seen.push(iid));
            lemma_all_declared_concat(s, own, rest.1, name, descriptor);
        }
    }
}

proof fn lemma_collect_from_declared(
    s: Seq<LinkedClassV>,
    owner: ClassId,
    k: int,
    name: Seq<char>,
    descriptor: Seq<char>,
    seen: Seq<ClassId>,
)
    ensures
        all_declared_methods(s, collect_candidates_from(s, owner, k, name, descriptor, seen).1, name, descriptor),
    decreases pos_of(s, owner), 1int, direct_interfaces(s, owner).len() - k,
{
    let ifs = direct_interfaces(s, owner);
    if 0 <= k < ifs.len() {
        let first = if 0 <= pos_of(s, ifs[k]) < pos_of(s, owner) {
            lemma_collect_declared(s, ifs[k], name, descriptor, seen);
            collect_candidates(s, ifs[k], name, descriptor, seen)
        } else {
            (seen, Seq::empty())
        };
        lemma_collect_from_declared(s, owner, k + 1, name, descriptor, first.0);
        let rest = collect_candidates_from(s, owner, k + 1, name, descriptor, first.0);
        lemma_all_declared_concat(s, first.1, rest.1, name, descriptor);
    }
}

proof fn lemma_chosen_is_candidate(s: Seq<LinkedClassV>, c: Seq<TargetV>)
    ensures
        chosen_candidate(s, c) matches Some(t) ==> exists|k: int| 0 <= k < c.len() && c[k] == t,
{
    if unique_concrete(s, c) is Some {
        let i = unique_concrete(s, c)->0;
        assert(0 <= i < c.len());
        assert(c[i] == c[i]);
    } else if c.len() > 0 {
        assert(c[0] == c[0]);
    }
}

proof fn lemma_chosen_declared(s: Seq<LinkedClassV>, id: ClassId, name: Seq<char>, descriptor: Seq<char>)
    ensures
        chosen_candidate(s, superinterface_candidates(s, id, name, descriptor)) matches Some(t)
            ==> declared_method(s, t.owner_class_id, name, descriptor) == Some(t),
{
    let c = superinterface_candidates(s, id, name, descriptor);
    lemma_collect_from_declared(s, id, 0, name, descriptor, Seq::empty());
    lemma_chosen_is_candidate(s, c);
    if chosen_candidate(s, c) is Some {
        let t = chosen_candidate(s, c)->0;
        let k = choose|k: int| 0 <= k < c.len() && c[k] == t;
        assert(declared_method(s, c[k].owner_class_id, name, descriptor) == Some(c[k]));
    }
}

/// What method resolution finds is declared, under the name and descriptor
/// asked for, by the class it names as the owner.
pub proof fn law_method_owner_declares(s: Seq<LinkedClassV>, id: ClassId, name: Seq<char>, descriptor: Seq<char>)
    ensures
        method_owner(s, id, name, descriptor) matches Some(t) ==> declared_method(
            s,
            t.owner_class_id,
            name,
            descriptor,
        ) == Some(t) && t.name == name && t.descriptor == descriptor,
    decreases pos_of(s, id),
{
    lemma_pos_of(s, id);
    let p = pos_of(s, id);
    if p >= 0 {
        lemma_declared_method(s, id, name, descriptor);
        if declared_method(s, id, name, descriptor) is None {
            if let Some(sid) = s[p].super_id {
                if 0 <= pos_of(s, sid) < p {
                    law_method_owner_declares(s, sid, name, descriptor);
                }
            }
            lemma_chosen_declared(s, id, name, descriptor);
            if chosen_candidate(s, superinterface_candidates(s, id, name, descriptor)) is Some {
                let t = chosen_candidate(s, superinterface_candidates(s, id, name, descriptor))->0;
                lemma_declared_method(s, t.owner_class_id, name, descriptor);
            }
        }
    }
}

/// What interface method resolution finds is declared, under the name and
/// descriptor asked for, by the class it names as the owner.
pub proof fn law_interface_method_owner_declares(
    s: Seq<LinkedClassV>,
    r: RegistryV,
    id: ClassId,
    name: Seq<char>,
    descriptor: Seq<char>,
)
    ensures
        interface_method_owner(s, r, id, name, descriptor) matches Some(t) ==> declared_method(
            s,
            t.owner_class_id,
            name,
            descriptor,
        ) == Some(t) && t.name == name && t.descriptor == descriptor,
{
    lemma_declared_method(s, id, name, descriptor);
    if let Some(oid) = loaded_class_id(r, "java/lang/Object"@) {
        lemma_declared_method(s, oid, name, descriptor);
    }
    lemma_chosen_declared(s, id, name, descriptor);
    if chosen_candidate(s, superinterface_candidates(s, id, name, descriptor)) is Some {
        let t = chosen_candidate(s, superinterface_candidates(s, id, name, descriptor))->0;
        lemma_declared_method(s, t.owner_class_id, name, descriptor);
    }
}

/// What field resolution finds is declared, under the name and descriptor
/// asked for, by the class it names as the owner.
pub proof fn law_field_owner_declares(s: Seq<LinkedClassV>, id: ClassId, name: Seq<char>, descriptor: Seq<char>)
    ensures
        field_owner(s, id, name, descriptor) matches Some(t) ==> declared_field(
            s,
            t.owner_class_id,
            name,
            descriptor,
        ) == Some(t) && t.name == name && t.descriptor == descriptor,
    decreases pos_of(s, id), 1int, 0int,
{
    lemma_pos_of(s, id);
    let p = pos_of(s, id);
    if p >= 0 {
        lemma_field_declared(s, id, name, descriptor);
        if declared_field(s, id, name, descriptor) is None {
            lemma_field_owner_from_declares(s, id, 0, name, descriptor);
            if let Some(sid) = s[p].super_id {
                if 0 <= pos_of(s, sid) < p {
                    law_field_owner_declares(s, sid, name, descriptor);
                }
            }
        }
    }
}

proof fn lemma_field_owner_from_declares(s: Seq<LinkedClassV>, owner: ClassId, k: int, name: Seq<char>, descriptor: Seq<char>)
    ensures
        field_owner_from(s, owner, k, name, descriptor) matches Some(t) ==> declared_field(
            s,
            t.owner_class_id,
            name,
            descriptor,
        ) == Some(t) && t.name == name && t.descriptor == descriptor,
    decreases pos_of(s, owner), 0int, direct_interfaces(s, owner).len() - k,
{
    let ifs = direct_interfaces(s, owner);
    if 0 <= k < ifs.len() {
        if 0 <= pos_of(s, ifs[k]) < pos_of(s, owner) {
            law_field_owner_declares(s, ifs[k], name, descriptor);
        }
        lemma_field_owner_from_declares(s, owner, k + 1, name, descriptor);
    }
}

/// Whether `sub` is `sup` or inherits from it through superclass and
/// superinterface edges.
pub open spec fn inherits_from(s: Seq<LinkedClassV>, sub: ClassId, sup: ClassId) -> bool
    decreases pos_of(s, sub), 1int, 0int,
{
    let p = pos_of(s, sub);
    if sub == sup {
        true
    } else if p < 0 {
        false
    } else {
        (match s[p].super_id {
            Some(x) => 0 <= pos_of(s, x) < p && inherits_from(s, x, sup),
            None => false,
        }) || inherits_via(s, sub, sup, 0)
    }
}

/// Whether `sub` inherits from `sup` through one of its direct
/// superinterfaces from the `k`-th on.
pub open spec fn inherits_via(s: Seq<LinkedClassV>, sub: ClassId, sup: ClassId, k: int) -> bool
    decreases pos_of(s, sub), 0int, direct_interfaces(s, sub).len() - k,
{
    let ifs = direct_interfaces(s, sub);
    if k < 0 || k >= ifs.len() {
        false
    } else {
        (0 <= pos_of(s, ifs[k]) < pos_of(s, sub) && inherits_from(s, ifs[k], sup)) || inherits_via(
            s,
            sub,
            sup,
            k + 1,
        )
    }
}

proof fn lemma_inherits_via_at(s: Seq<LinkedClassV>, sub: ClassId, sup: ClassId, k: int, j: int)
    requires
        0 <= k <= j < direct_interfaces(s, sub).len(),
        0 <= pos_of(s, direct_interfaces(s, sub)[j]) < pos_of(s, sub),
        inherits_from(s, direct_interfaces(s, sub)[j], sup),
    ensures
        inherits_via(s, sub, sup, k),
    decreases j - k,
{
    if k < j {
        lemma_inherits_via_at(s, sub, sup, k + 1, j);
    }
}

proof fn lemma_inherits_via_mono(s: Seq<LinkedClassV>, sub: ClassId, sup: ClassId, k: int)
    requires
        0 <= k,
        inherits_via(s, sub, sup, k + 1),
    ensures
        inherits_via(s, sub, sup, k),
{
    let ifs = direct_interfaces(s, sub);
    if k >= ifs.len() {
        assert(!inherits_via(s, sub, sup, k + 1));
    }
}

proof fn lemma_collect_inherits(s: Seq<LinkedClassV>, iid: ClassId, name: Seq<char>, descriptor: Seq<char>, seen: Seq<ClassId>)
    ensures
        forall|i: int|
            0 <= i < collect_candidates(s, iid, name, descriptor, seen).1.len() ==> inherits_from(
                s,
                iid,
                (#[trigger] collect_candidates(s, iid, name, descriptor, seen).1[i]).owner_class_id,
            ),
    decreases pos_of(s, iid), 2int, 0int,
{
    if !seen.contains(iid) {
        lemma_declared_method(s, iid, name, descriptor);
        let own = match declared_method(s, iid, name, descriptor) {
            Some(t) => if inherited_candidate(t.access_flags) {
                seq![t]
            } else {
                Seq::empty()
            },
            None => Seq::empty(),
        };
        assert(forall|i: int| 0 <= i < own.len() ==> (#[trigger] own[i]).owner_class_id == iid);
        if pos_of(s, iid) >= 0 {
            lemma_collect_from_inherits(s, iid, 0, name, descriptor, seen.push(iid));
            let rest = collect_candidates_from(s, iid, 0, name, descriptor, seen.push(iid));
            let all = own + rest.1;
            assert forall|i: int| 0 <= i < all.len() implies inherits_from(s, iid, (#[trigger] all[i]).owner_class_id) by {
                if i < own.len() {
                    assert(all[i] == own[i]);
                } else {
                    assert(all[i] == rest.1[i - own.len()]);
                    assert(inherits_via(s, iid, rest.1[i - own.len()].owner_class_id, 0));
                }
            }
        } else {
            assert(own.len() == 0);
        }
    }
}

proof fn lemma_collect_from_inherits(
    s: Seq<LinkedClassV>,
    owner: ClassId,
    k: int,
    name: Seq<char>,
    descriptor: Seq<char>,
    seen: Seq<ClassId>,
)
    requires
        0 <= k,
    ensures
        forall|i: int|
            0 <= i < collect_candidates_from(s, owner, k, name, descriptor, seen).1.len() ==> inherits_via(
                s,
                owner,
                (#[trigger] collect_candidates_from(s, owner, k, name, descriptor, seen).1[i]).owner_class_id,
                k,
            ),
    decreases pos_of(s, owner), 1int, direct_interfaces(s, owner).len() - k,
{
    let ifs = direct_interfaces(s, owner);
    if k < ifs.len() {
        let guard = 0 <= pos_of(s, ifs[k]) < pos_of(s, owner);
        let first = if guard {
            lemma_collect_inherits(s, ifs[k], name, descriptor, seen);
            collect_candidates(s, ifs[k], name, descriptor, seen)
        } else {
            (seen, Seq::empty())
        };
        lemma_collect_from_inherits(s, owner, k + 1, name, descriptor, first.0);
        let rest = collect_candidates_from(s, owner, k + 1, name, descriptor, first.0);
        let all = first.1 + rest.1;
        assert forall|i: int| 0 <= i < all.len() implies inherits_via(
            s,
            owner,
            (#[trigger] all[i]).owner_class_id,
            k,
        ) by {
            if i < first.1.len() {
                assert(all[i] == first.1[i]);
                assert(guard);
                lemma_inherits_via_at(s, owner, all[i].owner_class_id, k, k);
            } else {
                assert(all[i] == rest.1[i - first.1.len()]);
                lemma_inherits_via_mono(s, owner, all[i].owner_class_id, k);
            }
        }
    }
}

proof fn lemma_chosen_inherited(s: Seq<LinkedClassV>, id: ClassId, name: Seq<char>, descriptor: Seq<char>)
    ensures
        chosen_candidate(s, superinterface_candidates(s, id, name, descriptor)) matches Some(t)
            ==> inherits_from(s, id, t.owner_class_id),
{
    let c = superinterface_candidates(s, id, name, descriptor);
    lemma_collect_from_inherits(s, id, 0, name, descriptor, Seq::empty());
    lemma_chosen_is_candidate(s, c);
    if chosen_candidate(s, c) is Some {
        let t = chosen_candidate(s, c)->0;
        let k = choose|k: int| 0 <= k < c.len() && c[k] == t;
        assert(inherits_via(s, id, c[k].owner_class_id, 0));
        if id != t.owner_class_id {
            lemma_pos_of(s, id);
            if pos_of(s, id) < 0 {
                assert(direct_interfaces(s, id).len() == 0);
            }
        }
    }
}

/// Method resolution finds a member of the class asked about or of one of
/// its supertypes.
pub proof fn law_method_owner_is_supertype(s: Seq<LinkedClassV>, id: ClassId, name: Seq<char>, descriptor: Seq<char>)
    ensures
        method_owner(s, id, name, descriptor) matches Some(t) ==> inherits_from(s, id, t.owner_class_id),
    decreases pos_of(s, id),
{
    lemma_pos_of(s, id);
    let p = pos_of(s, id);
    if p >= 0 {
        lemma_declared_method(s, id, name, descriptor);
        if declared_method(s, id, name, descriptor) is None {
            if let Some(sid) = s[p].super_id {
                if 0 <= pos_of(s, sid) < p {
                    law_method_owner_is_supertype(s, sid, name, descriptor);
                }
            }
            lemma_chosen_inherited(s, id, name, descriptor);
        }
    }
}

/// Field resolution finds a member of the class asked about or of one of
/// its supertypes.
pub proof fn law_field_owner_is_supertype(s: Seq<LinkedClassV>, id: ClassId, name: Seq<char>, descriptor: Seq<char>)
    ensures
        field_owner(s, id, name, descriptor) matches Some(t) ==> inherits_from(s, id, t.owner_class_id),
    decreases pos_of(s, id), 1int, 0int,
{
    lemma_pos_of(s, id);
    let p = pos_of(s, id);
    if p >= 0 {
        lemma_field_declared(s, id, name, descriptor);
        if declared_field(s, id, name, descriptor) is None {
            lemma_field_owner_from_is_supertype(s, id, 0, name, descriptor);
            if let Some(sid) = s[p].super_id {
                if 0 <= pos_of(s, sid) < p {
                    law_field_owner_is_supertype(s, sid, name, descriptor);
                }
            }
        }
    }
}

proof fn lemma_field_owner_from_is_supertype(s: Seq<LinkedClassV>, owner: ClassId, k: int, name: Seq<char>, descriptor: Seq<char>)
    requires
        0 <= k,
    ensures
        field_owner_from(s, owner, k, name, descriptor) matches Some(t) ==> inherits_via(
            s,
            owner,
            t.owner_class_id,
            k,
        ),
    decreases pos_of(s, owner), 0int, direct_interfaces(s, owner).len() - k,
{
    let ifs = direct_interfaces(s, owner);
    if k < ifs.len() {
        if 0 <= pos_of(s, ifs[k]) < pos_of(s, owner) {
            law_field_owner_is_supertype(s, ifs[k], name, descriptor);
            if field_owner(s, ifs[k], name, descriptor) is Some {
                let t = field_owner(s, ifs[k], name, descriptor)->0;
                lemma_inherits_via_at(s, owner, t.owner_class_id, k, k);
            }
        }
        lemma_field_owner_from_is_supertype(s, owner, k + 1, name, descriptor);
        if field_owner_from(s, owner, k + 1, name, descriptor) is Some {
            let t = field_owner_from(s, owner, k + 1, name, descriptor)->0;
            lemma_inherits_via_mono(s, owner, t.owner_class_id, k);
        }
    }
}

// Linking a class leaves earlier resolutions alone.

proof fn lemma_link_same_class(s: Seq<LinkedClassV>, c: LinkedClassV, id: ClassId, name: Seq<char>, descriptor: Seq<char>)
    requires
        pos_of(s, c.id) < 0,
        id != c.id,
    ensures
        pos_of(s.push(c), id) == pos_of(s, id),
        pos_of(s, id) >= 0 ==> s.push(c)[pos_of(s, id)] == s[pos_of(s, id)],
        declared_method(s.push(c), id, name, descriptor) == declared_method(s, id, name, descriptor),
        declared_field(s.push(c), id, name, descriptor) == declared_field(s, id, name, descriptor),
        direct_interfaces(s.push(c), id) == direct_interfaces(s, id),
        forall|x: ClassId|
            (0 <= #[trigger] pos_of(s.push(c), x) < pos_of(s, id)) == (0 <= pos_of(s, x) < pos_of(s, id)),
{
    lemma_pos_push(s, c);
    lemma_pos_of(s, id);
}

proof fn lemma_link_extends(s: Seq<LinkedClassV>, c: LinkedClassV, a: ClassId, b: ClassId, k: int)
    requires
        pos_of(s, c.id) < 0,
        a != c.id,
    ensures
        extends_from(s.push(c), a, b, k) == extends_from(s, a, b, k),
    decreases pos_of(s, a), direct_interfaces(s, a).len() - k,
{
    let t = s.push(c);
    lemma_link_same_class(s, c, a, Seq::empty(), Seq::empty());
    let ifs = direct_interfaces(s, a);
    if 0 <= k < ifs.len() {
        let x = ifs[k];
        assert((0 <= pos_of(t, x) < pos_of(t, a)) == (0 <= pos_of(s, x) < pos_of(s, a)));
        if 0 <= pos_of(s, x) < pos_of(s, a) {
            lemma_pos_of(s, c.id);
            lemma_pos_of(s, x);
            assert(x != c.id);
            lemma_link_extends(s, c, x, b, 0);
        }
        lemma_link_extends(s, c, a, b, k + 1);
    }
}

proof fn lemma_link_collect(s: Seq<LinkedClassV>, c: LinkedClassV, iid: ClassId, name: Seq<char>, descriptor: Seq<char>, seen: Seq<ClassId>)
    requires
        pos_of(s, c.id) < 0,
        iid != c.id,
    ensures
        collect_candidates(s.push(c), iid, name, descriptor, seen) == collect_candidates(s, iid, name, descriptor, seen),
    decreases pos_of(s, iid), 2int, 0int,
{
    lemma_link_same_class(s, c, iid, name, descriptor);
    if !seen.contains(iid) && pos_of(s, iid) >= 0 {
        lemma_link_collect_from(s, c, iid, 0, name, descriptor, seen.push(iid));
    }
}

proof fn lemma_link_collect_from(
    s: Seq<LinkedClassV>,
    c: LinkedClassV,
    owner: ClassId,
    k: int,
    name: Seq<char>,
    descriptor: Seq<char>,
    seen: Seq<ClassId>,
)
    requires
        pos_of(s, c.id) < 0,
        owner != c.id,
    ensures
        collect_candidates_from(s.push(c), owner, k, name, descriptor, seen) == collect_candidates_from(
            s,
            owner,
            k,
            name,
            descriptor,
            seen,
        ),
    decreases pos_of(s, owner), 1int, direct_interfaces(s, owner).len() - k,
{
    let t = s.push(c);
    lemma_link_same_class(s, c, owner, name, descriptor);
    let ifs = direct_interfaces(s, owner);
    if 0 <= k < ifs.len() {
        let x = ifs[k];
        assert((0 <= pos_of(t, x) < pos_of(t, owner)) == (0 <= pos_of(s, x) < pos_of(s, owner)));
        let first = if 0 <= pos_of(s, x) < pos_of(s, owner) {
            lemma_pos_of(s, c.id);
            lemma_pos_of(s, x);
            lemma_link_collect(s, c, x, name, descriptor, seen);
            collect_candidates(s, x, name, descriptor, seen)
        } else {
            (seen, Seq::empty())
        };
        lemma_link_collect_from(s, c, owner, k + 1, name, descriptor, first.0);
    }
}

proof fn lemma_link_chosen(s: Seq<LinkedClassV>, c: LinkedClassV, cands: Seq<TargetV>)
    requires
        pos_of(s, c.id) < 0,
        forall|i: int| 0 <= i < cands.len() ==> (#[trigger] cands[i]).owner_class_id != c.id,
    ensures
        chosen_candidate(s.push(c), cands) == chosen_candidate(s, cands),
{
    let t = s.push(c);
    assert forall|i: int| 0 <= i < cands.len() implies #[trigger] concrete_maximal(t, cands, i) == concrete_maximal(
        s,
        cands,
        i,
    ) by {
        reveal(concrete_maximal);
        assert forall|j: int| 0 <= j < cands.len() implies #[trigger] interface_extends(
            t,
            cands[j].owner_class_id,
            cands[i].owner_class_id,
        ) == interface_extends(s, cands[j].owner_class_id, cands[i].owner_class_id) by {
            lemma_link_extends(s, c, cands[j].owner_class_id, cands[i].owner_class_id, 0);
        }
        if shadowed(t, cands, i) {
            let j = choose|j: int|
                0 <= j < cands.len() && cands[j].owner_class_id != cands[i].owner_class_id
                    && #[trigger] interface_extends(t, cands[j].owner_class_id, cands[i].owner_class_id);
            assert(interface_extends(s, cands[j].owner_class_id, cands[i].owner_class_id));
        }
        if shadowed(s, cands, i) {
            let j = choose|j: int|
                0 <= j < cands.len() && cands[j].owner_class_id != cands[i].owner_class_id
                    && #[trigger] interface_extends(s, cands[j].owner_class_id, cands[i].owner_class_id);
            assert(interface_extends(t, cands[j].owner_class_id, cands[i].owner_class_id));
        }
    }
    if unique_concrete(s, cands) is Some {
        let f = unique_concrete(s, cands)->0;
        assert(0 <= f < cands.len() && concrete_maximal(s, cands, f));
        assert(forall|j: int| 0 <= j < cands.len() && #[trigger] concrete_maximal(s, cands, j) ==> j == f);
        assert(concrete_maximal(t, cands, f));
        assert forall|j: int| 0 <= j < cands.len() && #[trigger] concrete_maximal(t, cands, j) implies j == f by {
            assert(concrete_maximal(s, cands, j));
        }
        lemma_unique_concrete_is(t, cands, f);
    } else {
        if unique_concrete(t, cands) is Some {
            let f = unique_concrete(t, cands)->0;
            assert(0 <= f < cands.len() && concrete_maximal(t, cands, f));
            assert(forall|j: int| 0 <= j < cands.len() && #[trigger] concrete_maximal(t, cands, j) ==> j == f);
            assert(concrete_maximal(s, cands, f));
            assert forall|j: int| 0 <= j < cands.len() && #[trigger] concrete_maximal(s, cands, j) implies j == f by {
                assert(concrete_maximal(t, cands, j));
            }
            lemma_unique_concrete_is(s, cands, f);
        }
    }
}

proof fn lemma_link_candidates(s: Seq<LinkedClassV>, c: LinkedClassV, id: ClassId, name: Seq<char>, descriptor: Seq<char>)
    requires
        pos_of(s, c.id) < 0,
        id != c.id,
    ensures
        chosen_candidate(s.push(c), superinterface_candidates(s.push(c), id, name, descriptor)) == chosen_candidate(
            s,
            superinterface_candidates(s, id, name, descriptor),
        ),
{
    lemma_link_collect_from(s, c, id, 0, name, descriptor, Seq::empty());
    let cands = superinterface_candidates(s, id, name, descriptor);
    lemma_collect_from_declared(s, id, 0, name, descriptor, Seq::empty());
    assert forall|i: int| 0 <= i < cands.len() implies (#[trigger] cands[i]).owner_class_id != c.id by {
        assert(declared_method(s, cands[i].owner_class_id, name, descriptor) == Some(cands[i]));
        lemma_pos_of(s, c.id);
    }
    lemma_link_chosen(s, c, cands);
}

proof fn lemma_link_method_owner(s: Seq<LinkedClassV>, c: LinkedClassV, id: ClassId, name: Seq<char>, descriptor: Seq<char>)
    requires
        pos_of(s, c.id) < 0,
        id != c.id,
    ensures
        method_owner(s.push(c), id, name, descriptor) == method_owner(s, id, name, descriptor),
    decreases pos_of(s, id),
{
    let t = s.push(c);
    lemma_link_same_class(s, c, id, name, descriptor);
    lemma_pos_of(s, id);
    let p = pos_of(s, id);
    if p >= 0 && declared_method(s, id, name, descriptor) is None {
        if let Some(sid) = s[p].super_id {
            assert((0 <= pos_of(t, sid) < p) == (0 <= pos_of(s, sid) < p));
            if 0 <= pos_of(s, sid) < p {
                lemma_pos_of(s, c.id);
                lemma_pos_of(s, sid);
                lemma_link_method_owner(s, c, sid, name, descriptor);
            }
        }
        lemma_link_candidates(s, c, id, name, descriptor);
    }
}

proof fn lemma_link_field_owner(s: Seq<LinkedClassV>, c: LinkedClassV, id: ClassId, name: Seq<char>, descriptor: Seq<char>)
    requires
        pos_of(s, c.id) < 0,
        id != c.id,
    ensures
        field_owner(s.push(c), id, name, descriptor) == field_owner(s, id, name, descriptor),
    decreases pos_of(s, id), 1int, 0int,
{
    let t = s.push(c);
    lemma_link_same_class(s, c, id, name, descriptor);
    lemma_pos_of(s, id);
    let p = pos_of(s, id);
    if p >= 0 && declared_field(s, id, name, descriptor) is None {
        lemma_link_field_owner_from(s, c, id, 0, name, descriptor);
        if let Some(sid) = s[p].super_id {
            assert((0 <= pos_of(t, sid) < p) == (0 <= pos_of(s, sid) < p));
            if 0 <= pos_of(s, sid) < p {
                lemma_pos_of(s, c.id);
                lemma_pos_of(s, sid);
                lemma_link_field_owner(s, c, sid, name, descriptor);
            }
        }
    }
}

proof fn lemma_link_field_owner_from(
    s: Seq<LinkedClassV>,
    c: LinkedClassV,
    owner: ClassId,
    k: int,
    name: Seq<char>,
    descriptor: Seq<char>,
)
    requires
        pos_of(s, c.id) < 0,
        owner != c.id,
    ensures
        field_owner_from(s.push(c), owner, k, name, descriptor) == field_owner_from(s, owner, k, name, descriptor),
    decreases pos_of(s, owner), 0int, direct_interfaces(s, owner).len() - k,
{
    let t = s.push(c);
    lemma_link_same_class(s, c, owner, name, descriptor);
    let ifs = direct_interfaces(s, owner);
    if 0 <= k < ifs.len() {
        let x = ifs[k];
        assert((0 <= pos_of(t, x) < pos_of(t, owner)) == (0 <= pos_of(s, x) < pos_of(s, owner)));
        if 0 <= pos_of(s, x) < pos_of(s, owner) {
            lemma_pos_of(s, c.id);
            lemma_pos_of(s, x);
            lemma_link_field_owner(s, c, x, name, descriptor);
        }
        lemma_link_field_owner_from(s, c, owner, k + 1, name, descriptor);
    }
}

/// Linking a new class changes nothing that the classes linked before it
/// resolve to, so a resolved reference can be cached.
pub proof fn law_link_keeps_resolution(
    s: Seq<LinkedClassV>,
    c: LinkedClassV,
    id: ClassId,
    name: Seq<char>,
    descriptor: Seq<char>,
)
    requires
        pos_of(s, c.id) < 0,
        pos_of(s, id) >= 0,
    ensures
        method_owner(s.push(c), id, name, descriptor) == method_owner(s, id, name, descriptor),
        field_owner(s.push(c), id, name, descriptor) == field_owner(s, id, name, descriptor),
        forall|ancestor: ClassId|
            #[trigger] interface_extends(s.push(c), id, ancestor) == interface_extends(s, id, ancestor),
{
    lemma_pos_of(s, id);
    lemma_link_method_owner(s, c, id, name, descriptor);
    lemma_link_field_owner(s, c, id, name, descriptor);
    assert forall|ancestor: ClassId| #[trigger] interface_extends(s.push(c), id, ancestor) == interface_extends(
        s,
        id,
        ancestor,
    ) by {
        lemma_link_extends(s, c, id, ancestor, 0);
    }
}

/// Once `java/lang/Object` is linked, linking a new class changes nothing
/// that the interfaces linked before it resolve to.
pub proof fn law_link_keeps_interface_resolution(
    s: Seq<LinkedClassV>,
    r: RegistryV,
    c: LinkedClassV,
    id: ClassId,
    name: Seq<char>,
    descriptor: Seq<char>,
)
    requires
        pos_of(s, c.id) < 0,
        pos_of(s, id) >= 0,
        loaded_class_id(r, "java/lang/Object"@) matches Some(oid) ==> pos_of(s, oid) >= 0,
    ensures
        interface_method_owner(s.push(c), r, id, name, descriptor) == interface_method_owner(
            s,
            r,
            id,
            name,
            descriptor,
        ),
{
    lemma_pos_of(s, id);
    lemma_link_same_class(s, c, id, name, descriptor);
    if let Some(oid) = loaded_class_id(r, "java/lang/Object"@) {
        lemma_pos_of(s, oid);
        lemma_link_same_class(s, c, oid, name, descriptor);
    }
    lemma_link_candidates(s, c, id, name, descriptor);
}

// ---------------------------------------------------------------------------
// Relaxed lookup of a method's real descriptor
// ---------------------------------------------------------------------------

pub const ACC_VARARGS: u16 = 0x0080;

/// The parameter part of a method descriptor: everything before the first
/// `)`.
pub open spec fn param_part(d: Seq<char>) -> Seq<char> {
    before(d, ")"@)
}

/// How a declared method may stand for a call: 0, the parameter types
/// match; 1, the argument counts match; 2, it is variable-arity and the call
/// passes at least its fixed arguments.
pub open spec fn relaxed_match(m: MemberDeclV, name: Seq<char>, call: Seq<char>, how: int) -> bool {
    m.name == name && if how == 0 {
        param_part(m.descriptor) == param_part(call)
    } else if how == 1 {
        arg_kinds(m.descriptor).len() == arg_kinds(call).len()
    } else {
        m.access_flags & ACC_VARARGS != 0 && arg_kinds(call).len() + 1 >= arg_kinds(m.descriptor).len()
    }
}

/// The first declared method that matches the call in this way.
pub open spec fn first_relaxed(ms: Seq<MemberDeclV>, name: Seq<char>, call: Seq<char>, how: int) -> Option<int> {
    if exists|k: int| 0 <= k < ms.len() && relaxed_match(ms[k], name, call, how) {
        Some(
            choose|k: int|
                0 <= k < ms.len() && relaxed_match(ms[k], name, call, how) && forall|j: int|
                    0 <= j < k ==> !relaxed_match(#[trigger] ms[j], name, call, how),
        )
    } else {
        None
    }
}

proof fn lemma_first_relaxed_is(ms: Seq<MemberDeclV>, name: Seq<char>, call: Seq<char>, how: int, k: int)
    requires
        0 <= k < ms.len(),
        relaxed_match(ms[k], name, call, how),
        forall|j: int| 0 <= j < k ==> !relaxed_match(#[trigger] ms[j], name, call, how),
    ensures
        first_relaxed(ms, name, call, how) == Some(k),
{
    let c = choose|c: int|
        0 <= c < ms.len() && relaxed_match(ms[c], name, call, how) && forall|j: int|
            0 <= j < c ==> !relaxed_match(#[trigger] ms[j], name, call, how);
    assert(0 <= c < ms.len() && relaxed_match(ms[c], name, call, how));
    if c < k {
        assert(!relaxed_match(ms[c], name, call, how));
    }
    if k < c {
        assert(!relaxed_match(ms[k], name, call, how));
    }
}

/// The descriptor the class itself declares for a call: the first method of
/// that name whose parameter types match, else the first with as many
/// arguments, else the first variable-arity one the call can fill.
pub open spec fn own_real_descriptor(c: LinkedClassV, name: Seq<char>, call: Seq<char>) -> Option<Seq<char>> {
    let ms = c.methods;
    match first_relaxed(ms, name, call, 0) {
        Some(k) => Some(ms[k].descriptor),
        None => match first_relaxed(ms, name, call, 1) {
            Some(k) => Some(ms[k].descriptor),
            None => match first_relaxed(ms, name, call, 2) {
                Some(k) => Some(ms[k].descriptor),
                None => None,
            },
        },
    }
}

/// The real descriptor of the method a call names, looked up in the class,
/// then its superclass chain, then its superinterfaces in declaration order.
pub open spec fn real_descriptor(s: Seq<LinkedClassV>, id: ClassId, name: Seq<char>, call: Seq<char>) -> Option<Seq<char>>
    decreases pos_of(s, id), 1int, 0int,
{
    let p = pos_of(s, id);
    if p < 0 {
        None
    } else if own_real_descriptor(s[p], name, call) is Some {
        own_real_descriptor(s[p], name, call)
    } else {
        let from_super = match s[p].super_id {
            Some(x) => if 0 <= pos_of(s, x) < p {
                real_descriptor(s, x, name, call)
            } else {
                None
            },
            None => None,
        };
        if from_super is Some {
            from_super
        } else {
            real_descriptor_from(s, id, 0, name, call)
        }
    }
}

/// As `real_descriptor`, through the direct superinterfaces of `owner` from
/// the `k`-th on.
pub open spec fn real_descriptor_from(s: Seq<LinkedClassV>, owner: ClassId, k: int, name: Seq<char>, call: Seq<char>) -> Option<Seq<char>>
    decreases pos_of(s, owner), 0int, direct_interfaces(s, owner).len() - k,
{
    let ifs = direct_interfaces(s, owner);
    if k < 0 || k >= ifs.len() {
        None
    } else {
        let here = if 0 <= pos_of(s, ifs[k]) < pos_of(s, owner) {
            real_descriptor(s, ifs[k], name, call)
        } else {
            None
        };
        if here is Some {
            here
        } else {
            real_descriptor_from(s, owner, k + 1, name, call)
        }
    }
}

fn chars_equal(a: &Vec<char>, b: &Vec<char>) -> (r: bool)
    ensures
        r == (a@ == b@),
{
    if a.len() != b.len() {
        return false;
    }
    let mut i: usize = 0;
    while i < a.len()
        invariant
            a@.len() == b@.len(),
            i <= a@.len(),
            forall|k: int| 0 <= k < i ==> a@[k] == b@[k],
        decreases a@.len() - i,
    {
        if a[i] != b[i] {
            return false;
        }
        i = i + 1;
    }
    assert(a@ =~= b@);
    true
}

fn param_part_of(d: &str) -> (r: Vec<char>)
    ensures
        r@ == param_part(d@),
{
    let close = chars_of(")");
    proof {
        reveal_strlit(")");
    }
    before_chars(&chars_of(d), &close)
}

/// The descriptor the class itself declares for a call.
fn own_real_descriptor_of(class: &LinkedClass, method_name: &str, descriptor: &str) -> (r: Option<String>)
    ensures
        match r {
            Some(d) => own_real_descriptor(class@, method_name@, descriptor@) == Some(d@),
            None => own_real_descriptor(class@, method_name@, descriptor@) is None,
        },
{
    let ghost ms = class@.methods;
    let ghost call = descriptor@;
    let param = param_part_of(descriptor);
    let arg_count = count_args(descriptor);
    let mut arg_count_match: Option<usize> = None;
    let mut varargs_match: Option<usize> = None;
    let mut i: usize = 0;
    while i < class.methods.len()
        invariant
            ms == class@.methods,
            ms.len() == class.methods.len(),
            call == descriptor@,
            param@ == param_part(call),
            arg_count == arg_kinds(call).len(),
            i <= ms.len(),
            forall|j: int| 0 <= j < i ==> !relaxed_match(#[trigger] ms[j], method_name@, call, 0),
            match arg_count_match {
                Some(k) => k < i && first_relaxed(ms, method_name@, call, 1) == Some(k as int),
                None => forall|j: int| 0 <= j < i ==> !relaxed_match(#[trigger] ms[j], method_name@, call, 1),
            },
            match varargs_match {
                Some(k) => k < i && first_relaxed(ms, method_name@, call, 2) == Some(k as int),
                None => forall|j: int| 0 <= j < i ==> !relaxed_match(#[trigger] ms[j], method_name@, call, 2),
            },
        decreases ms.len() - i,
    {
        let m = &class.methods[i];
        assert(m@ == ms[i as int]);
        if str_eq(&m.name, method_name) {
            let own_param = param_part_of(&m.descriptor);
            if chars_equal(&own_param, &param) {
                proof {
                    lemma_first_relaxed_is(ms, method_name@, call, 0, i as int);
                }
                return Some(m.descriptor.clone());
            }
            let method_param_count = count_args(&m.descriptor);
            if arg_count_match.is_none() && method_param_count == arg_count {
                proof {
                    lemma_first_relaxed_is(ms, method_name@, call, 1, i as int);
                }
                arg_count_match = Some(i);
            }
            if varargs_match.is_none() && (m.access_flags & ACC_VARARGS != 0) {
                let fixed = if method_param_count > 0 {
                    method_param_count - 1
                } else {
                    0
                };
                if arg_count >= fixed {
                    proof {
                        lemma_first_relaxed_is(ms, method_name@, call, 2, i as int);
                    }
                    varargs_match = Some(i);
                }
            }
        }
        i = i + 1;
    }
    assert(!exists|k: int| 0 <= k < ms.len() && relaxed_match(ms[k], method_name@, call, 0));
    match arg_count_match {
        Some(k) => {
            return Some(class.methods[k].descriptor.clone());
        },
        None => {
            assert(!exists|k: int| 0 <= k < ms.len() && relaxed_match(ms[k], method_name@, call, 1));
        },
    }
    match varargs_match {
        Some(k) => Some(class.methods[k].descriptor.clone()),
        None => {
            assert(!exists|k: int| 0 <= k < ms.len() && relaxed_match(ms[k], method_name@, call, 2));
            None
        },
    }
}

impl ClassHierarchy {
    /// The real descriptor of the method a call names, looked up from the
    /// class with id `class_id`.
    fn find_real_descriptor_by_class_id(&self, class_id: ClassId, method_name: &str, descriptor: &str) -> (r: Option<String>)
        requires
            self.wf(),
        ensures
            match r {
                Some(d) => real_descriptor(self@, class_id, method_name@, descriptor@) == Some(d@),
                None => real_descriptor(self@, class_id, method_name@, descriptor@) is None,
            },
        decreases pos_of(self@, class_id),
    {
        let ghost s = self@;
        proof {
            lemma_pos_of(s, class_id);
        }
        let ghost p = pos_of(s, class_id);
        let class = match self.get_class_by_id(class_id) {
            Some(c) => c,
            None => {
                return None;
            },
        };
        if let Some(d) = own_real_descriptor_of(class, method_name, descriptor) {
            return Some(d);
        }
        if let Some(super_id) = class.super_id {
            assert(0 <= pos_of(s, super_id) < p) by {
                assert(s[p].super_id == Some(super_id));
            }
            if let Some(d) = self.find_real_descriptor_by_class_id(super_id, method_name, descriptor) {
                return Some(d);
            }
        }
        let mut k: usize = 0;
        while k < class.interface_ids.len()
            invariant
                self.wf(),
                s == self@,
                0 <= p < s.len(),
                p == pos_of(s, class_id),
                class@ == s[p],
                direct_interfaces(s, class_id) == class.interface_ids@,
                k <= class.interface_ids.len(),
                real_descriptor(s, class_id, method_name@, descriptor@) == real_descriptor_from(
                    s,
                    class_id,
                    k as int,
                    method_name@,
                    descriptor@,
                ),
            decreases class.interface_ids.len() - k,
        {
            let interface_id = class.interface_ids[k];
            assert(0 <= pos_of(s, interface_id) < p) by {
                assert(s[p].interface_ids[k as int] == interface_id);
            }
            if let Some(d) = self.find_real_descriptor_by_class_id(interface_id, method_name, descriptor) {
                return Some(d);
            }
            k = k + 1;
        }
        None
    }

    /// The real descriptor of a method named in a call whose descriptor the
    /// compiler wrote with erased or boxed types: in the named class, the
    /// first method of that name whose parameter types match, else the first
    /// with as many arguments, else the first variable-arity one the call can
    /// fill; failing these, the same search in the superclass chain, then in
    /// the superinterfaces. The class is looked up by name among the loaded
    /// classes; its supertypes are followed through their resolved ids.
    pub fn find_method_real_descriptor(
        &self,
        registry: &ClassIdentityRegistry,
        class_name: &str,
        method_name: &str,
        descriptor: &str,
    ) -> (r: Option<String>)
        requires
            self.wf(),
        ensures
            match loaded_class_id(registry@, class_name@) {
                Some(id) => match r {
                    Some(d) => real_descriptor(self@, id, method_name@, descriptor@) == Some(d@),
                    None => real_descriptor(self@, id, method_name@, descriptor@) is None,
                },
                None => r is None,
            },
    {
        match loaded_class_id_by_name(registry, class_name) {
            Some(id) => self.find_real_descriptor_by_class_id(id, method_name, descriptor),
            None => None,
        }
    }
}

// ---------------------------------------------------------------------------
// Lookups that start from a class name
// ---------------------------------------------------------------------------

/// The method with this name and descriptor found by walking from the
/// class: declared by it, else found from its superclass, else from its
/// superinterfaces in declaration order (the first found, with no choice
/// among interfaces).
pub open spec fn method_walk(s: Seq<LinkedClassV>, id: ClassId, name: Seq<char>, descriptor: Seq<char>) -> Option<TargetV>
    decreases pos_of(s, id), 1int, 0int,
{
    let p = pos_of(s, id);
    if p < 0 {
        None
    } else if declared_method(s, id, name, descriptor) is Some {
        declared_method(s, id, name, descriptor)
    } else {
        let from_super = match s[p].super_id {
            Some(x) => if 0 <= pos_of(s, x) < p {
                method_walk(s, x, name, descriptor)
            } else {
                None
            },
            None => None,
        };
        if from_super is Some {
            from_super
        } else {
            method_walk_from(s, id, 0, name, descriptor)
        }
    }
}

/// As `method_walk`, through the direct superinterfaces of `owner` from the
/// `k`-th on.
pub open spec fn method_walk_from(s: Seq<LinkedClassV>, owner: ClassId, k: int, name: Seq<char>, descriptor: Seq<char>) -> Option<TargetV>
    decreases pos_of(s, owner), 0int, direct_interfaces(s, owner).len() - k,
{
    let ifs = direct_interfaces(s, owner);
    if k < 0 || k >= ifs.len() {
        None
    } else {
        let here = if 0 <= pos_of(s, ifs[k]) < pos_of(s, owner) {
            method_walk(s, ifs[k], name, descriptor)
        } else {
            None
        };
        if here is Some {
            here
        } else {
            method_walk_from(s, owner, k + 1, name, descriptor)
        }
    }
}

impl ClassHierarchy {
    fn find_method_by_class_id(&self, class_id: ClassId, method_name: &str, descriptor: &str) -> (r: Option<ResolvedMethodTarget>)
        requires
            self.wf(),
        ensures
            match r {
                Some(t) => method_walk(self@, class_id, method_name@, descriptor@) == Some(t@),
                None => method_walk(self@, class_id, method_name@, descriptor@) is None,
            },
        decreases pos_of(self@, class_id),
    {
        let ghost s = self@;
        proof {
            lemma_pos_of(s, class_id);
        }
        let ghost p = pos_of(s, class_id);
        if let Some(target) = self.declared_method_by_class_id(class_id, method_name, descriptor) {
            return Some(target);
        }
        let class = match self.get_class_by_id(class_id) {
            Some(c) => c,
            None => {
                return None;
            },
        };
        if let Some(super_id) = class.super_id {
            assert(0 <= pos_of(s, super_id) < p) by {
                assert(s[p].super_id == Some(super_id));
            }
            if let Some(t) = self.find_method_by_class_id(super_id, method_name, descriptor) {
                return Some(t);
            }
        }
        let mut k: usize = 0;
        while k < class.interface_ids.len()
            invariant
                self.wf(),
                s == self@,
                0 <= p < s.len(),
                p == pos_of(s, class_id),
                class@ == s[p],
                direct_interfaces(s, class_id) == class.interface_ids@,
                k <= class.interface_ids.len(),
                method_walk(s, class_id, method_name@, descriptor@) == method_walk_from(
                    s,
                    class_id,
                    k as int,
                    method_name@,
                    descriptor@,
                ),
            decreases class.interface_ids.len() - k,
        {
            let interface_id = class.interface_ids[k];
            assert(0 <= pos_of(s, interface_id) < p) by {
                assert(s[p].interface_ids[k as int] == interface_id);
            }
            if let Some(t) = self.find_method_by_class_id(interface_id, method_name, descriptor) {
                return Some(t);
            }
            k = k + 1;
        }
        None
    }

    /// The method with this name and descriptor found by walking from the
    /// named class (see `method_walk`). The class is looked up by name among
    /// the loaded classes; its supertypes are followed through their
    /// resolved ids.
    pub fn find_method(
        &self,
        registry: &ClassIdentityRegistry,
        class_name: &str,
        method_name: &str,
        descriptor: &str,
    ) -> (r: Option<ResolvedMethodTarget>)
        requires
            self.wf(),
        ensures
            match loaded_class_id(registry@, class_name@) {
                Some(id) => match r {
                    Some(t) => method_walk(self@, id, method_name@, descriptor@) == Some(t@),
                    None => method_walk(self@, id, method_name@, descriptor@) is None,
                },
                None => r is None,
            },
    {
        match loaded_class_id_by_name(registry, class_name) {
            Some(id) => self.find_method_by_class_id(id, method_name, descriptor),
            None => None,
        }
    }

    /// The access flags of the method `find_method` finds; `None` when it is
    /// not found.
    pub fn find_method_flags(
        &self,
        registry: &ClassIdentityRegistry,
        class_name: &str,
        method_name: &str,
        descriptor: &str,
    ) -> (r: Option<u16>)
        requires
            self.wf(),
        ensures
            r == match loaded_class_id(registry@, class_name@) {
                Some(id) => match method_walk(self@, id, method_name@, descriptor@) {
                    Some(t) => Some(t.access_flags),
                    None => None,
                },
                None => None,
            },
    {
        match self.find_method(registry, class_name, method_name, descriptor) {
            Some(t) => Some(t.access_flags),
            None => None,
        }
    }

    /// The name of the class a `Methodref` to the named class resolves the
    /// method to (see `find_method_owner_by_class_id`).
    pub fn find_method_owner(
        &self,
        registry: &ClassIdentityRegistry,
        class_name: &str,
        method_name: &str,
        descriptor: &str,
    ) -> (r: Option<String>)
        requires
            self.wf(),
        ensures
            match loaded_class_id(registry@, class_name@) {
                Some(id) => match method_owner(self@, id, method_name@, descriptor@) {
                    Some(t) => r matches Some(o) && o@ == t.owner_class,
                    None => r is None,
                },
                None => r is None,
            },
    {
        let id = match loaded_class_id_by_name(registry, class_name) {
            Some(id) => id,
            None => {
                return None;
            },
        };
        match self.find_method_owner_by_class_id(id, method_name, descriptor) {
            Some(target) => Some(target.owner_class),
            None => None,
        }
    }
}

// ---------------------------------------------------------------------------
// instanceof / checkcast by class name (JVMS §6.5 instanceof)
// ---------------------------------------------------------------------------

/// The class name an array component descriptor stands for: the name inside
/// `L...;`, the descriptor itself for an array type, none for a primitive.
pub open spec fn component_class(d: Seq<char>) -> Option<Seq<char>> {
    if d.len() == 0 {
        None
    } else if d[0] == 'L' && d.len() >= 2 {
        Some(d.subrange(1, d.len() - 1))
    } else if d[0] == '[' {
        Some(d)
    } else {
        None
    }
}

/// Whether a component descriptor can be cut as `L...;` is cut: at least two
/// characters, the last one a single byte.
pub open spec fn component_ok(d: Seq<char>) -> bool {
    (d.len() > 0 && d[0] == 'L') ==> (d.len() >= 2 && (d.last() as u32) < 0x80)
}

/// Whether some supertype of the class, reached through superclass and
/// superinterface edges, has this name.
pub open spec fn supertype_named(s: Seq<LinkedClassV>, id: ClassId, target: Seq<char>) -> bool
    decreases pos_of(s, id), 1int, 0int,
{
    let p = pos_of(s, id);
    if p < 0 {
        false
    } else {
        supertype_named_via(s, id, target, 0) || match s[p].super_id {
            Some(x) => 0 <= pos_of(s, x) < p && (s[pos_of(s, x)].name == target || supertype_named(
                s,
                x,
                target,
            )),
            None => false,
        }
    }
}

/// As `supertype_named`, through the direct superinterfaces of `id` from
/// the `k`-th on.
pub open spec fn supertype_named_via(s: Seq<LinkedClassV>, id: ClassId, target: Seq<char>, k: int) -> bool
    decreases pos_of(s, id), 0int, direct_interfaces(s, id).len() - k,
{
    let ifs = direct_interfaces(s, id);
    if k < 0 || k >= ifs.len() {
        false
    } else {
        (0 <= pos_of(s, ifs[k]) < pos_of(s, id) && (s[pos_of(s, ifs[k])].name == target || supertype_named(
            s,
            ifs[k],
            target,
        ))) || supertype_named_via(s, id, target, k + 1)
    }
}

/// Whether an object of class `runtime` is an instance of class `target`:
/// the same class, `java/lang/Object`, for arrays `Cloneable`,
/// `Serializable` or an array whose components are instances, else a
/// supertype of the loaded class by that name.
pub open spec fn instance_of(s: Seq<LinkedClassV>, r: RegistryV, runtime: Seq<char>, target: Seq<char>) -> bool
    decreases runtime.len(),
{
    if runtime == target || target == "java/lang/Object"@ {
        true
    } else if runtime.len() > 0 && runtime[0] == '[' {
        if target == "java/lang/Cloneable"@ || target == "java/io/Serializable"@ {
            true
        } else if target.len() > 0 && target[0] == '[' {
            match (component_class(runtime.drop_first()), component_class(target.drop_first())) {
                (Some(a), Some(b)) => instance_of(s, r, a, b),
                _ => false,
            }
        } else {
            false
        }
    } else {
        match loaded_class_id(r, runtime) {
            Some(id) => supertype_named(s, id, target),
            None => false,
        }
    }
}

/// The inputs on which the instance check can cut every array component
/// it looks at.
pub open spec fn instance_of_safe(runtime: Seq<char>, target: Seq<char>) -> bool
    decreases runtime.len(),
{
    if runtime == target || target == "java/lang/Object"@ {
        true
    } else if runtime.len() > 0 && runtime[0] == '[' {
        if target == "java/lang/Cloneable"@ || target == "java/io/Serializable"@ {
            true
        } else if target.len() > 0 && target[0] == '[' {
            component_ok(runtime.drop_first()) && component_ok(target.drop_first()) && match (
                component_class(runtime.drop_first()),
                component_class(target.drop_first()),
            ) {
                (Some(a), Some(b)) => instance_of_safe(a, b),
                _ => true,
            }
        } else {
            true
        }
    } else {
        true
    }
}

fn component_class_of(d: &Vec<char>) -> (r: Option<Vec<char>>)
    requires
        component_ok(d@),
    ensures
        match r {
            Some(c) => component_class(d@) == Some(c@),
            None => component_class(d@) is None,
        },
{
    if d.len() == 0 {
        None
    } else if d[0] == 'L' {
        Some(slice_chars(d, 1, d.len() - 1))
    } else if d[0] == '[' {
        let r = slice_chars(d, 0, d.len());
        assert(r@ =~= d@);
        Some(r)
    } else {
        None
    }
}

impl ClassHierarchy {
    fn supertype_named_by_class_id(&self, class_id: ClassId, target: &str) -> (r: bool)
        requires
            self.wf(),
        ensures
            r == supertype_named(self@, class_id, target@),
        decreases pos_of(self@, class_id),
    {
        let ghost s = self@;
        proof {
            lemma_pos_of(s, class_id);
        }
        let ghost p = pos_of(s, class_id);
        let class = match self.get_class_by_id(class_id) {
            Some(c) => c,
            None => {
                return false;
            },
        };
        let mut k: usize = 0;
        while k < class.interface_ids.len()
            invariant
                self.wf(),
                s == self@,
                0 <= p < s.len(),
                p == pos_of(s, class_id),
                class@ == s[p],
                direct_interfaces(s, class_id) == class.interface_ids@,
                k <= class.interface_ids.len(),
                supertype_named_via(s, class_id, target@, 0) == supertype_named_via(
                    s,
                    class_id,
                    target@,
                    k as int,
                ),
            decreases class.interface_ids.len() - k,
        {
            let interface_id = class.interface_ids[k];
            assert(0 <= pos_of(s, interface_id) < p) by {
                assert(s[p].interface_ids[k as int] == interface_id);
            }
            proof {
                lemma_pos_of(s, interface_id);
            }
            let named = match self.get_class_by_id(interface_id) {
                Some(c) => str_eq(&c.name, target),
                None => false,
            };
            if named || self.supertype_named_by_class_id(interface_id, target) {
                return true;
            }
            k = k + 1;
        }
        if let Some(super_id) = class.super_id {
            assert(0 <= pos_of(s, super_id) < p) by {
                assert(s[p].super_id == Some(super_id));
            }
            proof {
                lemma_pos_of(s, super_id);
            }
            let named = match self.get_class_by_id(super_id) {
                Some(c) => str_eq(&c.name, target),
                None => false,
            };
            return named || self.supertype_named_by_class_id(super_id, target);
        }
        false
    }

    fn instance_of_chars(&self, registry: &ClassIdentityRegistry, runtime: &Vec<char>, target: &Vec<char>) -> (r: bool)
        requires
            self.wf(),
            instance_of_safe(runtime@, target@),
        ensures
            r == instance_of(self@, registry@, runtime@, target@),
        decreases runtime@.len(),
    {
        let object = chars_of("java/lang/Object");
        proof {
            reveal_strlit("java/lang/Object");
        }
        if chars_equal(runtime, target) || chars_equal(target, &object) {
            return true;
        }
        if runtime.len() > 0 && runtime[0] == '[' {
            let cloneable = chars_of("java/lang/Cloneable");
            let serializable = chars_of("java/io/Serializable");
            proof {
                reveal_strlit("java/lang/Cloneable");
                reveal_strlit("java/io/Serializable");
            }
            if chars_equal(target, &cloneable) || chars_equal(target, &serializable) {
                return true;
            }
            if target.len() > 0 && target[0] == '[' {
                let rc = slice_chars(runtime, 1, runtime.len());
                let tc = slice_chars(target, 1, target.len());
                assert(rc@ =~= runtime@.drop_first());
                assert(tc@ =~= target@.drop_first());
                let rc_class = component_class_of(&rc);
                let tc_class = component_class_of(&tc);
                return match (rc_class, tc_class) {
                    (Some(a), Some(b)) => self.instance_of_chars(registry, &a, &b),
                    _ => false,
                };
            }
            return false;
        }
        let name = string_of(runtime);
        match loaded_class_id_by_name(registry, &name) {
            Some(id) => {
                let target_name = string_of(target);
                self.supertype_named_by_class_id(id, &target_name)
            },
            None => false,
        }
    }

    /// Whether an object of class `runtime_class` is an instance of
    /// `target_class` (both by name), as `instanceof` and `checkcast` decide
    /// it. The runtime class is looked up by name among the loaded classes;
    /// its supertypes are followed through their resolved ids.
    pub fn is_instance_of(&self, registry: &ClassIdentityRegistry, runtime_class: &str, target_class: &str) -> (r: bool)
        requires
            self.wf(),
            instance_of_safe(runtime_class@, target_class@),
        ensures
            r == instance_of(self@, registry@, runtime_class@, target_class@),
    {
        let rt = chars_of(runtime_class);
        let tg = chars_of(target_class);
        self.instance_of_chars(registry, &rt, &tg)
    }
}

proof fn lemma_inherits_named(s: Seq<LinkedClassV>, id: ClassId, sup: ClassId)
    requires
        inherits_from(s, id, sup),
        sup != id,
        pos_of(s, sup) >= 0,
    ensures
        supertype_named(s, id, s[pos_of(s, sup)].name),
    decreases pos_of(s, id), 1int, 0int,
{
    let p = pos_of(s, id);
    let name = s[pos_of(s, sup)].name;
    let via_super = match s[p].super_id {
        Some(x) => 0 <= pos_of(s, x) < p && inherits_from(s, x, sup),
        None => false,
    };
    if via_super {
        let x = s[p].super_id->0;
        if x != sup {
            lemma_inherits_named(s, x, sup);
        }
    } else {
        assert(inherits_via(s, id, sup, 0));
        lemma_inherits_named_via(s, id, sup, 0);
    }
}

proof fn lemma_inherits_named_via(s: Seq<LinkedClassV>, id: ClassId, sup: ClassId, k: int)
    requires
        inherits_via(s, id, sup, k),
        pos_of(s, sup) >= 0,
    ensures
        supertype_named_via(s, id, s[pos_of(s, sup)].name, k),
    decreases pos_of(s, id), 0int, direct_interfaces(s, id).len() - k,
{
    let ifs = direct_interfaces(s, id);
    let x = ifs[k];
    if 0 <= pos_of(s, x) < pos_of(s, id) && inherits_from(s, x, sup) {
        if x != sup {
            lemma_inherits_named(s, x, sup);
        }
    } else {
        lemma_inherits_named_via(s, id, sup, k + 1);
    }
}

/// Whatever supertype resolution can reach, `instanceof` accepts: when the
/// class loaded under the name `runtime` inherits from another linked
/// class, an object of it is an instance of that class's name.
pub proof fn law_inherited_supertype_is_instance(
    s: Seq<LinkedClassV>,
    r: RegistryV,
    runtime: Seq<char>,
    id: ClassId,
    sup: ClassId,
)
    requires
        loaded_class_id(r, runtime) == Some(id),
        inherits_from(s, id, sup),
        sup != id,
        pos_of(s, sup) >= 0,
        !(runtime.len() > 0 && runtime[0] == '['),
    ensures
        instance_of(s, r, runtime, s[pos_of(s, sup)].name),
{
    lemma_inherits_named(s, id, sup);
}

// ---------------------------------------------------------------------------
// Exception handlers
// ---------------------------------------------------------------------------

/// The class an exception-table entry catches.
pub open spec fn catch_class(cp: Seq<CpEntry>, e: ExceptionTableEntry) -> Seq<char> {
    resolved_class_name(cp, e.catch_type)
}

/// Whether an exception-table entry covers the instruction at `throw_pc`.
pub open spec fn handler_covers(e: ExceptionTableEntry, throw_pc: int) -> bool {
    e.start_pc <= throw_pc < e.end_pc
}

/// Whether an exception-table entry handles an exception of class `exc`
/// thrown at `throw_pc`: it covers the instruction and catches everything
/// (`finally`), or the exception's class or a superclass of it.
pub open spec fn handler_catches(
    s: Seq<LinkedClassV>,
    r: RegistryV,
    cp: Seq<CpEntry>,
    e: ExceptionTableEntry,
    throw_pc: int,
    exc: Seq<char>,
) -> bool {
    handler_covers(e, throw_pc) && (e.catch_type == 0 || exc == catch_class(cp, e) || instance_of(
        s,
        r,
        exc,
        catch_class(cp, e),
    ))
}

/// The first exception-table entry that handles the exception.
pub open spec fn first_handler(
    s: Seq<LinkedClassV>,
    r: RegistryV,
    table: Seq<ExceptionTableEntry>,
    cp: Seq<CpEntry>,
    throw_pc: int,
    exc: Seq<char>,
) -> Option<int> {
    if exists|k: int| 0 <= k < table.len() && handler_catches(s, r, cp, table[k], throw_pc, exc) {
        Some(
            choose|k: int|
                0 <= k < table.len() && handler_catches(s, r, cp, table[k], throw_pc, exc) && forall|j: int|
                    0 <= j < k ==> !handler_catches(s, r, cp, #[trigger] table[j], throw_pc, exc),
        )
    } else {
        None
    }
}

/// The inputs on which the search reads only constant-pool entries that
/// exist and cuts only array names it can: every entry it looks at before
/// the handler is found.
pub open spec fn handler_search_safe(
    s: Seq<LinkedClassV>,
    r: RegistryV,
    table: Seq<ExceptionTableEntry>,
    cp: Seq<CpEntry>,
    throw_pc: int,
    exc: Seq<char>,
) -> bool {
    forall|k: int|
        0 <= k < table.len() && (forall|j: int|
            0 <= j < k ==> !handler_catches(s, r, cp, #[trigger] table[j], throw_pc, exc)) && handler_covers(
            #[trigger] table[k],
            throw_pc,
        ) && table[k].catch_type != 0 ==> class_ref_readable(cp, table[k].catch_type) && (exc != catch_class(
            cp,
            table[k],
        ) ==> instance_of_safe(exc, catch_class(cp, table[k])))
}

proof fn lemma_first_handler_is(
    s: Seq<LinkedClassV>,
    r: RegistryV,
    table: Seq<ExceptionTableEntry>,
    cp: Seq<CpEntry>,
    throw_pc: int,
    exc: Seq<char>,
    k: int,
)
    requires
        0 <= k < table.len(),
        handler_catches(s, r, cp, table[k], throw_pc, exc),
        forall|j: int| 0 <= j < k ==> !handler_catches(s, r, cp, #[trigger] table[j], throw_pc, exc),
    ensures
        first_handler(s, r, table, cp, throw_pc, exc) == Some(k),
{
    let c = choose|c: int|
        0 <= c < table.len() && handler_catches(s, r, cp, table[c], throw_pc, exc) && forall|j: int|
            0 <= j < c ==> !handler_catches(s, r, cp, #[trigger] table[j], throw_pc, exc);
    assert(0 <= c < table.len() && handler_catches(s, r, cp, table[c], throw_pc, exc));
    if c < k {
        assert(!handler_catches(s, r, cp, table[c], throw_pc, exc));
    }
    if k < c {
        assert(!handler_catches(s, r, cp, table[k], throw_pc, exc));
    }
}

impl ClassHierarchy {
    /// The handler for an exception thrown at `throw_pc` with error text
    /// `err_msg`: the handler pc of the first exception-table entry that
    /// covers the instruction and catches everything, the exception's class
    /// (named at the head of the error text) or a superclass of it. The
    /// caller takes the pending exception object, or makes one from the
    /// error text, to hand to the handler.
    pub fn find_exception_handler(
        &self,
        registry: &ClassIdentityRegistry,
        exception_table: &[ExceptionTableEntry],
        cp: &[ConstantPoolEntry],
        throw_pc: usize,
        err_msg: &str,
    ) -> (r: Option<usize>)
        requires
            self.wf(),
            handler_search_safe(
                self@,
                registry@,
                exception_table@,
                cp_slice_view(cp),
                throw_pc as int,
                exception_class_text(err_msg@),
            ),
        ensures
            match r {
                Some(pc) => first_handler(
                    self@,
                    registry@,
                    exception_table@,
                    cp_slice_view(cp),
                    throw_pc as int,
                    exception_class_text(err_msg@),
                ) matches Some(k) && pc == exception_table@[k].handler_pc,
                None => first_handler(
                    self@,
                    registry@,
                    exception_table@,
                    cp_slice_view(cp),
                    throw_pc as int,
                    exception_class_text(err_msg@),
                ) is None,
            },
    {
        let ghost s = self@;
        let ghost table = exception_table@;
        let ghost v = cp_slice_view(cp);
        let exc_class = exception_class_from_err_msg(err_msg);
        let ghost exc = exc_class@;
        let mut k: usize = 0;
        while k < exception_table.len()
            invariant
                self.wf(),
                s == self@,
                table == exception_table@,
                v == cp_slice_view(cp),
                exc == exc_class@,
                exc == exception_class_text(err_msg@),
                handler_search_safe(s, registry@, table, v, throw_pc as int, exc),
                k <= table.len(),
                forall|j: int| 0 <= j < k ==> !handler_catches(s, registry@, v, #[trigger] table[j], throw_pc as int, exc),
            decreases table.len() - k,
        {
            let entry = exception_table[k];
            let start = entry.start_pc as usize;
            let end = entry.end_pc as usize;
            if throw_pc < start || throw_pc >= end {
                assert(!handler_catches(s, registry@, v, table[k as int], throw_pc as int, exc));
                k = k + 1;
                continue;
            }
            if entry.catch_type == 0 {
                proof {
                    lemma_first_handler_is(s, registry@, table, v, throw_pc as int, exc, k as int);
                }
                return Some(entry.handler_pc as usize);
            }
            assert(handler_covers(table[k as int], throw_pc as int));
            let catch_class_name = resolve_class_name(cp, entry.catch_type);
            let caught = str_eq(&exc_class, &catch_class_name) || self.is_instance_of(
                registry,
                &exc_class,
                &catch_class_name,
            );
            if caught {
                proof {
                    lemma_first_handler_is(s, registry@, table, v, throw_pc as int, exc, k as int);
                }
                return Some(entry.handler_pc as usize);
            }
            k = k + 1;
        }
        None
    }
}

// ---------------------------------------------------------------------------
// From a parsed class file
// ---------------------------------------------------------------------------

/// The declaration a class-file member makes: its name and descriptor as
/// the constant pool names them.
pub open spec fn decl_of(cp: Seq<CpEntry>, m: MemberV) -> Option<MemberDeclV> {
    match (cp_utf8(cp, m.name_index), cp_utf8(cp, m.descriptor_index)) {
        (Some(n), Some(d)) => Some(MemberDeclV { name: n, descriptor: d, access_flags: m.access_flags }),
        _ => None,
    }
}

/// Whether the class file names itself and every member through `Utf8`
/// constants.
pub open spec fn class_file_linkable(cf: ClassFileV) -> bool {
    &&& cp_class_name(cf.constant_pool, cf.this_class) is Some
    &&& forall|i: int| 0 <= i < cf.methods.len() ==> (#[trigger] decl_of(cf.constant_pool, cf.methods[i])) is Some
    &&& forall|i: int| 0 <= i < cf.fields.len() ==> (#[trigger] decl_of(cf.constant_pool, cf.fields[i])) is Some
}

/// Whether `decls` declares what the class-file members declare.
pub open spec fn decls_match(cp: Seq<CpEntry>, ms: Seq<MemberV>, decls: Seq<MemberDeclV>) -> bool {
    decls.len() == ms.len() && forall|i: int| 0 <= i < ms.len() ==> decl_of(cp, #[trigger] ms[i]) == Some(decls[i])
}

fn member_decl(cp: &ConstantPool, access_flags: u16, name_index: u16, descriptor_index: u16) -> (r: Option<MemberDecl>)
    ensures
        match r {
            Some(d) => decl_of(
                cp@,
                MemberV { access_flags, name_index, descriptor_index, attributes: Seq::empty() },
            ) == Some(d@),
            None => decl_of(cp@, MemberV { access_flags, name_index, descriptor_index, attributes: Seq::empty() })
                is None,
        },
{
    let name = match cp.utf8_entry(name_index) {
        Some(n) => n,
        None => {
            return None;
        },
    };
    let descriptor = match cp.utf8_entry(descriptor_index) {
        Some(d) => d,
        None => {
            return None;
        },
    };
    Some(MemberDecl { name: name.to_string(), descriptor: descriptor.to_string(), access_flags })
}

/// The class a parsed class file defines, as resolution sees it once its
/// supertypes are resolved to `super_id` and `interface_ids`; `None` when the
/// class file does not name itself or a member through `Utf8` constants.
pub fn link_class_file(cf: &ClassFile, id: ClassId, super_id: Option<ClassId>, interface_ids: Vec<ClassId>) -> (r: Option<LinkedClass>)
    ensures
        r is Some <==> class_file_linkable(cf@),
        r matches Some(c) ==> {
            &&& c.id == id
            &&& c.super_id == super_id
            &&& c.interface_ids@ == interface_ids@
            &&& c.access_flags == cf.access_flags
            &&& cp_class_name(cf@.constant_pool, cf.this_class) == Some(c.name@)
            &&& decls_match(cf@.constant_pool, cf@.methods, c@.methods)
            &&& decls_match(cf@.constant_pool, cf@.fields, c@.fields)
        },
{
    let cp = &cf.constant_pool;
    let ghost cv = cp@;
    let name = match cp.class_name_entry(cf.this_class) {
        Some(n) => n.to_string(),
        None => {
            return None;
        },
    };
    let mut methods: Vec<MemberDecl> = Vec::new();
    let mut i: usize = 0;
    while i < cf.methods.len()
        invariant
            cv == cf@.constant_pool,
            cv == cp@,
            i <= cf.methods.len(),
            decls_match(cv, cf@.methods.subrange(0, i as int), methods@.map_values(|m: MemberDecl| m@)),
        decreases cf.methods.len() - i,
    {
        let m = &cf.methods[i];
        assert(cf@.methods[i as int] == m@);
        match member_decl(cp, m.access_flags, m.name_index, m.descriptor_index) {
            Some(d) => {
                methods.push(d);
            },
            None => {
                assert(decl_of(cv, cf@.methods[i as int]) is None);
                return None;
            },
        }
        i = i + 1;
        assert(cf@.methods.subrange(0, i as int).drop_last() =~= cf@.methods.subrange(0, i as int - 1));
        assert forall|k: int| 0 <= k < i implies decl_of(cv, #[trigger] cf@.methods.subrange(0, i as int)[k]) == Some(
            methods@.map_values(|m: MemberDecl| m@)[k],
        ) by {
            if k < i - 1 {
                assert(cf@.methods.subrange(0, i as int)[k] == cf@.methods.subrange(0, i as int - 1)[k]);
            }
        }
    }
    assert(cf@.methods.subrange(0, i as int) =~= cf@.methods);
    let mut fields: Vec<MemberDecl> = Vec::new();
    let mut j: usize = 0;
    while j < cf.fields.len()
        invariant
            cv == cf@.constant_pool,
            cv == cp@,
            j <= cf.fields.len(),
            decls_match(cv, cf@.fields.subrange(0, j as int), fields@.map_values(|m: MemberDecl| m@)),
        decreases cf.fields.len() - j,
    {
        let f = &cf.fields[j];
        assert(cf@.fields[j as int] == f@);
        match member_decl(cp, f.access_flags, f.name_index, f.descriptor_index) {
            Some(d) => {
                fields.push(d);
            },
            None => {
                assert(decl_of(cv, cf@.fields[j as int]) is None);
                return None;
            },
        }
        j = j + 1;
        assert forall|k: int| 0 <= k < j implies decl_of(cv, #[trigger] cf@.fields.subrange(0, j as int)[k]) == Some(
            fields@.map_values(|m: MemberDecl| m@)[k],
        ) by {
            if k < j - 1 {
                assert(cf@.fields.subrange(0, j as int)[k] == cf@.fields.subrange(0, j as int - 1)[k]);
            }
        }
    }
    assert(cf@.fields.subrange(0, j as int) =~= cf@.fields);
    Some(
        LinkedClass {
            id,
            name,
            access_flags: cf.access_flags,
            super_id,
            interface_ids,
            methods,
            fields,
        },
    )
}

// ---------------------------------------------------------------------------
// Static fields
// ---------------------------------------------------------------------------

/// Whether a declared field is a static field with this name and, when one
/// is asked for, this descriptor.
pub open spec fn static_field_matches(f: MemberDeclV, name: Seq<char>, descriptor: Option<Seq<char>>) -> bool {
    f.access_flags & ACC_STATIC != 0 && f.name == name && match descriptor {
        Some(d) => f.descriptor == d,
        None => true,
    }
}

/// The first declared field that is such a static field.
pub open spec fn first_static_field(fs: Seq<MemberDeclV>, name: Seq<char>, descriptor: Option<Seq<char>>) -> Option<int> {
    if exists|k: int| 0 <= k < fs.len() && static_field_matches(fs[k], name, descriptor) {
        Some(
            choose|k: int|
                0 <= k < fs.len() && static_field_matches(fs[k], name, descriptor) && forall|j: int|
                    0 <= j < k ==> !static_field_matches(#[trigger] fs[j], name, descriptor),
        )
    } else {
        None
    }
}

proof fn lemma_first_static_field_is(fs: Seq<MemberDeclV>, name: Seq<char>, descriptor: Option<Seq<char>>, k: int)
    requires
        0 <= k < fs.len(),
        static_field_matches(fs[k], name, descriptor),
        forall|j: int| 0 <= j < k ==> !static_field_matches(#[trigger] fs[j], name, descriptor),
    ensures
        first_static_field(fs, name, descriptor) == Some(k),
{
    let c = choose|c: int|
        0 <= c < fs.len() && static_field_matches(fs[c], name, descriptor) && forall|j: int|
            0 <= j < c ==> !static_field_matches(#[trigger] fs[j], name, descriptor);
    assert(0 <= c < fs.len() && static_field_matches(fs[c], name, descriptor));
    if c < k {
        assert(!static_field_matches(fs[c], name, descriptor));
    }
    if k < c {
        assert(!static_field_matches(fs[k], name, descriptor));
    }
}

/// The class that declares the static field, and the field's flags: looked
/// up in the class, then its superclass chain, then its superinterfaces in
/// declaration order.
pub open spec fn static_field_info(s: Seq<LinkedClassV>, id: ClassId, name: Seq<char>, descriptor: Option<Seq<char>>) -> Option<(Seq<char>, u16)>
    decreases pos_of(s, id), 1int, 0int,
{
    let p = pos_of(s, id);
    if p < 0 {
        None
    } else if first_static_field(s[p].fields, name, descriptor) is Some {
        Some((s[p].name, s[p].fields[first_static_field(s[p].fields, name, descriptor)->0].access_flags))
    } else {
        let from_super = match s[p].super_id {
            Some(x) => if 0 <= pos_of(s, x) < p {
                static_field_info(s, x, name, descriptor)
            } else {
                None
            },
            None => None,
        };
        if from_super is Some {
            from_super
        } else {
            static_field_info_from(s, id, 0, name, descriptor)
        }
    }
}

/// As `static_field_info`, through the direct superinterfaces of `owner`
/// from the `k`-th on.
pub open spec fn static_field_info_from(
    s: Seq<LinkedClassV>,
    owner: ClassId,
    k: int,
    name: Seq<char>,
    descriptor: Option<Seq<char>>,
) -> Option<(Seq<char>, u16)>
    decreases pos_of(s, owner), 0int, direct_interfaces(s, owner).len() - k,
{
    let ifs = direct_interfaces(s, owner);
    if k < 0 || k >= ifs.len() {
        None
    } else {
        let here = if 0 <= pos_of(s, ifs[k]) < pos_of(s, owner) {
            static_field_info(s, ifs[k], name, descriptor)
        } else {
            None
        };
        if here is Some {
            here
        } else {
            static_field_info_from(s, owner, k + 1, name, descriptor)
        }
    }
}

/// The descriptor asked for, as a value.
pub open spec fn opt_view(d: Option<&str>) -> Option<Seq<char>> {
    match d {
        Some(x) => Some(x@),
        None => None,
    }
}

fn own_static_field(class: &LinkedClass, field_name: &str, descriptor: Option<&str>) -> (r: Option<u16>)
    ensures
        match first_static_field(class@.fields, field_name@, opt_view(descriptor)) {
            Some(k) => r == Some(class@.fields[k].access_flags),
            None => r is None,
        },
{
    let ghost fs = class@.fields;
    let mut i: usize = 0;
    while i < class.fields.len()
        invariant
            fs == class@.fields,
            fs.len() == class.fields.len(),
            i <= fs.len(),
            forall|j: int| 0 <= j < i ==> !static_field_matches(#[trigger] fs[j], field_name@, opt_view(descriptor)),
        decreases fs.len() - i,
    {
        let f = &class.fields[i];
        assert(f@ == fs[i as int]);
        let descriptor_ok = match descriptor {
            Some(d) => str_eq(&f.descriptor, d),
            None => true,
        };
        if f.access_flags & ACC_STATIC != 0 && str_eq(&f.name, field_name) && descriptor_ok {
            proof {
                lemma_first_static_field_is(fs, field_name@, opt_view(descriptor), i as int);
            }
            return Some(f.access_flags);
        }
        i = i + 1;
    }
    assert(!exists|k: int| 0 <= k < fs.len() && static_field_matches(fs[k], field_name@, opt_view(descriptor)));
    None
}

impl ClassHierarchy {
    fn static_field_info_by_class_id(&self, class_id: ClassId, field_name: &str, descriptor: Option<&str>) -> (r: Option<(String, u16)>)
        requires
            self.wf(),
        ensures
            match static_field_info(self@, class_id, field_name@, opt_view(descriptor)) {
                Some((owner, flags)) => r matches Some((o, f)) && o@ == owner && f == flags,
                None => r is None,
            },
        decreases pos_of(self@, class_id),
    {
        let ghost s = self@;
        proof {
            lemma_pos_of(s, class_id);
        }
        let ghost p = pos_of(s, class_id);
        let class = match self.get_class_by_id(class_id) {
            Some(c) => c,
            None => {
                return None;
            },
        };
        if let Some(flags) = own_static_field(class, field_name, descriptor) {
            return Some((class.name.clone(), flags));
        }
        if let Some(super_id) = class.super_id {
            assert(0 <= pos_of(s, super_id) < p) by {
                assert(s[p].super_id == Some(super_id));
            }
            if let Some(info) = self.static_field_info_by_class_id(super_id, field_name, descriptor) {
                return Some(info);
            }
        }
        let mut k: usize = 0;
        while k < class.interface_ids.len()
            invariant
                self.wf(),
                s == self@,
                0 <= p < s.len(),
                p == pos_of(s, class_id),
                class@ == s[p],
                direct_interfaces(s, class_id) == class.interface_ids@,
                k <= class.interface_ids.len(),
                static_field_info(s, class_id, field_name@, opt_view(descriptor)) == static_field_info_from(
                    s,
                    class_id,
                    k as int,
                    field_name@,
                    opt_view(descriptor),
                ),
            decreases class.interface_ids.len() - k,
        {
            let interface_id = class.interface_ids[k];
            assert(0 <= pos_of(s, interface_id) < p) by {
                assert(s[p].interface_ids[k as int] == interface_id);
            }
            if let Some(info) = self.static_field_info_by_class_id(interface_id, field_name, descriptor) {
                return Some(info);
            }
            k = k + 1;
        }
        None
    }

    /// The class that declares a static field and the field's flags, looked
    /// up from the named class through its superclass chain, then its
    /// superinterfaces; the descriptor, when given, must match too. The
    /// class is looked up by name among the loaded classes; its supertypes
    /// are followed through their resolved ids.
    pub fn find_static_field_info(
        &self,
        registry: &ClassIdentityRegistry,
        class_name: &str,
        field_name: &str,
        descriptor: Option<&str>,
    ) -> (r: Option<(String, u16)>)
        requires
            self.wf(),
        ensures
            match loaded_class_id(registry@, class_name@) {
                Some(id) => match static_field_info(self@, id, field_name@, opt_view(descriptor)) {
                    Some((owner, flags)) => r matches Some((o, f)) && o@ == owner && f == flags,
                    None => r is None,
                },
                None => r is None,
            },
    {
        match loaded_class_id_by_name(registry, class_name) {
            Some(id) => self.static_field_info_by_class_id(id, field_name, descriptor),
            None => None,
        }
    }

    /// Check a `putstatic` from the method whose frame owner is
    /// `current_frame_owner`: when the field is found and is final, only its
    /// own class may write it.
    pub fn check_final_static_field_write(
        &self,
        registry: &ClassIdentityRegistry,
        owner: &str,
        field_name: &str,
        descriptor: Option<&str>,
        current_frame_owner: &str,
    ) -> (r: Result<(), String>)
        requires
            self.wf(),
        ensures
            match loaded_class_id(registry@, owner@) {
                Some(id) => match static_field_info(self@, id, field_name@, opt_view(descriptor)) {
                    Some((declaring, flags)) => (r is Ok <==> static_write_allowed(
                        declaring,
                        flags,
                        current_frame_owner@,
                    )) && (r matches Err(e) ==> e@ == final_field_write_text(
                        declaring,
                        field_name@,
                        current_frame_owner@,
                    )),
                    None => r is Ok,
                },
                None => r is Ok,
            },
    {
        match self.find_static_field_info(registry, owner, field_name, descriptor) {
            Some((resolved_owner, access_flags)) => check_final_static_field_write_resolved(
                &resolved_owner,
                field_name,
                access_flags,
                current_frame_owner,
            ),
            None => Ok(()),
        }
    }
}

} // verus!
