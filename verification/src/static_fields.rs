//! The values of static fields, by owning class and field name, and the
//! search for a static field's value through the class hierarchy: the
//! class itself, then its superclass chain, then its superinterfaces. The
//! values themselves belong to the interpreter; the table holds them
//! without looking inside. A static final field may instead take its
//! value from a `ConstantValue` attribute, found through the hierarchy in
//! the same order.

use vstd::prelude::*;
use crate::class_file::{attribute_view, attributes_view, Attribute, ClassFile, ConstantPool, ConstantPoolEntry, FieldInfo};
use crate::class_identity::ClassId;
use crate::class_spec::{cp_utf8, AttributeV, ClassFileV, CpEntry, MemberV};
use crate::hierarchy::{direct_interfaces, lemma_pos_of, pos_of, ClassHierarchy, LinkedClassV};
use crate::lazy_classes::{ClassIdStore, LazyClassV};
use crate::resolution::ACC_STATIC;
use crate::text::{chars_of, str_eq};

verus! {

/// Static field values: one per owning class and field name.
pub struct StaticFieldTable<V> {
    entries: Vec<(ClassId, String, V)>,
}

/// The key of entry `j`: its class and field name.
pub open spec fn key_at<V>(s: Seq<(ClassId, String, V)>, j: int) -> (ClassId, Seq<char>) {
    (s[j].0, s[j].1@)
}

/// The table as a map from (class, field name) to the value; a later entry
/// for a key replaces an earlier one.
pub open spec fn entries_map<V>(s: Seq<(ClassId, String, V)>) -> Map<(ClassId, Seq<char>), V>
    decreases s.len(),
{
    if s.len() == 0 {
        Map::empty()
    } else {
        entries_map(s.drop_last()).insert(key_at(s, s.len() - 1), s.last().2)
    }
}

proof fn lemma_map_absent<V>(s: Seq<(ClassId, String, V)>, k: (ClassId, Seq<char>))
    requires
        forall|j: int| 0 <= j < s.len() ==> #[trigger] key_at(s, j) != k,
    ensures
        !entries_map(s).contains_key(k),
    decreases s.len(),
{
    if s.len() > 0 {
        let t = s.drop_last();
        assert forall|j: int| 0 <= j < t.len() implies #[trigger] key_at(t, j) != k by {
            assert(key_at(s, j) != k);
        }
        assert(key_at(s, s.len() - 1) != k);
        lemma_map_absent(t, k);
    }
}

proof fn lemma_map_last<V>(s: Seq<(ClassId, String, V)>, k: (ClassId, Seq<char>), i: int)
    requires
        0 <= i < s.len(),
        key_at(s, i) == k,
        forall|j: int| i < j < s.len() ==> #[trigger] key_at(s, j) != k,
    ensures
        entries_map(s).contains_key(k),
        entries_map(s)[k] == s[i].2,
    decreases s.len(),
{
    if i < s.len() - 1 {
        let t = s.drop_last();
        assert(key_at(s, s.len() - 1) != k);
        assert(key_at(t, i) == k);
        assert forall|j: int| i < j < t.len() implies #[trigger] key_at(t, j) != k by {
            assert(key_at(s, j) != k);
        }
        lemma_map_last(t, k, i);
    }
}

impl<V> View for StaticFieldTable<V> {
    type V = Map<(ClassId, Seq<char>), V>;

    closed spec fn view(&self) -> Map<(ClassId, Seq<char>), V> {
        entries_map(self.entries@)
    }
}

impl<V> StaticFieldTable<V> {
    /// A table with no static field values.
    pub fn new() -> (t: Self)
        ensures
            t@ == Map::<(ClassId, Seq<char>), V>::empty(),
    {
        StaticFieldTable { entries: Vec::new() }
    }

    fn position(&self, class_id: ClassId, field_name: &str) -> (r: Option<usize>)
        ensures
            match r {
                Some(i) => i < self.entries@.len() && key_at(self.entries@, i as int) == (class_id, field_name@)
                    && forall|j: int|
                    i < j < self.entries@.len() ==> #[trigger] key_at(self.entries@, j) != (
                        class_id,
                        field_name@,
                    ),
                None => forall|j: int|
                    0 <= j < self.entries@.len() ==> #[trigger] key_at(self.entries@, j) != (
                        class_id,
                        field_name@,
                    ),
            },
    {
        let mut i: usize = self.entries.len();
        while i > 0
            invariant
                i <= self.entries@.len(),
                forall|j: int|
                    i <= j < self.entries@.len() ==> #[trigger] key_at(self.entries@, j) != (
                        class_id,
                        field_name@,
                    ),
            decreases i,
        {
            i = i - 1;
            let e = &self.entries[i];
            if e.0 == class_id && str_eq(e.1.as_str(), field_name) {
                return Some(i);
            }
        }
        None
    }

    /// The value of the static field `field_name` of the class `class_id`,
    /// if it has one.
    pub fn get(&self, class_id: ClassId, field_name: &str) -> (r: Option<&V>)
        ensures
            match r {
                Some(v) => self@.contains_key((class_id, field_name@)) && *v == self@[(class_id, field_name@)],
                None => !self@.contains_key((class_id, field_name@)),
            },
    {
        match self.position(class_id, field_name) {
            Some(i) => {
                proof {
                    lemma_map_last(self.entries@, (class_id, field_name@), i as int);
                }
                Some(&self.entries[i].2)
            },
            None => {
                proof {
                    lemma_map_absent(self.entries@, (class_id, field_name@));
                }
                None
            },
        }
    }

    /// Whether the static field `field_name` of the class `class_id` has a
    /// value.
    pub fn contains(&self, class_id: ClassId, field_name: &str) -> (r: bool)
        ensures
            r == self@.contains_key((class_id, field_name@)),
    {
        match self.position(class_id, field_name) {
            Some(i) => {
                proof {
                    lemma_map_last(self.entries@, (class_id, field_name@), i as int);
                }
                true
            },
            None => {
                proof {
                    lemma_map_absent(self.entries@, (class_id, field_name@));
                }
                false
            },
        }
    }

    /// Give the static field `field_name` of the class `class_id` the value
    /// `value`, replacing the one it had.
    pub fn set(&mut self, class_id: ClassId, field_name: &str, value: V)
        ensures
            final(self)@ == old(self)@.insert((class_id, field_name@), value),
    {
        let ghost before = self.entries@;
        self.entries.push((class_id, field_name.to_owned(), value));
        proof {
            assert(self.entries@.drop_last() =~= before);
        }
    }
}

/// The class whose static field `name` a lookup from the class `id` finds:
/// `id` itself when its field has a value, else the result of the lookup
/// from its superclass, else from its direct superinterfaces in
/// declaration order. Classes that are not linked have no supertypes.
pub open spec fn static_field_owner(
    s: Seq<LinkedClassV>,
    present: Set<(ClassId, Seq<char>)>,
    id: ClassId,
    name: Seq<char>,
) -> Option<ClassId>
    decreases pos_of(s, id), 1int, 0int,
{
    let p = pos_of(s, id);
    if present.contains((id, name)) {
        Some(id)
    } else if p < 0 {
        None
    } else {
        let from_super = match s[p].super_id {
            Some(sid) => if 0 <= pos_of(s, sid) < p {
                static_field_owner(s, present, sid, name)
            } else {
                None
            },
            None => None,
        };
        if from_super is Some {
            from_super
        } else {
            static_field_owner_from(s, present, id, 0, name)
        }
    }
}

/// The owner found through the direct superinterfaces of `owner` from the
/// `k`-th on.
pub open spec fn static_field_owner_from(
    s: Seq<LinkedClassV>,
    present: Set<(ClassId, Seq<char>)>,
    owner: ClassId,
    k: int,
    name: Seq<char>,
) -> Option<ClassId>
    decreases pos_of(s, owner), 0int, direct_interfaces(s, owner).len() - k,
{
    let ifs = direct_interfaces(s, owner);
    if k < 0 || k >= ifs.len() {
        None
    } else {
        let here = if 0 <= pos_of(s, ifs[k]) < pos_of(s, owner) {
            static_field_owner(s, present, ifs[k], name)
        } else {
            None
        };
        if here is Some {
            here
        } else {
            static_field_owner_from(s, present, owner, k + 1, name)
        }
    }
}

/// The class, starting from `class_id`, whose static field `field_name`
/// has a value, as `static_field_owner` says.
pub fn find_static_field_owner<V>(
    hierarchy: &ClassHierarchy,
    table: &StaticFieldTable<V>,
    class_id: ClassId,
    field_name: &str,
) -> (r: Option<ClassId>)
    requires
        hierarchy.wf(),
    ensures
        r == static_field_owner(hierarchy@, table@.dom(), class_id, field_name@),
    decreases pos_of(hierarchy@, class_id),
{
    let ghost s = hierarchy@;
    proof {
        lemma_pos_of(s, class_id);
    }
    let ghost p = pos_of(s, class_id);
    if table.contains(class_id, field_name) {
        return Some(class_id);
    }
    let class = match hierarchy.get_class_by_id(class_id) {
        Some(c) => c,
        None => {
            return None;
        },
    };
    if let Some(super_id) = class.super_id {
        assert(0 <= pos_of(s, super_id) < p) by {
            assert(s[p].super_id == Some(super_id));
        }
        if let Some(owner) = find_static_field_owner(hierarchy, table, super_id, field_name) {
            return Some(owner);
        }
    }
    let mut k: usize = 0;
    while k < class.interface_ids.len()
        invariant
            hierarchy.wf(),
            s == hierarchy@,
            0 <= p < s.len(),
            p == pos_of(s, class_id),
            class@ == s[p],
            !table@.dom().contains((class_id, field_name@)),
            direct_interfaces(s, class_id) == class.interface_ids@,
            k <= class.interface_ids.len(),
            static_field_owner(s, table@.dom(), class_id, field_name@) == static_field_owner_from(
                s,
                table@.dom(),
                class_id,
                k as int,
                field_name@,
            ),
        decreases class.interface_ids.len() - k,
    {
        let interface_id = class.interface_ids[k];
        assert(0 <= pos_of(s, interface_id) < p) by {
            assert(s[p].interface_ids[k as int] == interface_id);
        }
        if let Some(owner) = find_static_field_owner(hierarchy, table, interface_id, field_name) {
            return Some(owner);
        }
        k = k + 1;
    }
    None
}

/// The value of the static field `field_name` that a lookup from the class
/// `class_id` finds: that of the class `static_field_owner` names.
pub fn static_field_in_hierarchy<'a, V>(
    hierarchy: &ClassHierarchy,
    table: &'a StaticFieldTable<V>,
    class_id: ClassId,
    field_name: &str,
) -> (r: Option<&'a V>)
    requires
        hierarchy.wf(),
    ensures
        match static_field_owner(hierarchy@, table@.dom(), class_id, field_name@) {
            Some(owner) => r matches Some(v) && *v == table@[(owner, field_name@)],
            None => r is None,
        },
{
    match find_static_field_owner(hierarchy, table, class_id, field_name) {
        Some(owner) => {
            proof {
                lemma_static_owner_has_value(hierarchy@, table@.dom(), class_id, field_name@);
            }
            table.get(owner, field_name)
        },
        None => None,
    }
}

/// The class a lookup finds has a value for the field.
pub proof fn lemma_static_owner_has_value(
    s: Seq<LinkedClassV>,
    present: Set<(ClassId, Seq<char>)>,
    id: ClassId,
    name: Seq<char>,
)
    ensures
        static_field_owner(s, present, id, name) matches Some(o) ==> present.contains((o, name)),
    decreases pos_of(s, id), 1int, 0int,
{
    let p = pos_of(s, id);
    if !present.contains((id, name)) && p >= 0 {
        match s[p].super_id {
            Some(sid) => if 0 <= pos_of(s, sid) < p {
                lemma_static_owner_has_value(s, present, sid, name);
            },
            None => {},
        }
        lemma_static_owner_from_has_value(s, present, id, 0, name);
    }
}

proof fn lemma_static_owner_from_has_value(
    s: Seq<LinkedClassV>,
    present: Set<(ClassId, Seq<char>)>,
    owner: ClassId,
    k: int,
    name: Seq<char>,
)
    ensures
        static_field_owner_from(s, present, owner, k, name) matches Some(o) ==> present.contains((o, name)),
    decreases pos_of(s, owner), 0int, direct_interfaces(s, owner).len() - k,
{
    let ifs = direct_interfaces(s, owner);
    if 0 <= k < ifs.len() {
        if 0 <= pos_of(s, ifs[k]) < pos_of(s, owner) {
            lemma_static_owner_has_value(s, present, ifs[k], name);
        }
        lemma_static_owner_from_has_value(s, present, owner, k + 1, name);
    }
}


// ---------------------------------------------------------------------------
// Values from `ConstantValue` attributes
// ---------------------------------------------------------------------------

/// A constant a `ConstantValue` attribute gives a static field; floating
/// constants as the bits the class file stores, a string as its text.
#[derive(Debug, PartialEq)]
pub enum ConstantValue {
    Int(i32),
    Long(i64),
    FloatBits(u32),
    DoubleBits(u64),
    Str(String),
}

pub enum ConstantValueV {
    Int(i32),
    Long(i64),
    FloatBits(u32),
    DoubleBits(u64),
    Str(Seq<char>),
}

impl View for ConstantValue {
    type V = ConstantValueV;

    open spec fn view(&self) -> ConstantValueV {
        match self {
            ConstantValue::Int(v) => ConstantValueV::Int(*v),
            ConstantValue::Long(v) => ConstantValueV::Long(*v),
            ConstantValue::FloatBits(v) => ConstantValueV::FloatBits(*v),
            ConstantValue::DoubleBits(v) => ConstantValueV::DoubleBits(*v),
            ConstantValue::Str(s) => ConstantValueV::Str(s@),
        }
    }
}

/// The constant-pool index of the first `ConstantValue` attribute.
pub open spec fn first_constant_value_index(attrs: Seq<AttributeV>) -> Option<u16>
    decreases attrs.len(),
{
    if attrs.len() == 0 {
        None
    } else {
        match attrs[0] {
            AttributeV::ConstantValue { constantvalue_index } => Some(constantvalue_index),
            _ => first_constant_value_index(attrs.drop_first()),
        }
    }
}

/// The `ConstantValue` index that the field `f` offers for the name `name`:
/// when it is static, is named `name` and has such an attribute.
pub open spec fn field_constant_index(cp: Seq<CpEntry>, f: MemberV, name: Seq<char>) -> Option<u16> {
    if f.access_flags & ACC_STATIC != 0 && cp_utf8(cp, f.name_index) == Some(name) {
        first_constant_value_index(f.attributes)
    } else {
        None
    }
}

/// The `ConstantValue` index of the first of `fields` that offers one for
/// `name`.
pub open spec fn static_constant_index(cp: Seq<CpEntry>, fields: Seq<MemberV>, name: Seq<char>) -> Option<u16>
    decreases fields.len(),
{
    if fields.len() == 0 {
        None
    } else if field_constant_index(cp, fields[0], name) is Some {
        field_constant_index(cp, fields[0], name)
    } else {
        static_constant_index(cp, fields.drop_first(), name)
    }
}

/// The fields can be searched for `name`: the name of each static field up
/// to the one found is a `Utf8` entry.
pub open spec fn constant_scan_ok(cp: Seq<CpEntry>, fields: Seq<MemberV>, name: Seq<char>) -> bool
    decreases fields.len(),
{
    if fields.len() == 0 {
        true
    } else {
        &&& fields[0].access_flags & ACC_STATIC != 0 ==> cp_utf8(cp, fields[0].name_index) is Some
        &&& (field_constant_index(cp, fields[0], name) is Some || constant_scan_ok(cp, fields.drop_first(), name))
    }
}

/// The constant at `idx`: an integer, long, float, double or string entry.
pub open spec fn constant_at(cp: Seq<CpEntry>, idx: u16) -> Option<ConstantValueV> {
    if (idx as int) < cp.len() {
        match cp[idx as int] {
            CpEntry::Integer(v) => Some(ConstantValueV::Int(v)),
            CpEntry::Long(v) => Some(ConstantValueV::Long(v)),
            CpEntry::Float(v) => Some(ConstantValueV::FloatBits(v)),
            CpEntry::Double(v) => Some(ConstantValueV::DoubleBits(v)),
            CpEntry::String { string_index } => match cp_utf8(cp, string_index) {
                Some(t) => Some(ConstantValueV::Str(t)),
                None => None,
            },
            _ => None,
        }
    } else {
        None
    }
}

/// The constant value that the class `c` gives its static field `name`.
pub open spec fn class_constant(c: ClassFileV, name: Seq<char>) -> Option<ConstantValueV> {
    match static_constant_index(c.constant_pool, c.fields, name) {
        Some(i) => constant_at(c.constant_pool, i),
        None => None,
    }
}

fn constant_value_index_of(attributes: &Vec<Attribute>) -> (r: Option<u16>)
    ensures
        r == first_constant_value_index(attributes_view(attributes@)),
{
    let ghost whole = attributes@;
    let mut k: usize = 0;
    assert(whole.subrange(0, whole.len() as int) =~= whole);
    while k < attributes.len()
        invariant
            whole == attributes@,
            k <= whole.len(),
            first_constant_value_index(attributes_view(whole)) == first_constant_value_index(
                attributes_view(whole.subrange(k as int, whole.len() as int)),
            ),
        decreases attributes.len() - k,
    {
        let ghost rest = whole.subrange(k as int, whole.len() as int);
        let ghost tail = whole.subrange(k + 1, whole.len() as int);
        proof {
            assert(rest[0] == whole[k as int]);
            assert(rest.subrange(1, rest.len() as int) =~= tail);
            let x = attribute_view(rest[0]);
            assert(attributes_view(rest) == seq![x] + attributes_view(tail));
            assert((seq![x] + attributes_view(tail))[0] == x);
            assert((seq![x] + attributes_view(tail)).drop_first() =~= attributes_view(tail));
        }
        if let Attribute::ConstantValue { constantvalue_index } = &attributes[k] {
            return Some(*constantvalue_index);
        }
        k = k + 1;
    }
    None
}

fn constant_at_index(cp: &ConstantPool, idx: u16) -> (r: Option<ConstantValue>)
    ensures
        match constant_at(cp@, idx) {
            Some(v) => r matches Some(c) && c@ == v,
            None => r is None,
        },
{
    match cp.entry(idx) {
        None => None,
        Some(ConstantPoolEntry::Integer(v)) => Some(ConstantValue::Int(*v)),
        Some(ConstantPoolEntry::Long(v)) => Some(ConstantValue::Long(*v)),
        Some(ConstantPoolEntry::Float(v)) => Some(ConstantValue::FloatBits(*v)),
        Some(ConstantPoolEntry::Double(v)) => Some(ConstantValue::DoubleBits(*v)),
        Some(ConstantPoolEntry::String { string_index }) => match cp.utf8_entry(*string_index) {
            Some(t) => Some(ConstantValue::Str(t.to_owned())),
            None => None,
        },
        Some(_) => None,
    }
}

/// The constant value that the class `cf` gives its static field
/// `field_name` through a `ConstantValue` attribute.
pub fn class_constant_value(cf: &ClassFile, field_name: &str) -> (r: Option<ConstantValue>)
    requires
        constant_scan_ok(cf@.constant_pool, cf@.fields, field_name@),
    ensures
        match class_constant(cf@, field_name@) {
            Some(v) => r matches Some(c) && c@ == v,
            None => r is None,
        },
{
    let cp = &cf.constant_pool;
    let ghost fs = cf@.fields;
    let mut i: usize = 0;
    assert(fs.subrange(0, fs.len() as int) =~= fs);
    while i < cf.fields.len()
        invariant
            fs == cf@.fields,
            cp@ == cf@.constant_pool,
            i <= fs.len(),
            constant_scan_ok(cp@, fs.subrange(i as int, fs.len() as int), field_name@),
            static_constant_index(cp@, fs, field_name@) == static_constant_index(
                cp@,
                fs.subrange(i as int, fs.len() as int),
                field_name@,
            ),
        decreases cf.fields.len() - i,
    {
        let f: &FieldInfo = &cf.fields[i];
        let ghost rest = fs.subrange(i as int, fs.len() as int);
        assert(rest[0] == f@);
        if f.access_flags & ACC_STATIC != 0 {
            let n = cp.utf8(f.name_index);
            if str_eq(n, field_name) {
                if let Some(idx) = constant_value_index_of(&f.attributes) {
                    assert(field_constant_index(cp@, rest[0], field_name@) == Some(idx));
                    return constant_at_index(cp, idx);
                }
            }
        }
        assert(field_constant_index(cp@, rest[0], field_name@) is None);
        assert(rest.drop_first() =~= fs.subrange(i + 1, fs.len() as int));
        i = i + 1;
    }
    None
}

/// The static fields, by class, that the ready classes of `st` give a
/// constant value.
pub open spec fn constant_keys(st: Map<ClassId, LazyClassV>) -> Set<(ClassId, Seq<char>)> {
    Set::new(
        |k: (ClassId, Seq<char>)|
            st.contains_key(k.0) && st[k.0] is Ready && class_constant(st[k.0]->Ready_0, k.1) is Some,
    )
}

/// Every ready class of `st` can be searched for a constant `name`.
pub open spec fn constants_readable(st: Map<ClassId, LazyClassV>, name: Seq<char>) -> bool {
    forall|id: ClassId|
        #![trigger st[id]]
        st.contains_key(id) && st[id] is Ready ==> constant_scan_ok(
            st[id]->Ready_0.constant_pool,
            st[id]->Ready_0.fields,
            name,
        )
}

/// The constant value of the static field `field_name` that a lookup from
/// the class `class_id` finds, with the class that gives it: the class
/// itself, else through its superclass chain, else through its
/// superinterfaces, among the classes that are ready.
pub fn constant_value_in_hierarchy(
    hierarchy: &ClassHierarchy,
    classes: &ClassIdStore,
    class_id: ClassId,
    field_name: &str,
) -> (r: Option<(ClassId, ConstantValue)>)
    requires
        hierarchy.wf(),
        classes.wf(),
        constants_readable(classes.classes(), field_name@),
    ensures
        match static_field_owner(hierarchy@, constant_keys(classes.classes()), class_id, field_name@) {
            Some(owner) => r matches Some((o, v)) && o == owner && Some(v@) == class_constant(
                classes.classes()[owner]->Ready_0,
                field_name@,
            ),
            None => r is None,
        },
    decreases pos_of(hierarchy@, class_id),
{
    let ghost s = hierarchy@;
    let ghost keys = constant_keys(classes.classes());
    proof {
        lemma_pos_of(s, class_id);
    }
    let ghost p = pos_of(s, class_id);
    if let Some(cf) = classes.get_class_by_id(class_id) {
        if let Some(v) = class_constant_value(cf, field_name) {
            assert(keys.contains((class_id, field_name@)));
            return Some((class_id, v));
        }
    }
    assert(!keys.contains((class_id, field_name@)));
    let class = match hierarchy.get_class_by_id(class_id) {
        Some(c) => c,
        None => {
            return None;
        },
    };
    if let Some(super_id) = class.super_id {
        assert(0 <= pos_of(s, super_id) < p) by {
            assert(s[p].super_id == Some(super_id));
        }
        if let Some(found) = constant_value_in_hierarchy(hierarchy, classes, super_id, field_name) {
            return Some(found);
        }
    }
    let mut k: usize = 0;
    while k < class.interface_ids.len()
        invariant
            hierarchy.wf(),
            classes.wf(),
            constants_readable(classes.classes(), field_name@),
            s == hierarchy@,
            keys == constant_keys(classes.classes()),
            0 <= p < s.len(),
            p == pos_of(s, class_id),
            class@ == s[p],
            !keys.contains((class_id, field_name@)),
            direct_interfaces(s, class_id) == class.interface_ids@,
            k <= class.interface_ids.len(),
            static_field_owner(s, keys, class_id, field_name@) == static_field_owner_from(
                s,
                keys,
                class_id,
                k as int,
                field_name@,
            ),
        decreases class.interface_ids.len() - k,
    {
        let interface_id = class.interface_ids[k];
        assert(0 <= pos_of(s, interface_id) < p) by {
            assert(s[p].interface_ids[k as int] == interface_id);
        }
        if let Some(found) = constant_value_in_hierarchy(hierarchy, classes, interface_id, field_name) {
            return Some(found);
        }
        k = k + 1;
    }
    None
}


// ---------------------------------------------------------------------------
// Where a `getstatic` takes its value from
// ---------------------------------------------------------------------------

/// The default value of a field, by the first character of its descriptor.
#[derive(Clone, Copy, Debug, PartialEq, Eq, Structural)]
pub enum DefaultValue {
    /// `int` and the types stored as one: `byte`, `char`, `short`, `boolean`.
    Int,
    Long,
    Float,
    Double,
    /// `null`, for references and arrays.
    Null,
}

/// The default value for a field of descriptor `d`.
pub open spec fn default_value_of(d: Seq<char>) -> DefaultValue {
    if d.len() == 0 {
        DefaultValue::Null
    } else if d[0] == 'I' || d[0] == 'B' || d[0] == 'C' || d[0] == 'S' || d[0] == 'Z' {
        DefaultValue::Int
    } else if d[0] == 'J' {
        DefaultValue::Long
    } else if d[0] == 'F' {
        DefaultValue::Float
    } else if d[0] == 'D' {
        DefaultValue::Double
    } else {
        DefaultValue::Null
    }
}

/// The default value for a field of this descriptor: zero of its
/// primitive type, or `null`.
pub fn default_value_for_descriptor(desc: &str) -> (r: DefaultValue)
    ensures
        r == default_value_of(desc@),
{
    let chars = chars_of(desc);
    if chars.len() == 0 {
        return DefaultValue::Null;
    }
    let c = chars[0];
    if c == 'I' || c == 'B' || c == 'C' || c == 'S' || c == 'Z' {
        DefaultValue::Int
    } else if c == 'J' {
        DefaultValue::Long
    } else if c == 'F' {
        DefaultValue::Float
    } else if c == 'D' {
        DefaultValue::Double
    } else {
        DefaultValue::Null
    }
}

/// A standard stream of `java/lang/System`.
#[derive(Clone, Copy, Debug, PartialEq, Eq, Structural)]
pub enum SystemStream {
    Stdout,
    Stderr,
    Stdin,
}

/// The standard stream that the static field `field` of the class `class`
/// names, when it is `out`, `err` or `in` of `java/lang/System`.
pub open spec fn system_stream_of(class: Seq<char>, field: Seq<char>) -> Option<SystemStream> {
    if class != "java/lang/System"@ {
        None
    } else if field == "out"@ {
        Some(SystemStream::Stdout)
    } else if field == "err"@ {
        Some(SystemStream::Stderr)
    } else if field == "in"@ {
        Some(SystemStream::Stdin)
    } else {
        None
    }
}

/// Where the value of a static field read comes from.
#[derive(Debug, PartialEq)]
pub enum StaticFieldSource {
    /// The value the table holds for this class and the field.
    Table(ClassId),
    /// The constant of a `ConstantValue` attribute of this class; the
    /// interpreter stores it in the table under the class.
    Constant(ClassId, ConstantValue),
    /// A standard stream of `java/lang/System` that has no value yet: the
    /// interpreter creates it and stores it in the table.
    Stream(SystemStream),
    /// No class gives the field a value: the default for its descriptor.
    Default(DefaultValue),
}

pub enum StaticFieldSourceV {
    Table(ClassId),
    Constant(ClassId, ConstantValueV),
    Stream(SystemStream),
    Default(DefaultValue),
}

impl View for StaticFieldSource {
    type V = StaticFieldSourceV;

    open spec fn view(&self) -> StaticFieldSourceV {
        match self {
            StaticFieldSource::Table(c) => StaticFieldSourceV::Table(*c),
            StaticFieldSource::Constant(c, v) => StaticFieldSourceV::Constant(*c, v@),
            StaticFieldSource::Stream(k) => StaticFieldSourceV::Stream(*k),
            StaticFieldSource::Default(d) => StaticFieldSourceV::Default(*d),
        }
    }
}

/// Where a read of the static field `field` with descriptor `desc` through
/// the class `id`, named `class` in the reference, takes its value from: a
/// value found through the hierarchy, else a constant found through it, else
/// a standard stream of `java/lang/System`, else the default value.
pub open spec fn static_source_of(
    s: Seq<LinkedClassV>,
    values: Set<(ClassId, Seq<char>)>,
    classes: Map<ClassId, LazyClassV>,
    id: ClassId,
    class: Seq<char>,
    field: Seq<char>,
    desc: Seq<char>,
) -> StaticFieldSourceV {
    match static_field_owner(s, values, id, field) {
        Some(owner) => StaticFieldSourceV::Table(owner),
        None => match static_field_owner(s, constant_keys(classes), id, field) {
            Some(owner) => StaticFieldSourceV::Constant(
                owner,
                class_constant(classes[owner]->Ready_0, field).unwrap(),
            ),
            None => match system_stream_of(class, field) {
                Some(k) => StaticFieldSourceV::Stream(k),
                None => StaticFieldSourceV::Default(default_value_of(desc)),
            },
        },
    }
}

/// Decide where a read of the static field `field_name` (descriptor
/// `descriptor`) of the class `class_id`, which the reference names
/// `class_name`, takes its value from, after the class has been
/// initialized.
pub fn static_field_source<V>(
    hierarchy: &ClassHierarchy,
    table: &StaticFieldTable<V>,
    classes: &ClassIdStore,
    class_id: ClassId,
    class_name: &str,
    field_name: &str,
    descriptor: &str,
) -> (r: StaticFieldSource)
    requires
        hierarchy.wf(),
        classes.wf(),
        constants_readable(classes.classes(), field_name@),
    ensures
        r@ == static_source_of(
            hierarchy@,
            table@.dom(),
            classes.classes(),
            class_id,
            class_name@,
            field_name@,
            descriptor@,
        ),
{
    if let Some(owner) = find_static_field_owner(hierarchy, table, class_id, field_name) {
        return StaticFieldSource::Table(owner);
    }
    if let Some((owner, v)) = constant_value_in_hierarchy(hierarchy, classes, class_id, field_name) {
        return StaticFieldSource::Constant(owner, v);
    }
    proof {
        reveal_strlit("java/lang/System");
        reveal_strlit("out");
        reveal_strlit("err");
        reveal_strlit("in");
    }
    if str_eq(class_name, "java/lang/System") {
        if str_eq(field_name, "out") {
            return StaticFieldSource::Stream(SystemStream::Stdout);
        } else if str_eq(field_name, "err") {
            return StaticFieldSource::Stream(SystemStream::Stderr);
        } else if str_eq(field_name, "in") {
            return StaticFieldSource::Stream(SystemStream::Stdin);
        }
    }
    StaticFieldSource::Default(default_value_for_descriptor(descriptor))
}

} // verus!
