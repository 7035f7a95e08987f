//! Java class file parser.
//!
//! Parses the binary `.class` format as specified in JVMS §4.
//! Supports class file versions up to 69 (Java 25).
//! The meaning of every result is given in `class_spec`.

use std::rc::Rc;
use crate::text::{push_hex_text, push_nat_text, str_eq};
use vstd::prelude::*;
use crate::class_spec::{
    no_class_names, no_spans,
    spec_magic,
    class_name_spec, scan_cp,
    ClassParse, invalid_magic_text, parse_class_spec, parse_members,
    counted_fits, exception_table_at, inner_classes_at, line_numbers_at, local_variables_at,
    parse_attr, parse_attrs, parse_bootstrap_methods, parse_code_body, parse_components,
    CpParse, cp_prepend, fixed_entry, fixed_entry_size, parse_cp, unknown_tag_text,
    be_u16, be_u32, be_u64, u16s_at,
    AttributeV, BootstrapMethodV, ClassFileV, CodeAttributeV, CpEntry, MemberV, RecordComponentV,
    cp_utf8, utf8_lossy, utf8_text,
};
use vstd::utf8::{decode_utf8, valid_utf8};

verus! {

/// Magic number that starts every `.class` file.
const MAGIC: u32 = 0xCAFE_BABE;

/// A parsed Java class file.
#[derive(Debug)]
pub struct ClassFile {
    pub minor_version: u16,
    pub major_version: u16,
    pub constant_pool: ConstantPool,
    pub access_flags: u16,
    pub this_class: u16,
    pub super_class: u16,
    pub interfaces: Vec<u16>,
    pub fields: Vec<FieldInfo>,
    pub methods: Vec<MethodInfo>,
    pub attributes: Vec<Attribute>,
}

/// Constant pool wrapper with 1-based indexing (index 0 is unused per spec).
///
/// `entries` is shared through `Rc` so cloning the constant pool is O(1).
#[derive(Debug, Clone)]
pub struct ConstantPool {
    pub(crate) entries: Rc<Vec<ConstantPoolEntry>>,
}

/// A single constant pool entry (JVMS §4.4). `Float` and `Double` hold the
/// IEEE-754 bit patterns stored in the file.
#[derive(Debug, Clone)]
pub enum ConstantPoolEntry {
    /// Placeholder for the second slot of Long/Double (spec §4.4.5).
    Placeholder,
    Utf8(String),
    Integer(i32),
    Float(u32),
    Long(i64),
    Double(u64),
    Class { name_index: u16 },
    String { string_index: u16 },
    Fieldref { class_index: u16, name_and_type_index: u16 },
    Methodref { class_index: u16, name_and_type_index: u16 },
    InterfaceMethodref { class_index: u16, name_and_type_index: u16 },
    NameAndType { name_index: u16, descriptor_index: u16 },
    MethodHandle { reference_kind: u8, reference_index: u16 },
    MethodType { descriptor_index: u16 },
    Dynamic { bootstrap_method_attr_index: u16, name_and_type_index: u16 },
    InvokeDynamic { bootstrap_method_attr_index: u16, name_and_type_index: u16 },
    Module { name_index: u16 },
    Package { name_index: u16 },
}

/// Field metadata.
#[derive(Debug)]
pub struct FieldInfo {
    pub access_flags: u16,
    pub name_index: u16,
    pub descriptor_index: u16,
    pub attributes: Vec<Attribute>,
}

/// Method metadata including bytecode.
#[derive(Debug)]
pub struct MethodInfo {
    pub access_flags: u16,
    pub name_index: u16,
    pub descriptor_index: u16,
    pub attributes: Vec<Attribute>,
}

/// A class/method/field attribute (JVMS §4.7).
#[derive(Debug)]
pub enum Attribute {
    Code(CodeAttribute),
    ConstantValue { constantvalue_index: u16 },
    BootstrapMethods(Vec<BootstrapMethod>),
    Exceptions { exception_index_table: Vec<u16> },
    LineNumberTable(Vec<LineNumberEntry>),
    LocalVariableTable(Vec<LocalVariableEntry>),
    SourceFile { sourcefile_index: u16 },
    Signature { signature_index: u16 },
    InnerClasses(Vec<InnerClassEntry>),
    EnclosingMethod { class_index: u16, method_index: u16 },
    NestHost { host_class_index: u16 },
    NestMembers { classes: Vec<u16> },
    PermittedSubclasses { classes: Vec<u16> },
    Record { components: Vec<RecordComponentInfo> },
    Unknown { name: String, data: Vec<u8> },
}

/// The `Code` attribute containing bytecode and exception table.
#[derive(Debug)]
pub struct CodeAttribute {
    pub max_stack: u16,
    pub max_locals: u16,
    pub code: Vec<u8>,
    pub exception_table: Vec<ExceptionTableEntry>,
    pub attributes: Vec<Attribute>,
}

/// One entry in an exception table.
#[derive(Debug, Clone, Copy, PartialEq, Eq)]
pub struct ExceptionTableEntry {
    pub start_pc: u16,
    pub end_pc: u16,
    pub handler_pc: u16,
    pub catch_type: u16,
}

/// One bootstrap method referenced by `invokedynamic`.
#[derive(Debug, Clone)]
pub struct BootstrapMethod {
    pub bootstrap_method_ref: u16,
    pub bootstrap_arguments: Vec<u16>,
}

#[derive(Debug, Clone, Copy, PartialEq, Eq)]
pub struct LineNumberEntry {
    pub start_pc: u16,
    pub line_number: u16,
}

#[derive(Debug, Clone, Copy, PartialEq, Eq)]
pub struct LocalVariableEntry {
    pub start_pc: u16,
    pub length: u16,
    pub name_index: u16,
    pub descriptor_index: u16,
    pub index: u16,
}

#[derive(Debug, Clone, Copy, PartialEq, Eq)]
pub struct InnerClassEntry {
    pub inner_class_info_index: u16,
    pub outer_class_info_index: u16,
    pub inner_name_index: u16,
    pub inner_class_access_flags: u16,
}

#[derive(Debug)]
pub struct RecordComponentInfo {
    pub name_index: u16,
    pub descriptor_index: u16,
    pub attributes: Vec<Attribute>,
}

// ---------------------------------------------------------------------------
// Views
// ---------------------------------------------------------------------------

impl View for ConstantPoolEntry {
    type V = CpEntry;

    open spec fn view(&self) -> CpEntry {
        match self {
            ConstantPoolEntry::Placeholder => CpEntry::Placeholder,
            ConstantPoolEntry::Utf8(s) => CpEntry::Utf8(s@),
            ConstantPoolEntry::Integer(v) => CpEntry::Integer(*v),
            ConstantPoolEntry::Float(v) => CpEntry::Float(*v),
            ConstantPoolEntry::Long(v) => CpEntry::Long(*v),
            ConstantPoolEntry::Double(v) => CpEntry::Double(*v),
            ConstantPoolEntry::Class { name_index } => CpEntry::Class { name_index: *name_index },
            ConstantPoolEntry::String { string_index } => CpEntry::String {
                string_index: *string_index,
            },
            ConstantPoolEntry::Fieldref { class_index, name_and_type_index } => CpEntry::Fieldref {
                class_index: *class_index,
                name_and_type_index: *name_and_type_index,
            },
            ConstantPoolEntry::Methodref { class_index, name_and_type_index } => CpEntry::Methodref {
                class_index: *class_index,
                name_and_type_index: *name_and_type_index,
            },
            ConstantPoolEntry::InterfaceMethodref {
                class_index,
                name_and_type_index,
            } => CpEntry::InterfaceMethodref {
                class_index: *class_index,
                name_and_type_index: *name_and_type_index,
            },
            ConstantPoolEntry::NameAndType { name_index, descriptor_index } => CpEntry::NameAndType {
                name_index: *name_index,
                descriptor_index: *descriptor_index,
            },
            ConstantPoolEntry::MethodHandle {
                reference_kind,
                reference_index,
            } => CpEntry::MethodHandle {
                reference_kind: *reference_kind,
                reference_index: *reference_index,
            },
            ConstantPoolEntry::MethodType { descriptor_index } => CpEntry::MethodType {
                descriptor_index: *descriptor_index,
            },
            ConstantPoolEntry::Dynamic {
                bootstrap_method_attr_index,
                name_and_type_index,
            } => CpEntry::Dynamic {
                bootstrap_method_attr_index: *bootstrap_method_attr_index,
                name_and_type_index: *name_and_type_index,
            },
            ConstantPoolEntry::InvokeDynamic {
                bootstrap_method_attr_index,
                name_and_type_index,
            } => CpEntry::InvokeDynamic {
                bootstrap_method_attr_index: *bootstrap_method_attr_index,
                name_and_type_index: *name_and_type_index,
            },
            ConstantPoolEntry::Module { name_index } => CpEntry::Module { name_index: *name_index },
            ConstantPoolEntry::Package { name_index } => CpEntry::Package { name_index: *name_index },
        }
    }
}

/// The values of a sequence of constant-pool entries.
pub open spec fn cp_entries_view(s: Seq<ConstantPoolEntry>) -> Seq<CpEntry> {
    s.map_values(|e: ConstantPoolEntry| e@)
}

/// The name of the class that the `Class` entry at `index` names.
pub open spec fn cp_class_name(cp: Seq<CpEntry>, index: u16) -> Option<Seq<char>> {
    if (index as int) < cp.len() {
        match cp[index as int] {
            CpEntry::Class { name_index } => cp_utf8(cp, name_index),
            _ => None,
        }
    } else {
        None
    }
}

/// The name and descriptor that the `NameAndType` entry at `index` names.
pub open spec fn cp_name_and_type(cp: Seq<CpEntry>, index: u16) -> Option<(Seq<char>, Seq<char>)> {
    if (index as int) < cp.len() {
        match cp[index as int] {
            CpEntry::NameAndType { name_index, descriptor_index } => {
                match (cp_utf8(cp, name_index), cp_utf8(cp, descriptor_index)) {
                    (Some(n), Some(t)) => Some((n, t)),
                    _ => None,
                }
            },
            _ => None,
        }
    } else {
        None
    }
}

impl View for ConstantPool {
    type V = Seq<CpEntry>;

    closed spec fn view(&self) -> Seq<CpEntry> {
        cp_entries_view(self.entries@)
    }
}

impl View for BootstrapMethod {
    type V = BootstrapMethodV;

    open spec fn view(&self) -> BootstrapMethodV {
        BootstrapMethodV {
            bootstrap_method_ref: self.bootstrap_method_ref,
            bootstrap_arguments: self.bootstrap_arguments@,
        }
    }
}

/// The value of an attribute.
pub open spec fn attribute_view(a: Attribute) -> AttributeV
    decreases a,
{
    match a {
        Attribute::Code(c) => AttributeV::Code(code_view(c)),
        Attribute::ConstantValue { constantvalue_index } => AttributeV::ConstantValue {
            constantvalue_index,
        },
        Attribute::BootstrapMethods(v) => AttributeV::BootstrapMethods(
            v@.map_values(|b: BootstrapMethod| b@),
        ),
        Attribute::Exceptions { exception_index_table } => AttributeV::Exceptions {
            exception_index_table: exception_index_table@,
        },
        Attribute::LineNumberTable(v) => AttributeV::LineNumberTable(v@),
        Attribute::LocalVariableTable(v) => AttributeV::LocalVariableTable(v@),
        Attribute::SourceFile { sourcefile_index } => AttributeV::SourceFile { sourcefile_index },
        Attribute::Signature { signature_index } => AttributeV::Signature { signature_index },
        Attribute::InnerClasses(v) => AttributeV::InnerClasses(v@),
        Attribute::EnclosingMethod { class_index, method_index } => AttributeV::EnclosingMethod {
            class_index,
            method_index,
        },
        Attribute::NestHost { host_class_index } => AttributeV::NestHost { host_class_index },
        Attribute::NestMembers { classes } => AttributeV::NestMembers { classes: classes@ },
        Attribute::PermittedSubclasses { classes } => AttributeV::PermittedSubclasses {
            classes: classes@,
        },
        Attribute::Record { components } => AttributeV::Record {
            components: components_view(components@),
        },
        Attribute::Unknown { name, data } => AttributeV::Unknown { name: name@, data: data@ },
    }
}

/// The value of a `Code` attribute.
pub open spec fn code_view(c: CodeAttribute) -> CodeAttributeV
    decreases c,
{
    CodeAttributeV {
        max_stack: c.max_stack,
        max_locals: c.max_locals,
        code: c.code@,
        exception_table: c.exception_table@,
        attributes: attributes_view(c.attributes@),
    }
}

/// The values of a sequence of attributes.
pub open spec fn attributes_view(s: Seq<Attribute>) -> Seq<AttributeV>
    decreases s,
{
    if s.len() == 0 {
        Seq::empty()
    } else {
        seq![attribute_view(s[0])] + attributes_view(s.subrange(1, s.len() as int))
    }
}

/// The values of a sequence of record components.
pub open spec fn components_view(s: Seq<RecordComponentInfo>) -> Seq<RecordComponentV>
    decreases s,
{
    if s.len() == 0 {
        Seq::empty()
    } else {
        seq![
            RecordComponentV {
                name_index: s[0].name_index,
                descriptor_index: s[0].descriptor_index,
                attributes: attributes_view(s[0].attributes@),
            },
        ] + components_view(s.subrange(1, s.len() as int))
    }
}

impl View for Attribute {
    type V = AttributeV;

    open spec fn view(&self) -> AttributeV {
        attribute_view(*self)
    }
}

impl View for FieldInfo {
    type V = MemberV;

    open spec fn view(&self) -> MemberV {
        MemberV {
            access_flags: self.access_flags,
            name_index: self.name_index,
            descriptor_index: self.descriptor_index,
            attributes: attributes_view(self.attributes@),
        }
    }
}

impl View for MethodInfo {
    type V = MemberV;

    open spec fn view(&self) -> MemberV {
        MemberV {
            access_flags: self.access_flags,
            name_index: self.name_index,
            descriptor_index: self.descriptor_index,
            attributes: attributes_view(self.attributes@),
        }
    }
}

impl View for ClassFile {
    type V = ClassFileV;

    open spec fn view(&self) -> ClassFileV {
        ClassFileV {
            minor_version: self.minor_version,
            major_version: self.major_version,
            constant_pool: self.constant_pool@,
            access_flags: self.access_flags,
            this_class: self.this_class,
            super_class: self.super_class,
            interfaces: self.interfaces@,
            fields: self.fields@.map_values(|f: FieldInfo| f@),
            methods: self.methods@.map_values(|m: MethodInfo| m@),
            attributes: attributes_view(self.attributes@),
        }
    }
}

impl ConstantPool {
    fn new(entries: Vec<ConstantPoolEntry>) -> (cp: Self)
        ensures
            cp@ == cp_entries_view(entries@),
            cp.len() == entries@.len(),
    {
        Self { entries: Rc::new(entries) }
    }

    /// Number of slots, including the unused slot 0.
    pub closed spec fn len(&self) -> nat {
        self.entries@.len()
    }

    /// Get entry at 1-based index.
    pub fn get(&self, index: u16) -> (e: &ConstantPoolEntry)
        requires
            (index as int) < self@.len(),
        ensures
            e@ == self@[index as int],
    {
        let entries: &Vec<ConstantPoolEntry> = &self.entries;
        &entries[index as usize]
    }

    /// The entry at `index`, or `None` past the end of the pool.
    pub fn entry(&self, index: u16) -> (e: Option<&ConstantPoolEntry>)
        ensures
            match e {
                Some(x) => (index as int) < self@.len() && x@ == self@[index as int],
                None => (index as int) >= self@.len(),
            },
    {
        let entries: &Vec<ConstantPoolEntry> = &self.entries;
        if (index as usize) < entries.len() {
            Some(&entries[index as usize])
        } else {
            None
        }
    }

    /// The text of the `Utf8` entry at `index`, or `None` when there is no
    /// such entry.
    pub fn utf8_entry(&self, index: u16) -> (res: Option<&str>)
        ensures
            match res {
                Some(s) => cp_utf8(self@, index) == Some(s@),
                None => cp_utf8(self@, index) is None,
            },
    {
        let entries: &Vec<ConstantPoolEntry> = &self.entries;
        if (index as usize) < entries.len() {
            match &entries[index as usize] {
                ConstantPoolEntry::Utf8(s) => Some(s.as_str()),
                _ => None,
            }
        } else {
            None
        }
    }

    /// Resolve a Utf8 entry to a `&str`.
    pub fn utf8(&self, index: u16) -> (s: &str)
        requires
            cp_utf8(self@, index) is Some,
        ensures
            cp_utf8(self@, index) == Some(s@),
    {
        match self.utf8_entry(index) {
            Some(s) => s,
            None => vstd::pervasive::unreached(),
        }
    }

    /// The name the `Class` entry at `index` gives, or `None` when there is
    /// no such entry or it does not name a `Utf8` entry.
    pub fn class_name_entry(&self, index: u16) -> (res: Option<&str>)
        ensures
            match res {
                Some(s) => cp_class_name(self@, index) == Some(s@),
                None => cp_class_name(self@, index) is None,
            },
    {
        let entries: &Vec<ConstantPoolEntry> = &self.entries;
        if (index as usize) < entries.len() {
            match &entries[index as usize] {
                ConstantPoolEntry::Class { name_index } => self.utf8_entry(*name_index),
                _ => None,
            }
        } else {
            None
        }
    }

    /// Resolve a Class entry to its name string.
    pub fn class_name(&self, index: u16) -> (s: &str)
        requires
            cp_class_name(self@, index) is Some,
        ensures
            cp_class_name(self@, index) == Some(s@),
    {
        match self.get(index) {
            ConstantPoolEntry::Class { name_index } => self.utf8(*name_index),
            _ => vstd::pervasive::unreached(),
        }
    }

    /// Resolve a NameAndType entry.
    pub fn name_and_type(&self, index: u16) -> (res: (&str, &str))
        requires
            cp_name_and_type(self@, index) is Some,
        ensures
            cp_name_and_type(self@, index) == Some((res.0@, res.1@)),
    {
        match self.get(index) {
            ConstantPoolEntry::NameAndType { name_index, descriptor_index } => {
                (self.utf8(*name_index), self.utf8(*descriptor_index))
            },
            _ => vstd::pervasive::unreached(),
        }
    }
}


// ---------------------------------------------------------------------------
// Parser
// ---------------------------------------------------------------------------

struct Reader<'a> {
    data: &'a [u8],
    pos: usize,
}

impl<'a> Reader<'a> {
    spec fn wf(&self) -> bool {
        self.pos <= self.data@.len()
    }

    spec fn d(&self) -> Seq<u8> {
        self.data@
    }

    fn new(data: &'a [u8]) -> (r: Self)
        ensures
            r.data@ == data@,
            r.pos == 0,
    {
        Self { data, pos: 0 }
    }

    /// Whether `n` more bytes are available.
    fn has(&self, n: usize) -> (b: bool)
        requires
            self.wf(),
        ensures
            b == (self.pos + n <= self.data@.len()),
    {
        n <= self.data.len() - self.pos
    }

    fn u8(&mut self) -> (b: u8)
        requires
            old(self).pos + 1 <= old(self).data@.len(),
        ensures
            b == old(self).data@[old(self).pos as int],
            final(self).data == old(self).data,
            final(self).pos == old(self).pos + 1,
    {
        let b = self.data[self.pos];
        self.pos += 1;
        b
    }

    fn u16(&mut self) -> (v: u16)
        requires
            old(self).pos + 2 <= old(self).data@.len(),
        ensures
            v == be_u16(old(self).data@, old(self).pos as int),
            final(self).data == old(self).data,
            final(self).pos == old(self).pos + 2,
    {
        let hi = self.u8() as u16;
        let lo = self.u8() as u16;
        hi * 256 + lo
    }

    fn u32(&mut self) -> (v: u32)
        requires
            old(self).pos + 4 <= old(self).data@.len(),
        ensures
            v == be_u32(old(self).data@, old(self).pos as int),
            final(self).data == old(self).data,
            final(self).pos == old(self).pos + 4,
    {
        let a = self.u16() as u32;
        let b = self.u16() as u32;
        a * 65536 + b
    }

    fn i32(&mut self) -> (v: i32)
        requires
            old(self).pos + 4 <= old(self).data@.len(),
        ensures
            v == be_u32(old(self).data@, old(self).pos as int) as i32,
            final(self).data == old(self).data,
            final(self).pos == old(self).pos + 4,
    {
        self.u32() as i32
    }

    fn u64(&mut self) -> (v: u64)
        requires
            old(self).pos + 8 <= old(self).data@.len(),
        ensures
            v == be_u64(old(self).data@, old(self).pos as int),
            final(self).data == old(self).data,
            final(self).pos == old(self).pos + 8,
    {
        let hi = self.u32() as u64;
        let lo = self.u32() as u64;
        hi * 0x1_0000_0000 + lo
    }

    fn i64(&mut self) -> (v: i64)
        requires
            old(self).pos + 8 <= old(self).data@.len(),
        ensures
            v == be_u64(old(self).data@, old(self).pos as int) as i64,
            final(self).data == old(self).data,
            final(self).pos == old(self).pos + 8,
    {
        self.u64() as i64
    }

    /// The bit pattern of a `float` constant.
    fn float_bits(&mut self) -> (v: u32)
        requires
            old(self).pos + 4 <= old(self).data@.len(),
        ensures
            v == be_u32(old(self).data@, old(self).pos as int),
            final(self).data == old(self).data,
            final(self).pos == old(self).pos + 4,
    {
        self.u32()
    }

    /// The bit pattern of a `double` constant.
    fn double_bits(&mut self) -> (v: u64)
        requires
            old(self).pos + 8 <= old(self).data@.len(),
        ensures
            v == be_u64(old(self).data@, old(self).pos as int),
            final(self).data == old(self).data,
            final(self).pos == old(self).pos + 8,
    {
        self.u64()
    }

    fn bytes(&mut self, n: usize) -> (v: Vec<u8>)
        requires
            old(self).pos + n <= old(self).data@.len(),
        ensures
            v@ == old(self).data@.subrange(old(self).pos as int, old(self).pos + n),
            final(self).data == old(self).data,
            final(self).pos == old(self).pos + n,
    {
        let _len = self.data.len();
        let slice = vstd::slice::slice_subrange(self.data, self.pos, self.pos + n);
        self.pos += n;
        vstd::slice::slice_to_vec(slice)
    }

    /// `n` big-endian `u16`s.
    fn u16s(&mut self, n: usize) -> (v: Vec<u16>)
        requires
            old(self).pos + 2 * n <= old(self).data@.len(),
        ensures
            v@ == u16s_at(old(self).data@, old(self).pos as int, n as nat),
            final(self).data == old(self).data,
            final(self).pos == old(self).pos + 2 * n,
    {
        let ghost d = self.data@;
        let ghost p0 = self.pos as int;
        let mut v: Vec<u16> = Vec::new();
        let mut k: usize = 0;
        while k < n
            invariant
                self.data@ == d,
                p0 + 2 * n <= d.len(),
                k <= n,
                self.pos == p0 + 2 * k,
                v@ =~= u16s_at(d, p0, k as nat),
            decreases n - k,
        {
            let x = self.u16();
            v.push(x);
            k = k + 1;
        }
        v
    }
}


/// How reading a part of a class file ended: with a value, with an error
/// message, or on input where the reader would go past the end of the data
/// or meet a constant-pool entry of the wrong kind.
enum Outcome<T> {
    Value(T),
    Rejected(String),
    Malformed,
}

proof fn lemma_cp_prepend_assoc(a: Seq<CpEntry>, b: Seq<CpEntry>, o: CpParse)
    ensures
        cp_prepend(a, cp_prepend(b, o)) == cp_prepend(a + b, o),
{
    match o {
        CpParse::Done(rest, q) => {
            assert(a + (b + rest) =~= (a + b) + rest);
        },
        _ => {},
    }
}

/// Reads the single-slot entry with tag `tag` (not `Utf8`, `Long` or `Double`).
fn parse_fixed_entry(r: &mut Reader, tag: u8, size: usize) -> (e: ConstantPoolEntry)
    requires
        fixed_entry_size(tag) == Some(size as int),
        old(r).pos + size <= old(r).data@.len(),
    ensures
        e@ == fixed_entry(old(r).data@, old(r).pos as int, tag),
        final(r).data == old(r).data,
        final(r).pos == old(r).pos + size,
{
    if tag == 3 {
        ConstantPoolEntry::Integer(r.i32())
    } else if tag == 4 {
        ConstantPoolEntry::Float(r.float_bits())
    } else if tag == 7 {
        ConstantPoolEntry::Class { name_index: r.u16() }
    } else if tag == 8 {
        ConstantPoolEntry::String { string_index: r.u16() }
    } else if tag == 9 {
        let class_index = r.u16();
        let name_and_type_index = r.u16();
        ConstantPoolEntry::Fieldref { class_index, name_and_type_index }
    } else if tag == 10 {
        let class_index = r.u16();
        let name_and_type_index = r.u16();
        ConstantPoolEntry::Methodref { class_index, name_and_type_index }
    } else if tag == 11 {
        let class_index = r.u16();
        let name_and_type_index = r.u16();
        ConstantPoolEntry::InterfaceMethodref { class_index, name_and_type_index }
    } else if tag == 12 {
        let name_index = r.u16();
        let descriptor_index = r.u16();
        ConstantPoolEntry::NameAndType { name_index, descriptor_index }
    } else if tag == 15 {
        let reference_kind = r.u8();
        let reference_index = r.u16();
        ConstantPoolEntry::MethodHandle { reference_kind, reference_index }
    } else if tag == 16 {
        ConstantPoolEntry::MethodType { descriptor_index: r.u16() }
    } else if tag == 17 {
        let bootstrap_method_attr_index = r.u16();
        let name_and_type_index = r.u16();
        ConstantPoolEntry::Dynamic { bootstrap_method_attr_index, name_and_type_index }
    } else if tag == 18 {
        let bootstrap_method_attr_index = r.u16();
        let name_and_type_index = r.u16();
        ConstantPoolEntry::InvokeDynamic { bootstrap_method_attr_index, name_and_type_index }
    } else if tag == 19 {
        ConstantPoolEntry::Module { name_index: r.u16() }
    } else {
        ConstantPoolEntry::Package { name_index: r.u16() }
    }
}

/// The number of payload bytes of a single-slot entry with this tag.
fn fixed_size(tag: u8) -> (res: Option<usize>)
    ensures
        match fixed_entry_size(tag) {
            Some(n) => res == Some(n as usize),
            None => res is None,
        },
{
    if tag == 3 || tag == 4 || tag == 9 || tag == 10 || tag == 11 || tag == 12 || tag == 17
        || tag == 18 {
        Some(4)
    } else if tag == 7 || tag == 8 || tag == 16 || tag == 19 || tag == 20 {
        Some(2)
    } else if tag == 15 {
        Some(3)
    } else {
        None
    }
}

/// The message for an unknown constant-pool tag.
fn unknown_tag_message(tag: u8, index: u16) -> (s: String)
    ensures
        s@ == unknown_tag_text(tag, index as nat),
{
    let mut s = String::new();
    s.append("Unknown constant pool tag: ");
    push_nat_text(&mut s, tag as u64);
    s.append(" at index ");
    push_nat_text(&mut s, index as u64);
    s
}

fn parse_constant_pool(r: &mut Reader, count: u16) -> (res: Outcome<ConstantPool>)
    requires
        old(r).wf(),
    ensures
        final(r).data == old(r).data,
        final(r).wf(),
        match parse_cp(old(r).data@, old(r).pos as int, 1, count as nat) {
            CpParse::Done(entries, q) => res matches Outcome::Value(cp) && cp@ == seq![
                CpEntry::Placeholder,
            ] + entries && final(r).pos == q,
            CpParse::Failed(m) => res matches Outcome::Rejected(s) && s@ == m,
            CpParse::Truncated => res is Malformed,
        },
{
    let ghost d = r.data@;
    let ghost p0 = r.pos as int;
    // Index 0 is unused; fill with Placeholder.
    let mut entries: Vec<ConstantPoolEntry> = vec![ConstantPoolEntry::Placeholder];
    let mut i: u16 = 1;
    assert(cp_entries_view(entries@).subrange(1, 1) =~= Seq::<CpEntry>::empty());
    assert(parse_cp(d, p0, 1, count as nat) == cp_prepend(Seq::empty(), parse_cp(d, p0, 1, count as nat))) by {
        match parse_cp(d, p0, 1, count as nat) {
            CpParse::Done(rest, q) => { assert(Seq::<CpEntry>::empty() + rest =~= rest); },
            _ => {},
        }
    }
    while i < count
        invariant
            r.data == old(r).data,
            r.data@ == d,
            p0 == old(r).pos,
            r.wf(),
            p0 <= r.pos,
            1 <= i,
            entries@.len() >= 1,
            cp_entries_view(entries@)[0] == CpEntry::Placeholder,
            parse_cp(d, p0, 1, count as nat) == cp_prepend(
                cp_entries_view(entries@).subrange(1, entries@.len() as int),
                parse_cp(d, r.pos as int, i as nat, count as nat),
            ),
        decreases d.len() - r.pos,
    {
        let ghost pos = r.pos as int;
        let ghost before = cp_entries_view(entries@).subrange(1, entries@.len() as int);
        if !r.has(1) {
            return Outcome::Malformed;
        }
        let tag = r.u8();
        if tag == 1 {
            if !r.has(2) {
                return Outcome::Malformed;
            }
            let length = r.u16() as usize;
            if !r.has(length) {
                return Outcome::Malformed;
            }
            let bytes = r.bytes(length);
            // Modified UTF-8 — for ASCII-heavy Java class names this is fine.
            let s = decode_lossy(bytes.as_slice());
            let e = ConstantPoolEntry::Utf8(s);
            entries.push(e);
            i = i + 1;
            proof {
                lemma_cp_prepend_assoc(before, seq![e@], parse_cp(d, r.pos as int, i as nat, count as nat));
                assert(cp_entries_view(entries@).subrange(1, entries@.len() as int) =~= before + seq![e@]);
            }
        } else if tag == 5 || tag == 6 {
            if !r.has(8) || i > 0xFFFF - 2 {
                return Outcome::Malformed;
            }
            let e = if tag == 5 {
                ConstantPoolEntry::Long(r.i64())
            } else {
                ConstantPoolEntry::Double(r.double_bits())
            };
            entries.push(e);
            entries.push(ConstantPoolEntry::Placeholder);
            i = i + 2;
            proof {
                lemma_cp_prepend_assoc(
                    before,
                    seq![e@, CpEntry::Placeholder],
                    parse_cp(d, r.pos as int, i as nat, count as nat),
                );
                assert(cp_entries_view(entries@).subrange(1, entries@.len() as int) =~= before + seq![
                    e@,
                    CpEntry::Placeholder,
                ]);
            }
        } else {
            match fixed_size(tag) {
                Some(size) => {
                    if !r.has(size) {
                        return Outcome::Malformed;
                    }
                    let e = parse_fixed_entry(r, tag, size);
                    entries.push(e);
                    i = i + 1;
                    proof {
                        lemma_cp_prepend_assoc(
                            before,
                            seq![e@],
                            parse_cp(d, r.pos as int, i as nat, count as nat),
                        );
                        assert(cp_entries_view(entries@).subrange(1, entries@.len() as int) =~= before
                            + seq![e@]);
                    }
                },
                None => {
                    return Outcome::Rejected(unknown_tag_message(tag, i));
                },
            }
        }
    }
    proof {
        let v = cp_entries_view(entries@);
        assert(v =~= seq![CpEntry::Placeholder] + v.subrange(1, entries@.len() as int));
        assert(v.subrange(1, entries@.len() as int) + Seq::<CpEntry>::empty() =~= v.subrange(1, entries@.len() as int));
    }
    Outcome::Value(ConstantPool::new(entries))
}


pub(crate) proof fn lemma_attributes_view_push(s: Seq<Attribute>, a: Attribute)
    ensures
        attributes_view(s.push(a)) == attributes_view(s).push(attribute_view(a)),
    decreases s.len(),
{
    if s.len() == 0 {
        assert(s.push(a).subrange(1, 1) =~= Seq::<Attribute>::empty());
        assert(attributes_view(Seq::<Attribute>::empty()) == Seq::<AttributeV>::empty());
        assert(s.push(a)[0] == a);
        assert(attributes_view(s) == Seq::<AttributeV>::empty());
        assert(seq![attribute_view(a)] + Seq::<AttributeV>::empty() =~= seq![attribute_view(a)]);
        assert(Seq::<AttributeV>::empty().push(attribute_view(a)) =~= seq![attribute_view(a)]);
    } else {
        let t = s.subrange(1, s.len() as int);
        assert(s.push(a).subrange(1, s.len() as int + 1) =~= t.push(a));
        assert(s.push(a)[0] == s[0]);
        lemma_attributes_view_push(t, a);
        assert((seq![attribute_view(s[0])] + attributes_view(t)).push(attribute_view(a)) =~= seq![
            attribute_view(s[0]),
        ] + attributes_view(t).push(attribute_view(a)));
    }
}

proof fn lemma_components_view_push(s: Seq<RecordComponentInfo>, c: RecordComponentInfo)
    ensures
        components_view(s.push(c)) == components_view(s).push(
            RecordComponentV {
                name_index: c.name_index,
                descriptor_index: c.descriptor_index,
                attributes: attributes_view(c.attributes@),
            },
        ),
    decreases s.len(),
{
    let cv = RecordComponentV {
        name_index: c.name_index,
        descriptor_index: c.descriptor_index,
        attributes: attributes_view(c.attributes@),
    };
    if s.len() == 0 {
        assert(s.push(c).subrange(1, 1) =~= Seq::<RecordComponentInfo>::empty());
        assert(components_view(Seq::<RecordComponentInfo>::empty()) == Seq::<RecordComponentV>::empty());
        assert(s.push(c)[0] == c);
        assert(components_view(s) == Seq::<RecordComponentV>::empty());
        assert(seq![cv] + Seq::<RecordComponentV>::empty() =~= seq![cv]);
        assert(Seq::<RecordComponentV>::empty().push(cv) =~= seq![cv]);
    } else {
        let t = s.subrange(1, s.len() as int);
        assert(s.push(c).subrange(1, s.len() as int + 1) =~= t.push(c));
        assert(s.push(c)[0] == s[0]);
        lemma_components_view_push(t, c);
        let h = RecordComponentV {
            name_index: s[0].name_index,
            descriptor_index: s[0].descriptor_index,
            attributes: attributes_view(s[0].attributes@),
        };
        assert((seq![h] + components_view(t)).push(cv) =~= seq![h] + components_view(t).push(cv));
    }
}

fn read_exception_table(r: &mut Reader, n: usize) -> (v: Vec<ExceptionTableEntry>)
    requires
        old(r).pos + 8 * n <= old(r).data@.len(),
    ensures
        v@ == exception_table_at(old(r).data@, old(r).pos as int, n as nat),
        final(r).data == old(r).data,
        final(r).pos == old(r).pos + 8 * n,
{
    let ghost d = r.data@;
    let ghost p0 = r.pos as int;
    let mut v: Vec<ExceptionTableEntry> = Vec::new();
    let mut k: usize = 0;
    while k < n
        invariant
            r.data == old(r).data,
            r.data@ == d,
            p0 == old(r).pos,
            p0 + 8 * n <= d.len(),
            k <= n,
            r.pos == p0 + 8 * k,
            v@ =~= exception_table_at(d, p0, k as nat),
        decreases n - k,
    {
        let start_pc = r.u16();
        let end_pc = r.u16();
        let handler_pc = r.u16();
        let catch_type = r.u16();
        v.push(ExceptionTableEntry { start_pc, end_pc, handler_pc, catch_type });
        k = k + 1;
    }
    v
}

fn read_line_numbers(r: &mut Reader, n: usize) -> (v: Vec<LineNumberEntry>)
    requires
        old(r).pos + 4 * n <= old(r).data@.len(),
    ensures
        v@ == line_numbers_at(old(r).data@, old(r).pos as int, n as nat),
        final(r).data == old(r).data,
        final(r).pos == old(r).pos + 4 * n,
{
    let ghost d = r.data@;
    let ghost p0 = r.pos as int;
    let mut v: Vec<LineNumberEntry> = Vec::new();
    let mut k: usize = 0;
    while k < n
        invariant
            r.data == old(r).data,
            r.data@ == d,
            p0 == old(r).pos,
            p0 + 4 * n <= d.len(),
            k <= n,
            r.pos == p0 + 4 * k,
            v@ =~= line_numbers_at(d, p0, k as nat),
        decreases n - k,
    {
        let start_pc = r.u16();
        let line_number = r.u16();
        v.push(LineNumberEntry { start_pc, line_number });
        k = k + 1;
    }
    v
}

fn read_local_variables(r: &mut Reader, n: usize) -> (v: Vec<LocalVariableEntry>)
    requires
        old(r).pos + 10 * n <= old(r).data@.len(),
    ensures
        v@ == local_variables_at(old(r).data@, old(r).pos as int, n as nat),
        final(r).data == old(r).data,
        final(r).pos == old(r).pos + 10 * n,
{
    let ghost d = r.data@;
    let ghost p0 = r.pos as int;
    let mut v: Vec<LocalVariableEntry> = Vec::new();
    let mut k: usize = 0;
    while k < n
        invariant
            r.data == old(r).data,
            r.data@ == d,
            p0 == old(r).pos,
            p0 + 10 * n <= d.len(),
            k <= n,
            r.pos == p0 + 10 * k,
            v@ =~= local_variables_at(d, p0, k as nat),
        decreases n - k,
    {
        let start_pc = r.u16();
        let length = r.u16();
        let name_index = r.u16();
        let descriptor_index = r.u16();
        let index = r.u16();
        v.push(LocalVariableEntry { start_pc, length, name_index, descriptor_index, index });
        k = k + 1;
    }
    v
}

fn read_inner_classes(r: &mut Reader, n: usize) -> (v: Vec<InnerClassEntry>)
    requires
        old(r).pos + 8 * n <= old(r).data@.len(),
    ensures
        v@ == inner_classes_at(old(r).data@, old(r).pos as int, n as nat),
        final(r).data == old(r).data,
        final(r).pos == old(r).pos + 8 * n,
{
    let ghost d = r.data@;
    let ghost p0 = r.pos as int;
    let mut v: Vec<InnerClassEntry> = Vec::new();
    let mut k: usize = 0;
    while k < n
        invariant
            r.data == old(r).data,
            r.data@ == d,
            p0 == old(r).pos,
            p0 + 8 * n <= d.len(),
            k <= n,
            r.pos == p0 + 8 * k,
            v@ =~= inner_classes_at(d, p0, k as nat),
        decreases n - k,
    {
        let inner_class_info_index = r.u16();
        let outer_class_info_index = r.u16();
        let inner_name_index = r.u16();
        let inner_class_access_flags = r.u16();
        v.push(
            InnerClassEntry {
                inner_class_info_index,
                outer_class_info_index,
                inner_name_index,
                inner_class_access_flags,
            },
        );
        k = k + 1;
    }
    v
}

fn parse_bootstrap_method_list(r: &mut Reader, n: u16) -> (res: Option<Vec<BootstrapMethod>>)
    requires
        old(r).wf(),
    ensures
        final(r).data == old(r).data,
        final(r).wf(),
        final(r).pos >= old(r).pos,
        match parse_bootstrap_methods(old(r).data@, old(r).pos as int, n as nat) {
            Some((ms, q)) => res matches Some(v) && v@.map_values(|b: BootstrapMethod| b@) == ms
                && final(r).pos == q,
            None => res is None,
        },
{
    let ghost d = r.data@;
    let ghost p0 = r.pos as int;
    let mut v: Vec<BootstrapMethod> = Vec::new();
    let mut k: u16 = 0;
    while k < n
        invariant
            r.data == old(r).data,
            r.data@ == d,
            p0 == old(r).pos,
            r.wf(),
            r.pos >= p0,
            k <= n,
            parse_bootstrap_methods(d, p0, n as nat) == match parse_bootstrap_methods(
                d,
                r.pos as int,
                (n - k) as nat,
            ) {
                Some((rest, q)) => Some((v@.map_values(|b: BootstrapMethod| b@) + rest, q)),
                None => None,
            },
        decreases n - k,
    {
        if !r.has(4) {
            return None;
        }
        let bootstrap_method_ref = r.u16();
        let num_bootstrap_arguments = r.u16() as usize;
        if !r.has(2 * num_bootstrap_arguments) {
            return None;
        }
        let ghost before = v@.map_values(|b: BootstrapMethod| b@);
        let bootstrap_arguments = r.u16s(num_bootstrap_arguments);
        let m = BootstrapMethod { bootstrap_method_ref, bootstrap_arguments };
        v.push(m);
        k = k + 1;
        proof {
            assert(v@.map_values(|b: BootstrapMethod| b@) =~= before.push(m@));
            match parse_bootstrap_methods(d, r.pos as int, (n - k) as nat) {
                Some((rest, q)) => {
                    assert(before.push(m@) + rest =~= before + (seq![m@] + rest));
                },
                None => {},
            }
        }
    }
    proof {
        assert(v@.map_values(|b: BootstrapMethod| b@) + Seq::<BootstrapMethodV>::empty() =~= v@.map_values(
            |b: BootstrapMethod| b@,
        ));
    }
    Some(v)
}

fn parse_attribute_list(r: &mut Reader, cp: &ConstantPool, n: u16) -> (res: Option<Vec<Attribute>>)
    requires
        old(r).wf(),
    ensures
        final(r).data == old(r).data,
        final(r).wf(),
        final(r).pos >= old(r).pos,
        match parse_attrs(old(r).data@, old(r).pos as int, n as nat, cp@) {
            Some((attrs, q)) => res matches Some(v) && attributes_view(v@) == attrs && final(r).pos
                == q,
            None => res is None,
        },
    decreases old(r).data@.len() - old(r).pos, n,
{
    let ghost d = r.data@;
    let ghost p0 = r.pos as int;
    let mut v: Vec<Attribute> = Vec::new();
    let mut k: u16 = 0;
    while k < n
        invariant
            r.data == old(r).data,
            r.data@ == d,
            p0 == old(r).pos,
            r.wf(),
            r.pos >= p0,
            k <= n,
            parse_attrs(d, p0, n as nat, cp@) == match parse_attrs(
                d,
                r.pos as int,
                (n - k) as nat,
                cp@,
            ) {
                Some((rest, q)) => Some((attributes_view(v@) + rest, q)),
                None => None,
            },
        decreases n - k,
    {
        let ghost pos = r.pos as int;
        let ghost before = attributes_view(v@);
        match parse_attribute(r, cp) {
            Some(a) => {
                proof {
                    lemma_attributes_view_push(v@, a);
                }
                v.push(a);
                k = k + 1;
                proof {
                    match parse_attrs(d, r.pos as int, (n - k) as nat, cp@) {
                        Some((rest, q)) => {
                            assert(before.push(attribute_view(a)) + rest =~= before + (seq![
                                attribute_view(a),
                            ] + rest));
                        },
                        None => {},
                    }
                }
            },
            None => {
                return None;
            },
        }
    }
    proof {
        assert(attributes_view(v@) + Seq::<AttributeV>::empty() =~= attributes_view(v@));
    }
    Some(v)
}

fn parse_record_components(r: &mut Reader, cp: &ConstantPool, n: u16) -> (res: Option<
    Vec<RecordComponentInfo>,
>)
    requires
        old(r).wf(),
    ensures
        final(r).data == old(r).data,
        final(r).wf(),
        final(r).pos >= old(r).pos,
        match parse_components(old(r).data@, old(r).pos as int, n as nat, cp@) {
            Some((cs, q)) => res matches Some(v) && components_view(v@) == cs && final(r).pos == q,
            None => res is None,
        },
    decreases old(r).data@.len() - old(r).pos, n,
{
    let ghost d = r.data@;
    let ghost p0 = r.pos as int;
    let mut v: Vec<RecordComponentInfo> = Vec::new();
    let mut k: u16 = 0;
    while k < n
        invariant
            r.data == old(r).data,
            r.data@ == d,
            p0 == old(r).pos,
            r.wf(),
            r.pos >= p0,
            k <= n,
            parse_components(d, p0, n as nat, cp@) == match parse_components(
                d,
                r.pos as int,
                (n - k) as nat,
                cp@,
            ) {
                Some((rest, q)) => Some((components_view(v@) + rest, q)),
                None => None,
            },
        decreases n - k,
    {
        let ghost before = components_view(v@);
        if !r.has(6) {
            return None;
        }
        let name_index = r.u16();
        let descriptor_index = r.u16();
        let attr_count = r.u16();
        match parse_attribute_list(r, cp, attr_count) {
            Some(attributes) => {
                let c = RecordComponentInfo { name_index, descriptor_index, attributes };
                proof {
                    lemma_components_view_push(v@, c);
                }
                v.push(c);
                k = k + 1;
                proof {
                    let cv = RecordComponentV {
                        name_index: c.name_index,
                        descriptor_index: c.descriptor_index,
                        attributes: attributes_view(c.attributes@),
                    };
                    match parse_components(d, r.pos as int, (n - k) as nat, cp@) {
                        Some((rest, q)) => {
                            assert(before.push(cv) + rest =~= before + (seq![cv] + rest));
                        },
                        None => {},
                    }
                }
            },
            None => {
                return None;
            },
        }
    }
    proof {
        assert(components_view(v@) + Seq::<RecordComponentV>::empty() =~= components_view(v@));
    }
    Some(v)
}

/// The body of a `Code` attribute.
fn parse_code_attribute(r: &mut Reader, cp: &ConstantPool) -> (res: Option<Attribute>)
    requires
        old(r).wf(),
    ensures
        final(r).data == old(r).data,
        final(r).wf(),
        final(r).pos >= old(r).pos,
        match parse_code_body(old(r).data@, old(r).pos as int, cp@) {
            Some((a, q)) => res matches Some(x) && attribute_view(x) == a && final(r).pos == q,
            None => res is None,
        },
    decreases old(r).data@.len() - old(r).pos, 1nat,
{
    if !r.has(8) {
        return None;
    }
    let max_stack = r.u16();
    let max_locals = r.u16();
    let code_length = r.u32() as usize;
    if !r.has(code_length) {
        return None;
    }
    let code = r.bytes(code_length);
    if !r.has(2) {
        return None;
    }
    let exception_count = r.u16() as usize;
    if !r.has(8 * exception_count) {
        return None;
    }
    let exception_table = read_exception_table(r, exception_count);
    if !r.has(2) {
        return None;
    }
    let attr_count = r.u16();
    let attributes = parse_attribute_list(r, cp, attr_count)?;
    Some(Attribute::Code(CodeAttribute { max_stack, max_locals, code, exception_table, attributes }))
}

/// One attribute; what it holds depends on its name.
fn parse_attribute(r: &mut Reader, cp: &ConstantPool) -> (res: Option<Attribute>)
    requires
        old(r).wf(),
    ensures
        final(r).data == old(r).data,
        final(r).wf(),
        final(r).pos >= old(r).pos,
        match parse_attr(old(r).data@, old(r).pos as int, cp@) {
            Some((a, q)) => res matches Some(x) && attribute_view(x) == a && final(r).pos == q,
            None => res is None,
        },
    decreases old(r).data@.len() - old(r).pos, 0nat,
{
    if !r.has(6) {
        return None;
    }
    let name_index = r.u16();
    let length = r.u32() as usize;
    let name = match cp.utf8_entry(name_index) {
        Some(s) => s,
        None => {
            return None;
        },
    };
    if str_eq(name, "Code") {
        parse_code_attribute(r, cp)
    } else if str_eq(name, "ConstantValue") {
        if !r.has(2) {
            return None;
        }
        Some(Attribute::ConstantValue { constantvalue_index: r.u16() })
    } else if str_eq(name, "BootstrapMethods") {
        if !r.has(2) {
            return None;
        }
        let num_bootstrap_methods = r.u16();
        let methods = parse_bootstrap_method_list(r, num_bootstrap_methods)?;
        Some(Attribute::BootstrapMethods(methods))
    } else if str_eq(name, "Exceptions") {
        if !r.has(2) {
            return None;
        }
        let number_of_exceptions = r.u16() as usize;
        if !r.has(2 * number_of_exceptions) {
            return None;
        }
        let exception_index_table = r.u16s(number_of_exceptions);
        Some(Attribute::Exceptions { exception_index_table })
    } else if str_eq(name, "LineNumberTable") {
        if !r.has(2) {
            return None;
        }
        let len = r.u16() as usize;
        if !r.has(4 * len) {
            return None;
        }
        Some(Attribute::LineNumberTable(read_line_numbers(r, len)))
    } else if str_eq(name, "LocalVariableTable") {
        if !r.has(2) {
            return None;
        }
        let len = r.u16() as usize;
        if !r.has(10 * len) {
            return None;
        }
        Some(Attribute::LocalVariableTable(read_local_variables(r, len)))
    } else if str_eq(name, "SourceFile") {
        if !r.has(2) {
            return None;
        }
        Some(Attribute::SourceFile { sourcefile_index: r.u16() })
    } else if str_eq(name, "Signature") {
        if !r.has(2) {
            return None;
        }
        Some(Attribute::Signature { signature_index: r.u16() })
    } else if str_eq(name, "InnerClasses") {
        if !r.has(2) {
            return None;
        }
        let number_of_classes = r.u16() as usize;
        if !r.has(8 * number_of_classes) {
            return None;
        }
        Some(Attribute::InnerClasses(read_inner_classes(r, number_of_classes)))
    } else if str_eq(name, "EnclosingMethod") {
        if !r.has(4) {
            return None;
        }
        let class_index = r.u16();
        let method_index = r.u16();
        Some(Attribute::EnclosingMethod { class_index, method_index })
    } else if str_eq(name, "NestHost") {
        if !r.has(2) {
            return None;
        }
        Some(Attribute::NestHost { host_class_index: r.u16() })
    } else if str_eq(name, "NestMembers") {
        if !r.has(2) {
            return None;
        }
        let number_of_classes = r.u16() as usize;
        if !r.has(2 * number_of_classes) {
            return None;
        }
        Some(Attribute::NestMembers { classes: r.u16s(number_of_classes) })
    } else if str_eq(name, "PermittedSubclasses") {
        if !r.has(2) {
            return None;
        }
        let number_of_classes = r.u16() as usize;
        if !r.has(2 * number_of_classes) {
            return None;
        }
        Some(Attribute::PermittedSubclasses { classes: r.u16s(number_of_classes) })
    } else if str_eq(name, "Record") {
        if !r.has(2) {
            return None;
        }
        let component_count = r.u16();
        let components = parse_record_components(r, cp, component_count)?;
        Some(Attribute::Record { components })
    } else {
        if !r.has(length) {
            return None;
        }
        let data = r.bytes(length);
        Some(Attribute::Unknown { name: name.to_owned(), data })
    }
}


fn parse_field(r: &mut Reader, cp: &ConstantPool) -> (res: Option<FieldInfo>)
    requires
        old(r).wf(),
        old(r).pos + 8 <= old(r).data@.len(),
    ensures
        final(r).data == old(r).data,
        final(r).wf(),
        final(r).pos >= old(r).pos,
        match parse_members(old(r).data@, old(r).pos as int, 1, cp@) {
            Some((ms, q)) => res matches Some(f) && ms == seq![f@] && final(r).pos == q,
            None => res is None,
        },
{
    let ghost d = r.data@;
    let ghost p0 = r.pos as int;
    let access_flags = r.u16();
    let name_index = r.u16();
    let descriptor_index = r.u16();
    let attr_count = r.u16();
    let attributes = parse_attribute_list(r, cp, attr_count)?;
    let f = FieldInfo { access_flags, name_index, descriptor_index, attributes };
    proof {
        assert(parse_members(d, r.pos as int, 0, cp@) == Some((Seq::<MemberV>::empty(), r.pos as int)));
        assert(seq![f@] + Seq::<MemberV>::empty() =~= seq![f@]);
    }
    Some(f)
}

fn parse_method(r: &mut Reader, cp: &ConstantPool) -> (res: Option<MethodInfo>)
    requires
        old(r).wf(),
        old(r).pos + 8 <= old(r).data@.len(),
    ensures
        final(r).data == old(r).data,
        final(r).wf(),
        final(r).pos >= old(r).pos,
        match parse_members(old(r).data@, old(r).pos as int, 1, cp@) {
            Some((ms, q)) => res matches Some(m) && ms == seq![m@] && final(r).pos == q,
            None => res is None,
        },
{
    let ghost d = r.data@;
    let access_flags = r.u16();
    let name_index = r.u16();
    let descriptor_index = r.u16();
    let attr_count = r.u16();
    let attributes = parse_attribute_list(r, cp, attr_count)?;
    let m = MethodInfo { access_flags, name_index, descriptor_index, attributes };
    proof {
        assert(parse_members(d, r.pos as int, 0, cp@) == Some((Seq::<MemberV>::empty(), r.pos as int)));
        assert(seq![m@] + Seq::<MemberV>::empty() =~= seq![m@]);
    }
    Some(m)
}

/// Reading one member and then `n` more is reading `n + 1` members.
proof fn lemma_members_step(d: Seq<u8>, p: int, n: nat, cp: Seq<CpEntry>)
    requires
        n > 0,
        0 <= p,
        p + 8 <= d.len(),
    ensures
        parse_members(d, p, n, cp) == match parse_members(d, p, 1, cp) {
            Some((one, q)) => match parse_members(d, q, (n - 1) as nat, cp) {
                Some((rest, r)) => Some((one + rest, r)),
                None => None,
            },
            None => None,
        },
{
    match parse_attrs(d, p + 8, be_u16(d, p + 6) as nat, cp) {
        Some((attrs, q)) => {
            assert(parse_members(d, q, 0, cp) == Some((Seq::<MemberV>::empty(), q)));
            let m = MemberV {
                access_flags: be_u16(d, p),
                name_index: be_u16(d, p + 2),
                descriptor_index: be_u16(d, p + 4),
                attributes: attrs,
            };
            assert(seq![m] + Seq::<MemberV>::empty() =~= seq![m]);
        },
        None => {},
    }
}

fn parse_fields(r: &mut Reader, cp: &ConstantPool, n: u16) -> (res: Option<Vec<FieldInfo>>)
    requires
        old(r).wf(),
    ensures
        final(r).data == old(r).data,
        final(r).wf(),
        match parse_members(old(r).data@, old(r).pos as int, n as nat, cp@) {
            Some((ms, q)) => res matches Some(v) && v@.map_values(|f: FieldInfo| f@) == ms
                && final(r).pos == q,
            None => res is None,
        },
{
    let ghost d = r.data@;
    let ghost p0 = r.pos as int;
    let mut v: Vec<FieldInfo> = Vec::new();
    let mut k: u16 = 0;
    while k < n
        invariant
            r.data == old(r).data,
            r.data@ == d,
            p0 == old(r).pos,
            r.wf(),
            k <= n,
            parse_members(d, p0, n as nat, cp@) == match parse_members(
                d,
                r.pos as int,
                (n - k) as nat,
                cp@,
            ) {
                Some((rest, q)) => Some((v@.map_values(|f: FieldInfo| f@) + rest, q)),
                None => None,
            },
        decreases n - k,
    {
        let ghost before = v@.map_values(|f: FieldInfo| f@);
        if !r.has(8) {
            return None;
        }
        proof {
            lemma_members_step(d, r.pos as int, (n - k) as nat, cp@);
        }
        let f = parse_field(r, cp)?;
        v.push(f);
        k = k + 1;
        proof {
            assert(v@.map_values(|f: FieldInfo| f@) =~= before.push(f@));
            match parse_members(d, r.pos as int, (n - k) as nat, cp@) {
                Some((rest, q)) => {
                    assert(before.push(f@) + rest =~= before + (seq![f@] + rest));
                },
                None => {},
            }
        }
    }
    proof {
        assert(v@.map_values(|f: FieldInfo| f@) + Seq::<MemberV>::empty() =~= v@.map_values(
            |f: FieldInfo| f@,
        ));
    }
    Some(v)
}

fn parse_methods(r: &mut Reader, cp: &ConstantPool, n: u16) -> (res: Option<Vec<MethodInfo>>)
    requires
        old(r).wf(),
    ensures
        final(r).data == old(r).data,
        final(r).wf(),
        match parse_members(old(r).data@, old(r).pos as int, n as nat, cp@) {
            Some((ms, q)) => res matches Some(v) && v@.map_values(|m: MethodInfo| m@) == ms
                && final(r).pos == q,
            None => res is None,
        },
{
    let ghost d = r.data@;
    let ghost p0 = r.pos as int;
    let mut v: Vec<MethodInfo> = Vec::new();
    let mut k: u16 = 0;
    while k < n
        invariant
            r.data == old(r).data,
            r.data@ == d,
            p0 == old(r).pos,
            r.wf(),
            k <= n,
            parse_members(d, p0, n as nat, cp@) == match parse_members(
                d,
                r.pos as int,
                (n - k) as nat,
                cp@,
            ) {
                Some((rest, q)) => Some((v@.map_values(|m: MethodInfo| m@) + rest, q)),
                None => None,
            },
        decreases n - k,
    {
        let ghost before = v@.map_values(|m: MethodInfo| m@);
        if !r.has(8) {
            return None;
        }
        proof {
            lemma_members_step(d, r.pos as int, (n - k) as nat, cp@);
        }
        let m = parse_method(r, cp)?;
        v.push(m);
        k = k + 1;
        proof {
            assert(v@.map_values(|m: MethodInfo| m@) =~= before.push(m@));
            match parse_members(d, r.pos as int, (n - k) as nat, cp@) {
                Some((rest, q)) => {
                    assert(before.push(m@) + rest =~= before + (seq![m@] + rest));
                },
                None => {},
            }
        }
    }
    proof {
        assert(v@.map_values(|m: MethodInfo| m@) + Seq::<MemberV>::empty() =~= v@.map_values(
            |m: MethodInfo| m@,
        ));
    }
    Some(v)
}

/// The message for a file that does not start with the magic number.
fn invalid_magic_message(magic: u32) -> (s: String)
    ensures
        s@ == invalid_magic_text(magic),
{
    let mut s = String::new();
    s.append("Invalid magic: 0x");
    push_hex_text(&mut s, magic as u64, 8);
    s
}

fn parse_class(data: &[u8]) -> (res: Outcome<ClassFile>)
    ensures
        match parse_class_spec(data@) {
            ClassParse::Parsed(c) => res matches Outcome::Value(cf) && cf@ == c,
            ClassParse::Rejected(m) => res matches Outcome::Rejected(s) && s@ == m,
            ClassParse::Malformed => res is Malformed,
        },
{
    let ghost d = data@;
    let mut r = Reader::new(data);
    if !r.has(4) {
        return Outcome::Malformed;
    }
    let magic = r.u32();
    if magic != MAGIC {
        return Outcome::Rejected(invalid_magic_message(magic));
    }
    if !r.has(6) {
        return Outcome::Malformed;
    }
    let minor_version = r.u16();
    let major_version = r.u16();

    // Constant pool: count includes index 0 which is unused.
    let cp_count = r.u16();
    let constant_pool = match parse_constant_pool(&mut r, cp_count) {
        Outcome::Value(cp) => cp,
        Outcome::Rejected(m) => {
            return Outcome::Rejected(m);
        },
        Outcome::Malformed => {
            return Outcome::Malformed;
        },
    };
    let ghost p = r.pos as int;
    if !r.has(8) {
        return Outcome::Malformed;
    }
    let access_flags = r.u16();
    let this_class = r.u16();
    let super_class = r.u16();

    let interfaces_count = r.u16() as usize;
    if !r.has(2 * interfaces_count) {
        return Outcome::Malformed;
    }
    let interfaces = r.u16s(interfaces_count);

    if !r.has(2) {
        return Outcome::Malformed;
    }
    let fields_count = r.u16();
    let fields = match parse_fields(&mut r, &constant_pool, fields_count) {
        Some(f) => f,
        None => {
            return Outcome::Malformed;
        },
    };

    if !r.has(2) {
        return Outcome::Malformed;
    }
    let methods_count = r.u16();
    let methods = match parse_methods(&mut r, &constant_pool, methods_count) {
        Some(m) => m,
        None => {
            return Outcome::Malformed;
        },
    };

    if !r.has(2) {
        return Outcome::Malformed;
    }
    let attributes_count = r.u16();
    let attributes = match parse_attribute_list(&mut r, &constant_pool, attributes_count) {
        Some(a) => a,
        None => {
            return Outcome::Malformed;
        },
    };

    Outcome::Value(
        ClassFile {
            minor_version,
            major_version,
            constant_pool,
            access_flags,
            this_class,
            super_class,
            interfaces,
            fields,
            methods,
            attributes,
        },
    )
}

/// Parse a `.class` file from raw bytes.
///
/// Input on which reading would run past the end or look up a constant-pool
/// entry of the wrong kind is outside what this function accepts; see
/// `parse_checked` for a version that reports such input as `None`.
pub fn parse(data: &[u8]) -> (res: Result<ClassFile, String>)
    requires
        !(parse_class_spec(data@) is Malformed),
    ensures
        match parse_class_spec(data@) {
            ClassParse::Parsed(c) => res matches Ok(cf) && cf@ == c,
            ClassParse::Rejected(m) => res matches Err(s) && s@ == m,
            ClassParse::Malformed => false,
        },
{
    match parse_class(data) {
        Outcome::Value(cf) => Ok(cf),
        Outcome::Rejected(m) => Err(m),
        Outcome::Malformed => vstd::pervasive::unreached(),
    }
}

/// Parse a `.class` file from raw bytes, reporting truncated or inconsistent
/// input as `None` instead of requiring well-formed input.
pub fn parse_checked(data: &[u8]) -> (res: Option<Result<ClassFile, String>>)
    ensures
        match parse_class_spec(data@) {
            ClassParse::Parsed(c) => res matches Some(Ok(cf)) && cf@ == c,
            ClassParse::Rejected(m) => res matches Some(Err(s)) && s@ == m,
            ClassParse::Malformed => res is None,
        },
{
    match parse_class(data) {
        Outcome::Value(cf) => Some(Ok(cf)),
        Outcome::Rejected(m) => Some(Err(m)),
        Outcome::Malformed => None,
    }
}


/// Position of the first `Code` attribute, if any.
pub open spec fn first_code_position(s: Seq<Attribute>) -> Option<int>
    decreases s.len(),
{
    if s.len() == 0 {
        None
    } else if s[0] is Code {
        Some(0)
    } else {
        match first_code_position(s.subrange(1, s.len() as int)) {
            Some(i) => Some(i + 1),
            None => None,
        }
    }
}

impl MethodInfo {
    /// Extract the `Code` attribute if present (the first one, if several).
    pub fn code(&self) -> (res: Option<&CodeAttribute>)
        ensures
            match first_code_position(self.attributes@) {
                Some(i) => res matches Some(c) && self.attributes@[i] == Attribute::Code(*c),
                None => res is None,
            },
    {
        let mut k: usize = 0;
        assert(self.attributes@.subrange(0, self.attributes@.len() as int) =~= self.attributes@);
        while k < self.attributes.len()
            invariant
                k <= self.attributes@.len(),
                first_code_position(self.attributes@) == match first_code_position(
                    self.attributes@.subrange(k as int, self.attributes@.len() as int),
                ) {
                    Some(i) => Some(i + k),
                    None => None,
                },
            decreases self.attributes@.len() - k,
        {
            let ghost rest = self.attributes@.subrange(k as int, self.attributes@.len() as int);
            if let Attribute::Code(code) = &self.attributes[k] {
                return Some(code);
            }
            assert(rest.subrange(1, rest.len() as int) =~= self.attributes@.subrange(
                k + 1,
                self.attributes@.len() as int,
            ));
            k = k + 1;
        }
        None
    }
}

/// Extract only the internal class name from raw `.class` bytes without a full parse.
///
/// Reads: magic(4) + minor(2) + major(2) + cp_count(2), scans the constant pool,
/// then reads `this_class` to find the `Class` entry whose `name_index` points to
/// the `Utf8` entry containing the internal class name.
///
/// Utf8 entries are recorded as `(offset, length)` byte-range pointers into `data`
/// rather than decoded `String`s, so only the single target entry is ever decoded.
///
/// Returns `None` if the bytes are too short or malformed.
pub fn parse_class_name(data: &[u8]) -> (res: Option<String>)
    ensures
        match class_name_spec(data@) {
            Some(name) => res matches Some(s) && s@ == name,
            None => res is None,
        },
{
    let ghost d = data@;
    let mut r = Reader::new(data);
    // magic
    if !r.has(4) {
        return None;
    }
    if r.u32() != 0xCAFEBABE {
        return None;
    }
    // minor + major
    if !r.has(6) {
        return None;
    }
    r.u16();
    r.u16();
    // constant pool count
    let cp_count = r.u16() as usize;

    // Scan the constant pool.
    // Utf8 entries: record (byte_offset, byte_len) — no String allocation yet.
    // Class entries: record name_index.
    let mut utf8_spans: Vec<Option<(usize, usize)>> = Vec::new();
    let mut class_name_indices: Vec<Option<u16>> = Vec::new();
    let mut k: usize = 0;
    while k < cp_count
        invariant
            k <= cp_count,
            utf8_spans@ =~= Seq::new(k as nat, |j: int| None),
            class_name_indices@ =~= Seq::new(k as nat, |j: int| None),
        decreases cp_count - k,
    {
        utf8_spans.push(None);
        class_name_indices.push(None);
        k = k + 1;
    }
    let ghost init_spans = utf8_spans@;
    let ghost init_classes = class_name_indices@;
    let _data_len = data.len();
    assert(init_spans =~= no_spans(be_u16(d, 8) as nat));
    assert(init_classes =~= no_class_names(be_u16(d, 8) as nat));
    let mut i: usize = 1;
    while i < cp_count
        invariant
            r.data@ == d,
            r.data == data,
            d.len() <= usize::MAX,
            r.wf(),
            r.pos >= 10,
            d.len() >= 10,
            be_u32(d, 0) == spec_magic(),
            init_spans == no_spans(cp_count as nat),
            init_classes == no_class_names(cp_count as nat),
            cp_count == be_u16(d, 8),
            1 <= i,
            utf8_spans@.len() == cp_count,
            class_name_indices@.len() == cp_count,
            scan_cp(d, 10, 1, cp_count as int, init_spans, init_classes) == scan_cp(
                d,
                r.pos as int,
                i as int,
                cp_count as int,
                utf8_spans@,
                class_name_indices@,
            ),
        decreases d.len() - r.pos,
    {
        if !r.has(1) {
            return None;
        }
        let tag = r.u8();
        if tag == 1 {
            // Utf8 — record span, skip bytes
            if !r.has(2) {
                return None;
            }
            let len = r.u16() as usize;
            let start = r.pos;
            if !r.has(len) {
                return None;
            }
            utf8_spans.set(i, Some((start, len)));
            r.pos = start + len;
            i += 1;
        } else if tag == 7 {
            // Class — name_index
            if !r.has(2) {
                return None;
            }
            let name_index = r.u16();
            class_name_indices.set(i, Some(name_index));
            i += 1;
        } else if tag == 5 || tag == 6 {
            // Long, Double — 8 bytes; next slot is unusable (JVMS §4.4.5)
            if !r.has(8) {
                return None;
            }
            r.u64();
            i += 2;
        } else {
            match fixed_size(tag) {
                Some(size) => {
                    if !r.has(size) {
                        return None;
                    }
                    r.pos = r.pos + size;
                },
                None => {
                    return None;
                },
            }
            i += 1;
        }
    }
    // access_flags(2) + this_class(2)
    if !r.has(4) {
        return None;
    }
    r.u16();
    let this_class = r.u16() as usize;
    if this_class >= cp_count {
        return None;
    }
    let name_index = match class_name_indices[this_class] {
        Some(n) => n as usize,
        None => {
            return None;
        },
    };
    if name_index >= cp_count {
        return None;
    }

    // Decode only the single target Utf8 entry.
    let (start, len) = match utf8_spans[name_index] {
        Some(span) => span,
        None => {
            return None;
        },
    };
    proof {
        assert(scan_cp(d, r.pos as int - 4, i as int, cp_count as int, utf8_spans@, class_name_indices@)
            == Some((utf8_spans@, class_name_indices@, r.pos as int - 4)));
        lemma_scan_spans_in_bounds(d, 10, 1, cp_count as int, init_spans, init_classes);
        assert(utf8_spans@[name_index as int] == Some((start, len)));
    }
    let bytes = vstd::slice::slice_subrange(data, start, start + len);
    Some(decode_lossy(bytes))
}

/// Every span that the scan records lies inside the data.
proof fn lemma_scan_spans_in_bounds(
    d: Seq<u8>,
    p: int,
    i: int,
    count: int,
    spans: Seq<Option<(usize, usize)>>,
    classes: Seq<Option<u16>>,
)
    requires
        d.len() <= usize::MAX,
        i >= 0,
        spans.len() == count,
        classes.len() == count,
        forall|j: int| 0 <= j < spans.len() ==> (#[trigger] spans[j] matches Some((s, l)) ==> s + l <= d.len()),
    ensures
        scan_cp(d, p, i, count, spans, classes) matches Some((sp, _, _)) ==> sp.len() == spans.len()
            && forall|j: int| 0 <= j < sp.len() ==> (#[trigger] sp[j] matches Some((s, l)) ==> s + l
                <= d.len()),
    decreases d.len() - p,
{
    if i >= count {
    } else if p < 0 || p + 1 > d.len() {
    } else {
        let tag = d[p];
        if tag == 1 {
            if p + 3 <= d.len() {
                let len = be_u16(d, p + 1) as int;
                if p + 3 + len <= d.len() {
                    let sp2 = spans.update(i, Some(((p + 3) as usize, len as usize)));
                    lemma_scan_spans_in_bounds(d, p + 3 + len, i + 1, count, sp2, classes);
                }
            }
        } else if tag == 7 {
            if p + 3 <= d.len() {
                lemma_scan_spans_in_bounds(d, p + 3, i + 1, count, spans, classes.update(i, Some(be_u16(d, p + 1))));
            }
        } else if tag == 5 || tag == 6 {
            if p + 9 <= d.len() {
                lemma_scan_spans_in_bounds(d, p + 9, i + 2, count, spans, classes);
            }
        } else {
            match fixed_entry_size(tag) {
                Some(size) => if p + 1 + size <= d.len() {
                    lemma_scan_spans_in_bounds(d, p + 1 + size, i + 1, count, spans, classes);
                },
                None => {},
            }
        }
    }
}

/// `String::from_utf8_lossy`: bytes that are valid UTF-8 decode to their
/// characters; otherwise the result is `utf8_lossy` of the bytes (invalid
/// sequences become U+FFFD), which depends on the bytes alone.
#[verifier::external_body]
fn decode_lossy(bytes: &[u8]) -> (s: String)
    ensures
        s@ == utf8_lossy(bytes@),
        valid_utf8(bytes@) ==> s@ == decode_utf8(bytes@),
{
    String::from_utf8_lossy(bytes).into_owned()
}

/// Reading only the class name gives the name that the full parse gives the
/// class (when the class names itself by a `Class` constant).
pub proof fn law_class_name_agrees_with_parse(d: Seq<u8>)
    requires
        d.len() <= usize::MAX,
    ensures
        match parse_class_spec(d) {
            ClassParse::Parsed(c) => cp_class_name(c.constant_pool, c.this_class) is Some ==> class_name_spec(d)
                == cp_class_name(c.constant_pool, c.this_class),
            _ => true,
        },
{
    if let ClassParse::Parsed(c) = parse_class_spec(d) {
        let count = be_u16(d, 8) as int;
        crate::class_spec::lemma_scan_matches_parse(
            d,
            10,
            1,
            count,
            no_spans(count as nat),
            no_class_names(count as nat),
        );
        let es = parse_cp(d, 10, 1, count as nat)->Done_0;
        let cp = seq![CpEntry::Placeholder] + es;
        assert(c.constant_pool == cp);
        if cp_class_name(cp, c.this_class) is Some {
            let tc = c.this_class as int;
            let ni = cp[tc]->Class_name_index as int;
            assert(tc >= 1);
            assert(cp[tc] == es[tc - 1]);
            assert(tc < count) by {
                if tc >= count {
                    assert(es[tc - 1] == CpEntry::Placeholder);
                }
            }
            assert(ni >= 1);
            assert(cp[ni] == es[ni - 1]);
            assert(ni < count) by {
                if ni >= count {
                    assert(es[ni - 1] == CpEntry::Placeholder);
                }
            }
            let tables = scan_cp(d, 10, 1, count, no_spans(count as nat), no_class_names(count as nat))->Some_0;
            assert(crate::class_spec::slot_agrees(d, es[tc - 1], tables.0[tc], tables.1[tc]));
            assert(crate::class_spec::slot_agrees(d, es[ni - 1], tables.0[ni], tables.1[ni]));
        }
    }
}

} // verus!
