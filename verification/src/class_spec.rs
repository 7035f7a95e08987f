//! The mathematical meaning of a `.class` file (JVMS §4): what the parser in
//! `class_file` returns for a byte sequence, written over `Seq`s.
//!
//! Every reader here returns `None` (or `Malformed`) exactly where reading
//! would run past the end of the input or look up a constant-pool entry of
//! the wrong kind.

use vstd::prelude::*;
use crate::class_file::{ExceptionTableEntry, InnerClassEntry, LineNumberEntry, LocalVariableEntry};
use crate::text::{hex_text, nat_text};

verus! {

/// The magic number that starts every `.class` file.
pub open spec fn spec_magic() -> u32 {
    0xCAFE_BABEu32
}

/// A constant-pool entry (JVMS §4.4) as a value. Floating-point constants are
/// kept as their IEEE-754 bit patterns, exactly as stored in the file.
pub enum CpEntry {
    Placeholder,
    Utf8(Seq<char>),
    Integer(i32),
    Float(u32),
    Long(i64),
    Double(u64),
    Class { name_index: u16 },
    String { string_index: u16 },
    Fieldref { class_index: u16, name_and_type_index: u16 },
    Methodref { class_index: u16, name_and_type_index: u16 },
    InterfaceMethodref { class_index: u16, name_and_type_index: u16 },
    NameAndType { name_index: u16, descriptor_index: u16 },
    MethodHandle { reference_kind: u8, reference_index: u16 },
    MethodType { descriptor_index: u16 },
    Dynamic { bootstrap_method_attr_index: u16, name_and_type_index: u16 },
    InvokeDynamic { bootstrap_method_attr_index: u16, name_and_type_index: u16 },
    Module { name_index: u16 },
    Package { name_index: u16 },
}

/// One bootstrap method as a value.
pub struct BootstrapMethodV {
    pub bootstrap_method_ref: u16,
    pub bootstrap_arguments: Seq<u16>,
}

/// The `Code` attribute as a value.
pub struct CodeAttributeV {
    pub max_stack: u16,
    pub max_locals: u16,
    pub code: Seq<u8>,
    pub exception_table: Seq<ExceptionTableEntry>,
    pub attributes: Seq<AttributeV>,
}

/// One record component as a value.
pub struct RecordComponentV {
    pub name_index: u16,
    pub descriptor_index: u16,
    pub attributes: Seq<AttributeV>,
}

/// An attribute (JVMS §4.7) as a value.
pub enum AttributeV {
    Code(CodeAttributeV),
    ConstantValue { constantvalue_index: u16 },
    BootstrapMethods(Seq<BootstrapMethodV>),
    Exceptions { exception_index_table: Seq<u16> },
    LineNumberTable(Seq<LineNumberEntry>),
    LocalVariableTable(Seq<LocalVariableEntry>),
    SourceFile { sourcefile_index: u16 },
    Signature { signature_index: u16 },
    InnerClasses(Seq<InnerClassEntry>),
    EnclosingMethod { class_index: u16, method_index: u16 },
    NestHost { host_class_index: u16 },
    NestMembers { classes: Seq<u16> },
    PermittedSubclasses { classes: Seq<u16> },
    Record { components: Seq<RecordComponentV> },
    Unknown { name: Seq<char>, data: Seq<u8> },
}

/// A field or a method (both have the same layout) as a value.
pub struct MemberV {
    pub access_flags: u16,
    pub name_index: u16,
    pub descriptor_index: u16,
    pub attributes: Seq<AttributeV>,
}

/// A whole class file as a value.
pub struct ClassFileV {
    pub minor_version: u16,
    pub major_version: u16,
    pub constant_pool: Seq<CpEntry>,
    pub access_flags: u16,
    pub this_class: u16,
    pub super_class: u16,
    pub interfaces: Seq<u16>,
    pub fields: Seq<MemberV>,
    pub methods: Seq<MemberV>,
    pub attributes: Seq<AttributeV>,
}

/// What parsing a byte sequence as a class file gives: a class, a rejection
/// with its message, or `Malformed` where reading runs out of bytes or meets a
/// constant-pool entry of the wrong kind.
pub enum ClassParse {
    Parsed(ClassFileV),
    Rejected(Seq<char>),
    Malformed,
}

/// Outcome of reading the constant-pool entries from some index on.
pub enum CpParse {
    Done(Seq<CpEntry>, int),
    Failed(Seq<char>),
    Truncated,
}

// ---------------------------------------------------------------------------
// Big-endian integers
// ---------------------------------------------------------------------------

/// Big-endian `u16` at `p`.
pub open spec fn be_u16(d: Seq<u8>, p: int) -> u16 {
    (d[p] as int * 256 + d[p + 1] as int) as u16
}

/// Big-endian `u32` at `p`.
pub open spec fn be_u32(d: Seq<u8>, p: int) -> u32 {
    (be_u16(d, p) as int * 65536 + be_u16(d, p + 2) as int) as u32
}

/// Big-endian `u64` at `p`.
pub open spec fn be_u64(d: Seq<u8>, p: int) -> u64 {
    (be_u32(d, p) as int * 0x1_0000_0000 + be_u32(d, p + 4) as int) as u64
}

/// `n` big-endian `u16`s starting at `p`.
pub open spec fn u16s_at(d: Seq<u8>, p: int, n: nat) -> Seq<u16> {
    Seq::new(n, |k: int| be_u16(d, p + 2 * k))
}

/// `n` exception-table entries (8 bytes each) starting at `p`.
pub open spec fn exception_table_at(d: Seq<u8>, p: int, n: nat) -> Seq<ExceptionTableEntry> {
    Seq::new(
        n,
        |k: int|
            ExceptionTableEntry {
                start_pc: be_u16(d, p + 8 * k),
                end_pc: be_u16(d, p + 8 * k + 2),
                handler_pc: be_u16(d, p + 8 * k + 4),
                catch_type: be_u16(d, p + 8 * k + 6),
            },
    )
}

/// `n` line-number entries (4 bytes each) starting at `p`.
pub open spec fn line_numbers_at(d: Seq<u8>, p: int, n: nat) -> Seq<LineNumberEntry> {
    Seq::new(
        n,
        |k: int| LineNumberEntry { start_pc: be_u16(d, p + 4 * k), line_number: be_u16(d, p + 4 * k + 2) },
    )
}

/// `n` local-variable entries (10 bytes each) starting at `p`.
pub open spec fn local_variables_at(d: Seq<u8>, p: int, n: nat) -> Seq<LocalVariableEntry> {
    Seq::new(
        n,
        |k: int|
            LocalVariableEntry {
                start_pc: be_u16(d, p + 10 * k),
                length: be_u16(d, p + 10 * k + 2),
                name_index: be_u16(d, p + 10 * k + 4),
                descriptor_index: be_u16(d, p + 10 * k + 6),
                index: be_u16(d, p + 10 * k + 8),
            },
    )
}

/// `n` inner-class entries (8 bytes each) starting at `p`.
pub open spec fn inner_classes_at(d: Seq<u8>, p: int, n: nat) -> Seq<InnerClassEntry> {
    Seq::new(
        n,
        |k: int|
            InnerClassEntry {
                inner_class_info_index: be_u16(d, p + 8 * k),
                outer_class_info_index: be_u16(d, p + 8 * k + 2),
                inner_name_index: be_u16(d, p + 8 * k + 4),
                inner_class_access_flags: be_u16(d, p + 8 * k + 6),
            },
    )
}

/// `String::from_utf8_lossy` on the given bytes.
pub uninterp spec fn utf8_lossy(bytes: Seq<u8>) -> Seq<char>;

/// The text of the bytes of a `Utf8` constant: the characters they encode
/// when they are valid UTF-8, otherwise `utf8_lossy` of them.
pub open spec fn utf8_text(bytes: Seq<u8>) -> Seq<char> {
    if vstd::utf8::valid_utf8(bytes) {
        vstd::utf8::decode_utf8(bytes)
    } else {
        utf8_lossy(bytes)
    }
}

// ---------------------------------------------------------------------------
// Constant pool
// ---------------------------------------------------------------------------

/// The message for an unknown constant-pool tag.
pub open spec fn unknown_tag_text(tag: u8, index: nat) -> Seq<char> {
    "Unknown constant pool tag: "@ + nat_text(tag as nat) + " at index "@ + nat_text(index)
}

/// The message for a file that does not start with the magic number.
pub open spec fn invalid_magic_text(magic: u32) -> Seq<char> {
    "Invalid magic: 0x"@ + hex_text(magic as nat, 8)
}

/// Number of bytes that follow the tag byte of a single-slot entry with this
/// tag, or `None` for tags that are not single-slot entries.
pub open spec fn fixed_entry_size(tag: u8) -> Option<int> {
    if tag == 3 || tag == 4 || tag == 9 || tag == 10 || tag == 11 || tag == 12 || tag == 17
        || tag == 18 {
        Some(4)
    } else if tag == 7 || tag == 8 || tag == 16 || tag == 19 || tag == 20 {
        Some(2)
    } else if tag == 15 {
        Some(3)
    } else {
        None
    }
}

/// The single-slot entry with tag `tag` whose payload starts at `q`.
pub open spec fn fixed_entry(d: Seq<u8>, q: int, tag: u8) -> CpEntry {
    if tag == 3 {
        CpEntry::Integer(be_u32(d, q) as i32)
    } else if tag == 4 {
        CpEntry::Float(be_u32(d, q))
    } else if tag == 7 {
        CpEntry::Class { name_index: be_u16(d, q) }
    } else if tag == 8 {
        CpEntry::String { string_index: be_u16(d, q) }
    } else if tag == 9 {
        CpEntry::Fieldref { class_index: be_u16(d, q), name_and_type_index: be_u16(d, q + 2) }
    } else if tag == 10 {
        CpEntry::Methodref { class_index: be_u16(d, q), name_and_type_index: be_u16(d, q + 2) }
    } else if tag == 11 {
        CpEntry::InterfaceMethodref {
            class_index: be_u16(d, q),
            name_and_type_index: be_u16(d, q + 2),
        }
    } else if tag == 12 {
        CpEntry::NameAndType { name_index: be_u16(d, q), descriptor_index: be_u16(d, q + 2) }
    } else if tag == 15 {
        CpEntry::MethodHandle { reference_kind: d[q], reference_index: be_u16(d, q + 1) }
    } else if tag == 16 {
        CpEntry::MethodType { descriptor_index: be_u16(d, q) }
    } else if tag == 17 {
        CpEntry::Dynamic {
            bootstrap_method_attr_index: be_u16(d, q),
            name_and_type_index: be_u16(d, q + 2),
        }
    } else if tag == 18 {
        CpEntry::InvokeDynamic {
            bootstrap_method_attr_index: be_u16(d, q),
            name_and_type_index: be_u16(d, q + 2),
        }
    } else if tag == 19 {
        CpEntry::Module { name_index: be_u16(d, q) }
    } else {
        CpEntry::Package { name_index: be_u16(d, q) }
    }
}

/// Puts `prefix` in front of the entries of a successful outcome.
pub open spec fn cp_prepend(prefix: Seq<CpEntry>, o: CpParse) -> CpParse {
    match o {
        CpParse::Done(rest, q) => CpParse::Done(prefix + rest, q),
        other => other,
    }
}

/// The entries with indices `i..count` of a constant pool whose entry `i`
/// starts at byte `p`. A `Long` or `Double` takes two slots; the second is a
/// `Placeholder`.
pub open spec fn parse_cp(d: Seq<u8>, p: int, i: nat, count: nat) -> CpParse
    decreases d.len() - p,
{
    if i >= count {
        CpParse::Done(Seq::empty(), p)
    } else if p < 0 || p + 1 > d.len() {
        CpParse::Truncated
    } else {
        let tag = d[p];
        if tag == 1 {
            if p + 3 > d.len() {
                CpParse::Truncated
            } else {
                let len = be_u16(d, p + 1) as int;
                if p + 3 + len > d.len() {
                    CpParse::Truncated
                } else {
                    let e = CpEntry::Utf8(utf8_text(d.subrange(p + 3, p + 3 + len)));
                    cp_prepend(seq![e], parse_cp(d, p + 3 + len, i + 1, count))
                }
            }
        } else if tag == 5 || tag == 6 {
            if p + 9 > d.len() || i + 2 > 0xFFFF {
                CpParse::Truncated
            } else {
                let e = if tag == 5 {
                    CpEntry::Long(be_u64(d, p + 1) as i64)
                } else {
                    CpEntry::Double(be_u64(d, p + 1))
                };
                cp_prepend(seq![e, CpEntry::Placeholder], parse_cp(d, p + 9, i + 2, count))
            }
        } else {
            match fixed_entry_size(tag) {
                Some(size) => {
                    if p + 1 + size > d.len() {
                        CpParse::Truncated
                    } else {
                        cp_prepend(
                            seq![fixed_entry(d, p + 1, tag)],
                            parse_cp(d, p + 1 + size, i + 1, count),
                        )
                    }
                },
                None => CpParse::Failed(unknown_tag_text(tag, i)),
            }
        }
    }
}

/// The text of the `Utf8` entry at `index`, if there is one.
pub open spec fn cp_utf8(cp: Seq<CpEntry>, index: u16) -> Option<Seq<char>> {
    if (index as int) < cp.len() {
        match cp[index as int] {
            CpEntry::Utf8(s) => Some(s),
            _ => None,
        }
    } else {
        None
    }
}

// ---------------------------------------------------------------------------
// Attributes
// ---------------------------------------------------------------------------

/// `n` bootstrap methods starting at `p`.
pub open spec fn parse_bootstrap_methods(d: Seq<u8>, p: int, n: nat) -> Option<(Seq<BootstrapMethodV>, int)>
    decreases n,
{
    if n == 0 {
        Some((Seq::empty(), p))
    } else if p < 0 || p + 4 > d.len() {
        None
    } else {
        let argc = be_u16(d, p + 2) as nat;
        if p + 4 + 2 * argc > d.len() {
            None
        } else {
            let m = BootstrapMethodV {
                bootstrap_method_ref: be_u16(d, p),
                bootstrap_arguments: u16s_at(d, p + 4, argc),
            };
            match parse_bootstrap_methods(d, p + 4 + 2 * argc, (n - 1) as nat) {
                Some((rest, q)) => Some((seq![m] + rest, q)),
                None => None,
            }
        }
    }
}

/// `n` attributes starting at `p`.
pub open spec fn parse_attrs(d: Seq<u8>, p: int, n: nat, cp: Seq<CpEntry>) -> Option<(Seq<AttributeV>, int)>
    decreases d.len() - p, n,
{
    if n == 0 {
        Some((Seq::empty(), p))
    } else {
        match parse_attr(d, p, cp) {
            Some((a, q)) => {
                if p <= q && q <= d.len() {
                    match parse_attrs(d, q, (n - 1) as nat, cp) {
                        Some((rest, r)) => Some((seq![a] + rest, r)),
                        None => None,
                    }
                } else {
                    None
                }
            },
            None => None,
        }
    }
}

/// `n` record components starting at `p`.
pub open spec fn parse_components(d: Seq<u8>, p: int, n: nat, cp: Seq<CpEntry>) -> Option<(Seq<RecordComponentV>, int)>
    decreases d.len() - p, n,
{
    if n == 0 {
        Some((Seq::empty(), p))
    } else if p < 0 || p + 6 > d.len() {
        None
    } else {
        match parse_attrs(d, p + 6, be_u16(d, p + 4) as nat, cp) {
            Some((attrs, q)) => {
                if p <= q && q <= d.len() {
                    let c = RecordComponentV {
                        name_index: be_u16(d, p),
                        descriptor_index: be_u16(d, p + 2),
                        attributes: attrs,
                    };
                    match parse_components(d, q, (n - 1) as nat, cp) {
                        Some((rest, r)) => Some((seq![c] + rest, r)),
                        None => None,
                    }
                } else {
                    None
                }
            },
            None => None,
        }
    }
}

/// The body of a `Code` attribute whose payload starts at `q`.
pub open spec fn parse_code_body(d: Seq<u8>, q: int, cp: Seq<CpEntry>) -> Option<(AttributeV, int)>
    decreases d.len() - q, 1nat,
{
    if q < 0 || q + 8 > d.len() {
        None
    } else {
        let code_len = be_u32(d, q + 4) as int;
        let c = q + 8;
        if c + code_len + 2 > d.len() {
            None
        } else {
            let ex = c + code_len;
            let exc_count = be_u16(d, ex) as nat;
            let t = ex + 2;
            if t + 8 * exc_count + 2 > d.len() {
                None
            } else {
                let a = t + 8 * exc_count;
                match parse_attrs(d, a + 2, be_u16(d, a) as nat, cp) {
                    Some((attrs, r)) => Some(
                        (
                            AttributeV::Code(
                                CodeAttributeV {
                                    max_stack: be_u16(d, q),
                                    max_locals: be_u16(d, q + 2),
                                    code: d.subrange(c, c + code_len),
                                    exception_table: exception_table_at(d, t, exc_count),
                                    attributes: attrs,
                                },
                            ),
                            r,
                        ),
                    ),
                    None => None,
                }
            }
        }
    }
}

/// An attribute whose payload consists of a count and `count` records of
/// `width` bytes; `None` if they do not fit.
pub open spec fn counted_fits(d: Seq<u8>, q: int, width: nat) -> bool {
    q + 2 <= d.len() && q + 2 + width * (be_u16(d, q) as nat) <= d.len()
}

/// The attribute starting at `p`, and where it ends.
pub open spec fn parse_attr(d: Seq<u8>, p: int, cp: Seq<CpEntry>) -> Option<(AttributeV, int)>
    decreases d.len() - p, 0nat,
{
    if p < 0 || p + 6 > d.len() {
        None
    } else {
        let name_index = be_u16(d, p);
        let length = be_u32(d, p + 2) as int;
        let q = p + 6;
        match cp_utf8(cp, name_index) {
            None => None,
            Some(name) => {
                if name == "Code"@ {
                    parse_code_body(d, q, cp)
                } else if name == "ConstantValue"@ {
                    if q + 2 > d.len() {
                        None
                    } else {
                        Some((AttributeV::ConstantValue { constantvalue_index: be_u16(d, q) }, q + 2))
                    }
                } else if name == "BootstrapMethods"@ {
                    if q + 2 > d.len() {
                        None
                    } else {
                        match parse_bootstrap_methods(d, q + 2, be_u16(d, q) as nat) {
                            Some((ms, r)) => Some((AttributeV::BootstrapMethods(ms), r)),
                            None => None,
                        }
                    }
                } else if name == "Exceptions"@ {
                    if !counted_fits(d, q, 2) {
                        None
                    } else {
                        let n = be_u16(d, q) as nat;
                        Some(
                            (
                                AttributeV::Exceptions { exception_index_table: u16s_at(d, q + 2, n) },
                                q + 2 + 2 * n,
                            ),
                        )
                    }
                } else if name == "LineNumberTable"@ {
                    if !counted_fits(d, q, 4) {
                        None
                    } else {
                        let n = be_u16(d, q) as nat;
                        Some((AttributeV::LineNumberTable(line_numbers_at(d, q + 2, n)), q + 2 + 4 * n))
                    }
                } else if name == "LocalVariableTable"@ {
                    if !counted_fits(d, q, 10) {
                        None
                    } else {
                        let n = be_u16(d, q) as nat;
                        Some(
                            (
                                AttributeV::LocalVariableTable(local_variables_at(d, q + 2, n)),
                                q + 2 + 10 * n,
                            ),
                        )
                    }
                } else if name == "SourceFile"@ {
                    if q + 2 > d.len() {
                        None
                    } else {
                        Some((AttributeV::SourceFile { sourcefile_index: be_u16(d, q) }, q + 2))
                    }
                } else if name == "Signature"@ {
                    if q + 2 > d.len() {
                        None
                    } else {
                        Some((AttributeV::Signature { signature_index: be_u16(d, q) }, q + 2))
                    }
                } else if name == "InnerClasses"@ {
                    if !counted_fits(d, q, 8) {
                        None
                    } else {
                        let n = be_u16(d, q) as nat;
                        Some((AttributeV::InnerClasses(inner_classes_at(d, q + 2, n)), q + 2 + 8 * n))
                    }
                } else if name == "EnclosingMethod"@ {
                    if q + 4 > d.len() {
                        None
                    } else {
                        Some(
                            (
                                AttributeV::EnclosingMethod {
                                    class_index: be_u16(d, q),
                                    method_index: be_u16(d, q + 2),
                                },
                                q + 4,
                            ),
                        )
                    }
                } else if name == "NestHost"@ {
                    if q + 2 > d.len() {
                        None
                    } else {
                        Some((AttributeV::NestHost { host_class_index: be_u16(d, q) }, q + 2))
                    }
                } else if name == "NestMembers"@ {
                    if !counted_fits(d, q, 2) {
                        None
                    } else {
                        let n = be_u16(d, q) as nat;
                        Some((AttributeV::NestMembers { classes: u16s_at(d, q + 2, n) }, q + 2 + 2 * n))
                    }
                } else if name == "PermittedSubclasses"@ {
                    if !counted_fits(d, q, 2) {
                        None
                    } else {
                        let n = be_u16(d, q) as nat;
                        Some(
                            (
                                AttributeV::PermittedSubclasses { classes: u16s_at(d, q + 2, n) },
                                q + 2 + 2 * n,
                            ),
                        )
                    }
                } else if name == "Record"@ {
                    if q + 2 > d.len() {
                        None
                    } else {
                        match parse_components(d, q + 2, be_u16(d, q) as nat, cp) {
                            Some((cs, r)) => Some((AttributeV::Record { components: cs }, r)),
                            None => None,
                        }
                    }
                } else {
                    if q + length > d.len() {
                        None
                    } else {
                        Some(
                            (
                                AttributeV::Unknown { name: name, data: d.subrange(q, q + length) },
                                q + length,
                            ),
                        )
                    }
                }
            },
        }
    }
}

/// `n` fields or methods starting at `p`.
pub open spec fn parse_members(d: Seq<u8>, p: int, n: nat, cp: Seq<CpEntry>) -> Option<(Seq<MemberV>, int)>
    decreases n,
{
    if n == 0 {
        Some((Seq::empty(), p))
    } else if p < 0 || p + 8 > d.len() {
        None
    } else {
        match parse_attrs(d, p + 8, be_u16(d, p + 6) as nat, cp) {
            Some((attrs, q)) => {
                let m = MemberV {
                    access_flags: be_u16(d, p),
                    name_index: be_u16(d, p + 2),
                    descriptor_index: be_u16(d, p + 4),
                    attributes: attrs,
                };
                match parse_members(d, q, (n - 1) as nat, cp) {
                    Some((rest, r)) => Some((seq![m] + rest, r)),
                    None => None,
                }
            },
            None => None,
        }
    }
}

/// The part of a class file that follows the constant pool (starting at `p`
/// with access flags), given the constant pool.
pub open spec fn parse_class_tail(
    d: Seq<u8>,
    p: int,
    minor: u16,
    major: u16,
    cp: Seq<CpEntry>,
) -> ClassParse {
    if p < 0 || p + 8 > d.len() {
        ClassParse::Malformed
    } else {
        let icount = be_u16(d, p + 6) as nat;
        let f = p + 8 + 2 * icount;
        if f + 2 > d.len() {
            ClassParse::Malformed
        } else {
            match parse_members(d, f + 2, be_u16(d, f) as nat, cp) {
                None => ClassParse::Malformed,
                Some((fields, m)) => {
                    if m < 0 || m + 2 > d.len() {
                        ClassParse::Malformed
                    } else {
                        match parse_members(d, m + 2, be_u16(d, m) as nat, cp) {
                            None => ClassParse::Malformed,
                            Some((methods, a)) => {
                                if a < 0 || a + 2 > d.len() {
                                    ClassParse::Malformed
                                } else {
                                    match parse_attrs(d, a + 2, be_u16(d, a) as nat, cp) {
                                        None => ClassParse::Malformed,
                                        Some((attrs, _)) => ClassParse::Parsed(
                                            ClassFileV {
                                                minor_version: minor,
                                                major_version: major,
                                                constant_pool: cp,
                                                access_flags: be_u16(d, p),
                                                this_class: be_u16(d, p + 2),
                                                super_class: be_u16(d, p + 4),
                                                interfaces: u16s_at(d, p + 8, icount),
                                                fields: fields,
                                                methods: methods,
                                                attributes: attrs,
                                            },
                                        ),
                                    }
                                }
                            },
                        }
                    }
                },
            }
        }
    }
}

/// What the bytes `d` are as a class file.
pub open spec fn parse_class_spec(d: Seq<u8>) -> ClassParse {
    if d.len() < 4 {
        ClassParse::Malformed
    } else if be_u32(d, 0) != spec_magic() {
        ClassParse::Rejected(invalid_magic_text(be_u32(d, 0)))
    } else if d.len() < 10 {
        ClassParse::Malformed
    } else {
        match parse_cp(d, 10, 1, be_u16(d, 8) as nat) {
            CpParse::Truncated => ClassParse::Malformed,
            CpParse::Failed(msg) => ClassParse::Rejected(msg),
            CpParse::Done(entries, p) => parse_class_tail(
                d,
                p,
                be_u16(d, 4),
                be_u16(d, 6),
                seq![CpEntry::Placeholder] + entries,
            ),
        }
    }
}


// ---------------------------------------------------------------------------
// Class name only
// ---------------------------------------------------------------------------

/// The pieces of a constant pool that naming the class needs: where each
/// `Utf8` entry's bytes lie, and which `Utf8` index each `Class` entry names.
/// Scans entries `i..count` starting at byte `p`, continuing from the tables
/// gathered so far; `None` where the bytes run out or a tag is unknown.
pub open spec fn scan_cp(
    d: Seq<u8>,
    p: int,
    i: int,
    count: int,
    spans: Seq<Option<(usize, usize)>>,
    classes: Seq<Option<u16>>,
) -> Option<(Seq<Option<(usize, usize)>>, Seq<Option<u16>>, int)>
    decreases d.len() - p,
{
    if i >= count {
        Some((spans, classes, p))
    } else if p < 0 || p + 1 > d.len() {
        None
    } else {
        let tag = d[p];
        if tag == 1 {
            if p + 3 > d.len() {
                None
            } else {
                let len = be_u16(d, p + 1) as int;
                if p + 3 + len > d.len() {
                    None
                } else {
                    scan_cp(
                        d,
                        p + 3 + len,
                        i + 1,
                        count,
                        spans.update(i, Some(((p + 3) as usize, len as usize))),
                        classes,
                    )
                }
            }
        } else if tag == 7 {
            if p + 3 > d.len() {
                None
            } else {
                scan_cp(d, p + 3, i + 1, count, spans, classes.update(i, Some(be_u16(d, p + 1))))
            }
        } else if tag == 5 || tag == 6 {
            if p + 9 > d.len() {
                None
            } else {
                scan_cp(d, p + 9, i + 2, count, spans, classes)
            }
        } else {
            match fixed_entry_size(tag) {
                Some(size) => if p + 1 + size > d.len() {
                    None
                } else {
                    scan_cp(d, p + 1 + size, i + 1, count, spans, classes)
                },
                None => None,
            }
        }
    }
}

/// A table of `n` slots with no `Utf8` span recorded.
pub open spec fn no_spans(n: nat) -> Seq<Option<(usize, usize)>> {
    Seq::new(n, |k: int| None)
}

/// A table of `n` slots with no `Class` entry recorded.
pub open spec fn no_class_names(n: nat) -> Seq<Option<u16>> {
    Seq::new(n, |k: int| None)
}

/// The internal name of the class that the bytes `d` define, read without
/// parsing anything but the constant pool; `None` for bytes that are too
/// short or malformed.
pub open spec fn class_name_spec(d: Seq<u8>) -> Option<Seq<char>> {
    if d.len() < 10 || be_u32(d, 0) != spec_magic() {
        None
    } else {
        let count = be_u16(d, 8) as int;
        match scan_cp(
            d,
            10,
            1,
            count,
            no_spans(count as nat),
            no_class_names(count as nat),
        ) {
            None => None,
            Some((spans, classes, p)) => {
                if p + 4 > d.len() {
                    None
                } else {
                    let this_class = be_u16(d, p + 2) as int;
                    if this_class >= count {
                        None
                    } else {
                        match classes[this_class] {
                            None => None,
                            Some(name_index) => {
                                if name_index as int >= count {
                                    None
                                } else {
                                    match spans[name_index as int] {
                                        None => None,
                                        Some((start, len)) => Some(
                                            utf8_text(d.subrange(start as int, start + len)),
                                        ),
                                    }
                                }
                            },
                        }
                    }
                }
            },
        }
    }
}

/// Whether a slot of the scanned tables agrees with the parsed entry: a
/// `Utf8` entry has its bytes' span (and decodes to its text), a `Class`
/// entry its name index, and other entries neither.
pub open spec fn slot_agrees(d: Seq<u8>, e: CpEntry, span: Option<(usize, usize)>, class: Option<u16>) -> bool {
    &&& (e is Utf8 <==> span is Some)
    &&& (e matches CpEntry::Utf8(t) ==> (span matches Some((a, l)) && utf8_text(
        d.subrange(a as int, a + l),
    ) == t))
    &&& (e matches CpEntry::Class { name_index } ==> class == Some(name_index))
    &&& (!(e is Class) ==> class is None)
}

/// Scanning the constant pool finds what parsing it finds.
pub proof fn lemma_scan_matches_parse(
    d: Seq<u8>,
    p: int,
    i: int,
    count: int,
    spans: Seq<Option<(usize, usize)>>,
    classes: Seq<Option<u16>>,
)
    requires
        d.len() <= usize::MAX,
        0 <= p,
        1 <= i,
        parse_cp(d, p, i as nat, count as nat) is Done,
        spans.len() == count,
        classes.len() == count,
        forall|k: int| i <= k < count ==> spans[k] is None && classes[k] is None,
    ensures
        ({
            let es = parse_cp(d, p, i as nat, count as nat)->Done_0;
            let q = parse_cp(d, p, i as nat, count as nat)->Done_1;
            &&& es.len() >= count - i
            &&& forall|k: int| count <= k && i <= k < i + es.len() ==> #[trigger] es[k - i] == CpEntry::Placeholder
            &&& scan_cp(d, p, i, count, spans, classes) matches Some((sp, cl, q2)) && q2 == q
                && sp.len() == count && cl.len() == count && (forall|k: int|
                0 <= k < i ==> sp[k] == spans[k] && cl[k] == classes[k]) && (forall|k: int|
                i <= k < count ==> slot_agrees(d, #[trigger] es[k - i], sp[k], cl[k]))
        }),
    decreases d.len() - p,
{
    if i >= count {
        return;
    }
    let tag = d[p];
    let es = parse_cp(d, p, i as nat, count as nat)->Done_0;
    if tag == 1 {
        let len = be_u16(d, p + 1) as int;
        let sp2 = spans.update(i, Some(((p + 3) as usize, len as usize)));
        lemma_scan_matches_parse(d, p + 3 + len, i + 1, count, sp2, classes);
        let rest = parse_cp(d, p + 3 + len, (i + 1) as nat, count as nat)->Done_0;
        assert(es == seq![CpEntry::Utf8(utf8_text(d.subrange(p + 3, p + 3 + len)))] + rest);
        assert forall|k: int| count <= k && i <= k < i + es.len() implies #[trigger] es[k - i] == CpEntry::Placeholder by {
            assert(es[k - i] == rest[k - (i + 1)]);
        }
        let r = scan_cp(d, p + 3 + len, i + 1, count, sp2, classes);
        let (sp, cl, q2) = r->Some_0;
        assert forall|k: int| i <= k < count implies slot_agrees(d, #[trigger] es[k - i], sp[k], cl[k]) by {
            if k == i {
                assert(es[0] == CpEntry::Utf8(utf8_text(d.subrange(p + 3, p + 3 + len))));
                assert(sp[i] == sp2[i]);
            } else {
                assert(es[k - i] == rest[k - (i + 1)]);
            }
        }
    } else if tag == 5 || tag == 6 {
        lemma_scan_matches_parse(d, p + 9, i + 2, count, spans, classes);
        let rest = parse_cp(d, p + 9, (i + 2) as nat, count as nat)->Done_0;
        let e = if tag == 5 {
            CpEntry::Long(be_u64(d, p + 1) as i64)
        } else {
            CpEntry::Double(be_u64(d, p + 1))
        };
        assert(es == seq![e, CpEntry::Placeholder] + rest);
        if i + 1 >= count {
            assert(rest.len() == 0);
        }
        assert forall|k: int| count <= k && i <= k < i + es.len() implies #[trigger] es[k - i] == CpEntry::Placeholder by {
            if k == i + 1 {
            } else {
                assert(es[k - i] == rest[k - (i + 2)]);
            }
        }
        let r = scan_cp(d, p + 9, i + 2, count, spans, classes);
        let (sp, cl, q2) = r->Some_0;
        assert forall|k: int| i <= k < count implies slot_agrees(d, #[trigger] es[k - i], sp[k], cl[k]) by {
            if k == i {
                assert(es[0] == e);
            } else if k == i + 1 {
                assert(es[1] == CpEntry::Placeholder);
            } else {
                assert(es[k - i] == rest[k - (i + 2)]);
            }
        }
    } else {
        let size = fixed_entry_size(tag)->Some_0;
        let e = fixed_entry(d, p + 1, tag);
        let cl0 = if tag == 7 {
            classes.update(i, Some(be_u16(d, p + 1)))
        } else {
            classes
        };
        lemma_scan_matches_parse(d, p + 1 + size, i + 1, count, spans, cl0);
        let rest = parse_cp(d, p + 1 + size, (i + 1) as nat, count as nat)->Done_0;
        assert(es == seq![e] + rest);
        assert forall|k: int| count <= k && i <= k < i + es.len() implies #[trigger] es[k - i] == CpEntry::Placeholder by {
            assert(es[k - i] == rest[k - (i + 1)]);
        }
        let r = scan_cp(d, p + 1 + size, i + 1, count, spans, cl0);
        let (sp, cl, q2) = r->Some_0;
        assert forall|k: int| i <= k < count implies slot_agrees(d, #[trigger] es[k - i], sp[k], cl[k]) by {
            if k == i {
                assert(es[0] == e);
                assert(cl[i] == cl0[i]);
            } else {
                assert(es[k - i] == rest[k - (i + 1)]);
            }
        }
    }
}


/// Every recorded `Utf8` span lies within the first `n` bytes.
pub open spec fn spans_within(spans: Seq<Option<(usize, usize)>>, n: int) -> bool {
    forall|k: int| 0 <= k < spans.len() ==> (#[trigger] spans[k] matches Some((a, l)) ==> a + l <= n)
}

/// Scanning the constant pool reads only bytes before where it stops, so
/// bytes appended after them change nothing, and every span it records lies
/// within the bytes read.
pub proof fn lemma_scan_cp_prefix(
    d: Seq<u8>,
    e: Seq<u8>,
    p: int,
    i: int,
    count: int,
    spans: Seq<Option<(usize, usize)>>,
    classes: Seq<Option<u16>>,
)
    requires
        scan_cp(d, p, i, count, spans, classes) is Some,
        spans_within(spans, d.len() as int),
        0 <= p <= d.len(),
        d.len() <= usize::MAX,
        spans.len() == count,
        0 <= i,
    ensures
        scan_cp(d + e, p, i, count, spans, classes) == scan_cp(d, p, i, count, spans, classes),
        scan_cp(d, p, i, count, spans, classes) matches Some((sp, _, q)) && p <= q <= d.len() && sp.len() == count
            && spans_within(sp, d.len() as int),
    decreases d.len() - p,
{
    let de = d + e;
    if i >= count {
    } else {
        assert(0 <= p < d.len());
        let tag = d[p];
        assert(de[p] == tag);
        if tag == 1 {
            let len = be_u16(d, p + 1) as int;
            assert(de[p + 1] == d[p + 1] && de[p + 2] == d[p + 2]);
            assert(be_u16(de, p + 1) == be_u16(d, p + 1));
            let sp = spans.update(i, Some(((p + 3) as usize, len as usize)));
            assert(spans_within(sp, d.len() as int)) by {
                assert forall|k: int| 0 <= k < sp.len() implies (#[trigger] sp[k] matches Some((a, l)) ==> a + l
                    <= d.len()) by {
                    if k == i && 0 <= i < spans.len() {
                        assert(p + 3 + len <= d.len());
                        assert(sp[k] == Some(((p + 3) as usize, len as usize)));
                    } else {
                        assert(sp[k] == spans[k]);
                    }
                }
            }
            lemma_scan_cp_prefix(d, e, p + 3 + len, i + 1, count, sp, classes);
        } else if tag == 7 {
            assert(de[p + 1] == d[p + 1] && de[p + 2] == d[p + 2]);
            assert(be_u16(de, p + 1) == be_u16(d, p + 1));
            lemma_scan_cp_prefix(d, e, p + 3, i + 1, count, spans, classes.update(i, Some(be_u16(d, p + 1))));
        } else if tag == 5 || tag == 6 {
            lemma_scan_cp_prefix(d, e, p + 9, i + 2, count, spans, classes);
        } else {
            let size = fixed_entry_size(tag)->Some_0;
            lemma_scan_cp_prefix(d, e, p + 1 + size, i + 1, count, spans, classes);
        }
    }
}

/// Bytes after the ones that name the class never change the name found.
pub proof fn law_class_name_ignores_trailing_bytes(d: Seq<u8>, e: Seq<u8>)
    requires
        class_name_spec(d) is Some,
        d.len() <= usize::MAX,
    ensures
        class_name_spec(d + e) == class_name_spec(d),
{
    let de = d + e;
    assert forall|k: int| 0 <= k < d.len() implies de[k] == d[k] by {}
    assert(be_u32(de, 0) == be_u32(d, 0));
    assert(be_u16(de, 8) == be_u16(d, 8));
    let count = be_u16(d, 8) as int;
    lemma_scan_cp_prefix(d, e, 10, 1, count, no_spans(count as nat), no_class_names(count as nat));
    let (spans, classes, p) = scan_cp(d, 10, 1, count, no_spans(count as nat), no_class_names(count as nat))->Some_0;
    assert(p + 4 <= d.len());
    assert(de[p + 2] == d[p + 2] && de[p + 3] == d[p + 3]);
    assert(be_u16(de, p + 2) == be_u16(d, p + 2));
    let this_class = be_u16(d, p + 2) as int;
    let name_index = classes[this_class]->Some_0 as int;
    let (start, len) = spans[name_index]->Some_0;
    assert(spans[name_index] matches Some((a, l)) ==> a + l <= d.len());
    assert(de.subrange(start as int, start + len) =~= d.subrange(start as int, start + len));
}

} // verus!
