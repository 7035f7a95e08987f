//! JVM descriptor utilities (JVMS §4.3), bytecode operand reading and
//! constant-pool reference resolution.

use vstd::prelude::*;
use vstd::string::StringSliceAdditionalSpecFns;
use crate::class_file::ConstantPoolEntry;
use crate::class_spec::{be_u16, be_u32, CpEntry};
use crate::text::{chars_of, cut_ok, lemma_cut_after_ascii, push_char, str_bytes_text, str_slice};
use vstd::utf8::{
    decode_utf8, encode_utf8_decode_utf8, encode_utf8_valid_utf8, is_char_boundary_iff_not_is_continuation_byte,
    is_char_boundary_start_end_of_seq,
};

verus! {

/// The byte `(`.
pub const OPEN_PAREN: u8 = 40;
/// The byte `)`.
pub const CLOSE_PAREN: u8 = 41;
/// The byte `;`.
pub const SEMICOLON: u8 = 59;
/// The byte `L`.
pub const CLASS_TAG: u8 = 76;
/// The byte `[`.
pub const ARRAY_TAG: u8 = 91;
/// The byte `B`.
pub const BYTE_TAG: u8 = 66;
/// The byte `C`.
pub const CHAR_TAG: u8 = 67;
/// The byte `D`.
pub const DOUBLE_TAG: u8 = 68;
/// The byte `F`.
pub const FLOAT_TAG: u8 = 70;
/// The byte `I`.
pub const INT_TAG: u8 = 73;
/// The byte `J`.
pub const LONG_TAG: u8 = 74;
/// The byte `S`.
pub const SHORT_TAG: u8 = 83;
/// The byte `Z`.
pub const BOOLEAN_TAG: u8 = 90;
/// The byte `V`.
pub const VOID_TAG: u8 = 86;

// ---------------------------------------------------------------------------
// Bytecode operand reading
// ---------------------------------------------------------------------------

/// Signed 16-bit big-endian operand at `*pc`; advances `pc` by 2.
pub fn read_i16(code: &[u8], pc: &mut usize) -> (v: i16)
    requires
        *old(pc) + 2 <= code@.len(),
    ensures
        v == be_u16(code@, *old(pc) as int) as i16,
        *final(pc) == *old(pc) + 2,
{
    let hi = code[*pc] as u16;
    let lo = code[*pc + 1] as u16;
    *pc += 2;
    (hi * 256 + lo) as i16
}

/// Unsigned 16-bit big-endian operand at `*pc`; advances `pc` by 2.
pub fn read_u16(code: &[u8], pc: &mut usize) -> (v: u16)
    requires
        *old(pc) + 2 <= code@.len(),
    ensures
        v == be_u16(code@, *old(pc) as int),
        *final(pc) == *old(pc) + 2,
{
    let hi = code[*pc] as u16;
    let lo = code[*pc + 1] as u16;
    *pc += 2;
    hi * 256 + lo
}

/// Signed 32-bit big-endian operand at `*pc`; advances `pc` by 4.
pub fn read_i32(code: &[u8], pc: &mut usize) -> (v: i32)
    requires
        *old(pc) + 4 <= code@.len(),
    ensures
        v == be_u32(code@, *old(pc) as int) as i32,
        *final(pc) == *old(pc) + 4,
{
    let hi = read_u16(code, pc) as u32;
    let lo = read_u16(code, pc) as u32;
    (hi * 65536 + lo) as i32
}

// ---------------------------------------------------------------------------
// Constant pool resolution
// ---------------------------------------------------------------------------

/// The text of the entry at `i` if it is `Utf8`, else the empty text.
pub open spec fn utf8_or_empty(cp: Seq<CpEntry>, i: u16) -> Seq<char> {
    match cp[i as int] {
        CpEntry::Utf8(s) => s,
        _ => Seq::empty(),
    }
}

/// The entries that resolving the `Class` reference at `idx` reads exist.
pub open spec fn class_ref_readable(cp: Seq<CpEntry>, idx: u16) -> bool {
    &&& (idx as int) < cp.len()
    &&& cp[idx as int] matches CpEntry::Class { name_index } ==> (name_index as int) < cp.len()
}

/// The name that the `Class` reference at `idx` resolves to; empty when the
/// entry is not a `Class` naming a `Utf8` entry.
pub open spec fn resolved_class_name(cp: Seq<CpEntry>, idx: u16) -> Seq<char> {
    match cp[idx as int] {
        CpEntry::Class { name_index } => utf8_or_empty(cp, name_index),
        _ => Seq::empty(),
    }
}

/// The class index and name-and-type index of a member reference at `idx`
/// (of the given kind: fields, or methods and interface methods).
pub open spec fn member_ref(cp: Seq<CpEntry>, idx: u16, field: bool) -> Option<(u16, u16)> {
    match cp[idx as int] {
        CpEntry::Fieldref { class_index, name_and_type_index } => if field {
            Some((class_index, name_and_type_index))
        } else {
            None
        },
        CpEntry::Methodref { class_index, name_and_type_index } => if field {
            None
        } else {
            Some((class_index, name_and_type_index))
        },
        CpEntry::InterfaceMethodref { class_index, name_and_type_index } => if field {
            None
        } else {
            Some((class_index, name_and_type_index))
        },
        _ => None,
    }
}

/// The entries that resolving the member reference at `idx` reads exist.
pub open spec fn member_ref_readable(cp: Seq<CpEntry>, idx: u16, field: bool) -> bool {
    &&& (idx as int) < cp.len()
    &&& member_ref(cp, idx, field) matches Some((c, nt)) ==> {
        &&& class_ref_readable(cp, c)
        &&& (nt as int) < cp.len()
        &&& cp[nt as int] matches CpEntry::NameAndType { name_index, descriptor_index } ==> {
            &&& (name_index as int) < cp.len()
            &&& (descriptor_index as int) < cp.len()
        }
    }
}

/// (class name, member name, descriptor) of the member reference at `idx`;
/// each part is empty where the entries are of another kind.
pub open spec fn resolved_member(cp: Seq<CpEntry>, idx: u16, field: bool) -> (Seq<char>, Seq<char>, Seq<char>) {
    match member_ref(cp, idx, field) {
        None => (Seq::empty(), Seq::empty(), Seq::empty()),
        Some((c, nt)) => {
            let (n, d) = match cp[nt as int] {
                CpEntry::NameAndType { name_index, descriptor_index } => (
                    utf8_or_empty(cp, name_index),
                    utf8_or_empty(cp, descriptor_index),
                ),
                _ => (Seq::empty(), Seq::empty()),
            };
            (resolved_class_name(cp, c), n, d)
        },
    }
}

/// The values of a slice of constant-pool entries.
pub open spec fn cp_slice_view(cp: &[ConstantPoolEntry]) -> Seq<CpEntry> {
    cp@.map_values(|e: ConstantPoolEntry| e@)
}

fn utf8_text(cp: &[ConstantPoolEntry], i: u16) -> (s: String)
    requires
        (i as int) < cp@.len(),
    ensures
        s@ == utf8_or_empty(cp_slice_view(cp), i),
{
    match &cp[i as usize] {
        ConstantPoolEntry::Utf8(s) => s.clone(),
        _ => String::new(),
    }
}

/// Resolve the `Class` reference at `idx` to the class name.
pub fn resolve_class_name(cp: &[ConstantPoolEntry], idx: u16) -> (s: String)
    requires
        class_ref_readable(cp_slice_view(cp), idx),
    ensures
        s@ == resolved_class_name(cp_slice_view(cp), idx),
{
    match &cp[idx as usize] {
        ConstantPoolEntry::Class { name_index } => utf8_text(cp, *name_index),
        _ => String::new(),
    }
}

fn resolve_member(cp: &[ConstantPoolEntry], idx: u16, field: bool) -> (res: (String, String, String))
    requires
        member_ref_readable(cp_slice_view(cp), idx, field),
    ensures
        (res.0@, res.1@, res.2@) == resolved_member(cp_slice_view(cp), idx, field),
{
    let ghost v = cp_slice_view(cp);
    let (class_idx, nat_idx) = match &cp[idx as usize] {
        ConstantPoolEntry::Fieldref { class_index, name_and_type_index } if field => (
            *class_index,
            *name_and_type_index,
        ),
        ConstantPoolEntry::Methodref { class_index, name_and_type_index } if !field => (
            *class_index,
            *name_and_type_index,
        ),
        ConstantPoolEntry::InterfaceMethodref {
            class_index,
            name_and_type_index,
        } if !field => (*class_index, *name_and_type_index),
        _ => {
            return (String::new(), String::new(), String::new());
        },
    };
    let class_name = resolve_class_name(cp, class_idx);
    let (name, desc) = match &cp[nat_idx as usize] {
        ConstantPoolEntry::NameAndType { name_index, descriptor_index } => {
            let n = utf8_text(cp, *name_index);
            let d = utf8_text(cp, *descriptor_index);
            (n, d)
        },
        _ => (String::new(), String::new()),
    };
    (class_name, name, desc)
}

/// Resolve the `Methodref`/`InterfaceMethodref` at `idx` to
/// (class name, method name, descriptor).
pub fn resolve_methodref(cp: &[ConstantPoolEntry], idx: u16) -> (res: (String, String, String))
    requires
        member_ref_readable(cp_slice_view(cp), idx, false),
    ensures
        (res.0@, res.1@, res.2@) == resolved_member(cp_slice_view(cp), idx, false),
{
    resolve_member(cp, idx, false)
}

/// Resolve the `Fieldref` at `idx` to (class name, field name, descriptor).
pub fn resolve_fieldref(cp: &[ConstantPoolEntry], idx: u16) -> (res: (String, String, String))
    requires
        member_ref_readable(cp_slice_view(cp), idx, true),
    ensures
        (res.0@, res.1@, res.2@) == resolved_member(cp_slice_view(cp), idx, true),
{
    resolve_member(cp, idx, true)
}


// ---------------------------------------------------------------------------
// Argument kinds of a method descriptor
// ---------------------------------------------------------------------------

/// Reading state while walking the argument list of a method descriptor.
pub enum ArgScan {
    /// At the start of an argument (or at the closing parenthesis).
    Between,
    /// Inside a class name `L...;`, up to and including the `;`.
    InClassName,
    /// After the leading `[`s of an array type.
    AfterBrackets,
}

/// The first character of each argument type read from position `i` on, in
/// the given state. A class type gives `'L'`, an array type `'['`, any other
/// character itself. Reading stops at `)` or at the end.
pub open spec fn arg_kinds_from(s: Seq<char>, i: int, st: ArgScan) -> Seq<char>
    decreases s.len() - i,
{
    if i < 0 || i >= s.len() {
        Seq::empty()
    } else {
        match st {
            ArgScan::Between => {
                if s[i] == ')' {
                    Seq::empty()
                } else if s[i] == 'L' {
                    seq!['L'] + arg_kinds_from(s, i + 1, ArgScan::InClassName)
                } else if s[i] == '[' {
                    seq!['['] + arg_kinds_from(s, i + 1, ArgScan::AfterBrackets)
                } else {
                    seq![s[i]] + arg_kinds_from(s, i + 1, ArgScan::Between)
                }
            },
            ArgScan::InClassName => {
                if s[i] == ';' {
                    arg_kinds_from(s, i + 1, ArgScan::Between)
                } else {
                    arg_kinds_from(s, i + 1, ArgScan::InClassName)
                }
            },
            ArgScan::AfterBrackets => {
                if s[i] == '[' {
                    arg_kinds_from(s, i + 1, ArgScan::AfterBrackets)
                } else if s[i] == 'L' {
                    arg_kinds_from(s, i + 1, ArgScan::InClassName)
                } else {
                    arg_kinds_from(s, i + 1, ArgScan::Between)
                }
            },
        }
    }
}

/// The first character of each argument type of a method descriptor; empty
/// when the descriptor does not start with `(`.
pub open spec fn arg_kinds(s: Seq<char>) -> Seq<char> {
    if s.len() > 0 && s[0] == '(' {
        arg_kinds_from(s, 1, ArgScan::Between)
    } else {
        Seq::empty()
    }
}

/// Extract the first character of each argument type in a method descriptor.
pub fn arg_type_chars(descriptor: &str) -> (types: Vec<char>)
    ensures
        types@ == arg_kinds(descriptor@),
{
    let chars = chars_of(descriptor);
    let ghost s = chars@;
    let mut types: Vec<char> = Vec::new();
    if chars.len() == 0 || chars[0] != '(' {
        return types;
    }
    let mut i: usize = 1;
    let n = chars.len();
    while i < n
        invariant
            n == s.len(),
            chars@ == s,
            s == descriptor@,
            1 <= i <= n,
            s.len() > 0 && s[0] == '(',
            arg_kinds(s) == types@ + arg_kinds_from(s, i as int, ArgScan::Between),
        decreases n - i,
    {
        let c = chars[i];
        let ghost before = types@;
        if c == ')' {
            proof {
                assert(arg_kinds_from(s, i as int, ArgScan::Between) == Seq::<char>::empty());
                assert(types@ + Seq::<char>::empty() =~= types@);
            }
            return types;
        } else if c == 'L' {
            i = i + 1;
            let ghost k0 = i as int;
            while i < n && chars[i] != ';'
                invariant
                    n == s.len(),
                    chars@ == s,
                    1 <= i <= n,
                    k0 <= i,
                    arg_kinds_from(s, i as int, ArgScan::InClassName) == arg_kinds_from(
                        s,
                        k0,
                        ArgScan::InClassName,
                    ),
                decreases n - i,
            {
                i = i + 1;
            }
            if i < n {
                i = i + 1;
            }
            types.push('L');
            proof {
                assert(before + (seq!['L'] + arg_kinds_from(s, i as int, ArgScan::Between)) =~= types@
                    + arg_kinds_from(s, i as int, ArgScan::Between));
            }
        } else if c == '[' {
            i = i + 1;
            let ghost k0 = i as int;
            while i < n && chars[i] == '['
                invariant
                    n == s.len(),
                    chars@ == s,
                    1 <= i <= n,
                    k0 <= i,
                    arg_kinds_from(s, i as int, ArgScan::AfterBrackets) == arg_kinds_from(
                        s,
                        k0,
                        ArgScan::AfterBrackets,
                    ),
                decreases n - i,
            {
                i = i + 1;
            }
            if i < n && chars[i] == 'L' {
                i = i + 1;
                while i < n && chars[i] != ';'
                    invariant
                        n == s.len(),
                        chars@ == s,
                        1 <= i <= n,
                        k0 <= i,
                        arg_kinds_from(s, i as int, ArgScan::InClassName) == arg_kinds_from(
                            s,
                            k0,
                            ArgScan::AfterBrackets,
                        ),
                    decreases n - i,
                {
                    i = i + 1;
                }
                if i < n {
                    i = i + 1;
                }
            } else if i < n {
                i = i + 1;
            }
            types.push('[');
            proof {
                assert(before + (seq!['['] + arg_kinds_from(s, i as int, ArgScan::Between)) =~= types@
                    + arg_kinds_from(s, i as int, ArgScan::Between));
            }
        } else {
            i = i + 1;
            types.push(c);
            proof {
                assert(before + (seq![c] + arg_kinds_from(s, i as int, ArgScan::Between)) =~= types@
                    + arg_kinds_from(s, i as int, ArgScan::Between));
            }
        }
    }
    proof {
        assert(types@ + Seq::<char>::empty() =~= types@);
    }
    types
}

/// Count the number of method arguments from a JVM method descriptor.
pub fn count_args(descriptor: &str) -> (count: usize)
    ensures
        count == arg_kinds(descriptor@).len(),
{
    let chars = chars_of(descriptor);
    let ghost s = chars@;
    let mut count: usize = 0;
    if chars.len() == 0 || chars[0] != '(' {
        return 0;
    }
    let mut i: usize = 1;
    let n = chars.len();
    while i < n
        invariant
            n == s.len(),
            chars@ == s,
            s == descriptor@,
            1 <= i <= n,
            count <= i,
            s.len() > 0 && s[0] == '(',
            arg_kinds(s).len() == count + arg_kinds_from(s, i as int, ArgScan::Between).len(),
        decreases n - i,
    {
        let c = chars[i];
        if c == ')' {
            proof {
                assert(arg_kinds_from(s, i as int, ArgScan::Between) == Seq::<char>::empty());
            }
            return count;
        } else if c == 'L' {
            i = i + 1;
            let ghost k0 = i as int;
            while i < n && chars[i] != ';'
                invariant
                    n == s.len(),
                    chars@ == s,
                    1 <= i <= n,
                    k0 <= i,
                    arg_kinds_from(s, i as int, ArgScan::InClassName) == arg_kinds_from(
                        s,
                        k0,
                        ArgScan::InClassName,
                    ),
                decreases n - i,
            {
                i = i + 1;
            }
            if i < n {
                i = i + 1;
            }
            count += 1;
        } else if c == '[' {
            i = i + 1;
            let ghost k0 = i as int;
            while i < n && chars[i] == '['
                invariant
                    n == s.len(),
                    chars@ == s,
                    1 <= i <= n,
                    k0 <= i,
                    arg_kinds_from(s, i as int, ArgScan::AfterBrackets) == arg_kinds_from(
                        s,
                        k0,
                        ArgScan::AfterBrackets,
                    ),
                decreases n - i,
            {
                i = i + 1;
            }
            if i < n && chars[i] == 'L' {
                i = i + 1;
                while i < n && chars[i] != ';'
                    invariant
                        n == s.len(),
                        chars@ == s,
                        1 <= i <= n,
                        k0 <= i,
                        arg_kinds_from(s, i as int, ArgScan::InClassName) == arg_kinds_from(
                            s,
                            k0,
                            ArgScan::AfterBrackets,
                        ),
                    decreases n - i,
                {
                    i = i + 1;
                }
                if i < n {
                    i = i + 1;
                }
            } else if i < n {
                i = i + 1;
            }
            count += 1;
        } else {
            i = i + 1;
            count += 1;
        }
    }
    count
}

// ---------------------------------------------------------------------------
// Descriptors as bytes
// ---------------------------------------------------------------------------

/// Splits the argument list of a method descriptor, read byte by byte from
/// offset `i` in the given state, into argument tokens. Returns the
/// `(start, end)` byte offsets of each token and the offset where the return
/// type starts. `start` is where the token being read began.
pub open spec fn token_scan(b: Seq<u8>, i: int, st: ArgScan, start: int) -> (Seq<(int, int)>, int)
    decreases b.len() - i,
{
    if i < 0 || i >= b.len() {
        match st {
            ArgScan::InClassName => (seq![(start, i)], i),
            _ => (Seq::empty(), i),
        }
    } else {
        match st {
            ArgScan::Between => {
                if b[i] == CLOSE_PAREN {
                    (Seq::empty(), i + 1)
                } else if b[i] == ARRAY_TAG {
                    token_scan(b, i + 1, ArgScan::AfterBrackets, i)
                } else if b[i] == CLASS_TAG {
                    token_scan(b, i + 1, ArgScan::InClassName, i)
                } else {
                    let (rest, e) = token_scan(b, i + 1, ArgScan::Between, i + 1);
                    (seq![(i, i + 1)] + rest, e)
                }
            },
            ArgScan::AfterBrackets => {
                if b[i] == ARRAY_TAG {
                    token_scan(b, i + 1, ArgScan::AfterBrackets, start)
                } else if b[i] == CLASS_TAG {
                    token_scan(b, i + 1, ArgScan::InClassName, start)
                } else {
                    let (rest, e) = token_scan(b, i + 1, ArgScan::Between, i + 1);
                    (seq![(start, i + 1)] + rest, e)
                }
            },
            ArgScan::InClassName => {
                if b[i] == SEMICOLON {
                    let (rest, e) = token_scan(b, i + 1, ArgScan::Between, i + 1);
                    (seq![(start, i + 1)] + rest, e)
                } else {
                    token_scan(b, i + 1, ArgScan::InClassName, start)
                }
            },
        }
    }
}

/// Whether `b` starts with `(`, i.e. has an argument list.
pub open spec fn has_arg_list(b: Seq<u8>) -> bool {
    b.len() > 0 && b[0] == OPEN_PAREN
}

/// The argument tokens and the start of the return type of a method
/// descriptor that has an argument list.
pub open spec fn method_tokens(b: Seq<u8>) -> (Seq<(int, int)>, int) {
    token_scan(b, 1, ArgScan::Between, 1)
}

/// Every offset at which splitting the descriptor cuts it is a character
/// boundary (always so for ASCII descriptors).
pub open spec fn method_tokens_cuttable(b: Seq<u8>) -> bool {
    has_arg_list(b) ==> {
        let (toks, e) = method_tokens(b);
        &&& forall|k: int| 0 <= k < toks.len() ==> cut_ok(b, (#[trigger] toks[k]).0) && cut_ok(b, toks[k].1)
        &&& cut_ok(b, e)
    }
}

/// The Java-visible runtime name of the type whose descriptor is `b`.
pub open spec fn runtime_class_name_of(b: Seq<u8>) -> Seq<char> {
    if b.len() == 0 {
        "java/lang/Object"@
    } else if b[0] == BYTE_TAG {
        "byte"@
    } else if b[0] == CHAR_TAG {
        "char"@
    } else if b[0] == DOUBLE_TAG {
        "double"@
    } else if b[0] == FLOAT_TAG {
        "float"@
    } else if b[0] == INT_TAG {
        "int"@
    } else if b[0] == LONG_TAG {
        "long"@
    } else if b[0] == SHORT_TAG {
        "short"@
    } else if b[0] == BOOLEAN_TAG {
        "boolean"@
    } else if b[0] == VOID_TAG {
        "void"@
    } else if b[0] == CLASS_TAG {
        if b.len() >= 2 && b[b.len() - 1] == SEMICOLON {
            decode_utf8(b.subrange(1, b.len() - 1))
        } else {
            "java/lang/Object"@
        }
    } else if b[0] == ARRAY_TAG {
        decode_utf8(b)
    } else {
        "java/lang/Object"@
    }
}

/// The Java-visible runtime name for a field descriptor
/// (`"I"` → `"int"`, `"Ljava/lang/String;"` → `"java/lang/String"`).
pub fn descriptor_to_runtime_class_name(desc: &str) -> (name: String)
    ensures
        name@ == runtime_class_name_of(desc.spec_bytes()),
{
    let b = desc.as_bytes();
    let len = b.len();
    if len == 0 {
        return "java/lang/Object".to_owned();
    }
    let first = b[0];
    if first == BYTE_TAG {
        "byte".to_owned()
    } else if first == CHAR_TAG {
        "char".to_owned()
    } else if first == DOUBLE_TAG {
        "double".to_owned()
    } else if first == FLOAT_TAG {
        "float".to_owned()
    } else if first == INT_TAG {
        "int".to_owned()
    } else if first == LONG_TAG {
        "long".to_owned()
    } else if first == SHORT_TAG {
        "short".to_owned()
    } else if first == BOOLEAN_TAG {
        "boolean".to_owned()
    } else if first == VOID_TAG {
        "void".to_owned()
    } else if first == CLASS_TAG {
        if len >= 2 && b[len - 1] == SEMICOLON {
            proof {
                lemma_first_is_cut(desc);
                lemma_cut_after_ascii(desc, 0);
            }
            str_slice(desc, 1, len - 1).to_owned()
        } else {
            "java/lang/Object".to_owned()
        }
    } else if first == ARRAY_TAG {
        proof {
            encode_utf8_decode_utf8(desc@);
        }
        desc.to_owned()
    } else {
        "java/lang/Object".to_owned()
    }
}

proof fn lemma_first_is_cut(s: &str)
    ensures
        cut_ok(s.spec_bytes(), 0),
{
    let b = s.spec_bytes();
    encode_utf8_valid_utf8(s@);
    is_char_boundary_start_end_of_seq(b);
    if b.len() > 0 {
        is_char_boundary_iff_not_is_continuation_byte(b, 0);
    }
}

/// The class name in a field descriptor: the name inside `L...;`, or the
/// whole descriptor for an array type; `None` for primitive types.
pub open spec fn class_name_of_descriptor(b: Seq<u8>) -> Option<Seq<char>> {
    if b.len() == 0 {
        None
    } else if b[0] == CLASS_TAG {
        Some(decode_utf8(b.subrange(1, b.len() - 1)))
    } else if b[0] == ARRAY_TAG {
        Some(decode_utf8(b))
    } else {
        None
    }
}

/// Extract a class name from a JVM field descriptor (dropping the first and
/// last character of a class type).
pub fn descriptor_to_class_name(desc: &str) -> (res: Option<String>)
    requires
        desc.spec_bytes().len() > 0 && desc.spec_bytes()[0] == CLASS_TAG ==> desc.spec_bytes().len()
            >= 2 && cut_ok(desc.spec_bytes(), desc.spec_bytes().len() - 1),
    ensures
        match class_name_of_descriptor(desc.spec_bytes()) {
            Some(name) => res matches Some(s) && s@ == name,
            None => res is None,
        },
{
    let b = desc.as_bytes();
    let len = b.len();
    if len == 0 {
        return None;
    }
    if b[0] == CLASS_TAG {
        proof {
            lemma_first_is_cut(desc);
            lemma_cut_after_ascii(desc, 0);
        }
        Some(str_slice(desc, 1, len - 1).to_owned())
    } else if b[0] == ARRAY_TAG {
        proof {
            encode_utf8_decode_utf8(desc@);
        }
        Some(desc.to_owned())
    } else {
        None
    }
}

/// The offset of the first byte `x` at or after `i`.
pub open spec fn find_byte(b: Seq<u8>, x: u8, i: int) -> Option<int>
    decreases b.len() - i,
{
    if i < 0 || i >= b.len() {
        None
    } else if b[i] == x {
        Some(i)
    } else {
        find_byte(b, x, i + 1)
    }
}

/// The return-type part of a method descriptor: what follows the first `)`.
pub fn method_return_descriptor(descriptor: &str) -> (res: Option<&str>)
    ensures
        match find_byte(descriptor.spec_bytes(), CLOSE_PAREN, 0) {
            Some(k) => res matches Some(r) && r@ == str_bytes_text(
                descriptor,
                k + 1,
                descriptor.spec_bytes().len() as int,
            ),
            None => res is None,
        },
{
    let b = descriptor.as_bytes();
    let len = b.len();
    let mut k: usize = 0;
    while k < len
        invariant
            b@ == descriptor.spec_bytes(),
            len == b@.len(),
            k <= len,
            find_byte(b@, CLOSE_PAREN, 0) == find_byte(b@, CLOSE_PAREN, k as int),
        decreases len - k,
    {
        if b[k] == CLOSE_PAREN {
            proof {
                encode_utf8_valid_utf8(descriptor@);
                is_char_boundary_iff_not_is_continuation_byte(b@, k as int);
                lemma_cut_after_ascii(descriptor, k as int);
            }
            return Some(str_slice(descriptor, k + 1, len));
        }
        k = k + 1;
    }
    None
}

/// Whether a field descriptor names a reference (class or array) type.
pub fn is_reference_descriptor(desc: &str) -> (b: bool)
    ensures
        b == (desc.spec_bytes().len() > 0 && (desc.spec_bytes()[0] == CLASS_TAG
            || desc.spec_bytes()[0] == ARRAY_TAG)),
{
    let bytes = desc.as_bytes();
    bytes.len() > 0 && (bytes[0] == CLASS_TAG || bytes[0] == ARRAY_TAG)
}

/// The byte spans of the argument tokens of a method descriptor that starts
/// with `(`, and the offset where the return type starts.
fn method_token_spans(desc: &str) -> (res: (Vec<(usize, usize)>, usize))
    requires
        has_arg_list(desc.spec_bytes()),
    ensures
        res.0@.len() == method_tokens(desc.spec_bytes()).0.len(),
        forall|k: int|
            0 <= k < res.0@.len() ==> (#[trigger] res.0@[k]).0 == method_tokens(desc.spec_bytes()).0[k].0
                && res.0@[k].1 == method_tokens(desc.spec_bytes()).0[k].1,
        res.1 == method_tokens(desc.spec_bytes()).1,
        res.1 <= desc.spec_bytes().len(),
        forall|k: int| 0 <= k < res.0@.len() ==> (#[trigger] res.0@[k]).0 <= res.0@[k].1 <= desc.spec_bytes().len(),
{
    let bytes = desc.as_bytes();
    let ghost b = bytes@;
    let len = bytes.len();
    let mut spans: Vec<(usize, usize)> = Vec::new();
    let mut i: usize = 1;
    let ghost all = method_tokens(b);
    let ghost sv = |v: Seq<(usize, usize)>| v.map_values(|t: (usize, usize)| (t.0 as int, t.1 as int));
    proof {
        assert(sv(spans@) + token_scan(b, 1, ArgScan::Between, 1).0 =~= all.0);
    }
    while i < len
        invariant
            b == desc.spec_bytes(),
            bytes@ == b,
            len == b.len(),
            1 <= i <= len,
            has_arg_list(b),
            all == method_tokens(b),
            sv == (|v: Seq<(usize, usize)>| v.map_values(|t: (usize, usize)| (t.0 as int, t.1 as int))),
            sv(spans@) + token_scan(b, i as int, ArgScan::Between, i as int).0 == all.0,
            forall|k: int| 0 <= k < spans@.len() ==> (#[trigger] spans@[k]).0 <= spans@[k].1 <= len,
            token_scan(b, i as int, ArgScan::Between, i as int).1 == all.1,
        decreases len - i,
    {
        let ghost before = sv(spans@);
        let c = bytes[i];
        if c == CLOSE_PAREN {
            i += 1;
            proof {
                assert(before + Seq::<(int, int)>::empty() =~= before);
            }
            return (spans, i);
        }
        let start = i;
        let ghost st0 = if c == ARRAY_TAG { ArgScan::AfterBrackets } else { ArgScan::Between };
        while i < len && bytes[i] == ARRAY_TAG
            invariant
                bytes@ == b,
                len == b.len(),
                start <= i <= len,
                start < i ==> token_scan(b, start as int, ArgScan::Between, start as int)
                    == token_scan(b, i as int, ArgScan::AfterBrackets, start as int),
                i == start ==> bytes[start as int] != ARRAY_TAG || i < len,
            decreases len - i,
        {
            i += 1;
        }
        if i >= len {
            // `[` up to the end: nothing more to read.
            proof {
                assert(start < i);
                assert(before + Seq::<(int, int)>::empty() =~= before);
            }
            return (spans, i);
        }
        let ghost j = i as int;
        if bytes[i] == CLASS_TAG {
            i += 1;
            while i < len && bytes[i] != SEMICOLON
                invariant
                    bytes@ == b,
                    len == b.len(),
                    j < i <= len,
                    token_scan(b, start as int, ArgScan::Between, start as int) == token_scan(
                        b,
                        i as int,
                        ArgScan::InClassName,
                        start as int,
                    ),
                decreases len - i,
            {
                i += 1;
            }
            if i < len {
                i += 1;
            }
        } else {
            i += 1;
        }
        spans.push((start, i));
        proof {
            let (rest, e) = token_scan(b, i as int, ArgScan::Between, i as int);
            assert(token_scan(b, start as int, ArgScan::Between, start as int) == (
                seq![(start as int, i as int)] + rest,
                e,
            ));
            assert(sv(spans@) =~= before.push((start as int, i as int)));
            assert(before + (seq![(start as int, i as int)] + rest) =~= before.push(
                (start as int, i as int),
            ) + rest);
        }
    }
    proof {
        assert(sv(spans@) + Seq::<(int, int)>::empty() =~= sv(spans@));
    }
    (spans, i)
}

fn cut_at(bytes: &[u8], i: usize) -> (r: bool)
    ensures
        r == cut_ok(bytes@, i as int),
{
    i == bytes.len() || (i < bytes.len() && !(0x80 <= bytes[i] && bytes[i] <= 0xbf))
}

/// Whether the descriptor's parameter and return descriptors start and end
/// on character boundaries, as splitting it needs.
pub fn method_descriptor_cuttable(desc: &str) -> (r: bool)
    ensures
        r == method_tokens_cuttable(desc.spec_bytes()),
{
    let bytes = desc.as_bytes();
    if bytes.len() == 0 || bytes[0] != OPEN_PAREN {
        return true;
    }
    let ghost toks = method_tokens(desc.spec_bytes()).0;
    let (spans, end) = method_token_spans(desc);
    let mut k: usize = 0;
    while k < spans.len()
        invariant
            bytes@ == desc.spec_bytes(),
            has_arg_list(desc.spec_bytes()),
            spans@.len() == toks.len(),
            toks == method_tokens(desc.spec_bytes()).0,
            forall|m: int|
                0 <= m < spans@.len() ==> (#[trigger] spans@[m]).0 == toks[m].0 && spans@[m].1 == toks[m].1,
            k <= spans@.len(),
            forall|m: int| 0 <= m < k ==> cut_ok(bytes@, (#[trigger] toks[m]).0) && cut_ok(bytes@, toks[m].1),
        decreases spans@.len() - k,
    {
        let (a, b) = spans[k];
        if !(cut_at(bytes, a) && cut_at(bytes, b)) {
            assert(!(cut_ok(bytes@, toks[k as int].0) && cut_ok(bytes@, toks[k as int].1)));
            return false;
        }
        k = k + 1;
    }
    cut_at(bytes, end)
}

/// Split a method descriptor into its parameter descriptors and its return
/// descriptor: `"(I[JLjava/lang/String;)V"` → `(["I", "[J", "Ljava/lang/String;"], "V")`.
/// Without an argument list the result is `([], "V")`.
pub fn parse_method_descriptor_tokens(desc: &str) -> (res: (Vec<String>, String))
    requires
        method_tokens_cuttable(desc.spec_bytes()),
    ensures
        !has_arg_list(desc.spec_bytes()) ==> res.0@.len() == 0 && res.1@ == "V"@,
        has_arg_list(desc.spec_bytes()) ==> {
            let (toks, e) = method_tokens(desc.spec_bytes());
            &&& res.0@.len() == toks.len()
            &&& forall|k: int|
                0 <= k < toks.len() ==> (#[trigger] res.0@[k])@ == str_bytes_text(
                    desc,
                    toks[k].0,
                    toks[k].1,
                )
            &&& res.1@ == str_bytes_text(desc, e, desc.spec_bytes().len() as int)
        },
{
    let mut params: Vec<String> = Vec::new();
    let bytes = desc.as_bytes();
    if bytes.len() == 0 || bytes[0] != OPEN_PAREN {
        return (params, "V".to_owned());
    }
    let ghost toks = method_tokens(desc.spec_bytes()).0;
    let (spans, end) = method_token_spans(desc);
    let mut k: usize = 0;
    while k < spans.len()
        invariant
            spans@.len() == toks.len(),
            toks == method_tokens(desc.spec_bytes()).0,
            method_tokens_cuttable(desc.spec_bytes()),
            has_arg_list(desc.spec_bytes()),
            forall|m: int|
                0 <= m < spans@.len() ==> (#[trigger] spans@[m]).0 == toks[m].0 && spans@[m].1
                    == toks[m].1,
            forall|m: int|
                0 <= m < spans@.len() ==> (#[trigger] spans@[m]).0 <= spans@[m].1 <= desc.spec_bytes().len(),
            k <= spans@.len(),
            params@.len() == k,
            forall|m: int|
                0 <= m < k ==> (#[trigger] params@[m])@ == str_bytes_text(desc, toks[m].0, toks[m].1),
        decreases spans@.len() - k,
    {
        let (a, b) = spans[k];
        proof {
            assert(cut_ok(desc.spec_bytes(), toks[k as int].0));
        }
        params.push(str_slice(desc, a, b).to_owned());
        k = k + 1;
    }
    proof {
        let (t, e) = method_tokens(desc.spec_bytes());
        assert(cut_ok(desc.spec_bytes(), e));
    }
    let ret = str_slice(desc, end, bytes.len()).to_owned();
    (params, ret)
}

/// Split a method descriptor into the runtime names of its parameter types
/// and of its return type: `"(I[JLjava/lang/String;)V"` →
/// `(["int", "[J", "java/lang/String"], "void")`. Without an argument list
/// the result is `([], "void")`.
pub fn parse_method_descriptor(desc: &str) -> (res: (Vec<String>, String))
    requires
        method_tokens_cuttable(desc.spec_bytes()),
    ensures
        !has_arg_list(desc.spec_bytes()) ==> res.0@.len() == 0 && res.1@ == "void"@,
        has_arg_list(desc.spec_bytes()) ==> {
            let b = desc.spec_bytes();
            let (toks, e) = method_tokens(b);
            &&& res.0@.len() == toks.len()
            &&& forall|k: int|
                0 <= k < toks.len() ==> (#[trigger] res.0@[k])@ == runtime_class_name_of(
                    b.subrange(toks[k].0, toks[k].1),
                )
            &&& res.1@ == runtime_class_name_of(b.subrange(e, b.len() as int))
        },
{
    let mut params: Vec<String> = Vec::new();
    let bytes = desc.as_bytes();
    if bytes.len() == 0 || bytes[0] != OPEN_PAREN {
        return (params, "void".to_owned());
    }
    let ghost toks = method_tokens(desc.spec_bytes()).0;
    let (spans, end) = method_token_spans(desc);
    let mut k: usize = 0;
    while k < spans.len()
        invariant
            spans@.len() == toks.len(),
            toks == method_tokens(desc.spec_bytes()).0,
            method_tokens_cuttable(desc.spec_bytes()),
            has_arg_list(desc.spec_bytes()),
            forall|m: int|
                0 <= m < spans@.len() ==> (#[trigger] spans@[m]).0 == toks[m].0 && spans@[m].1
                    == toks[m].1,
            forall|m: int|
                0 <= m < spans@.len() ==> (#[trigger] spans@[m]).0 <= spans@[m].1 <= desc.spec_bytes().len(),
            k <= spans@.len(),
            params@.len() == k,
            forall|m: int|
                0 <= m < k ==> (#[trigger] params@[m])@ == runtime_class_name_of(
                    desc.spec_bytes().subrange(toks[m].0, toks[m].1),
                ),
        decreases spans@.len() - k,
    {
        let (a, b) = spans[k];
        proof {
            assert(cut_ok(desc.spec_bytes(), toks[k as int].0));
        }
        let token = str_slice(desc, a, b);
        params.push(descriptor_to_runtime_class_name(token));
        k = k + 1;
    }
    proof {
        let (t, e) = method_tokens(desc.spec_bytes());
        assert(cut_ok(desc.spec_bytes(), e));
    }
    let ret = descriptor_to_runtime_class_name(str_slice(desc, end, bytes.len()));
    (params, ret)
}

/// `s` with every `from` character replaced by `to`.
pub open spec fn replace_char(s: Seq<char>, from: char, to: char) -> Seq<char> {
    s.map_values(|c: char| if c == from { to } else { c })
}

/// A copy of `s` with every `from` replaced by `to`.
pub fn replaced(s: &str, from: char, to: char) -> (res: String)
    ensures
        res@ == replace_char(s@, from, to),
{
    let chars = chars_of(s);
    let mut out = String::new();
    let mut i: usize = 0;
    while i < chars.len()
        invariant
            chars@ == s@,
            i <= chars@.len(),
            out@ =~= replace_char(s@.subrange(0, i as int), from, to),
        decreases chars@.len() - i,
    {
        let c = chars[i];
        push_char(&mut out, if c == from { to } else { c });
        i = i + 1;
        proof {
            assert(s@.subrange(0, i as int) =~= s@.subrange(0, i - 1).push(c));
        }
    }
    proof {
        assert(s@.subrange(0, chars@.len() as int) =~= s@);
    }
    out
}

/// The Java display name of an internal name (`java/lang/String` → `java.lang.String`).
pub fn class_display_name(internal_name: &str) -> (res: String)
    ensures
        res@ == replace_char(internal_name@, '/', '.'),
{
    replaced(internal_name, '/', '.')
}

/// The internal name of a runtime name (`java.lang.String` → `java/lang/String`).
pub fn class_internal_name_from_runtime_name(name: &str) -> (res: String)
    ensures
        res@ == replace_char(name@, '.', '/'),
{
    replaced(name, '.', '/')
}

} // verus!





