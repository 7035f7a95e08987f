//! Java strings are sequences of UTF-16 code units.

use vstd::prelude::*;
use crate::text::{chars_of, push_char, str_eq};

verus! {

/// The UTF-16 code units of one character: itself below U+10000, otherwise
/// a surrogate pair.
pub open spec fn utf16_of(c: char) -> Seq<u16> {
    let v = c as u32;
    if v < 0x10000 {
        seq![v as u16]
    } else {
        let w = (v - 0x10000) as int;
        seq![(0xd800 + w / 1024) as u16, (0xdc00 + w % 1024) as u16]
    }
}

/// The UTF-16 encoding of a sequence of characters.
pub open spec fn utf16_text(s: Seq<char>) -> Seq<u16>
    decreases s.len(),
{
    if s.len() == 0 {
        Seq::empty()
    } else {
        utf16_text(s.drop_last()) + utf16_of(s.last())
    }
}

/// Appends the UTF-16 encoding of `s` to `out`.
pub fn push_utf16_str(out: &mut Vec<u16>, s: &str)
    ensures
        final(out)@ == old(out)@ + utf16_text(s@),
{
    let cs = chars_of(s);
    let mut i: usize = 0;
    while i < cs.len()
        invariant
            i <= cs@.len(),
            cs@ == s@,
            out@ == old(out)@ + utf16_text(cs@.take(i as int)),
        decreases cs@.len() - i,
    {
        let c = cs[i];
        let v = c as u32;
        assert(cs@.take(i as int + 1).drop_last() =~= cs@.take(i as int));
        if v < 0x10000 {
            out.push(v as u16);
        } else {
            let w = v - 0x10000;
            out.push((0xd800 + w / 1024) as u16);
            out.push((0xdc00 + w % 1024) as u16);
        }
        assert(out@ =~= old(out)@ + utf16_text(cs@.take(i as int + 1)));
        i = i + 1;
    }
    assert(cs@.take(i as int) =~= s@);
}


// ---------------------------------------------------------------------------
// The text of a `String` built by one of its constructors
// ---------------------------------------------------------------------------

/// The first argument of a `String` constructor, as the interpreter reads
/// it.
pub enum StringInitArg {
    /// No argument, or `null`.
    Missing,
    /// An array, with its elements read as `int`s.
    Array(Vec<i32>),
    /// A string, with its text.
    Text(String),
    /// Any other object.
    Other,
}

pub enum StringInitArgV {
    Missing,
    Array(Seq<i32>),
    Text(Seq<char>),
    Other,
}

impl View for StringInitArg {
    type V = StringInitArgV;

    open spec fn view(&self) -> StringInitArgV {
        match self {
            StringInitArg::Missing => StringInitArgV::Missing,
            StringInitArg::Array(v) => StringInitArgV::Array(v@),
            StringInitArg::Text(t) => StringInitArgV::Text(t@),
            StringInitArg::Other => StringInitArgV::Other,
        }
    }
}

/// Whether `c` is a Unicode scalar value.
pub open spec fn scalar_value(c: u32) -> bool {
    c <= 0x10FFFF && !(0xD800 <= c <= 0xDFFF)
}

/// The character with this code (`char::from_u32`), when there is one.
#[verifier::external_body]
pub(crate) fn char_from_u32(c: u32) -> (r: Option<char>)
    ensures
        r == if scalar_value(c) {
            Some(c as char)
        } else {
            None
        },
{
    char::from_u32(c)
}

/// Each value's low byte as the character with that code (ISO-8859-1).
pub open spec fn latin1(v: Seq<i32>) -> Seq<char> {
    v.map_values(|x: i32| ((x as u8) as char))
}

/// Each value as the character with that code, `?` where there is none.
pub open spec fn code_chars(v: Seq<i32>) -> Seq<char> {
    v.map_values(
        |x: i32|
            if scalar_value(x as u32) {
                (x as u32) as char
            } else {
                '?'
            },
    )
}

/// The `k`-th of the `int` arguments after the first, 0 when it is missing.
pub open spec fn int_arg(ints: Seq<i32>, k: int) -> int {
    if 0 <= k < ints.len() {
        ints[k] as int
    } else {
        0
    }
}

/// `x`, or 0 when it is negative.
pub open spec fn non_negative(x: int) -> int {
    if x < 0 {
        0
    } else {
        x
    }
}

/// The window of `count` bytes from `offset`, cut to the array.
pub open spec fn byte_window(v: Seq<i32>, offset: int, count: int) -> Seq<char> {
    let start = if offset < v.len() {
        offset
    } else {
        v.len() as int
    };
    let end = if offset + count < v.len() {
        offset + count
    } else {
        v.len() as int
    };
    latin1(v.subrange(start, end))
}

/// The text a `String` constructor with descriptor `desc` gives, from its
/// first argument and the `int` arguments after it: characters or bytes
/// of an array (all, or a window of it), a copy of a string, or nothing.
/// Bytes decode as ISO-8859-1 whatever charset is named.
pub open spec fn string_init_text(desc: Seq<char>, first: StringInitArgV, ints: Seq<i32>) -> Seq<char> {
    if desc == "([C)V"@ || desc == "([B)V"@ || desc == "([BLjava/lang/String;)V"@ || desc
        == "([BLjava/nio/charset/Charset;)V"@ {
        match first {
            StringInitArgV::Array(v) => latin1(v),
            _ => Seq::empty(),
        }
    } else if desc == "([CII)V"@ {
        match first {
            StringInitArgV::Array(v) => code_chars(v.subrange(int_arg(ints, 0), int_arg(ints, 0) + int_arg(ints, 1))),
            _ => Seq::empty(),
        }
    } else if desc == "([BII)V"@ || desc == "([BIILjava/lang/String;)V"@ || desc
        == "([BIILjava/nio/charset/Charset;)V"@ {
        match first {
            StringInitArgV::Array(v) => byte_window(v, non_negative(int_arg(ints, 0)), non_negative(int_arg(ints, 1))),
            _ => Seq::empty(),
        }
    } else if desc == "([BIII)V"@ {
        match first {
            StringInitArgV::Array(v) => byte_window(v, non_negative(int_arg(ints, 1)), non_negative(int_arg(ints, 2))),
            _ => Seq::empty(),
        }
    } else if desc == "(Ljava/lang/String;)V"@ {
        match first {
            StringInitArgV::Text(t) => t,
            _ => Seq::empty(),
        }
    } else {
        Seq::empty()
    }
}

/// The window that `String(char[], offset, count)` copies lies in the
/// array.
pub open spec fn string_init_ok(desc: Seq<char>, first: StringInitArgV, ints: Seq<i32>) -> bool {
    desc == "([CII)V"@ ==> match first {
        StringInitArgV::Array(v) => 0 <= int_arg(ints, 0) && 0 <= int_arg(ints, 1) && int_arg(ints, 0) + int_arg(ints, 1)
            <= v.len(),
        _ => true,
    }
}

fn push_latin1(out: &mut String, v: &Vec<i32>, from: usize, to: usize)
    requires
        from <= to <= v@.len(),
    ensures
        final(out)@ == old(out)@ + latin1(v@.subrange(from as int, to as int)),
{
    let mut i: usize = from;
    while i < to
        invariant
            from <= i <= to <= v@.len(),
            out@ == old(out)@ + latin1(v@.subrange(from as int, i as int)),
        decreases to - i,
    {
        let x = v[i];
        let c = (x as u8) as char;
        push_char(out, c);
        assert(latin1(v@.subrange(from as int, i + 1)) =~= latin1(v@.subrange(from as int, i as int)).push(c));
        i = i + 1;
    }
}

fn push_code_chars(out: &mut String, v: &Vec<i32>, from: usize, to: usize)
    requires
        from <= to <= v@.len(),
    ensures
        final(out)@ == old(out)@ + code_chars(v@.subrange(from as int, to as int)),
{
    let mut i: usize = from;
    while i < to
        invariant
            from <= i <= to <= v@.len(),
            out@ == old(out)@ + code_chars(v@.subrange(from as int, i as int)),
        decreases to - i,
    {
        let x = v[i];
        let c = match char_from_u32(x as u32) {
            Some(c) => c,
            None => '?',
        };
        push_char(out, c);
        assert(code_chars(v@.subrange(from as int, i + 1)) =~= code_chars(v@.subrange(from as int, i as int)).push(
            c,
        ));
        i = i + 1;
    }
}

fn int_arg_at(ints: &Vec<i32>, k: usize) -> (r: i32)
    ensures
        r as int == int_arg(ints@, k as int),
{
    if k < ints.len() {
        ints[k]
    } else {
        0
    }
}

fn push_byte_window(out: &mut String, v: &Vec<i32>, offset: i32, count: i32)
    ensures
        final(out)@ == old(out)@ + byte_window(v@, non_negative(offset as int), non_negative(count as int)),
{
    let o: usize = if offset < 0 {
        0
    } else {
        offset as usize
    };
    let c: usize = if count < 0 {
        0
    } else {
        count as usize
    };
    let len = v.len();
    let start = if o < len {
        o
    } else {
        len
    };
    let end = if c < len && o < len - c {
        o + c
    } else {
        len
    };
    push_latin1(out, v, start, end);
}

/// The text of the `String` that the constructor with descriptor
/// `descriptor` makes from its first argument `first` and the `int`
/// arguments `ints` after it.
pub fn string_from_init_args(descriptor: &str, first: &StringInitArg, ints: &Vec<i32>) -> (s: String)
    requires
        string_init_ok(descriptor@, first@, ints@),
    ensures
        s@ == string_init_text(descriptor@, first@, ints@),
{
    let mut out = String::new();
    let all_bytes = str_eq(descriptor, "([C)V") || str_eq(descriptor, "([B)V") || str_eq(
        descriptor,
        "([BLjava/lang/String;)V",
    ) || str_eq(descriptor, "([BLjava/nio/charset/Charset;)V");
    if all_bytes {
        if let StringInitArg::Array(v) = first {
            push_latin1(&mut out, v, 0, v.len());
            assert(v@.subrange(0, v@.len() as int) =~= v@);
        }
    } else if str_eq(descriptor, "([CII)V") {
        if let StringInitArg::Array(v) = first {
            let o = int_arg_at(ints, 0);
            let c = int_arg_at(ints, 1);
            push_code_chars(&mut out, v, o as usize, o as usize + c as usize);
        }
    } else if str_eq(descriptor, "([BII)V") || str_eq(descriptor, "([BIILjava/lang/String;)V") || str_eq(
        descriptor,
        "([BIILjava/nio/charset/Charset;)V",
    ) {
        if let StringInitArg::Array(v) = first {
            push_byte_window(&mut out, v, int_arg_at(ints, 0), int_arg_at(ints, 1));
        }
    } else if str_eq(descriptor, "([BIII)V") {
        if let StringInitArg::Array(v) = first {
            push_byte_window(&mut out, v, int_arg_at(ints, 1), int_arg_at(ints, 2));
        }
    } else if str_eq(descriptor, "(Ljava/lang/String;)V") {
        if let StringInitArg::Text(t) = first {
            out.append(t.as_str());
        }
    }
    assert(out@ =~= string_init_text(descriptor@, first@, ints@));
    out
}

} // verus!
