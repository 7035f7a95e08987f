//! Turning the text of an internal error into the Java exception it stands
//! for: its class name and its detail message.

use vstd::prelude::*;
use crate::text::{chars_of, find_chars, find_from, lemma_find_from_bound, push_char};

verus! {

/// Characters with the Unicode `White_Space` property (what `str::trim`
/// removes).
pub open spec fn is_ws(c: char) -> bool {
    let v = c as u32;
    (0x09 <= v && v <= 0x0d) || v == 0x20 || v == 0x85 || v == 0xa0 || v == 0x1680 || (0x2000 <= v
        && v <= 0x200a) || v == 0x2028 || v == 0x2029 || v == 0x202f || v == 0x205f || v == 0x3000
}

pub open spec fn trim_start(s: Seq<char>) -> Seq<char>
    decreases s.len(),
{
    if s.len() > 0 && is_ws(s[0]) {
        trim_start(s.drop_first())
    } else {
        s
    }
}

pub open spec fn trim_end(s: Seq<char>) -> Seq<char>
    decreases s.len(),
{
    if s.len() > 0 && is_ws(s.last()) {
        trim_end(s.drop_last())
    } else {
        s
    }
}

/// `s` without leading and trailing white space.
pub open spec fn trim_ws(s: Seq<char>) -> Seq<char> {
    trim_end(trim_start(s))
}

/// The part of `s` before the first occurrence of `pat` (all of `s` when
/// there is none).
pub open spec fn before(s: Seq<char>, pat: Seq<char>) -> Seq<char> {
    match find_from(s, pat, 0) {
        Some(i) => s.subrange(0, i as int),
        None => s,
    }
}

pub open spec fn starts_with(s: Seq<char>, p: Seq<char>) -> bool {
    p.len() <= s.len() && s.subrange(0, p.len() as int) == p
}

pub open spec fn contains(s: Seq<char>, p: Seq<char>) -> bool {
    find_from(s, p, 0) is Some
}

/// The class name at the head of an error text: what comes before the first
/// ` | `, trimmed, then before the first `: ` and the first ` at `, trimmed.
pub open spec fn class_head(raw: Seq<char>) -> Seq<char> {
    trim_ws(before(before(trim_ws(before(raw, " | "@)), ": "@), " at "@))
}

/// The exception class an internal error stands for.
pub open spec fn exception_class_text(m: Seq<char>) -> Seq<char> {
    if starts_with(m, "java/"@) || starts_with(m, "javax/"@) {
        class_head(m)
    } else if starts_with(m, "Exception: "@) {
        class_head(m.subrange("Exception: "@.len() as int, m.len() as int))
    } else if starts_with(m, "NullPointerException"@) {
        "java/lang/NullPointerException"@
    } else if starts_with(m, "ClassCastException"@) {
        "java/lang/ClassCastException"@
    } else if contains(m, "ArithmeticException"@) {
        "java/lang/ArithmeticException"@
    } else if contains(m, "StackOverflowError"@) {
        "java/lang/StackOverflowError"@
    } else if starts_with(m, "UnsupportedOperationException"@) {
        "java/lang/UnsupportedOperationException"@
    } else if contains(m, "IndexOutOfBoundsException"@) {
        "java/lang/IndexOutOfBoundsException"@
    } else {
        "java/lang/RuntimeException"@
    }
}

/// The detail message of the exception an internal error stands for: after
/// an `Exception: <class>: ` prefix, the rest; otherwise the whole text.
pub open spec fn exception_message_text(m: Seq<char>) -> Seq<char> {
    if starts_with(m, "Exception: "@) {
        let rest = m.subrange("Exception: "@.len() as int, m.len() as int);
        match find_from(rest, ": "@, 0) {
            Some(i) => rest.subrange(i + 2int, rest.len() as int),
            None => m,
        }
    } else {
        m
    }
}

fn is_ws_char(c: char) -> (r: bool)
    ensures
        r == is_ws(c),
{
    let v = c as u32;
    (0x09 <= v && v <= 0x0d) || v == 0x20 || v == 0x85 || v == 0xa0 || v == 0x1680 || (0x2000 <= v
        && v <= 0x200a) || v == 0x2028 || v == 0x2029 || v == 0x202f || v == 0x205f || v == 0x3000
}

/// The characters `s[lo..hi]`.
pub(crate) fn slice_chars(s: &Vec<char>, lo: usize, hi: usize) -> (r: Vec<char>)
    requires
        lo <= hi <= s@.len(),
    ensures
        r@ == s@.subrange(lo as int, hi as int),
{
    let mut r: Vec<char> = Vec::new();
    let mut i = lo;
    while i < hi
        invariant
            lo <= i <= hi <= s@.len(),
            r@ == s@.subrange(lo as int, i as int),
        decreases hi - i,
    {
        r.push(s[i]);
        assert(s@.subrange(lo as int, i as int + 1) =~= s@.subrange(lo as int, i as int).push(s@[i as int]));
        i = i + 1;
    }
    r
}

/// `s` without leading and trailing white space.
fn trim_chars(s: &Vec<char>) -> (r: Vec<char>)
    ensures
        r@ == trim_ws(s@),
{
    let n = s.len();
    let mut lo: usize = 0;
    assert(s@.subrange(0, n as int) =~= s@);
    while lo < n && is_ws_char(s[lo])
        invariant
            lo <= n == s@.len(),
            trim_start(s@) == trim_start(s@.subrange(lo as int, n as int)),
        decreases n - lo,
    {
        assert(s@.subrange(lo as int, n as int).drop_first() =~= s@.subrange(lo as int + 1, n as int));
        lo = lo + 1;
    }
    let mut hi: usize = n;
    assert(trim_start(s@) == s@.subrange(lo as int, n as int));
    while hi > lo && is_ws_char(s[hi - 1])
        invariant
            lo <= hi <= n == s@.len(),
            trim_start(s@) == s@.subrange(lo as int, n as int),
            trim_ws(s@) == trim_end(s@.subrange(lo as int, hi as int)),
        decreases hi - lo,
    {
        assert(s@.subrange(lo as int, hi as int).drop_last() =~= s@.subrange(lo as int, hi as int - 1));
        hi = hi - 1;
    }
    slice_chars(s, lo, hi)
}

/// `s` up to the first occurrence of `pat`.
pub(crate) fn before_chars(s: &Vec<char>, pat: &Vec<char>) -> (r: Vec<char>)
    ensures
        r@ == before(s@, pat@),
{
    proof {
        lemma_find_from_bound(s@, pat@, 0);
    }
    match find_chars(s, pat, 0) {
        Some(i) => slice_chars(s, 0, i),
        None => {
            assert(s@.subrange(0, s@.len() as int) =~= s@);
            slice_chars(s, 0, s.len())
        },
    }
}

fn starts_with_chars(s: &Vec<char>, p: &Vec<char>) -> (r: bool)
    ensures
        r == starts_with(s@, p@),
{
    if p.len() > s.len() {
        return false;
    }
    let mut i: usize = 0;
    while i < p.len()
        invariant
            p@.len() <= s@.len(),
            i <= p@.len(),
            forall|k: int| 0 <= k < i ==> s@[k] == p@[k],
        decreases p@.len() - i,
    {
        if s[i] != p[i] {
            assert(s@.subrange(0, p@.len() as int)[i as int] != p@[i as int]);
            return false;
        }
        i = i + 1;
    }
    assert(s@.subrange(0, p@.len() as int) =~= p@);
    true
}

pub(crate) fn contains_chars(s: &Vec<char>, p: &Vec<char>) -> (r: bool)
    ensures
        r == contains(s@, p@),
{
    find_chars(s, p, 0).is_some()
}

pub(crate) fn string_of(s: &Vec<char>) -> (r: String)
    ensures
        r@ == s@,
{
    let mut r = String::new();
    let mut i: usize = 0;
    while i < s.len()
        invariant
            i <= s@.len(),
            r@ == s@.subrange(0, i as int),
        decreases s@.len() - i,
    {
        push_char(&mut r, s[i]);
        assert(s@.subrange(0, i as int + 1) =~= s@.subrange(0, i as int).push(s@[i as int]));
        i = i + 1;
    }
    assert(s@.subrange(0, i as int) =~= s@);
    r
}

fn class_head_chars(raw: &Vec<char>) -> (r: Vec<char>)
    ensures
        r@ == class_head(raw@),
{
    let bar = chars_of(" | ");
    let colon = chars_of(": ");
    let at = chars_of(" at ");
    let v1 = before_chars(raw, &bar);
    let v2 = trim_chars(&v1);
    let v3 = before_chars(&v2, &colon);
    let v4 = before_chars(&v3, &at);
    trim_chars(&v4)
}

/// The class name at the head of an error text: what comes before the first
/// ` | `, trimmed, then before the first `: ` and the first ` at `, trimmed.
pub fn normalize_exception_class_head(raw: &str) -> (r: String)
    ensures
        r@ == class_head(raw@),
{
    let v = chars_of(raw);
    string_of(&class_head_chars(&v))
}

/// The exception class an internal error text stands for: a `java/` or
/// `javax/` class named at its head (also after an `Exception: ` prefix),
/// one of a few well-known exceptions named in it, and otherwise
/// `java/lang/RuntimeException`.
pub fn exception_class_from_err_msg(err_msg: &str) -> (r: String)
    ensures
        r@ == exception_class_text(err_msg@),
{
    let m = chars_of(err_msg);
    if starts_with_chars(&m, &chars_of("java/")) || starts_with_chars(&m, &chars_of("javax/")) {
        return string_of(&class_head_chars(&m));
    }
    let prefix = chars_of("Exception: ");
    if starts_with_chars(&m, &prefix) {
        let rest = slice_chars(&m, prefix.len(), m.len());
        return string_of(&class_head_chars(&rest));
    }
    if starts_with_chars(&m, &chars_of("NullPointerException")) {
        return "java/lang/NullPointerException".to_owned();
    }
    if starts_with_chars(&m, &chars_of("ClassCastException")) {
        return "java/lang/ClassCastException".to_owned();
    }
    if contains_chars(&m, &chars_of("ArithmeticException")) {
        return "java/lang/ArithmeticException".to_owned();
    }
    if contains_chars(&m, &chars_of("StackOverflowError")) {
        return "java/lang/StackOverflowError".to_owned();
    }
    if starts_with_chars(&m, &chars_of("UnsupportedOperationException")) {
        return "java/lang/UnsupportedOperationException".to_owned();
    }
    if contains_chars(&m, &chars_of("IndexOutOfBoundsException")) {
        return "java/lang/IndexOutOfBoundsException".to_owned();
    }
    "java/lang/RuntimeException".to_owned()
}

/// The class and detail message of the exception that an internal error
/// text stands for (the parts of a pending exception made from it).
pub fn exception_from_err_msg(err_msg: &str) -> (r: (String, String))
    ensures
        r.0@ == exception_class_text(err_msg@),
        r.1@ == exception_message_text(err_msg@),
{
    let class = exception_class_from_err_msg(err_msg);
    let m = chars_of(err_msg);
    let prefix = chars_of("Exception: ");
    if starts_with_chars(&m, &prefix) {
        let rest = slice_chars(&m, prefix.len(), m.len());
        let sep = chars_of(": ");
        proof {
            lemma_find_from_bound(rest@, sep@, 0);
            reveal_strlit(": ");
        }
        match find_chars(&rest, &sep, 0) {
            Some(i) => {
                let msg = slice_chars(&rest, i + 2, rest.len());
                return (class, string_of(&msg));
            },
            None => {},
        }
    }
    (class, err_msg.to_owned())
}

} // verus!
