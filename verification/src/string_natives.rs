//! The native methods of `java.lang.String` that work on the string's text
//! alone: `toString`, `length`, `charAt`, `isEmpty`, `equals`, `hashCode`,
//! `substring`, `concat`, `contains`, `startsWith`, `endsWith`, `indexOf`,
//! `lastIndexOf`, `trim`, `toLowerCase` and `toUpperCase`. The string is held as Rust text; as in the
//! interpreter, `length`, `indexOf` and `lastIndexOf` count its UTF-8 bytes
//! and the others count characters. Making the result object is
//! the interpreter's.

use vstd::prelude::*;
use vstd::string::StringSliceAdditionalSpecFns;
use crate::text::{chars_of, find_chars, find_from, matches_at, str_eq, push_char};
use crate::java_strings::{char_from_u32, scalar_value};
use vstd::utf8::encode_utf8;

verus! {

/// An argument of a native call, as the interpreter reads it.
pub enum NativeArg {
    Void,
    Int(i32),
    Long(i64),
    /// A `float` or `double`.
    Floating,
    Null,
    /// A `String` object, with its text.
    Str(String),
    /// Any other object.
    Object,
}

pub enum NativeArgV {
    Void,
    Int(i32),
    Long(i64),
    Floating,
    Null,
    Str(Seq<char>),
    Object,
}

impl View for NativeArg {
    type V = NativeArgV;

    open spec fn view(&self) -> NativeArgV {
        match self {
            NativeArg::Void => NativeArgV::Void,
            NativeArg::Int(v) => NativeArgV::Int(*v),
            NativeArg::Long(v) => NativeArgV::Long(*v),
            NativeArg::Floating => NativeArgV::Floating,
            NativeArg::Null => NativeArgV::Null,
            NativeArg::Str(s) => NativeArgV::Str(s@),
            NativeArg::Object => NativeArgV::Object,
        }
    }
}

/// What a native string method gives back: an `int` (a `boolean` as 0 or
/// 1) or the text of a new string.
#[derive(Debug, PartialEq)]
pub enum NativeResult {
    Int(i32),
    Str(String),
}

pub enum NativeResultV {
    Int(i32),
    Str(Seq<char>),
}

impl View for NativeResult {
    type V = NativeResultV;

    open spec fn view(&self) -> NativeResultV {
        match self {
            NativeResult::Int(v) => NativeResultV::Int(*v),
            NativeResult::Str(s) => NativeResultV::Str(s@),
        }
    }
}

/// An argument read as a reference: `null` for `null`, `void` and the
/// integer 0.
pub open spec fn ref_ok(a: NativeArgV) -> bool {
    a is Null || a is Void || a == NativeArgV::Int(0) || a is Str || a is Object
}

/// The text of an argument read as a string: that of a `String`, else
/// nothing.
pub open spec fn arg_text(a: NativeArgV) -> Option<Seq<char>> {
    match a {
        NativeArgV::Str(s) => Some(s),
        _ => None,
    }
}

/// The `int` at position `k`, or `d` when there is no such argument.
pub open spec fn int_or(args: Seq<NativeArgV>, k: int, d: usize) -> usize {
    if k < args.len() {
        args[k]->Int_0 as usize
    } else {
        d
    }
}

/// `String.hashCode` of the characters: `h * 31 + c` over them, wrapping.
pub open spec fn java_hash(s: Seq<char>) -> i32
    decreases s.len(),
{
    if s.len() == 0 {
        0
    } else {
        (java_hash(s.drop_last()) * 31 + (s.last() as u32) as i32) as i32
    }
}

/// Whether `pat` occurs somewhere in `s`.
pub open spec fn occurs(s: Seq<char>, pat: Seq<char>) -> bool {
    find_from(s, pat, 0) is Some
}

/// The arguments the method reads are of the kinds it reads them as.
pub open spec fn string_native_ok(method: Seq<char>, args: Seq<NativeArgV>) -> bool {
    if method == "charAt"@ {
        args.len() > 0 ==> args[0] is Int
    } else if method == "substring"@ {
        &&& args.len() > 0 ==> args[0] is Int
        &&& args.len() > 1 ==> args[1] is Int
    } else if method == "equals"@ || method == "concat"@ || method == "contains"@ || method == "startsWith"@
        || method == "endsWith"@ {
        args.len() > 0 ==> ref_ok(args[0])
    } else if method == "lastIndexOf"@ {
        args.len() > 0 ==> args[0] is Int
    } else {
        true
    }
}

/// The `substring` end lies at or after its start.
pub open spec fn substring_ok(this: &str, args: Seq<NativeArgV>) -> bool {
    int_or(args, 0, 0) <= int_or(args, 1, this.spec_bytes().len() as usize)
}

/// What the native method `method` of the string `this` (`None` for a
/// string object without text) gives for the arguments, or `None` for a
/// method not handled here.
pub open spec fn string_native_spec(method: Seq<char>, this: Option<&str>, args: Seq<NativeArgV>) -> Option<
    NativeResultV,
> {
    let s: Seq<char> = match this {
        Some(t) => t@,
        None => Seq::empty(),
    };
    let other: Seq<char> = if args.len() > 0 {
        match arg_text(args[0]) {
            Some(t) => t,
            None => Seq::empty(),
        }
    } else {
        Seq::empty()
    };
    if method == "toString"@ {
        Some(NativeResultV::Str(s))
    } else if method == "length"@ {
        Some(
            NativeResultV::Int(
                match this {
                    Some(t) => t.spec_bytes().len() as i32,
                    None => 0,
                },
            ),
        )
    } else if method == "charAt"@ {
        let k = int_or(args, 0, 0) as int;
        Some(NativeResultV::Int(if k < s.len() { (s[k] as u32) as i32 } else { 0 }))
    } else if method == "isEmpty"@ {
        Some(NativeResultV::Int(if s.len() == 0 { 1 } else { 0 }))
    } else if method == "equals"@ {
        let eq = this is Some && args.len() > 0 && arg_text(args[0]) is Some && arg_text(args[0]) == Some(s);
        Some(NativeResultV::Int(if eq { 1 } else { 0 }))
    } else if method == "hashCode"@ {
        Some(NativeResultV::Int(java_hash(s)))
    } else if method == "substring"@ {
        let b = int_or(args, 0, 0) as int;
        let e = int_or(
            args,
            1,
            match this {
                Some(t) => t.spec_bytes().len() as usize,
                None => 0,
            },
        ) as int;
        Some(
            NativeResultV::Str(
                if b >= s.len() {
                    Seq::empty()
                } else {
                    s.subrange(b, if e < s.len() { e } else { s.len() as int })
                },
            ),
        )
    } else if method == "concat"@ {
        Some(NativeResultV::Str(s + other))
    } else if method == "contains"@ {
        Some(NativeResultV::Int(if occurs(s, other) { 1 } else { 0 }))
    } else if method == "startsWith"@ {
        Some(NativeResultV::Int(if matches_at(s, other, 0) { 1 } else { 0 }))
    } else if method == "endsWith"@ {
        Some(NativeResultV::Int(if other.len() <= s.len() && matches_at(s, other, s.len() - other.len()) { 1 } else { 0 }))
    } else if method == "indexOf"@ {
        Some(NativeResultV::Int(index_of_spec(s, args)))
    } else if method == "trim"@ {
        Some(NativeResultV::Str(trimmed(s)))
    } else if method == "toLowerCase"@ {
        Some(NativeResultV::Str(lowercase_text(s)))
    } else if method == "toUpperCase"@ {
        Some(NativeResultV::Str(uppercase_text(s)))
    } else if method == "lastIndexOf"@ {
        Some(NativeResultV::Int(byte_position(rfind_bytes(encode_utf8(s), char_bytes(int_or_zero(args)), encode_utf8(s).len() as int))))
    } else {
        None
    }
}

/// A character with the Unicode `White_Space` property, as
/// `char::is_whitespace` documents it.
pub open spec fn white_space(c: char) -> bool {
    let x = c as u32;
    ||| 0x09 <= x <= 0x0d
    ||| x == 0x20 || x == 0x85 || x == 0xa0 || x == 0x1680
    ||| 0x2000 <= x <= 0x200a
    ||| x == 0x2028 || x == 0x2029 || x == 0x202f || x == 0x205f || x == 0x3000
}

/// The first position at or after `i` that holds no white space.
pub open spec fn skip_white(s: Seq<char>, i: int) -> int
    decreases s.len() - i,
{
    if i >= s.len() || i < 0 || !white_space(s[i]) {
        i
    } else {
        skip_white(s, i + 1)
    }
}

/// The end of `s[lo..j]` without its trailing white space.
pub open spec fn drop_white(s: Seq<char>, lo: int, j: int) -> int
    decreases j - lo,
{
    if j <= lo || !white_space(s[j - 1]) {
        j
    } else {
        drop_white(s, lo, j - 1)
    }
}

/// `s` without leading and trailing white space (`str::trim`).
pub open spec fn trimmed(s: Seq<char>) -> Seq<char> {
    let a = skip_white(s, 0);
    s.subrange(a, drop_white(s, a, s.len() as int))
}

/// The lowercase mapping of the characters (`str::to_lowercase`).
pub uninterp spec fn lowercase_text(s: Seq<char>) -> Seq<char>;

/// The uppercase mapping of the characters (`str::to_uppercase`).
pub uninterp spec fn uppercase_text(s: Seq<char>) -> Seq<char>;

/// `str::to_lowercase`: the text with each character replaced by its
/// Unicode lowercase mapping; its result is named, not stated.
#[verifier::external_body]
fn to_lowercase_text(s: &str) -> (r: String)
    ensures
        r@ == lowercase_text(s@),
{
    s.to_lowercase()
}

/// `str::to_uppercase`: the text with each character replaced by its
/// Unicode uppercase mapping; its result is named, not stated.
#[verifier::external_body]
fn to_uppercase_text(s: &str) -> (r: String)
    ensures
        r@ == uppercase_text(s@),
{
    s.to_uppercase()
}

fn is_white(c: char) -> (r: bool)
    ensures
        r == white_space(c),
{
    let x = c as u32;
    (0x09 <= x && x <= 0x0d) || x == 0x20 || x == 0x85 || x == 0xa0 || x == 0x1680 || (0x2000 <= x && x
        <= 0x200a) || x == 0x2028 || x == 0x2029 || x == 0x202f || x == 0x205f || x == 0x3000
}

fn trim_chars(cs: &Vec<char>) -> (r: String)
    ensures
        r@ == trimmed(cs@),
{
    let mut a: usize = 0;
    while a < cs.len() && is_white(cs[a])
        invariant
            a <= cs@.len(),
            skip_white(cs@, 0) == skip_white(cs@, a as int),
        decreases cs@.len() - a,
    {
        a = a + 1;
    }
    let mut b: usize = cs.len();
    while b > a && is_white(cs[b - 1])
        invariant
            a <= b <= cs@.len(),
            skip_white(cs@, 0) == a,
            drop_white(cs@, a as int, cs@.len() as int) == drop_white(cs@, a as int, b as int),
        decreases b - a,
    {
        b = b - 1;
    }
    let mut out = String::new();
    push_all(&mut out, cs, a, b);
    assert(out@ =~= cs@.subrange(a as int, b as int));
    out
}

/// Whether the bytes `pat` occur in `b` at byte `i`.
pub open spec fn bytes_at(b: Seq<u8>, pat: Seq<u8>, i: int) -> bool {
    0 <= i && i + pat.len() <= b.len() && b.subrange(i, i + pat.len()) == pat
}

/// The first byte at or after `i` where `pat` occurs in `b`.
pub open spec fn find_bytes(b: Seq<u8>, pat: Seq<u8>, i: nat) -> Option<nat>
    decreases b.len() + 1 - i,
{
    if i + pat.len() > b.len() {
        None
    } else if bytes_at(b, pat, i as int) {
        Some(i)
    } else {
        find_bytes(b, pat, i + 1)
    }
}

/// The last byte at or before `i` where `pat` occurs in `b`.
pub open spec fn rfind_bytes(b: Seq<u8>, pat: Seq<u8>, i: int) -> Option<nat>
    decreases i + 1,
{
    if i < 0 {
        None
    } else if bytes_at(b, pat, i) {
        Some(i as nat)
    } else {
        rfind_bytes(b, pat, i - 1)
    }
}

/// A found byte position as an `int`, -1 for none.
pub open spec fn byte_position(p: Option<nat>) -> i32 {
    match p {
        Some(i) => i as i32,
        None => -1i32,
    }
}

/// The UTF-8 bytes of the character with code `ch`, `'\0'` for a code
/// that names none.
pub open spec fn char_bytes(ch: i32) -> Seq<u8> {
    encode_utf8(seq![if scalar_value(ch as u32) { (ch as u32) as char } else { '\0' }])
}

pub open spec fn int_or_zero(args: Seq<NativeArgV>) -> i32 {
    if args.len() > 0 {
        args[0]->Int_0
    } else {
        0
    }
}

/// `indexOf`: the UTF-8 byte position of the first occurrence of a string
/// argument (the empty text for an object that is no string) or of the
/// character with an `int` code; -1 when there is none or for any other
/// argument.
pub open spec fn index_of_spec(s: Seq<char>, args: Seq<NativeArgV>) -> i32 {
    if args.len() == 0 {
        -1i32
    } else {
        match args[0] {
            NativeArgV::Str(t) => byte_position(find_bytes(encode_utf8(s), encode_utf8(t), 0)),
            NativeArgV::Object => byte_position(find_bytes(encode_utf8(s), Seq::empty(), 0)),
            NativeArgV::Int(ch) => byte_position(find_bytes(encode_utf8(s), char_bytes(ch), 0)),
            _ => -1i32,
        }
    }
}

fn arg_str(args: &Vec<NativeArg>) -> (t: Vec<char>)
    ensures
        t@ == (if args@.len() > 0 {
            match arg_text(args@[0]@) {
                Some(x) => x,
                None => Seq::empty(),
            }
        } else {
            Seq::empty()
        }),
{
    if args.len() > 0 {
        match &args[0] {
            NativeArg::Str(s) => chars_of(s.as_str()),
            _ => Vec::new(),
        }
    } else {
        Vec::new()
    }
}

fn int_arg_or(args: &Vec<NativeArg>, k: usize, d: usize) -> (r: usize)
    requires
        k < args@.len() ==> args@[k as int] is Int,
    ensures
        r == int_or(args@.map_values(|a: NativeArg| a@), k as int, d),
{
    if k < args.len() {
        match &args[k] {
            NativeArg::Int(v) => *v as usize,
            _ => vstd::pervasive::unreached(),
        }
    } else {
        d
    }
}

fn hash_chars(s: &Vec<char>) -> (h: i32)
    ensures
        h == java_hash(s@),
{
    let mut h: i32 = 0;
    let mut i: usize = 0;
    while i < s.len()
        invariant
            i <= s@.len(),
            h == java_hash(s@.take(i as int)),
        decreases s@.len() - i,
    {
        assert(s@.take(i + 1).drop_last() =~= s@.take(i as int));
        h = (h as i64 * 31 + (s[i] as u32) as i32 as i64) as i32;
        i = i + 1;
    }
    assert(s@.take(i as int) =~= s@);
    h
}

fn chars_match_at(s: &Vec<char>, pat: &Vec<char>, at: usize) -> (r: bool)
    requires
        at <= s@.len(),
    ensures
        r == matches_at(s@, pat@, at as int),
{
    let n = s.len();
    if pat.len() > n - at {
        return false;
    }
    let mut k: usize = 0;
    while k < pat.len()
        invariant
            n == s@.len(),
            at + pat@.len() <= n,
            k <= pat@.len(),
            forall|q: int| 0 <= q < k ==> s@[at + q] == pat@[q],
        decreases pat@.len() - k,
    {
        let i = at + k;
        if s[i] != pat[k] {
            assert(s@.subrange(at as int, at + pat@.len())[k as int] != pat@[k as int]);
            return false;
        }
        k = k + 1;
    }
    assert(s@.subrange(at as int, at + pat@.len()) =~= pat@);
    true
}

fn push_all(out: &mut String, cs: &Vec<char>, from: usize, to: usize)
    requires
        from <= to <= cs@.len(),
    ensures
        final(out)@ == old(out)@ + cs@.subrange(from as int, to as int),
{
    let mut i = from;
    while i < to
        invariant
            from <= i <= to <= cs@.len(),
            out@ == old(out)@ + cs@.subrange(from as int, i as int),
        decreases to - i,
    {
        crate::text::push_char(out, cs[i]);
        assert(cs@.subrange(from as int, i + 1) =~= cs@.subrange(from as int, i as int).push(cs@[i as int]));
        i = i + 1;
    }
}

/// Run the native method `method` of the string `this` with `args`, as
/// `string_native_spec` says; `None` for a method not handled here.
pub fn string_native(method: &str, this: Option<&str>, args: &Vec<NativeArg>) -> (r: Option<NativeResult>)
    requires
        string_native_ok(method@, args@.map_values(|a: NativeArg| a@)),
        method@ == "substring"@ ==> substring_ok(
            match this {
                Some(t) => t,
                None => "",
            },
            args@.map_values(|a: NativeArg| a@),
        ),
    ensures
        match string_native_spec(method@, this, args@.map_values(|a: NativeArg| a@)) {
            Some(v) => r matches Some(x) && x@ == v,
            None => r is None,
        },
{
    let ghost av = args@.map_values(|a: NativeArg| a@);
    let text: &str = match this {
        Some(t) => t,
        None => "",
    };
    proof {
        reveal_strlit("");
    }
    let s = chars_of(text);
    let other = arg_str(args);
    proof {
        if av.len() > 0 {
            assert(av[0] == args@[0]@);
        }
        assert(s@ == (match this {
            Some(t) => t@,
            None => Seq::<char>::empty(),
        }));
    }
    if str_eq(method, "toString") {
        let mut out = String::new();
        out.append(text);
        Some(NativeResult::Str(out))
    } else if str_eq(method, "length") {
        let n = match this {
            Some(t) => {
                let b = t.as_bytes();
                assert(b@ == t.spec_bytes());
                b.len() as i32
            },
            None => 0,
        };
        Some(NativeResult::Int(n))
    } else if str_eq(method, "charAt") {
        let k = int_arg_or(args, 0, 0);
        let c = if k < s.len() {
            (s[k] as u32) as i32
        } else {
            0
        };
        Some(NativeResult::Int(c))
    } else if str_eq(method, "isEmpty") {
        Some(NativeResult::Int(if s.len() == 0 { 1 } else { 0 }))
    } else if str_eq(method, "equals") {
        let eq = match (this, args.len() > 0) {
            (Some(t), true) => match &args[0] {
                NativeArg::Str(o) => str_eq(o.as_str(), t),
                _ => false,
            },
            _ => false,
        };
        Some(NativeResult::Int(if eq { 1 } else { 0 }))
    } else if str_eq(method, "hashCode") {
        Some(NativeResult::Int(hash_chars(&s)))
    } else if str_eq(method, "substring") {
        let b = int_arg_or(args, 0, 0);
        let len_bytes = match this {
            Some(t) => t.as_bytes().len(),
            None => 0,
        };
        let e = int_arg_or(args, 1, len_bytes);
        let mut out = String::new();
        if b < s.len() {
            let end = if e < s.len() {
                e
            } else {
                s.len()
            };
            push_all(&mut out, &s, b, end);
        }
        Some(NativeResult::Str(out))
    } else if str_eq(method, "concat") {
        let mut out = String::new();
        out.append(text);
        push_all(&mut out, &other, 0, other.len());
        assert(other@.subrange(0, other@.len() as int) =~= other@);
        Some(NativeResult::Str(out))
    } else if str_eq(method, "contains") {
        let found = find_chars(&s, &other, 0).is_some();
        Some(NativeResult::Int(if found { 1 } else { 0 }))
    } else if str_eq(method, "startsWith") {
        Some(NativeResult::Int(if chars_match_at(&s, &other, 0) { 1 } else { 0 }))
    } else if str_eq(method, "endsWith") {
        let m = if other.len() <= s.len() {
            chars_match_at(&s, &other, s.len() - other.len())
        } else {
            false
        };
        Some(NativeResult::Int(if m { 1 } else { 0 }))
    } else if str_eq(method, "indexOf") {
        Some(NativeResult::Int(index_of(text, args)))
    } else if str_eq(method, "trim") {
        Some(NativeResult::Str(trim_chars(&s)))
    } else if str_eq(method, "toLowerCase") {
        Some(NativeResult::Str(to_lowercase_text(text)))
    } else if str_eq(method, "toUpperCase") {
        Some(NativeResult::Str(to_uppercase_text(text)))
    } else if str_eq(method, "lastIndexOf") {
        let ch: i32 = if args.len() > 0 {
            match &args[0] {
                NativeArg::Int(v) => *v,
                _ => 0,
            }
        } else {
            0
        };
        let b = text.as_bytes();
        let pat_text = char_utf8(ch);
        let pat = pat_text.as_str().as_bytes();
        let p = if pat.len() <= b.len() {
            rfind_at(b, pat, b.len() - pat.len())
        } else {
            None
        };
        proof {
            if pat@.len() > b@.len() {
                lemma_rfind_past_end(b@, pat@, b@.len() as int);
            } else {
                lemma_rfind_from_last(b@, pat@, b@.len() as int);
            }
        }
        Some(NativeResult::Int(position(p)))
    } else {
        None
    }
}

fn position(p: Option<usize>) -> (r: i32)
    ensures
        r == byte_position(match p {
            Some(i) => Some(i as nat),
            None => None,
        }),
{
    match p {
        Some(i) => i as i32,
        None => -1,
    }
}

/// The UTF-8 text of the character with code `ch` (`'\0'` for none).
fn char_utf8(ch: i32) -> (t: String)
    ensures
        encode_utf8(t@) == char_bytes(ch),
{
    let c = match char_from_u32(ch as u32) {
        Some(c) => c,
        None => '\0',
    };
    let mut t = String::new();
    push_char(&mut t, c);
    assert(t@ =~= seq![if scalar_value(ch as u32) { (ch as u32) as char } else { '\0' }]);
    t
}

fn bytes_match(b: &[u8], pat: &[u8], i: usize) -> (r: bool)
    requires
        i + pat@.len() <= b.len(),
    ensures
        r == bytes_at(b@, pat@, i as int),
{
    let mut k: usize = 0;
    while k < pat.len()
        invariant
            i + pat@.len() <= b.len(),
            k <= pat@.len(),
            forall|q: int| 0 <= q < k ==> b@[i + q] == pat@[q],
        decreases pat@.len() - k,
    {
        if b[i + k] != pat[k] {
            assert(b@.subrange(i as int, i + pat@.len())[k as int] != pat@[k as int]);
            return false;
        }
        k = k + 1;
    }
    assert(b@.subrange(i as int, i + pat@.len()) =~= pat@);
    true
}

/// The first byte at or after `from` where `pat` occurs in `b`.
fn find_at(b: &[u8], pat: &[u8], from: usize) -> (r: Option<usize>)
    ensures
        match r {
            Some(j) => find_bytes(b@, pat@, from as nat) == Some(j as nat),
            None => find_bytes(b@, pat@, from as nat) is None,
        },
    decreases b@.len() + 1 - from,
{
    if from > b.len() || pat.len() > b.len() - from {
        return None;
    }
    if pat.len() == 0 {
        assert(b@.subrange(from as int, from as int) =~= pat@);
        return Some(from);
    }
    if bytes_match(b, pat, from) {
        Some(from)
    } else {
        find_at(b, pat, from + 1)
    }
}

/// The last byte at or before `from` where `pat` occurs in `b`.
fn rfind_at(b: &[u8], pat: &[u8], from: usize) -> (r: Option<usize>)
    requires
        from + pat@.len() <= b@.len(),
    ensures
        match r {
            Some(j) => rfind_bytes(b@, pat@, from as int) == Some(j as nat),
            None => rfind_bytes(b@, pat@, from as int) is None,
        },
    decreases from,
{
    if bytes_match(b, pat, from) {
        Some(from)
    } else if from == 0 {
        assert(rfind_bytes(b@, pat@, -1) is None);
        None
    } else {
        rfind_at(b, pat, from - 1)
    }
}

proof fn lemma_rfind_past_end(b: Seq<u8>, pat: Seq<u8>, i: int)
    requires
        pat.len() > b.len(),
    ensures
        rfind_bytes(b, pat, i) is None,
    decreases i + 1,
{
    if i >= 0 {
        lemma_rfind_past_end(b, pat, i - 1);
    }
}

proof fn lemma_rfind_from_last(b: Seq<u8>, pat: Seq<u8>, i: int)
    requires
        pat.len() <= b.len(),
        b.len() - pat.len() <= i,
    ensures
        rfind_bytes(b, pat, i) == rfind_bytes(b, pat, b.len() - pat.len()),
    decreases i + 1,
{
    if i > b.len() - pat.len() {
        assert(!bytes_at(b, pat, i));
        lemma_rfind_from_last(b, pat, i - 1);
    }
}

fn index_of(text: &str, args: &Vec<NativeArg>) -> (r: i32)
    ensures
        r == index_of_spec(text@, args@.map_values(|a: NativeArg| a@)),
{
    let b = text.as_bytes();
    if args.len() == 0 {
        return -1;
    }
    let ghost av = args@.map_values(|a: NativeArg| a@);
    assert(av[0] == args@[0]@);
    let found = match &args[0] {
        NativeArg::Str(t) => find_at(b, t.as_str().as_bytes(), 0),
        NativeArg::Object => {
            let empty = String::new();
            find_at(b, empty.as_str().as_bytes(), 0)
        },
        NativeArg::Int(ch) => {
            let pat = char_utf8(*ch);
            find_at(b, pat.as_str().as_bytes(), 0)
        },
        _ => {
            return -1;
        },
    };
    position(found)
}

} // verus!
