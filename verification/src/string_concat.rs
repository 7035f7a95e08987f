//! String concatenation by a `StringConcatFactory` recipe: each `\u{1}`
//! of the recipe takes the next argument, each `\u{2}` the next constant,
//! and every other character stands for itself. The result is a Java
//! string, as UTF-16 code units.

use vstd::prelude::*;
use crate::bytecode::Value;
use crate::class_file::{ConstantPool, ConstantPoolEntry};
use crate::class_spec::CpEntry;
use crate::heap::{Heap, ObjectV, Payload, PayloadV};
use crate::java_strings::{char_from_u32, push_utf16_str, scalar_value, utf16_of, utf16_text};
use crate::text::{chars_of, int_text, push_char, push_int_text};

verus! {

/// The argument kind at `i`, or a blank past the end of the kinds.
pub open spec fn kind_at(kinds: Seq<char>, i: int) -> char {
    if 0 <= i < kinds.len() {
        kinds[i]
    } else {
        ' '
    }
}

/// The text one argument adds: a `boolean` as `true`/`false`, a `char` as
/// its code unit, other integers in decimal, a string as its text and
/// `null` as `null`; a value of no kind adds nothing. `None` for what
/// needs more than the heap shows: a floating-point number, or an object
/// that is no string (its `toString()` is a call).
pub open spec fn arg_text(h: Seq<ObjectV>, kind: char, v: Value) -> Option<Seq<u16>> {
    match v {
        Value::Int(i) => if kind == 'Z' {
            Some(utf16_text(if i != 0 { "true"@ } else { "false"@ }))
        } else if kind == 'C' {
            Some(seq![i as u16])
        } else {
            Some(utf16_text(int_text(i as int)))
        },
        Value::Long(l) => Some(utf16_text(int_text(l as int))),
        Value::Float(_) | Value::Double(_) => None,
        Value::Ref(None) => Some(utf16_text("null"@)),
        Value::Ref(Some(r)) => if r < h.len() {
            match h[r as int].payload {
                PayloadV::JavaString(t) => Some(utf16_text(t)),
                _ => None,
            }
        } else {
            None
        },
        _ => Some(Seq::empty()),
    }
}

pub open spec fn prepend(p: Seq<u16>, o: Option<Seq<u16>>) -> Option<Seq<u16>> {
    match o {
        Some(q) => Some(p + q),
        None => None,
    }
}

/// The concatenation of the rest of a recipe, with `ai` arguments and `ci`
/// constants already taken; a missing argument or constant adds nothing.
pub open spec fn concat_from(
    h: Seq<ObjectV>,
    kinds: Seq<char>,
    args: Seq<Value>,
    consts: Seq<Seq<char>>,
    recipe: Seq<char>,
    ai: int,
    ci: int,
) -> Option<Seq<u16>>
    decreases recipe.len(),
{
    if recipe.len() == 0 {
        Some(Seq::empty())
    } else {
        let ch = recipe[0];
        let rest = recipe.drop_first();
        if ch == '\u{1}' {
            let piece = if 0 <= ai < args.len() {
                arg_text(h, kind_at(kinds, ai), args[ai])
            } else {
                Some(Seq::empty())
            };
            match piece {
                Some(p) => prepend(p, concat_from(h, kinds, args, consts, rest, ai + 1, ci)),
                None => None,
            }
        } else if ch == '\u{2}' {
            let piece = if 0 <= ci < consts.len() {
                utf16_text(consts[ci])
            } else {
                Seq::empty()
            };
            prepend(piece, concat_from(h, kinds, args, consts, rest, ai, ci + 1))
        } else {
            prepend(utf16_of(ch), concat_from(h, kinds, args, consts, rest, ai, ci))
        }
    }
}

/// The text of `recipe` with its arguments (of kinds `kinds`, the
/// parameter kinds of the call site's descriptor) and constants filled in.
pub open spec fn concat_spec(
    h: Seq<ObjectV>,
    kinds: Seq<char>,
    args: Seq<Value>,
    consts: Seq<Seq<char>>,
    recipe: Seq<char>,
) -> Option<Seq<u16>> {
    concat_from(h, kinds, args, consts, recipe, 0, 0)
}

fn push_text(out: &mut Vec<u16>, s: &str)
    ensures
        final(out)@ == old(out)@ + utf16_text(s@),
{
    push_utf16_str(out, s);
}

fn push_char_units(out: &mut Vec<u16>, c: char)
    ensures
        final(out)@ == old(out)@ + utf16_of(c),
{
    let mut s = String::new();
    proof {
        reveal_strlit("");
    }
    push_char(&mut s, c);
    assert(s@ =~= seq![c]);
    assert(utf16_text(s@) =~= utf16_of(c)) by {
        assert(s@.drop_last() =~= Seq::<char>::empty());
        assert(utf16_text(s@.drop_last()) =~= Seq::<u16>::empty());
        assert(s@.last() == c);
    }
    push_utf16_str(out, s.as_str());
}

/// Appends the text of one argument, as `arg_text` says; `false` (with
/// nothing appended) where it gives `None`.
fn push_arg(out: &mut Vec<u16>, heap: &Heap, kind: char, v: Value) -> (ok: bool)
    ensures
        match arg_text(heap@, kind, v) {
            Some(p) => ok && final(out)@ == old(out)@ + p,
            None => !ok && final(out)@ == old(out)@,
        },
{
    match v {
        Value::Int(i) => {
            if kind == 'Z' {
                if i != 0 {
                    push_text(out, "true");
                } else {
                    push_text(out, "false");
                }
            } else if kind == 'C' {
                out.push(i as u16);
            } else {
                let mut s = String::new();
                proof {
                    reveal_strlit("");
                }
                push_int_text(&mut s, i as i64);
                assert(s@ =~= int_text(i as int));
                push_text(out, s.as_str());
            }
            true
        },
        Value::Long(l) => {
            let mut s = String::new();
            proof {
                reveal_strlit("");
            }
            push_int_text(&mut s, l);
            assert(s@ =~= int_text(l as int));
            push_text(out, s.as_str());
            true
        },
        Value::Float(_) | Value::Double(_) => false,
        Value::Ref(None) => {
            push_text(out, "null");
            true
        },
        Value::Ref(Some(r)) => {
            if r >= heap.objects.len() as u64 {
                return false;
            }
            let o = &heap.objects[r as usize];
            assert(o@ == heap@[r as int]);
            match &o.payload {
                Payload::JavaString(t) => {
                    push_text(out, t.as_str());
                    true
                },
                _ => false,
            }
        },
        _ => {
            assert(old(out)@ + Seq::<u16>::empty() =~= old(out)@);
            true
        },
    }
}

/// The string a `StringConcatFactory` call site makes of `recipe` with
/// these arguments (of the parameter kinds `kinds`) and constant texts,
/// as UTF-16 code units, as `concat_spec` says: `None` when an argument
/// is a floating-point number or an object that is no string.
pub fn string_concat(
    heap: &Heap,
    recipe: &str,
    kinds: &Vec<char>,
    args: &Vec<Value>,
    consts: &Vec<String>,
) -> (r: Option<Vec<u16>>)
    ensures
        match concat_spec(heap@, kinds@, args@, consts@.map_values(|s: String| s@), recipe@) {
            Some(t) => r matches Some(v) && v@ == t,
            None => r is None,
        },
{
    let ghost cv = consts@.map_values(|s: String| s@);
    let rs = chars_of(recipe);
    let mut out: Vec<u16> = Vec::new();
    let mut i: usize = 0;
    let mut ai: usize = 0;
    let mut ci: usize = 0;
    proof {
        assert(rs@.skip(0) =~= rs@);
        match concat_spec(heap@, kinds@, args@, cv, recipe@) {
            Some(q) => {
                assert(out@ + q =~= q);
            },
            None => {},
        }
    }
    while i < rs.len()
        invariant
            i <= rs@.len(),
            ai <= i,
            ci <= i,
            rs@ == recipe@,
            cv == consts@.map_values(|s: String| s@),
            concat_spec(heap@, kinds@, args@, cv, recipe@) == prepend(
                out@,
                concat_from(heap@, kinds@, args@, cv, rs@.skip(i as int), ai as int, ci as int),
            ),
        decreases rs@.len() - i,
    {
        let ghost rest = rs@.skip(i as int);
        let ghost o = out@;
        assert(rest[0] == rs@[i as int]);
        assert(rest.drop_first() =~= rs@.skip(i as int + 1));
        let ch = rs[i];
        if ch == '\u{1}' {
            if ai < args.len() {
                let kind = if ai < kinds.len() {
                    kinds[ai]
                } else {
                    ' '
                };
                let ok = push_arg(&mut out, heap, kind, args[ai]);
                if !ok {
                    return None;
                }
            } else {
                assert(out@ =~= o + Seq::<u16>::empty());
            }
            ai = ai + 1;
        } else if ch == '\u{2}' {
            if ci < consts.len() {
                push_text(&mut out, consts[ci].as_str());
            } else {
                assert(out@ =~= o + Seq::<u16>::empty());
            }
            ci = ci + 1;
        } else {
            push_char_units(&mut out, ch);
        }
        proof {
            let tail = concat_from(heap@, kinds@, args@, cv, rs@.skip(i as int + 1), ai as int, ci as int);
            match tail {
                Some(q) => {
                    assert(o + (out@.subrange(o.len() as int, out@.len() as int) + q) =~= out@ + q);
                },
                None => {},
            }
        }
        i = i + 1;
    }
    assert(rs@.skip(i as int) =~= Seq::<char>::empty());
    assert(out@ + Seq::<u16>::empty() =~= out@);
    Some(out)
}

/// A recipe of `n` arguments and nothing else.
pub open spec fn plain_recipe(n: nat) -> Seq<char> {
    Seq::new(n, |i: int| '\u{1}')
}

/// The recipe of a call site from its bootstrap arguments: the text of the
/// first one (a `String` constant's text, or a `Utf8` entry), and `n`
/// argument marks when there is none or it is of another kind. `None` when
/// an index it reads is past the constant pool (the interpreter stops
/// there).
pub open spec fn recipe_of(cp: Seq<CpEntry>, bargs: Seq<u16>, n: nat) -> Option<Seq<char>> {
    if bargs.len() == 0 {
        Some(plain_recipe(n))
    } else if bargs[0] as int >= cp.len() {
        None
    } else {
        match cp[bargs[0] as int] {
            CpEntry::String { string_index } => if string_index as int >= cp.len() {
                None
            } else {
                match cp[string_index as int] {
                    CpEntry::Utf8(s) => Some(s),
                    _ => Some(plain_recipe(n)),
                }
            },
            CpEntry::Utf8(s) => Some(s),
            _ => Some(plain_recipe(n)),
        }
    }
}

fn plain_recipe_text(n: usize) -> (r: String)
    ensures
        r@ == plain_recipe(n as nat),
{
    let mut r = String::new();
    proof {
        reveal_strlit("");
    }
    let mut i: usize = 0;
    while i < n
        invariant
            i <= n,
            r@ =~= plain_recipe(i as nat),
        decreases n - i,
    {
        push_char(&mut r, '\u{1}');
        i = i + 1;
    }
    r
}

fn owned(s: &str) -> (r: String)
    ensures
        r@ == s@,
{
    let mut r = String::new();
    r.append(s);
    r
}

/// The recipe of a call site with these bootstrap arguments and `n`
/// arguments, as `recipe_of` says.
pub fn concat_recipe(pool: &ConstantPool, bargs: &Vec<u16>, n: usize) -> (r: Option<String>)
    ensures
        match recipe_of(pool@, bargs@, n as nat) {
            Some(t) => r matches Some(x) && x@ == t,
            None => r is None,
        },
{
    if bargs.len() == 0 {
        return Some(plain_recipe_text(n));
    }
    match pool.entry(bargs[0]) {
        None => None,
        Some(ConstantPoolEntry::String { string_index }) => match pool.entry(*string_index) {
            None => None,
            Some(ConstantPoolEntry::Utf8(s)) => Some(owned(s.as_str())),
            Some(_) => Some(plain_recipe_text(n)),
        },
        Some(ConstantPoolEntry::Utf8(s)) => Some(owned(s.as_str())),
        Some(_) => Some(plain_recipe_text(n)),
    }
}

/// A recipe constant as the concatenation reads it.
pub enum ConstantText {
    /// The text it adds.
    Text(String),
    /// A floating-point number, method handle or method type: its text is
    /// made by what this crate leaves to the caller.
    Elsewhere,
    /// The index is past the constant pool.
    Invalid(u16),
    /// An entry of another kind.
    Unsupported,
}

pub enum ConstantTextV {
    Text(Seq<char>),
    Elsewhere,
    Invalid(u16),
    Unsupported,
}

impl View for ConstantText {
    type V = ConstantTextV;

    open spec fn view(&self) -> ConstantTextV {
        match self {
            ConstantText::Text(t) => ConstantTextV::Text(t@),
            ConstantText::Elsewhere => ConstantTextV::Elsewhere,
            ConstantText::Invalid(i) => ConstantTextV::Invalid(*i),
            ConstantText::Unsupported => ConstantTextV::Unsupported,
        }
    }
}

/// The text of the `Utf8` entry at `i`, or nothing.
pub open spec fn utf8_or_nothing(cp: Seq<CpEntry>, i: u16) -> Seq<char> {
    if (i as int) < cp.len() {
        match cp[i as int] {
            CpEntry::Utf8(s) => s,
            _ => Seq::empty(),
        }
    } else {
        Seq::empty()
    }
}

/// What the constant at `idx` adds to a concatenation: a string's or a
/// class's name text (nothing when it does not lead to a `Utf8`), an
/// integer in decimal, or a `Utf8` entry's text.
pub open spec fn constant_text(cp: Seq<CpEntry>, idx: u16) -> ConstantTextV {
    if idx as int >= cp.len() {
        ConstantTextV::Invalid(idx)
    } else {
        match cp[idx as int] {
            CpEntry::String { string_index } => ConstantTextV::Text(utf8_or_nothing(cp, string_index)),
            CpEntry::Class { name_index } => ConstantTextV::Text(utf8_or_nothing(cp, name_index)),
            CpEntry::Integer(v) => ConstantTextV::Text(int_text(v as int)),
            CpEntry::Long(v) => ConstantTextV::Text(int_text(v as int)),
            CpEntry::Utf8(s) => ConstantTextV::Text(s),
            CpEntry::Float(_) | CpEntry::Double(_) | CpEntry::MethodHandle { .. } | CpEntry::MethodType { .. } => ConstantTextV::Elsewhere,
            _ => ConstantTextV::Unsupported,
        }
    }
}

fn utf8_text_at(pool: &ConstantPool, i: u16) -> (r: String)
    ensures
        r@ == utf8_or_nothing(pool@, i),
{
    match pool.entry(i) {
        Some(ConstantPoolEntry::Utf8(s)) => owned(s.as_str()),
        _ => {
            let r = String::new();
            proof {
                reveal_strlit("");
            }
            r
        },
    }
}

/// The constant at `idx` as a recipe constant, as `constant_text` says.
pub fn concat_constant(pool: &ConstantPool, idx: u16) -> (r: ConstantText)
    ensures
        r@ == constant_text(pool@, idx),
{
    match pool.entry(idx) {
        None => ConstantText::Invalid(idx),
        Some(ConstantPoolEntry::String { string_index }) => ConstantText::Text(utf8_text_at(pool, *string_index)),
        Some(ConstantPoolEntry::Class { name_index }) => ConstantText::Text(utf8_text_at(pool, *name_index)),
        Some(ConstantPoolEntry::Integer(v)) => {
            let mut s = String::new();
            proof {
                reveal_strlit("");
            }
            push_int_text(&mut s, *v as i64);
            assert(s@ =~= int_text(*v as int));
            ConstantText::Text(s)
        },
        Some(ConstantPoolEntry::Long(v)) => {
            let mut s = String::new();
            proof {
                reveal_strlit("");
            }
            push_int_text(&mut s, *v);
            assert(s@ =~= int_text(*v as int));
            ConstantText::Text(s)
        },
        Some(ConstantPoolEntry::Utf8(s)) => ConstantText::Text(owned(s.as_str())),
        Some(ConstantPoolEntry::Float(_)) | Some(ConstantPoolEntry::Double(_)) | Some(
            ConstantPoolEntry::MethodHandle { .. },
        ) | Some(ConstantPoolEntry::MethodType { .. }) => ConstantText::Elsewhere,
        Some(_) => ConstantText::Unsupported,
    }
}

/// The texts of the recipe constants (the bootstrap arguments after the
/// recipe), or `None` when one of them is not a text this crate renders.
pub open spec fn constant_texts(cp: Seq<CpEntry>, idxs: Seq<u16>) -> Option<Seq<Seq<char>>>
    decreases idxs.len(),
{
    if idxs.len() == 0 {
        Some(Seq::empty())
    } else {
        match (constant_texts(cp, idxs.drop_last()), constant_text(cp, idxs.last())) {
            (Some(ts), ConstantTextV::Text(t)) => Some(ts.push(t)),
            _ => None,
        }
    }
}

/// The constants after the recipe among the bootstrap arguments.
pub open spec fn recipe_constants(bargs: Seq<u16>) -> Seq<u16> {
    if bargs.len() == 0 {
        Seq::empty()
    } else {
        bargs.drop_first()
    }
}

proof fn lemma_texts_none(cp: Seq<CpEntry>, idxs: Seq<u16>, i: int)
    requires
        0 <= i < idxs.len(),
        !(constant_text(cp, idxs[i]) is Text),
    ensures
        constant_texts(cp, idxs) is None,
    decreases idxs.len(),
{
    if i < idxs.len() - 1 {
        lemma_texts_none(cp, idxs.drop_last(), i);
    }
}

/// The texts of the recipe constants of these bootstrap arguments, as
/// `constant_texts` of `recipe_constants` says.
pub fn concat_constant_texts(pool: &ConstantPool, bargs: &Vec<u16>) -> (r: Option<Vec<String>>)
    ensures
        match constant_texts(pool@, recipe_constants(bargs@)) {
            Some(ts) => r matches Some(v) && v@.map_values(|s: String| s@) == ts,
            None => r is None,
        },
{
    let ghost idxs = recipe_constants(bargs@);
    let mut out: Vec<String> = Vec::new();
    if bargs.len() == 0 {
        assert(out@.map_values(|s: String| s@) =~= Seq::<Seq<char>>::empty());
        return Some(out);
    }
    let mut i: usize = 1;
    assert(idxs.take(0) =~= Seq::<u16>::empty());
    while i < bargs.len()
        invariant
            1 <= i <= bargs@.len(),
            idxs == bargs@.drop_first(),
            constant_texts(pool@, idxs.take(i - 1)) == Some(out@.map_values(|s: String| s@)),
        decreases bargs@.len() - i,
    {
        assert(idxs.take(i as int).drop_last() =~= idxs.take(i - 1));
        assert(idxs[i - 1] == bargs@[i as int]);
        match concat_constant(pool, bargs[i]) {
            ConstantText::Text(t) => {
                let ghost before = out@;
                let ghost tv = t@;
                out.push(t);
                assert(out@.map_values(|s: String| s@) =~= before.map_values(|s: String| s@).push(tv));
            },
            _ => {
                proof {
                    lemma_texts_none(pool@, idxs, i - 1);
                }
                return None;
            },
        }
        i = i + 1;
    }
    assert(idxs.take(i - 1) =~= idxs);
    Some(out)
}

pub open spec fn is_high_surrogate(u: u16) -> bool {
    0xD800 <= u <= 0xDBFF
}

pub open spec fn is_low_surrogate(u: u16) -> bool {
    0xDC00 <= u <= 0xDFFF
}

/// The character a surrogate pair stands for.
pub open spec fn pair_code(hi: u16, lo: u16) -> u32 {
    (0x10000 + (hi - 0xD800) * 1024 + (lo - 0xDC00)) as u32
}

pub open spec fn prepend_chars(p: Seq<char>, o: Option<Seq<char>>) -> Option<Seq<char>> {
    match o {
        Some(q) => Some(p + q),
        None => None,
    }
}

/// The characters of UTF-16 code units: a surrogate pair is one
/// character; `None` when a surrogate is not paired.
pub open spec fn decode_utf16(units: Seq<u16>) -> Option<Seq<char>>
    decreases units.len(),
{
    if units.len() == 0 {
        Some(Seq::empty())
    } else if is_high_surrogate(units[0]) {
        if units.len() >= 2 && is_low_surrogate(units[1]) {
            prepend_chars(seq![pair_code(units[0], units[1]) as char], decode_utf16(units.subrange(2, units.len() as int)))
        } else {
            None
        }
    } else if is_low_surrogate(units[0]) {
        None
    } else {
        prepend_chars(seq![(units[0] as u32) as char], decode_utf16(units.drop_first()))
    }
}

/// The text of UTF-16 code units, as `decode_utf16` says.
pub fn text_of_units(units: &Vec<u16>) -> (r: Option<String>)
    ensures
        match decode_utf16(units@) {
            Some(t) => r matches Some(x) && x@ == t,
            None => r is None,
        },
{
    let mut out = String::new();
    proof {
        reveal_strlit("");
        assert(units@.subrange(0, units@.len() as int) =~= units@);
        match decode_utf16(units@) {
            Some(q) => {
                assert(out@ + q =~= q);
            },
            None => {},
        }
    }
    let n = units.len();
    let mut i: usize = 0;
    while i < n
        invariant
            i <= n,
            n == units@.len(),
            decode_utf16(units@) == prepend_chars(out@, decode_utf16(units@.subrange(i as int, n as int))),
        decreases n - i,
    {
        let ghost rest = units@.subrange(i as int, n as int);
        let ghost o = out@;
        let u = units[i];
        assert(rest[0] == u);
        if 0xD800 <= u && u <= 0xDBFF {
            if i + 1 < n && 0xDC00 <= units[i + 1] && units[i + 1] <= 0xDFFF {
                let lo = units[i + 1];
                assert(rest[1] == lo);
                let v: u32 = 0x10000 + ((u - 0xD800) as u32) * 1024 + ((lo - 0xDC00) as u32);
                assert(v == pair_code(u, lo));
                assert(scalar_value(v));
                let c = match char_from_u32(v) {
                    Some(c) => c,
                    None => {
                        return None;
                    },
                };
                push_char(&mut out, c);
                assert(rest.subrange(2, rest.len() as int) =~= units@.subrange(i + 2, n as int));
                proof {
                    match decode_utf16(units@.subrange(i + 2, n as int)) {
                        Some(q) => {
                            assert(o + (seq![c] + q) =~= out@ + q);
                        },
                        None => {},
                    }
                }
                i = i + 2;
            } else {
                return None;
            }
        } else if 0xDC00 <= u && u <= 0xDFFF {
            return None;
        } else {
            let v = u as u32;
            assert(scalar_value(v));
            let c = match char_from_u32(v) {
                Some(c) => c,
                None => {
                    return None;
                },
            };
            push_char(&mut out, c);
            assert(rest.drop_first() =~= units@.subrange(i + 1, n as int));
            proof {
                match decode_utf16(units@.subrange(i + 1, n as int)) {
                    Some(q) => {
                        assert(o + (seq![c] + q) =~= out@ + q);
                    },
                    None => {},
                }
            }
            i = i + 1;
        }
    }
    assert(units@.subrange(n as int, n as int) =~= Seq::<u16>::empty());
    assert(out@ + Seq::<char>::empty() =~= out@);
    Some(out)
}

proof fn lemma_utf16_cons(c: char, t: Seq<char>)
    ensures
        utf16_text(seq![c] + t) == utf16_of(c) + utf16_text(t),
    decreases t.len(),
{
    if t.len() == 0 {
        assert(seq![c] + t =~= seq![c]);
        assert(seq![c].drop_last() =~= Seq::<char>::empty());
        assert(utf16_text(t) =~= Seq::<u16>::empty());
        assert(utf16_text(Seq::<char>::empty()) =~= Seq::<u16>::empty());
        assert(utf16_text(seq![c]) =~= utf16_text(Seq::<char>::empty()) + utf16_of(c));
        assert(utf16_of(c) + Seq::<u16>::empty() =~= utf16_of(c));
    } else {
        lemma_utf16_cons(c, t.drop_last());
        assert((seq![c] + t).drop_last() =~= seq![c] + t.drop_last());
        assert((seq![c] + t).last() == t.last());
        assert(utf16_of(c) + utf16_text(t.drop_last()) + utf16_of(t.last()) =~= utf16_of(c) + (utf16_text(
            t.drop_last(),
        ) + utf16_of(t.last())));
    }
}

proof fn lemma_plain_from(h: Seq<ObjectV>, kinds: Seq<char>, args: Seq<Value>, consts: Seq<Seq<char>>, recipe: Seq<char>, ai: int, ci: int)
    requires
        forall|i: int| 0 <= i < recipe.len() ==> recipe[i] != '\u{1}' && recipe[i] != '\u{2}',
    ensures
        concat_from(h, kinds, args, consts, recipe, ai, ci) == Some(utf16_text(recipe)),
    decreases recipe.len(),
{
    if recipe.len() > 0 {
        let rest = recipe.drop_first();
        lemma_plain_from(h, kinds, args, consts, rest, ai, ci);
        lemma_utf16_cons(recipe[0], rest);
        assert(seq![recipe[0]] + rest =~= recipe);
    }
}

/// A recipe with no argument or constant in it gives its own text,
/// whatever the arguments and constants.
pub proof fn law_plain_recipe_is_its_own_text(
    h: Seq<ObjectV>,
    kinds: Seq<char>,
    args: Seq<Value>,
    consts: Seq<Seq<char>>,
    recipe: Seq<char>,
)
    requires
        forall|i: int| 0 <= i < recipe.len() ==> recipe[i] != '\u{1}' && recipe[i] != '\u{2}',
    ensures
        concat_spec(h, kinds, args, consts, recipe) == Some(utf16_text(recipe)),
{
    lemma_plain_from(h, kinds, args, consts, recipe, 0, 0);
}

} // verus!
