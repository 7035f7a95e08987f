//! Reading the annotation types out of `RuntimeVisibleAnnotations` and
//! `RuntimeVisibleParameterAnnotations` attributes.
//!
//! The readers are lenient, as the runtime needs them to be: a truncated
//! annotation stops the list it is in, and what was read before it is kept.

use vstd::prelude::*;
use crate::class_file::{
    attribute_view, attributes_view, lemma_attributes_view_push, Attribute, ConstantPool,
};
use crate::class_spec::{cp_utf8, AttributeV, CpEntry};
use crate::text::{chars_of, push_char, str_eq};

verus! {

/// The big-endian `u16` at `p`.
pub open spec fn be16_at(data: Seq<u8>, p: int) -> int {
    data[p] * 256 + data[p + 1]
}

pub open spec fn is_const_tag(tag: u8) -> bool {
    // B C D F I J S Z s c
    tag == 66 || tag == 67 || tag == 68 || tag == 70 || tag == 73 || tag == 74 || tag == 83
        || tag == 90 || tag == 115 || tag == 99
}

/// Skipping one `element_value` at `p`: whether it was whole, and where
/// reading stopped.
pub open spec fn skip_ev(data: Seq<u8>, p: int) -> (bool, int)
    decreases data.len() - p, 0int,
{
    if p < 0 || p >= data.len() {
        (false, p)
    } else {
        let tag = data[p];
        let q = p + 1;
        if is_const_tag(tag) {
            if q + 2 <= data.len() {
                (true, q + 2)
            } else {
                (false, q)
            }
        } else if tag == 101 {
            // 'e': enum type name and constant name
            if q + 4 <= data.len() {
                (true, q + 4)
            } else if q + 2 <= data.len() {
                (false, q + 2)
            } else {
                (false, q)
            }
        } else if tag == 64 {
            // '@': nested annotation
            skip_ann(data, q)
        } else if tag == 91 {
            // '[': array of element values
            if q + 2 <= data.len() {
                skip_evs(data, q + 2, be16_at(data, q))
            } else {
                (false, q)
            }
        } else {
            (false, q)
        }
    }
}

/// Skipping one annotation (type, pair count, pairs) at `p`.
pub open spec fn skip_ann(data: Seq<u8>, p: int) -> (bool, int)
    decreases data.len() - p, 0int,
{
    if p < 0 || p + 2 > data.len() {
        (false, p)
    } else if p + 4 > data.len() {
        (false, p + 2)
    } else {
        skip_pairs(data, p + 4, be16_at(data, p + 2))
    }
}

/// Skipping `k` element-value pairs (name index, value) at `p`.
pub open spec fn skip_pairs(data: Seq<u8>, p: int, k: int) -> (bool, int)
    decreases data.len() - p, k,
{
    if k <= 0 {
        (true, p)
    } else if p < 0 || p + 2 > data.len() {
        (false, p)
    } else {
        let r = skip_ev(data, p + 2);
        if !r.0 {
            (false, r.1)
        } else if p < r.1 <= data.len() {
            skip_pairs(data, r.1, k - 1)
        } else {
            (false, r.1)
        }
    }
}

/// Skipping `k` element values at `p`.
pub open spec fn skip_evs(data: Seq<u8>, p: int, k: int) -> (bool, int)
    decreases data.len() - p, k,
{
    if k <= 0 {
        (true, p)
    } else {
        let r = skip_ev(data, p);
        if !r.0 {
            (false, r.1)
        } else if p < r.1 <= data.len() {
            skip_evs(data, r.1, k - 1)
        } else {
            (false, r.1)
        }
    }
}

/// Skipping never goes back nor past the end, and a whole element value or
/// annotation takes at least one byte.
pub proof fn lemma_skip_bounds(data: Seq<u8>, p: int, k: int)
    requires
        0 <= p <= data.len(),
    ensures
        p <= skip_ev(data, p).1 <= data.len(),
        skip_ev(data, p).0 ==> p < skip_ev(data, p).1,
        p <= skip_ann(data, p).1 <= data.len(),
        p <= skip_pairs(data, p, k).1 <= data.len(),
        p <= skip_evs(data, p, k).1 <= data.len(),
    decreases data.len() - p, k,
{
    if p < data.len() {
        let tag = data[p];
        if tag == 64 {
            lemma_skip_bounds(data, p + 1, 0);
        } else if tag == 91 && p + 3 <= data.len() {
            lemma_skip_bounds(data, p + 3, be16_at(data, p + 1));
        }
    }
    if p + 4 <= data.len() {
        lemma_skip_bounds(data, p + 4, be16_at(data, p + 2));
    }
    if k > 0 && p + 2 <= data.len() {
        lemma_skip_bounds(data, p + 2, 0);
        let r = skip_ev(data, p + 2);
        if r.0 && p < r.1 <= data.len() {
            lemma_skip_bounds(data, r.1, k - 1);
        }
    }
    if k > 0 {
        if p < data.len() {
            let r = skip_ev(data, p);
            if r.0 && p < r.1 <= data.len() {
                lemma_skip_bounds(data, r.1, k - 1);
            }
        }
    }
}

/// The byte at `*p`, advancing past it.
pub fn read_u8(data: &[u8], p: &mut usize) -> (r: Option<u8>)
    ensures
        *old(p) < data@.len() ==> r == Some(data@[*old(p) as int]) && *final(p) == *old(p) + 1,
        *old(p) >= data@.len() ==> r is None && *final(p) == *old(p),
{
    if *p < data.len() {
        let b = data[*p];
        *p = *p + 1;
        Some(b)
    } else {
        None
    }
}

/// The big-endian `u16` at `*p`, advancing past it.
pub fn read_u16_checked(data: &[u8], p: &mut usize) -> (r: Option<u16>)
    ensures
        *old(p) + 2 <= data@.len() ==> (r matches Some(v) && v == be16_at(data@, *old(p) as int)
            && *final(p) == *old(p) + 2),
        *old(p) + 2 > data@.len() ==> r is None && *final(p) == *old(p),
{
    if *p < data.len() && data.len() - *p >= 2 {
        let hi = data[*p] as u16;
        let lo = data[*p + 1] as u16;
        *p = *p + 2;
        Some(hi * 256 + lo)
    } else {
        None
    }
}

/// Skips one `element_value`; `None` when the data ends inside it or the
/// tag is unknown.
pub fn skip_annotation_element_value(data: &[u8], p: &mut usize) -> (r: Option<()>)
    requires
        *old(p) <= data@.len(),
    ensures
        (r is Some) == skip_ev(data@, *old(p) as int).0,
        *final(p) == skip_ev(data@, *old(p) as int).1,
    decreases data@.len() - *old(p), 0int,
{
    proof {
        lemma_skip_bounds(data@, *p as int, 0);
    }
    let start = *p;
    let tag = read_u8(data, p)?;
    if tag == 66 || tag == 67 || tag == 68 || tag == 70 || tag == 73 || tag == 74 || tag == 83
        || tag == 90 || tag == 115 || tag == 99 {
        read_u16_checked(data, p)?;
    } else if tag == 101 {
        read_u16_checked(data, p)?;
        read_u16_checked(data, p)?;
    } else if tag == 64 {
        skip_annotation(data, p)?;
    } else if tag == 91 {
        let n = read_u16_checked(data, p)?;
        assert(skip_ev(data@, start as int) == skip_evs(data@, start + 3, n as int));
        let mut i: u16 = 0;
        while i < n
            invariant
                start == *old(p),
                skip_ev(data@, start as int) == skip_evs(data@, start + 3, n as int),
                start < *p <= data@.len(),
                start + 3 <= data@.len(),
                data@[start as int] == 91,
                n == be16_at(data@, start + 1),
                i <= n,
                skip_evs(data@, start + 3, n as int) == skip_evs(data@, *p as int, (n - i) as int),
            decreases n - i,
        {
            proof {
                lemma_skip_bounds(data@, *p as int, 0);
            }
            skip_annotation_element_value(data, p)?;
            i = i + 1;
        }
    } else {
        return None;
    }
    Some(())
}

/// Skips one annotation; `None` when the data ends inside it.
pub fn skip_annotation(data: &[u8], p: &mut usize) -> (r: Option<()>)
    requires
        *old(p) <= data@.len(),
    ensures
        (r is Some) == skip_ann(data@, *old(p) as int).0,
        *final(p) == skip_ann(data@, *old(p) as int).1,
    decreases data@.len() - *old(p), 0int,
{
    let _type_index = read_u16_checked(data, p)?;
    let pairs = read_u16_checked(data, p)?;
    skip_element_value_pairs(data, p, pairs)
}

/// Skips `pairs` element-value pairs.
fn skip_element_value_pairs(data: &[u8], p: &mut usize, pairs: u16) -> (r: Option<()>)
    requires
        *old(p) <= data@.len(),
    ensures
        (r is Some) == skip_pairs(data@, *old(p) as int, pairs as int).0,
        *final(p) == skip_pairs(data@, *old(p) as int, pairs as int).1,
    decreases data@.len() - *old(p), pairs,
{
    let mut i: u16 = 0;
    while i < pairs
        invariant
            *old(p) <= *p <= data@.len(),
            i <= pairs,
            skip_pairs(data@, *old(p) as int, pairs as int) == skip_pairs(data@, *p as int, (pairs - i) as int),
        decreases pairs - i,
    {
        let _name_index = read_u16_checked(data, p)?;
        proof {
            lemma_skip_bounds(data@, *p as int, 0);
        }
        skip_annotation_element_value(data, p)?;
        i = i + 1;
    }
    Some(())
}

/// The class name inside an `L<name>;` descriptor, as a list of zero or one
/// names.
pub open spec fn class_of_descriptor(d: Seq<char>) -> Seq<Seq<char>> {
    if d.len() >= 2 && d[0] == 'L' && d.last() == ';' {
        seq![d.subrange(1, d.len() - 1)]
    } else {
        Seq::empty()
    }
}

/// Reading the types of `k` annotations at `p`: the class names of their
/// types and where reading stopped, or `None` when a type index is not a
/// `Utf8` constant. A truncated annotation ends the list.
pub open spec fn ann_types(data: Seq<u8>, cp: Seq<CpEntry>, p: int, k: int) -> Option<(Seq<Seq<char>>, int)>
    decreases k,
{
    if k <= 0 || p < 0 || p + 2 > data.len() {
        Some((Seq::empty(), p))
    } else {
        match cp_utf8(cp, be16_at(data, p) as u16) {
            None => None,
            Some(desc) => {
                let t = class_of_descriptor(desc);
                if p + 4 > data.len() {
                    Some((t, p + 2))
                } else {
                    let q = skip_pairs(data, p + 4, be16_at(data, p + 2)).1;
                    match ann_types(data, cp, q, k - 1) {
                        None => None,
                        Some((rest, e)) => Some((t + rest, e)),
                    }
                }
            },
        }
    }
}

/// The annotation types of one `RuntimeVisibleAnnotations` attribute.
pub open spec fn attr_annotation_types(data: Seq<u8>, cp: Seq<CpEntry>) -> Option<Seq<Seq<char>>> {
    if data.len() < 2 {
        Some(Seq::empty())
    } else {
        match ann_types(data, cp, 2, be16_at(data, 0)) {
            None => None,
            Some((t, _)) => Some(t),
        }
    }
}

pub open spec fn is_named(a: AttributeV, name: Seq<char>) -> bool {
    a matches AttributeV::Unknown { name: n, .. } && n == name
}

pub open spec fn attr_data(a: AttributeV) -> Seq<u8> {
    match a {
        AttributeV::Unknown { data, .. } => data,
        _ => Seq::empty(),
    }
}

/// The annotation types of all the `RuntimeVisibleAnnotations` attributes
/// among `attrs`, in order; `None` when one names its type by something
/// other than a `Utf8` constant.
pub open spec fn annotation_types(attrs: Seq<AttributeV>, cp: Seq<CpEntry>) -> Option<Seq<Seq<char>>>
    decreases attrs.len(),
{
    if attrs.len() == 0 {
        Some(Seq::empty())
    } else {
        match annotation_types(attrs.drop_last(), cp) {
            None => None,
            Some(prev) => if is_named(attrs.last(), "RuntimeVisibleAnnotations"@) {
                match attr_annotation_types(attr_data(attrs.last()), cp) {
                    None => None,
                    Some(t) => Some(prev + t),
                }
            } else {
                Some(prev)
            },
        }
    }
}

/// Reading the annotations of parameters `i..declared` at `p` into `out`
/// (one list of annotation types per parameter; parameters beyond `out` are
/// read and dropped).
pub open spec fn param_types(
    data: Seq<u8>,
    cp: Seq<CpEntry>,
    p: int,
    i: int,
    declared: int,
    out: Seq<Seq<Seq<char>>>,
) -> Option<Seq<Seq<Seq<char>>>>
    decreases declared - i,
{
    if i >= declared || p < 0 || p + 2 > data.len() {
        Some(out)
    } else {
        match ann_types(data, cp, p + 2, be16_at(data, p)) {
            None => None,
            Some((t, e)) => param_types(
                data,
                cp,
                e,
                i + 1,
                declared,
                if i < out.len() {
                    out.update(i, t)
                } else {
                    out
                },
            ),
        }
    }
}

/// One `RuntimeVisibleParameterAnnotations` attribute read into `out`.
pub open spec fn attr_param_types(data: Seq<u8>, cp: Seq<CpEntry>, out: Seq<Seq<Seq<char>>>) -> Option<
    Seq<Seq<Seq<char>>>,
> {
    if data.len() < 1 {
        Some(out)
    } else {
        param_types(data, cp, 1, 0, data[0] as int, out)
    }
}

/// All the `RuntimeVisibleParameterAnnotations` attributes among `attrs`
/// read, in order, into `out`.
pub open spec fn param_annotation_types(
    attrs: Seq<AttributeV>,
    cp: Seq<CpEntry>,
    out: Seq<Seq<Seq<char>>>,
) -> Option<Seq<Seq<Seq<char>>>>
    decreases attrs.len(),
{
    if attrs.len() == 0 {
        Some(out)
    } else {
        match param_annotation_types(attrs.drop_last(), cp, out) {
            None => None,
            Some(prev) => if is_named(attrs.last(), "RuntimeVisibleParameterAnnotations"@) {
                attr_param_types(attr_data(attrs.last()), cp, prev)
            } else {
                Some(prev)
            },
        }
    }
}

/// No annotation types for each of `n` parameters.
pub open spec fn no_param_types(n: nat) -> Seq<Seq<Seq<char>>> {
    Seq::new(n, |k: int| Seq::<Seq<char>>::empty())
}

pub open spec fn strings_view(v: Seq<String>) -> Seq<Seq<char>> {
    v.map_values(|s: String| s@)
}

pub open spec fn string_lists_view(v: Seq<Vec<String>>) -> Seq<Seq<Seq<char>>> {
    v.map_values(|l: Vec<String>| strings_view(l@))
}

/// The class name inside an `L<name>;` descriptor.
fn class_of_descriptor_text(desc: &str) -> (r: Option<String>)
    ensures
        match r {
            Some(s) => class_of_descriptor(desc@) == seq![s@],
            None => class_of_descriptor(desc@) == Seq::<Seq<char>>::empty(),
        },
{
    let cs = chars_of(desc);
    let n = cs.len();
    if n >= 2 && cs[0] == 'L' && cs[n - 1] == ';' {
        let mut s = String::new();
        let mut i: usize = 1;
        while i < n - 1
            invariant
                cs@ == desc@,
                n == cs@.len(),
                n >= 2,
                1 <= i <= n - 1,
                s@ == cs@.subrange(1, i as int),
            decreases n - 1 - i,
        {
            push_char(&mut s, cs[i]);
            assert(cs@.subrange(1, i as int + 1) =~= cs@.subrange(1, i as int).push(cs@[i as int]));
            i = i + 1;
        }
        Some(s)
    } else {
        None
    }
}

proof fn lemma_ann_types_bounds(data: Seq<u8>, cp: Seq<CpEntry>, p: int, k: int)
    requires
        0 <= p <= data.len(),
    ensures
        ann_types(data, cp, p, k) matches Some((_, e)) ==> p <= e <= data.len(),
    decreases k,
{
    if k > 0 && p + 4 <= data.len() {
        lemma_skip_bounds(data, p + 4, be16_at(data, p + 2));
        let q = skip_pairs(data, p + 4, be16_at(data, p + 2)).1;
        lemma_ann_types_bounds(data, cp, q, k - 1);
    }
}

/// Reads the types of `n` annotations at `*p`, appending their class names
/// to `out`. Returns `false` when a type index is not a `Utf8` constant.
fn read_annotation_types(
    data: &[u8],
    cp: &ConstantPool,
    p: &mut usize,
    n: u16,
    out: &mut Vec<String>,
) -> (ok: bool)
    requires
        *old(p) <= data@.len(),
    ensures
        match ann_types(data@, cp@, *old(p) as int, n as int) {
            None => !ok,
            Some((t, e)) => ok && strings_view(final(out)@) == strings_view(old(out)@) + t && *final(p)
                == e,
        },
{
    let ghost start = *p;
    let ghost out0 = strings_view(out@);
    let ghost whole = ann_types(data@, cp@, start as int, n as int);
    let ghost mut pushed: Seq<Seq<char>> = Seq::empty();
    let mut i: u16 = 0;
    while i < n
        invariant
            i <= n,
            start == *old(p),
            out0 == strings_view(old(out)@),
            start <= *p <= data@.len(),
            whole == ann_types(data@, cp@, start as int, n as int),
            strings_view(out@) == out0 + pushed,
            whole == match ann_types(data@, cp@, *p as int, (n - i) as int) {
                None => None,
                Some((rest, e)) => Some((pushed + rest, e)),
            },
        decreases n - i,
    {
        let ghost pos = *p as int;
        let type_index = match read_u16_checked(data, p) {
            Some(v) => v,
            None => {
                assert(pushed + Seq::<Seq<char>>::empty() =~= pushed);
                return true;
            },
        };
        let desc = match cp.utf8_entry(type_index) {
            Some(d) => d,
            None => {
                return false;
            },
        };
        let ghost t = class_of_descriptor(desc@);
        match class_of_descriptor_text(desc) {
            Some(inner) => {
                let ghost before = out@;
                out.push(inner);
                assert(strings_view(out@) =~= strings_view(before) + t);
            },
            None => {
                assert(strings_view(out@) =~= strings_view(out@) + t);
            },
        }
        proof {
            pushed = pushed + t;
            assert(strings_view(out@) =~= out0 + pushed);
        }
        let pairs = match read_u16_checked(data, p) {
            Some(v) => v,
            None => {
                assert(pushed + Seq::<Seq<char>>::empty() =~= pushed);
                return true;
            },
        };
        proof {
            lemma_skip_bounds(data@, *p as int, pairs as int);
        }
        let _ = skip_element_value_pairs(data, p, pairs);
        proof {
            let r = ann_types(data@, cp@, *p as int, (n - i - 1) as int);
            if let Some((rest, e)) = r {
                assert(pushed + rest =~= (pushed.subrange(0, pushed.len() - t.len()) + t) + rest);
            }
        }
        i = i + 1;
    }
    assert(pushed + Seq::<Seq<char>>::empty() =~= pushed);
    true
}

proof fn lemma_attributes_view_take(s: Seq<Attribute>, j: int)
    requires
        0 <= j <= s.len(),
    ensures
        attributes_view(s).len() == s.len(),
        attributes_view(s.take(j)) == attributes_view(s).take(j),
    decreases s.len(),
{
    if s.len() > 0 {
        let t = s.drop_last();
        assert(t.push(s.last()) =~= s);
        lemma_attributes_view_push(t, s.last());
        if j < s.len() {
            assert(s.take(j) =~= t.take(j));
            lemma_attributes_view_take(t, j);
        } else {
            lemma_attributes_view_take(t, 0);
            assert(s.take(j) =~= s);
        }
    } else {
        assert(s.take(j) =~= s);
    }
}

proof fn lemma_types_none_extends(s: Seq<AttributeV>, cp: Seq<CpEntry>, j: int)
    requires
        0 <= j <= s.len(),
        annotation_types(s.take(j), cp) is None,
    ensures
        annotation_types(s, cp) is None,
    decreases s.len() - j,
{
    if j < s.len() {
        assert(s.take(j + 1).drop_last() =~= s.take(j));
        lemma_types_none_extends(s, cp, j + 1);
    } else {
        assert(s.take(j) =~= s);
    }
}

proof fn lemma_params_none_extends(s: Seq<AttributeV>, cp: Seq<CpEntry>, out: Seq<Seq<Seq<char>>>, j: int)
    requires
        0 <= j <= s.len(),
        param_annotation_types(s.take(j), cp, out) is None,
    ensures
        param_annotation_types(s, cp, out) is None,
    decreases s.len() - j,
{
    if j < s.len() {
        assert(s.take(j + 1).drop_last() =~= s.take(j));
        lemma_params_none_extends(s, cp, out, j + 1);
    } else {
        assert(s.take(j) =~= s);
    }
}

/// The class names of the annotation types in the
/// `RuntimeVisibleAnnotations` attributes among `attrs`, or `None` when an
/// annotation names its type by something other than a `Utf8` constant.
pub fn try_parse_runtime_visible_annotation_types(attrs: &[Attribute], cp: &ConstantPool) -> (r: Option<Vec<String>>)
    ensures
        match annotation_types(attributes_view(attrs@), cp@) {
            None => r is None,
            Some(t) => r matches Some(v) && strings_view(v@) == t,
        },
{
    let mut types: Vec<String> = Vec::new();
    let mut i: usize = 0;
    assert(attrs@.take(0) =~= Seq::<Attribute>::empty());
    assert(strings_view(types@) =~= Seq::<Seq<char>>::empty());
    while i < attrs.len()
        invariant
            i <= attrs@.len(),
            annotation_types(attributes_view(attrs@.take(i as int)), cp@) == Some(strings_view(types@)),
        decreases attrs@.len() - i,
    {
        proof {
            assert(attrs@.take(i as int + 1) =~= attrs@.take(i as int).push(attrs@[i as int]));
            lemma_attributes_view_push(attrs@.take(i as int), attrs@[i as int]);
            assert(attributes_view(attrs@.take(i as int + 1)).drop_last() =~= attributes_view(
                attrs@.take(i as int),
            ));
            reveal_strlit("RuntimeVisibleAnnotations");
        }
        match &attrs[i] {
            Attribute::Unknown { name, data } => {
                if str_eq(name.as_str(), "RuntimeVisibleAnnotations") {
                    let mut p: usize = 0;
                    match read_u16_checked(data.as_slice(), &mut p) {
                        Some(n) => {
                            if !read_annotation_types(data.as_slice(), cp, &mut p, n, &mut types) {
                                proof {
                                    lemma_attributes_view_take(attrs@, i as int + 1);
                                    lemma_types_none_extends(attributes_view(attrs@), cp@, i as int + 1);
                                }
                                return None;
                            }
                        },
                        None => {},
                    }
                }
            },
            _ => {},
        }
        i = i + 1;
    }
    assert(attrs@.take(i as int) =~= attrs@);
    Some(types)
}

/// The class names of the annotation types in the
/// `RuntimeVisibleAnnotations` attributes among `attrs`, in order.
pub fn parse_runtime_visible_annotation_types(attrs: &[Attribute], cp: &ConstantPool) -> (r: Vec<String>)
    requires
        annotation_types(attributes_view(attrs@), cp@) is Some,
    ensures
        annotation_types(attributes_view(attrs@), cp@) == Some(strings_view(r@)),
{
    match try_parse_runtime_visible_annotation_types(attrs, cp) {
        Some(v) => v,
        None => vstd::pervasive::unreached(),
    }
}

/// For each of `param_count` parameters, the class names of the annotation
/// types that the `RuntimeVisibleParameterAnnotations` attributes among
/// `attrs` give it (a later attribute replacing an earlier one), or `None`
/// when an annotation names its type by something other than a `Utf8`
/// constant.
pub fn try_parse_runtime_visible_parameter_annotation_types(
    attrs: &[Attribute],
    cp: &ConstantPool,
    param_count: usize,
) -> (r: Option<Vec<Vec<String>>>)
    ensures
        match param_annotation_types(
            attributes_view(attrs@),
            cp@,
            no_param_types(param_count as nat),
        ) {
            None => r is None,
            Some(t) => r matches Some(v) && string_lists_view(v@) == t,
        },
{
    let ghost empty_out = no_param_types(param_count as nat);
    let mut out: Vec<Vec<String>> = Vec::new();
    let mut k: usize = 0;
    while k < param_count
        invariant
            k <= param_count,
            string_lists_view(out@) =~= Seq::new(k as nat, |j: int| Seq::<Seq<char>>::empty()),
        decreases param_count - k,
    {
        let ghost prev = out@;
        out.push(Vec::new());
        assert(strings_view(Seq::<String>::empty()) =~= Seq::<Seq<char>>::empty());
        assert(string_lists_view(out@) =~= string_lists_view(prev).push(Seq::<Seq<char>>::empty()));
        k = k + 1;
    }
    assert(string_lists_view(out@) =~= empty_out);
    let mut i: usize = 0;
    assert(attrs@.take(0) =~= Seq::<Attribute>::empty());
    while i < attrs.len()
        invariant
            i <= attrs@.len(),
            empty_out == no_param_types(param_count as nat),
            param_annotation_types(attributes_view(attrs@.take(i as int)), cp@, empty_out) == Some(
                string_lists_view(out@),
            ),
        decreases attrs@.len() - i,
    {
        proof {
            assert(attrs@.take(i as int + 1) =~= attrs@.take(i as int).push(attrs@[i as int]));
            lemma_attributes_view_push(attrs@.take(i as int), attrs@[i as int]);
            assert(attributes_view(attrs@.take(i as int + 1)).drop_last() =~= attributes_view(
                attrs@.take(i as int),
            ));
            reveal_strlit("RuntimeVisibleParameterAnnotations");
        }
        match &attrs[i] {
            Attribute::Unknown { name, data } => {
                if str_eq(name.as_str(), "RuntimeVisibleParameterAnnotations") {
                    let d = data.as_slice();
                    let mut p: usize = 0;
                    match read_u8(d, &mut p) {
                        Some(declared) => {
                            let ghost out_before = string_lists_view(out@);
                            assert(param_annotation_types(attributes_view(attrs@.take(i as int + 1)), cp@, empty_out)
                                == param_types(d@, cp@, 1, 0, declared as int, out_before));
                            let mut j: u8 = 0;
                            while j < declared
                                invariant
                                    i < attrs@.len(),
                                    empty_out == no_param_types(param_count as nat),
                                    param_annotation_types(attributes_view(attrs@.take(i as int + 1)), cp@, empty_out)
                                        == param_types(d@, cp@, 1, 0, declared as int, out_before),
                                    j <= declared,
                                    p <= d@.len(),
                                    d@.len() >= 1,
                                    d@[0] == declared,
                                    param_types(d@, cp@, 1, 0, declared as int, out_before) == param_types(
                                        d@,
                                        cp@,
                                        p as int,
                                        j as int,
                                        declared as int,
                                        string_lists_view(out@),
                                    ),
                                ensures
                                    param_types(d@, cp@, 1, 0, declared as int, out_before) == Some(
                                        string_lists_view(out@),
                                    ),
                                decreases declared - j,
                            {
                                let n = match read_u16_checked(d, &mut p) {
                                    Some(v) => v,
                                    None => {
                                        break;
                                    },
                                };
                                let mut types: Vec<String> = Vec::new();
                                proof {
                                    lemma_ann_types_bounds(d@, cp@, p as int, n as int);
                                }
                                if !read_annotation_types(d, cp, &mut p, n, &mut types) {
                                    proof {
                                        assert(strings_view(Seq::<String>::empty()) =~= Seq::<Seq<char>>::empty());
                                        lemma_attributes_view_take(attrs@, i as int + 1);
                                        lemma_params_none_extends(attributes_view(attrs@), cp@, empty_out, i as int + 1);
                                    }
                                    return None;
                                }
                                proof {
                                    assert(strings_view(Seq::<String>::empty()) =~= Seq::<Seq<char>>::empty());
                                }
                                let ghost prev = out@;
                                if (j as usize) < out.len() {
                                    out.set(j as usize, types);
                                    assert(string_lists_view(out@) =~= string_lists_view(prev).update(
                                        j as int,
                                        strings_view(types@),
                                    ));
                                }
                                j = j + 1;
                            }
                        },
                        None => {},
                    }
                }
            },
            _ => {},
        }
        i = i + 1;
    }
    assert(attrs@.take(i as int) =~= attrs@);
    Some(out)
}

/// For each of `param_count` parameters, the class names of the annotation
/// types that the `RuntimeVisibleParameterAnnotations` attributes among
/// `attrs` give it (a later attribute replacing an earlier one).
pub fn parse_runtime_visible_parameter_annotation_types(
    attrs: &[Attribute],
    cp: &ConstantPool,
    param_count: usize,
) -> (r: Vec<Vec<String>>)
    requires
        param_annotation_types(
            attributes_view(attrs@),
            cp@,
            no_param_types(param_count as nat),
        ) is Some,
    ensures
        param_annotation_types(
            attributes_view(attrs@),
            cp@,
            no_param_types(param_count as nat),
        ) == Some(string_lists_view(r@)),
{
    match try_parse_runtime_visible_parameter_annotation_types(attrs, cp, param_count) {
        Some(v) => v,
        None => vstd::pervasive::unreached(),
    }
}

} // verus!
