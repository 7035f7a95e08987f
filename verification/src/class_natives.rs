//! What the reflection methods of `java/lang/Class` answer about the class
//! a mirror stands for, decided from its internal name and the classes
//! the VM holds. Making the mirror objects and strings of an answer is the
//! caller's part.

use vstd::prelude::*;
use crate::class_file::{cp_class_name, ClassFile};
use crate::class_spec::CpEntry;
use crate::machine::{class_index, class_position, dotted, dotted_string, instance_of, instance_of_exec};
use crate::text::{chars_of, str_eq};

verus! {

/// An answer of a `Class` method.
pub enum ClassAnswer {
    /// An `int` (or `boolean` as 0/1) result.
    Int(i32),
    /// A string result, by its text.
    Text(String),
    /// The mirror of the class with this internal name, or `null`.
    Class(Option<String>),
    /// An array of the mirrors of these classes.
    Classes(Vec<String>),
    /// A constant the method reads is no class name: the interpreter
    /// cannot answer.
    Unreadable,
}

pub enum ClassAnswerV {
    Int(i32),
    Text(Seq<char>),
    Class(Option<Seq<char>>),
    Classes(Seq<Seq<char>>),
    Unreadable,
}

impl View for ClassAnswer {
    type V = ClassAnswerV;

    open spec fn view(&self) -> ClassAnswerV {
        match self {
            ClassAnswer::Int(i) => ClassAnswerV::Int(*i),
            ClassAnswer::Text(t) => ClassAnswerV::Text(t@),
            ClassAnswer::Class(c) => ClassAnswerV::Class(
                match c {
                    Some(s) => Some(s@),
                    None => None,
                },
            ),
            ClassAnswer::Classes(v) => ClassAnswerV::Classes(v@.map_values(|s: String| s@)),
            ClassAnswer::Unreadable => ClassAnswerV::Unreadable,
        }
    }
}

pub open spec fn is_array_name(c: Seq<char>) -> bool {
    c.len() > 0 && c[0] == '['
}

pub open spec fn primitive_name(c: Seq<char>) -> bool {
    ||| c == "byte"@
    ||| c == "short"@
    ||| c == "int"@
    ||| c == "long"@
    ||| c == "float"@
    ||| c == "double"@
    ||| c == "char"@
    ||| c == "boolean"@
    ||| c == "void"@
}

/// The class of an array's elements, from the array class's internal
/// name: a primitive by its name, an array or a class by its internal
/// name, and `java/lang/Object` for anything else.
pub open spec fn component_of(target: Seq<char>) -> Seq<char> {
    let elem = target.drop_first();
    if elem.len() == 0 {
        "java/lang/Object"@
    } else {
        let f = elem[0];
        if f == 'B' {
            "byte"@
        } else if f == 'C' {
            "char"@
        } else if f == 'D' {
            "double"@
        } else if f == 'F' {
            "float"@
        } else if f == 'I' {
            "int"@
        } else if f == 'J' {
            "long"@
        } else if f == 'S' {
            "short"@
        } else if f == 'Z' {
            "boolean"@
        } else if f == '[' {
            elem
        } else if f == 'L' && elem.last() == ';' {
            elem.subrange(1, elem.len() - 1)
        } else {
            "java/lang/Object"@
        }
    }
}

/// The names of the classes at these constant-pool indices, or `None`
/// when one is no class name.
pub open spec fn class_names_at(cp: Seq<CpEntry>, idxs: Seq<u16>) -> Option<Seq<Seq<char>>>
    decreases idxs.len(),
{
    if idxs.len() == 0 {
        Some(Seq::empty())
    } else {
        match (class_names_at(cp, idxs.drop_last()), cp_class_name(cp, idxs.last())) {
            (Some(ns), Some(n)) => Some(ns.push(n)),
            _ => None,
        }
    }
}

/// What `method` of the mirror of `target` answers; `other` is the class
/// of the argument object for `isInstance`, the class the argument mirror
/// stands for for `isAssignableFrom` (`None` for `null`). `None` for a
/// method answered elsewhere.
pub open spec fn class_native_spec(cs: Seq<ClassFile>, target: Seq<char>, method: Seq<char>, other: Option<Seq<char>>) -> Option<
    ClassAnswerV,
> {
    let pos = class_position(cs, target);
    if method == "getName"@ {
        Some(ClassAnswerV::Text(dotted(target)))
    } else if method == "getModifiers"@ {
        Some(
            ClassAnswerV::Int(
                match pos {
                    Some(k) => cs[k].access_flags as i32,
                    None => 0,
                },
            ),
        )
    } else if method == "isInstance"@ || method == "isAssignableFrom"@ {
        Some(
            ClassAnswerV::Int(
                match other {
                    Some(rc) => if instance_of(cs, rc, target) {
                        1
                    } else {
                        0
                    },
                    None => 0,
                },
            ),
        )
    } else if method == "isInterface"@ {
        Some(
            ClassAnswerV::Int(
                match pos {
                    Some(k) => if cs[k].access_flags & 0x0200 != 0 {
                        1
                    } else {
                        0
                    },
                    None => 0,
                },
            ),
        )
    } else if method == "getComponentType"@ {
        Some(
            ClassAnswerV::Class(
                if is_array_name(target) {
                    Some(component_of(target))
                } else {
                    None
                },
            ),
        )
    } else if method == "getSuperclass"@ {
        if is_array_name(target) {
            Some(ClassAnswerV::Class(Some("java/lang/Object"@)))
        } else {
            match pos {
                Some(k) => if cs[k].super_class == 0 {
                    Some(ClassAnswerV::Class(None))
                } else {
                    match cp_class_name(cs[k]@.constant_pool, cs[k].super_class) {
                        Some(s) => Some(ClassAnswerV::Class(Some(s))),
                        None => Some(ClassAnswerV::Unreadable),
                    }
                },
                None => if primitive_name(target) {
                    Some(ClassAnswerV::Class(None))
                } else {
                    Some(ClassAnswerV::Class(Some("java/lang/Object"@)))
                },
            }
        }
    } else if method == "getInterfaces"@ {
        if is_array_name(target) {
            Some(ClassAnswerV::Classes(seq!["java/lang/Cloneable"@, "java/io/Serializable"@]))
        } else {
            match pos {
                Some(k) => match class_names_at(cs[k]@.constant_pool, cs[k].interfaces@) {
                    Some(ns) => Some(ClassAnswerV::Classes(ns)),
                    None => Some(ClassAnswerV::Unreadable),
                },
                None => Some(ClassAnswerV::Classes(Seq::empty())),
            }
        }
    } else {
        None
    }
}

fn owned(s: &str) -> (r: String)
    ensures
        r@ == s@,
{
    let mut r = String::new();
    r.append(s);
    r
}

fn from_chars(v: &Vec<char>, lo: usize, hi: usize) -> (r: String)
    requires
        lo <= hi <= v@.len(),
    ensures
        r@ == v@.subrange(lo as int, hi as int),
{
    let mut r = String::new();
    proof {
        reveal_strlit("");
    }
    let mut i = lo;
    while i < hi
        invariant
            lo <= i <= hi <= v@.len(),
            r@ =~= v@.subrange(lo as int, i as int),
        decreases hi - i,
    {
        crate::text::push_char(&mut r, v[i]);
        i = i + 1;
    }
    r
}

fn component_name(target: &Vec<char>) -> (r: String)
    requires
        target@.len() > 0,
    ensures
        r@ == component_of(target@),
{
    let ghost elem = target@.drop_first();
    let n = target.len();
    if n == 1 {
        return owned("java/lang/Object");
    }
    assert(elem[0] == target@[1]);
    let f = target[1];
    if f == 'B' {
        owned("byte")
    } else if f == 'C' {
        owned("char")
    } else if f == 'D' {
        owned("double")
    } else if f == 'F' {
        owned("float")
    } else if f == 'I' {
        owned("int")
    } else if f == 'J' {
        owned("long")
    } else if f == 'S' {
        owned("short")
    } else if f == 'Z' {
        owned("boolean")
    } else if f == '[' {
        let r = from_chars(target, 1, n);
        assert(r@ =~= elem);
        r
    } else if f == 'L' && target[n - 1] == ';' {
        assert(elem.last() == target@[n - 1]);
        let r = from_chars(target, 2, n - 1);
        assert(r@ =~= elem.subrange(1, elem.len() - 1));
        r
    } else {
        owned("java/lang/Object")
    }
}

fn class_names_exec(cf: &ClassFile) -> (r: Option<Vec<String>>)
    ensures
        match class_names_at(cf@.constant_pool, cf.interfaces@) {
            Some(ns) => r matches Some(v) && v@.map_values(|s: String| s@) == ns,
            None => r is None,
        },
{
    let ifs = &cf.interfaces;
    let mut out: Vec<String> = Vec::new();
    let mut i: usize = 0;
    while i < ifs.len()
        invariant
            i <= ifs@.len(),
            ifs@ == cf.interfaces@,
            class_names_at(cf@.constant_pool, ifs@.take(i as int)) == Some(out@.map_values(|s: String| s@)),
        decreases ifs@.len() - i,
    {
        assert(ifs@.take(i as int + 1).drop_last() =~= ifs@.take(i as int));
        let ix = ifs[i];
        assert(ix == ifs@[i as int]);
        match cf.constant_pool.class_name_entry(ix) {
            Some(n) => {
                let ghost before = out@;
                out.push(owned(n));
                assert(out@.map_values(|s: String| s@) =~= before.map_values(|s: String| s@).push(n@));
            },
            None => {
                proof {
                    assert(cp_class_name(cf@.constant_pool, ifs@[i as int]) is None);
                    lemma_names_none(cf@.constant_pool, ifs@, i as int);
                    assert(class_names_at(cf@.constant_pool, cf.interfaces@) is None);
                }
                return None;
            },
        }
        i = i + 1;
    }
    assert(ifs@.take(i as int) =~= ifs@);
    Some(out)
}

proof fn lemma_names_none(cp: Seq<CpEntry>, idxs: Seq<u16>, i: int)
    requires
        0 <= i < idxs.len(),
        cp_class_name(cp, idxs[i]) is None,
    ensures
        class_names_at(cp, idxs) is None,
    decreases idxs.len(),
{
    if i < idxs.len() - 1 {
        lemma_names_none(cp, idxs.drop_last(), i);
    }
}

/// The answer of `method` of the mirror of `target`, as
/// `class_native_spec` says.
pub fn class_native(classes: &Vec<ClassFile>, target: &str, method: &str, other: Option<&str>) -> (r: Option<ClassAnswer>)
    ensures
        match class_native_spec(classes@, target@, method@, match other {
            Some(o) => Some(o@),
            None => None,
        }) {
            Some(a) => r matches Some(x) && x@ == a,
            None => r is None,
        },
{
    let pos = class_index(classes, target);
    let tc = chars_of(target);
    let is_array = tc.len() > 0 && tc[0] == '[';
    if str_eq(method, "getName") {
        Some(ClassAnswer::Text(dotted_string(target)))
    } else if str_eq(method, "getModifiers") {
        Some(
            ClassAnswer::Int(
                match pos {
                    Some(k) => classes[k].access_flags as i32,
                    None => 0,
                },
            ),
        )
    } else if str_eq(method, "isInstance") || str_eq(method, "isAssignableFrom") {
        Some(
            ClassAnswer::Int(
                match other {
                    Some(rc) => if instance_of_exec(classes, rc, target) {
                        1
                    } else {
                        0
                    },
                    None => 0,
                },
            ),
        )
    } else if str_eq(method, "isInterface") {
        Some(
            ClassAnswer::Int(
                match pos {
                    Some(k) => if classes[k].access_flags & 0x0200 != 0 {
                        1
                    } else {
                        0
                    },
                    None => 0,
                },
            ),
        )
    } else if str_eq(method, "getComponentType") {
        if is_array {
            Some(ClassAnswer::Class(Some(component_name(&tc))))
        } else {
            Some(ClassAnswer::Class(None))
        }
    } else if str_eq(method, "getSuperclass") {
        if is_array {
            Some(ClassAnswer::Class(Some(owned("java/lang/Object"))))
        } else {
            match pos {
                Some(k) => {
                    let cf = &classes[k];
                    if cf.super_class == 0 {
                        Some(ClassAnswer::Class(None))
                    } else {
                        match cf.constant_pool.class_name_entry(cf.super_class) {
                            Some(s) => Some(ClassAnswer::Class(Some(owned(s)))),
                            None => Some(ClassAnswer::Unreadable),
                        }
                    }
                },
                None => {
                    let prim = str_eq(target, "byte") || str_eq(target, "short") || str_eq(target, "int") || str_eq(
                        target,
                        "long",
                    ) || str_eq(target, "float") || str_eq(target, "double") || str_eq(target, "char") || str_eq(
                        target,
                        "boolean",
                    ) || str_eq(target, "void");
                    if prim {
                        Some(ClassAnswer::Class(None))
                    } else {
                        Some(ClassAnswer::Class(Some(owned("java/lang/Object"))))
                    }
                },
            }
        }
    } else if str_eq(method, "getInterfaces") {
        if is_array {
            let v = vec![owned("java/lang/Cloneable"), owned("java/io/Serializable")];
            assert(v@.map_values(|s: String| s@) =~= seq!["java/lang/Cloneable"@, "java/io/Serializable"@]);
            Some(ClassAnswer::Classes(v))
        } else {
            match pos {
                Some(k) => match class_names_exec(&classes[k]) {
                    Some(v) => Some(ClassAnswer::Classes(v)),
                    None => Some(ClassAnswer::Unreadable),
                },
                None => {
                    let v: Vec<String> = Vec::new();
                    assert(v@.map_values(|s: String| s@) =~= Seq::<Seq<char>>::empty());
                    Some(ClassAnswer::Classes(v))
                },
            }
        }
    } else {
        None
    }
}

/// The internal name of a class from its runtime name (`Class.forName`):
/// every `.` written as `/`.
pub open spec fn internal_name(runtime: Seq<char>) -> Seq<char> {
    runtime.map_values(|c: char| if c == '.' { '/' } else { c })
}

/// `Class.forName0(name)`: the internal name of the class whose mirror it
/// gives.
pub fn class_for_name(runtime_name: &str) -> (r: String)
    ensures
        r@ == internal_name(runtime_name@),
{
    let cs = chars_of(runtime_name);
    let mut r = String::new();
    proof {
        reveal_strlit("");
    }
    let mut i: usize = 0;
    while i < cs.len()
        invariant
            i <= cs@.len(),
            cs@ == runtime_name@,
            r@ =~= internal_name(cs@.take(i as int)),
        decreases cs@.len() - i,
    {
        let c = if cs[i] == '.' {
            '/'
        } else {
            cs[i]
        };
        crate::text::push_char(&mut r, c);
        assert(internal_name(cs@.take(i + 1)) =~= internal_name(cs@.take(i as int)).push(c));
        i = i + 1;
    }
    assert(cs@.take(i as int) =~= cs@);
    r
}

} // verus!
