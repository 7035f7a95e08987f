use jvm_core::string_natives::{string_native, NativeArg, NativeResult};

fn call(method: &str, this: &str, args: Vec<NativeArg>) -> Option<NativeResult> {
    string_native(method, Some(this), &args)
}

fn s(t: &str) -> NativeArg {
    NativeArg::Str(t.to_string())
}

#[test]
fn length_counts_bytes_and_char_at_counts_characters() {
    assert_eq!(call("length", "h\u{e9}llo", vec![]), Some(NativeResult::Int(6)));
    assert_eq!(call("charAt", "h\u{e9}llo", vec![NativeArg::Int(1)]), Some(NativeResult::Int(0xe9)));
    assert_eq!(call("charAt", "abc", vec![NativeArg::Int(7)]), Some(NativeResult::Int(0)));
    assert_eq!(call("isEmpty", "", vec![]), Some(NativeResult::Int(1)));
    assert_eq!(call("isEmpty", "x", vec![]), Some(NativeResult::Int(0)));
}

#[test]
fn equality_and_hash() {
    assert_eq!(call("equals", "abc", vec![s("abc")]), Some(NativeResult::Int(1)));
    assert_eq!(call("equals", "abc", vec![s("abd")]), Some(NativeResult::Int(0)));
    assert_eq!(call("equals", "abc", vec![NativeArg::Null]), Some(NativeResult::Int(0)));
    assert_eq!(call("equals", "abc", vec![NativeArg::Object]), Some(NativeResult::Int(0)));
    // "hello".hashCode() in Java
    assert_eq!(call("hashCode", "hello", vec![]), Some(NativeResult::Int(99162322)));
    assert_eq!(call("hashCode", "", vec![]), Some(NativeResult::Int(0)));
}

#[test]
fn substrings_and_concatenation() {
    assert_eq!(call("substring", "hello", vec![NativeArg::Int(1), NativeArg::Int(3)]), Some(NativeResult::Str("el".to_string())));
    assert_eq!(call("substring", "hello", vec![NativeArg::Int(2)]), Some(NativeResult::Str("llo".to_string())));
    assert_eq!(call("substring", "hello", vec![NativeArg::Int(9), NativeArg::Int(12)]), Some(NativeResult::Str(String::new())));
    assert_eq!(call("concat", "foo", vec![s("bar")]), Some(NativeResult::Str("foobar".to_string())));
    assert_eq!(call("concat", "foo", vec![NativeArg::Null]), Some(NativeResult::Str("foo".to_string())));
    assert_eq!(call("toString", "same", vec![]), Some(NativeResult::Str("same".to_string())));
}

#[test]
fn searching() {
    assert_eq!(call("contains", "haystack", vec![s("st")]), Some(NativeResult::Int(1)));
    assert_eq!(call("contains", "haystack", vec![s("needle")]), Some(NativeResult::Int(0)));
    assert_eq!(call("startsWith", "haystack", vec![s("hay")]), Some(NativeResult::Int(1)));
    assert_eq!(call("startsWith", "haystack", vec![s("stack")]), Some(NativeResult::Int(0)));
    assert_eq!(call("endsWith", "haystack", vec![s("stack")]), Some(NativeResult::Int(1)));
    assert_eq!(call("endsWith", "ck", vec![s("stack")]), Some(NativeResult::Int(0)));
    assert_eq!(call("strip", " x ", vec![]), None);
    assert_eq!(string_native("length", None, &vec![]), Some(NativeResult::Int(0)));
}

#[test]
fn index_of_counts_bytes() {
    assert_eq!(call("indexOf", "hello", vec![s("l")]), Some(NativeResult::Int(2)));
    assert_eq!(call("indexOf", "hello", vec![s("z")]), Some(NativeResult::Int(-1)));
    assert_eq!(call("indexOf", "hello", vec![NativeArg::Int('o' as i32)]), Some(NativeResult::Int(4)));
    // the two bytes of 'é' come before the 'l'
    assert_eq!(call("indexOf", "h\u{e9}llo", vec![s("l")]), Some(NativeResult::Int(3)));
    assert_eq!(call("indexOf", "hello", vec![NativeArg::Object]), Some(NativeResult::Int(0)));
    assert_eq!(call("indexOf", "hello", vec![NativeArg::Null]), Some(NativeResult::Int(-1)));
    assert_eq!(call("indexOf", "hello", vec![]), Some(NativeResult::Int(-1)));
    assert_eq!(call("lastIndexOf", "hello", vec![NativeArg::Int('l' as i32)]), Some(NativeResult::Int(3)));
    assert_eq!(call("lastIndexOf", "h\u{e9}llo", vec![NativeArg::Int(0xe9)]), Some(NativeResult::Int(1)));
    assert_eq!(call("lastIndexOf", "hello", vec![NativeArg::Int(0x11_0000)]), Some(NativeResult::Int(-1)));
    assert_eq!(call("lastIndexOf", "a\u{0}b", vec![NativeArg::Int(-5)]), Some(NativeResult::Int(1)));
}

#[test]
fn trim_and_case() {
    assert_eq!(call("trim", " \t x y \n", vec![]), Some(NativeResult::Str("x y".to_string())));
    assert_eq!(call("trim", "\u{3000}x\u{a0}", vec![]), Some(NativeResult::Str("x".to_string())));
    assert_eq!(call("trim", "   ", vec![]), Some(NativeResult::Str(String::new())));
    assert_eq!(call("toLowerCase", "HeLLo \u{c9}", vec![]), Some(NativeResult::Str("hello \u{e9}".to_string())));
    assert_eq!(call("toUpperCase", "stra\u{df}e", vec![]), Some(NativeResult::Str("STRASSE".to_string())));
}
