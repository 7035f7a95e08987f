use jvm_core::java_strings::{string_from_init_args, StringInitArg};

fn codes(s: &str) -> Vec<i32> {
    s.chars().map(|c| c as i32).collect()
}

#[test]
fn char_array_constructor_copies_all_characters() {
    let arr = StringInitArg::Array(codes("hello"));
    assert_eq!(string_from_init_args("([C)V", &arr, &vec![]), "hello");
    // Only the low byte of each element is kept.
    let wide = StringInitArg::Array(vec![0x141, 0x42]);
    assert_eq!(string_from_init_args("([C)V", &wide, &vec![]), "AB");
}

#[test]
fn char_array_window_keeps_full_code_points() {
    let arr = StringInitArg::Array(vec![0x48, 0x3b1, 0x1F600, 0xD800, 0x21]);
    assert_eq!(string_from_init_args("([CII)V", &arr, &vec![1, 3]), "\u{3b1}\u{1F600}?");
    assert_eq!(string_from_init_args("([CII)V", &arr, &vec![0, 0]), "");
}

#[test]
fn byte_array_constructors_decode_latin1() {
    let bytes = StringInitArg::Array(vec![0x4a, 0x61, 0x76, 0x61, -23]);
    assert_eq!(string_from_init_args("([B)V", &bytes, &vec![]), "Java\u{e9}");
    assert_eq!(string_from_init_args("([BLjava/lang/String;)V", &bytes, &vec![]), "Java\u{e9}");
    assert_eq!(string_from_init_args("([BLjava/nio/charset/Charset;)V", &bytes, &vec![]), "Java\u{e9}");
}

#[test]
fn byte_window_is_cut_to_the_array() {
    let bytes = StringInitArg::Array(codes("abcdef"));
    assert_eq!(string_from_init_args("([BII)V", &bytes, &vec![1, 3]), "bcd");
    assert_eq!(string_from_init_args("([BIILjava/lang/String;)V", &bytes, &vec![4, 10]), "ef");
    assert_eq!(string_from_init_args("([BIILjava/nio/charset/Charset;)V", &bytes, &vec![-2, 2]), "ab");
    assert_eq!(string_from_init_args("([BII)V", &bytes, &vec![9, 1]), "");
    assert_eq!(string_from_init_args("([BII)V", &bytes, &vec![]), "");
    assert_eq!(string_from_init_args("([BIII)V", &bytes, &vec![0, 2, 2]), "cd");
}

#[test]
fn copy_constructor_and_others() {
    let text = StringInitArg::Text("copy me".to_string());
    assert_eq!(string_from_init_args("(Ljava/lang/String;)V", &text, &vec![]), "copy me");
    assert_eq!(string_from_init_args("(Ljava/lang/String;)V", &StringInitArg::Missing, &vec![]), "");
    assert_eq!(string_from_init_args("()V", &text, &vec![]), "");
    assert_eq!(string_from_init_args("([C)V", &StringInitArg::Other, &vec![]), "");
    assert_eq!(string_from_init_args("(I)V", &StringInitArg::Array(codes("x")), &vec![]), "");
}
