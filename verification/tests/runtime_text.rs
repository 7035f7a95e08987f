use jvm_core::collections::hash_map_with_capacity;
use jvm_core::exceptions::{exception_class_from_err_msg, exception_from_err_msg, normalize_exception_class_head};
use jvm_core::frame::{
    array_index, array_oob, check_final_static_field_write_resolved, parse_frame_owner_for_field_access,
};
use jvm_core::java_strings::push_utf16_str;
use jvm_core::resolution::{
    array_descriptor_for_component, is_inherited_interface_method_candidate, is_public_instance_method,
    is_vm_defined_mirror_name,
};

#[test]
fn class_head_is_cut_and_trimmed() {
    assert_eq!(
        normalize_exception_class_head("  java/lang/IllegalStateException: bad state at Foo.bar | more"),
        "java/lang/IllegalStateException"
    );
    assert_eq!(normalize_exception_class_head("java/io/IOException at X"), "java/io/IOException");
    assert_eq!(normalize_exception_class_head("\u{3000}x\t"), "x");
}

#[test]
fn exception_class_is_found_in_the_error() {
    assert_eq!(exception_class_from_err_msg("java/lang/ArithmeticException: / by zero"), "java/lang/ArithmeticException");
    assert_eq!(exception_class_from_err_msg("javax/foo/Bar: x"), "javax/foo/Bar");
    assert_eq!(exception_class_from_err_msg("Exception: pkg/MyErr: oops"), "pkg/MyErr");
    assert_eq!(exception_class_from_err_msg("NullPointerException at 3"), "java/lang/NullPointerException");
    assert_eq!(exception_class_from_err_msg("ClassCastException: x"), "java/lang/ClassCastException");
    assert_eq!(exception_class_from_err_msg("an ArithmeticException happened"), "java/lang/ArithmeticException");
    assert_eq!(exception_class_from_err_msg("deep StackOverflowError"), "java/lang/StackOverflowError");
    assert_eq!(
        exception_class_from_err_msg("UnsupportedOperationException"),
        "java/lang/UnsupportedOperationException"
    );
    assert_eq!(exception_class_from_err_msg("ArrayIndexOutOfBoundsException"), "java/lang/IndexOutOfBoundsException");
    assert_eq!(exception_class_from_err_msg("something else"), "java/lang/RuntimeException");
}

#[test]
fn exception_message_drops_the_class_prefix() {
    assert_eq!(
        exception_from_err_msg("Exception: pkg/MyErr: oops: twice"),
        ("pkg/MyErr".to_owned(), "oops: twice".to_owned())
    );
    assert_eq!(
        exception_from_err_msg("Exception: nothing"),
        ("nothing".to_owned(), "Exception: nothing".to_owned())
    );
    assert_eq!(
        exception_from_err_msg("java/lang/Error: x"),
        ("java/lang/Error".to_owned(), "java/lang/Error: x".to_owned())
    );
}

#[test]
fn frame_owner_is_the_class_before_the_method() {
    assert_eq!(
        parse_frame_owner_for_field_access("pkg/Foo.bar(I)V"),
        Some("pkg/Foo".to_owned())
    );
    assert_eq!(
        parse_frame_owner_for_field_access("a.b.c(Ljava/lang/String;)V"),
        Some("a.b".to_owned())
    );
    assert_eq!(parse_frame_owner_for_field_access("pkg/Foo.bar"), None);
    assert_eq!(parse_frame_owner_for_field_access("bar()V"), None);
}

#[test]
fn array_index_rejects_negative_indices() {
    assert_eq!(array_index(4), Ok(4));
    assert_eq!(
        array_index(-1),
        Err("java/lang/ArrayIndexOutOfBoundsException: Index -1 out of bounds".to_owned())
    );
    assert_eq!(array_oob(12), "java/lang/ArrayIndexOutOfBoundsException: Index 12 out of bounds");
}

#[test]
fn utf16_encoding_uses_surrogate_pairs() {
    let mut out = vec![1u16];
    push_utf16_str(&mut out, "a\u{e9}\u{1F600}");
    assert_eq!(out, vec![1, 0x61, 0xe9, 0xD83D, 0xDE00]);
}

#[test]
fn empty_map_with_capacity() {
    let m: std::collections::HashMap<u32, u32> = hash_map_with_capacity(16);
    assert!(m.is_empty());
    assert!(m.capacity() >= 16);
}

#[test]
fn member_resolution_helpers() {
    assert!(is_public_instance_method(0x0001));
    assert!(!is_public_instance_method(0x0009));
    assert!(!is_public_instance_method(0x0002));
    assert!(is_inherited_interface_method_candidate(0x0401));
    assert!(!is_inherited_interface_method_candidate(0x0002));
    assert!(!is_inherited_interface_method_candidate(0x0008));
    assert!(is_vm_defined_mirror_name("[I"));
    assert!(is_vm_defined_mirror_name("int"));
    assert!(is_vm_defined_mirror_name("void"));
    assert!(!is_vm_defined_mirror_name("java/lang/Integer"));
    assert_eq!(array_descriptor_for_component("java/lang/String"), "[Ljava/lang/String;");
    assert_eq!(array_descriptor_for_component("[I"), "[[I");
}

#[test]
fn final_static_field_may_only_be_written_by_its_class() {
    assert_eq!(check_final_static_field_write_resolved("pkg/A", "X", 0x0008, "pkg/B.run()V"), Ok(()));
    assert_eq!(check_final_static_field_write_resolved("pkg/A", "X", 0x0018, "pkg/A.<clinit>()V"), Ok(()));
    assert_eq!(
        check_final_static_field_write_resolved("pkg/A", "X", 0x0018, "pkg/B.run()V"),
        Err("java/lang/IllegalAccessError: Update to static final field pkg/A.X attempted from pkg/B.run()V".to_string())
    );
    assert_eq!(
        check_final_static_field_write_resolved("pkg/A", "X", 0x0018, "garbage"),
        Err("java/lang/IllegalAccessError: Update to static final field pkg/A.X attempted from garbage".to_string())
    );
}
