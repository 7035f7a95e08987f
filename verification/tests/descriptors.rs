use jvm_core::descriptors::{
    arg_type_chars, class_display_name, class_internal_name_from_runtime_name, count_args,
    descriptor_to_class_name, descriptor_to_runtime_class_name, is_reference_descriptor,
    method_return_descriptor, parse_method_descriptor, parse_method_descriptor_tokens, read_i16,
    read_i32, read_u16,
};

#[test]
fn descriptors_test_count_args() {
    assert_eq!(count_args("()V"), 0);
    assert_eq!(count_args("(I)V"), 1);
    assert_eq!(count_args("(ILjava/lang/String;Z)V"), 3);
    assert_eq!(
        count_args("(Ljava/lang/Object;Lnet/unit8/raoh/Path;)Lnet/unit8/raoh/Result;"),
        2
    );
}

#[test]
fn interpreter_test_count_args() {
    assert_eq!(count_args("()V"), 0);
    assert_eq!(count_args("(I)V"), 1);
    assert_eq!(count_args("(ILjava/lang/String;Z)V"), 3);
    assert_eq!(
        count_args("(Ljava/lang/Object;Lnet/unit8/raoh/Path;)Lnet/unit8/raoh/Result;"),
        2
    );
}

#[test]
fn count_args_handles_arrays_and_bad_input() {
    assert_eq!(count_args("([[ILjava/lang/String;[Ljava/lang/Object;J)V"), 4);
    assert_eq!(count_args("V"), 0);
    assert_eq!(count_args(""), 0);
    assert_eq!(count_args("(II"), 2);
}

#[test]
fn arg_type_chars_gives_first_char_of_each_argument() {
    assert_eq!(arg_type_chars("(I[JLjava/lang/String;D)V"), vec!['I', '[', 'L', 'D']);
    assert_eq!(arg_type_chars("()V"), Vec::<char>::new());
    assert_eq!(arg_type_chars("I"), Vec::<char>::new());
    assert_eq!(
        arg_type_chars("(ILjava/lang/String;Z)V").len(),
        count_args("(ILjava/lang/String;Z)V")
    );
}

#[test]
fn return_descriptor_and_reference_check() {
    assert_eq!(method_return_descriptor("(I)Ljava/lang/String;"), Some("Ljava/lang/String;"));
    assert_eq!(method_return_descriptor("()V"), Some("V"));
    assert_eq!(method_return_descriptor("I"), None);
    assert!(is_reference_descriptor("Ljava/lang/Object;"));
    assert!(is_reference_descriptor("[I"));
    assert!(!is_reference_descriptor("I"));
    assert!(!is_reference_descriptor(""));
}

#[test]
fn class_names_from_descriptors() {
    assert_eq!(descriptor_to_class_name("Ljava/lang/String;"), Some("java/lang/String".to_owned()));
    assert_eq!(descriptor_to_class_name("[I"), Some("[I".to_owned()));
    assert_eq!(descriptor_to_class_name("I"), None);
    assert_eq!(descriptor_to_class_name(""), None);
    assert_eq!(descriptor_to_runtime_class_name("I"), "int");
    assert_eq!(descriptor_to_runtime_class_name("Z"), "boolean");
    assert_eq!(descriptor_to_runtime_class_name("V"), "void");
    assert_eq!(descriptor_to_runtime_class_name("Ljava/util/List;"), "java/util/List");
    assert_eq!(descriptor_to_runtime_class_name("L"), "java/lang/Object");
    assert_eq!(descriptor_to_runtime_class_name("[J"), "[J");
    assert_eq!(descriptor_to_runtime_class_name("Q"), "java/lang/Object");
    assert_eq!(descriptor_to_runtime_class_name(""), "java/lang/Object");
}

#[test]
fn method_descriptor_tokens() {
    let (params, ret) = parse_method_descriptor_tokens("(I[JLjava/lang/String;[[Lx/Y;)V");
    assert_eq!(params, vec!["I", "[J", "Ljava/lang/String;", "[[Lx/Y;"]);
    assert_eq!(ret, "V");
    let (params, ret) = parse_method_descriptor_tokens("V");
    assert!(params.is_empty());
    assert_eq!(ret, "V");
    let (params, ret) = parse_method_descriptor_tokens("(Ljava/lang/Str");
    assert_eq!(params, vec!["Ljava/lang/Str"]);
    assert_eq!(ret, "");
    let (params, ret) = parse_method_descriptor_tokens("(I[");
    assert_eq!(params, vec!["I"]);
    assert_eq!(ret, "");
}

#[test]
fn method_descriptor_runtime_names() {
    let (params, ret) = parse_method_descriptor("(I[JLjava/lang/String;)Ljava/util/List;");
    assert_eq!(params, vec!["int", "[J", "java/lang/String"]);
    assert_eq!(ret, "java/util/List");
    let (params, ret) = parse_method_descriptor("x");
    assert!(params.is_empty());
    assert_eq!(ret, "void");
}

#[test]
fn display_and_internal_names() {
    assert_eq!(class_display_name("java/lang/String"), "java.lang.String");
    assert_eq!(class_internal_name_from_runtime_name("java.lang.String"), "java/lang/String");
}

#[test]
fn bytecode_operands() {
    let code = [0xFFu8, 0xFE, 0x12, 0x34, 0x80, 0x00, 0x00, 0x01];
    let mut pc = 0usize;
    assert_eq!(read_i16(&code, &mut pc), -2);
    assert_eq!(pc, 2);
    assert_eq!(read_u16(&code, &mut pc), 0x1234);
    assert_eq!(read_i32(&code, &mut pc), i32::MIN + 1);
    assert_eq!(pc, 8);
}
