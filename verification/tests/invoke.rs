use jvm_core::bytecode::Value;
use jvm_core::invoke::{lambda_applies, lambda_arguments, record_hash_code, record_to_string, LambdaCall};

#[test]
fn record_hash_combines_components() {
    assert_eq!(record_hash_code(&vec![]), 0);
    assert_eq!(record_hash_code(&vec![1, 2]), 33);
    // wraps around like Java's int arithmetic
    assert_eq!(record_hash_code(&vec![i32::MAX, 1]), i32::MAX.wrapping_mul(31).wrapping_add(1));
}

#[test]
fn record_to_string_lists_components() {
    let names = vec!["x".to_string(), "y".to_string()];
    let values = vec!["1".to_string(), "2".to_string()];
    assert_eq!(record_to_string("Point", &names, &values), "Point[x=1, y=2]");
    assert_eq!(record_to_string("Empty", &vec![], &vec![]), "Empty[]");
    // only components with both a name and a value
    assert_eq!(record_to_string("P", &names, &vec!["7".to_string()]), "P[x=7]");
}

#[test]
fn lambda_call_arguments() {
    let captured = vec![Value::Int(1)];
    assert_eq!(
        lambda_arguments(&captured, vec![Value::Int(2)], 5),
        Ok((LambdaCall::Virtual, Some(Value::Int(1)), vec![Value::Int(2)]))
    );
    assert_eq!(
        lambda_arguments(&captured, vec![Value::Int(2)], 6),
        Ok((LambdaCall::Static, None, vec![Value::Int(1), Value::Int(2)]))
    );
    assert_eq!(lambda_arguments(&vec![], vec![], 8), Ok((LambdaCall::Constructor, None, vec![])));
    assert_eq!(
        lambda_arguments(&vec![], vec![], 9),
        Err("Lambda invoke_virtual: missing receiver argument".to_string())
    );
}

#[test]
fn lambda_applies_by_name_and_arity() {
    assert!(lambda_applies("apply", "(Ljava/lang/Object;)Ljava/lang/Object;", "apply", "(I)I"));
    assert!(!lambda_applies("test", "(I)Z", "apply", "(I)I"));
    assert!(!lambda_applies("apply", "(II)I", "apply", "(I)I"));
}
