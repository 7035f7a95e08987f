use jvm_core::class_identity::{ClassIdentityRegistry, LoaderId};
use jvm_core::dispatch::{check_static_target, monitor_call, returns_value, MonitorCall};
use jvm_core::hierarchy::ResolvedMethodTarget;

fn target(flags: u16) -> ResolvedMethodTarget {
    let mut r = ClassIdentityRegistry::new();
    let id = r.register_defined_class(LoaderId::SYSTEM, "pkg/A");
    ResolvedMethodTarget {
        owner_class_id: id,
        owner_class: "pkg/A".to_string(),
        name: "run".to_string(),
        descriptor: "()V".to_string(),
        access_flags: flags,
    }
}

#[test]
fn invokestatic_needs_a_static_method() {
    assert_eq!(check_static_target(&target(0x0009)), Ok(()));
    assert_eq!(
        check_static_target(&target(0x0001)),
        Err("java/lang/IncompatibleClassChangeError: pkg/A.run()V".to_string()),
    );
}

#[test]
fn monitor_methods_are_recognised() {
    assert_eq!(monitor_call("wait", "()V"), Some(MonitorCall::Wait));
    assert_eq!(monitor_call("wait", "(J)V"), Some(MonitorCall::Wait));
    assert_eq!(monitor_call("wait", "(JI)V"), None);
    assert_eq!(monitor_call("notify", "()V"), Some(MonitorCall::Notify));
    assert_eq!(monitor_call("notifyAll", "()V"), Some(MonitorCall::NotifyAll));
    assert_eq!(monitor_call("toString", "()Ljava/lang/String;"), None);
}

#[test]
fn void_calls_push_nothing() {
    assert!(!returns_value("()V"));
    assert!(!returns_value("(I)V"));
    assert!(returns_value("()I"));
    assert!(returns_value("(V)Ljava/lang/Object;"));
}
