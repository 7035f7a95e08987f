use jvm_core::class_identity::{ClassIdentityRegistry, DefineClassError, LoaderId, LoaderTable};
use jvm_core::hierarchy::class_id_for_mirror_name;

#[test]
fn same_name_and_defining_loader_reuses_class_id() {
    let mut registry = ClassIdentityRegistry::new();

    let first = registry.register_defined_class(LoaderId::BOOTSTRAP, "pkg/Thing");
    let second = registry.register_defined_class(LoaderId::BOOTSTRAP, "pkg/Thing");

    assert_eq!(first, second);
}

#[test]
fn same_name_under_distinct_defining_loaders_gets_distinct_class_ids() {
    let mut registry = ClassIdentityRegistry::new();

    let bootstrap = registry.register_defined_class(LoaderId::BOOTSTRAP, "pkg/Thing");
    let system = registry.register_defined_class(LoaderId::SYSTEM, "pkg/Thing");

    assert_ne!(bootstrap, system);
    assert_ne!(LoaderId::BOOTSTRAP, LoaderId::SYSTEM);
    assert_eq!(
        registry.class_id_for_defined(LoaderId::BOOTSTRAP, "pkg/Thing"),
        Some(bootstrap),
    );
    assert_eq!(
        registry.class_id_for_defined(LoaderId::SYSTEM, "pkg/Thing"),
        Some(system),
    );
}

#[test]
fn initiating_loader_record_does_not_change_defining_loader_identity() {
    let mut registry = ClassIdentityRegistry::new();

    let class_id = registry.register_defined_class(LoaderId::BOOTSTRAP, "pkg/Thing");
    registry.record_initiating_loader(LoaderId::SYSTEM, "pkg/Thing", class_id);

    assert_eq!(
        registry.class_id_for_initiating(LoaderId::SYSTEM, "pkg/Thing"),
        Some(class_id),
    );
    assert_eq!(
        registry
            .class_record(class_id)
            .map(|record| record.defining_loader),
        Some(LoaderId::BOOTSTRAP),
    );
}

#[test]
fn duplicate_define_reports_existing_class_id() {
    let mut registry = ClassIdentityRegistry::new();

    let first = registry
        .try_register_defined_class(LoaderId::BOOTSTRAP, "pkg/Thing")
        .expect("first definition");
    let duplicate = registry.try_register_defined_class(LoaderId::BOOTSTRAP, "pkg/Thing");

    assert!(matches!(
        duplicate,
        Err(DefineClassError::Duplicate(existing)) if existing == first
    ));
}

#[test]
fn record_holds_binary_name_and_defining_loader() {
    let mut registry = ClassIdentityRegistry::new();
    let id = registry.register_defined_class(LoaderId::new(7), "java/lang/String");
    let record = registry.class_record(id).expect("record");
    assert_eq!(record.internal_name, "java/lang/String");
    assert_eq!(record.binary_name, "java.lang.String");
    assert_eq!(record.defining_loader, LoaderId::new(7));
    assert_eq!(LoaderId::new(0), LoaderId::BOOTSTRAP);
    assert_eq!(LoaderId::new(1), LoaderId::SYSTEM);
}

#[test]
fn lookups_of_unknown_names_find_nothing() {
    let mut registry = ClassIdentityRegistry::new();
    let id = registry.register_defined_class(LoaderId::SYSTEM, "a/B");
    assert_eq!(registry.class_id_for_defined(LoaderId::BOOTSTRAP, "a/B"), None);
    assert_eq!(registry.class_id_for_defined(LoaderId::SYSTEM, "a/C"), None);
    assert_eq!(registry.class_id_for_initiating(LoaderId::SYSTEM, "a/B"), None);
    registry.record_initiating_loader(LoaderId::SYSTEM, "a/B", id);
    let other = registry.register_defined_class(LoaderId::SYSTEM, "a/C");
    registry.record_initiating_loader(LoaderId::SYSTEM, "a/B", other);
    assert_eq!(registry.class_id_for_initiating(LoaderId::SYSTEM, "a/B"), Some(other));
    assert_eq!(registry.class_id_for_defined(LoaderId::SYSTEM, "a/B"), Some(id));
}

#[test]
fn class_loader_objects_get_stable_distinct_loader_ids() {
    let mut t = LoaderTable::new();
    let a = t.loader_id_for_classloader(0x10);
    let b = t.loader_id_for_classloader(0x20);
    assert_eq!(a, LoaderId::new(2));
    assert_eq!(b, LoaderId::new(3));
    assert_eq!(t.loader_id_for_classloader(0x10), a);
    t.register_system_loader(0x30);
    assert_eq!(t.loader_id_for_classloader(0x30), LoaderId::SYSTEM);
    assert_eq!(t.loader_id_for_classloader(0x40), LoaderId::new(4));
}

#[test]
fn mirror_names_map_to_loaded_classes_or_new_records() {
    let mut registry = ClassIdentityRegistry::new();
    let thing = registry.register_defined_class(LoaderId::SYSTEM, "pkg/Thing");
    assert_eq!(class_id_for_mirror_name(&mut registry, "pkg/Thing"), thing);

    let int_array = class_id_for_mirror_name(&mut registry, "[I");
    assert_eq!(registry.class_record(int_array).unwrap().defining_loader, LoaderId::BOOTSTRAP);
    assert_eq!(class_id_for_mirror_name(&mut registry, "[I"), int_array);

    let other = class_id_for_mirror_name(&mut registry, "pkg/Other");
    assert_eq!(registry.class_record(other).unwrap().defining_loader, LoaderId::SYSTEM);
    assert_ne!(other, thing);
}
