use jvm_core::class_identity::{ClassIdentityRegistry, LoaderId};
use jvm_core::loading::{
    array_component, array_defining_loader, finish_array_class, finish_loader_lookup, finish_local_lookup,
    initiating_loader_for, primitive_array_class_id, resolve_array_class_for_component, ArrayComponent,
};

#[test]
fn lookups_start_from_the_callers_defining_loader() {
    let mut registry = ClassIdentityRegistry::new();
    let user = LoaderId::new(7);
    let caller = registry.register_defined_class(user, "app/Main");
    assert_eq!(initiating_loader_for(&registry, caller), user);
    let boot = registry.register_defined_class(LoaderId::BOOTSTRAP, "java/lang/String");
    assert_eq!(initiating_loader_for(&registry, boot), LoaderId::BOOTSTRAP);
}

#[test]
fn loader_outcomes_become_results() {
    let mut registry = ClassIdentityRegistry::new();
    let user = LoaderId::new(2);
    let helper = registry.register_defined_class(user, "app/Helper");

    assert_eq!(finish_loader_lookup(&mut registry, user, "app/Helper", Ok(Some(helper))), Ok(helper));
    assert_eq!(registry.class_id_for_initiating(user, "app/Helper"), Some(helper));

    assert_eq!(
        finish_loader_lookup(&mut registry, user, "app/Gone", Ok(None)),
        Err("java/lang/NoClassDefFoundError: app/Gone".to_string())
    );
    assert_eq!(
        finish_loader_lookup(
            &mut registry,
            user,
            "app/Gone",
            Err("java/lang/ClassNotFoundException: app.Gone".to_string())
        ),
        Err("java/lang/NoClassDefFoundError: app/Gone".to_string())
    );
    assert_eq!(
        finish_loader_lookup(&mut registry, user, "app/Bad", Err("java/lang/SecurityException: no".to_string())),
        Err("java/lang/SecurityException: no".to_string())
    );
    assert_eq!(registry.class_id_for_initiating(user, "app/Gone"), None);
}

#[test]
fn local_lookup_prefers_the_initiating_then_system_then_bootstrap_definition() {
    let mut registry = ClassIdentityRegistry::new();
    let user = LoaderId::new(3);
    let boot = registry.register_defined_class(LoaderId::BOOTSTRAP, "pkg/Thing");
    assert_eq!(finish_local_lookup(&mut registry, user, "pkg/Thing", false), Ok(boot));
    let system = registry.register_defined_class(LoaderId::SYSTEM, "pkg/Thing");
    assert_eq!(finish_local_lookup(&mut registry, user, "pkg/Thing", false), Ok(system));
    let own = registry.register_defined_class(user, "pkg/Thing");
    assert_eq!(finish_local_lookup(&mut registry, user, "pkg/Thing", false), Ok(own));
    assert_eq!(registry.class_id_for_initiating(user, "pkg/Thing"), Some(own));

    assert_eq!(
        finish_local_lookup(&mut registry, user, "pkg/Missing", false),
        Err("java/lang/NoClassDefFoundError: pkg/Missing".to_string())
    );
    assert_eq!(
        finish_local_lookup(&mut registry, user, "pkg/Thing", true),
        Err("java/lang/ClassFormatError: malformed class file for pkg/Thing".to_string())
    );
}

#[test]
fn array_descriptors_name_their_components() {
    assert_eq!(array_component("[I"), Ok(ArrayComponent::Primitive));
    assert_eq!(array_component("[Ljava/lang/String;"), Ok(ArrayComponent::Class("java/lang/String".to_string())));
    assert_eq!(array_component("[[J"), Ok(ArrayComponent::Array("[J".to_string())));
    assert_eq!(array_component("[L"), Err("java/lang/NoClassDefFoundError: [L".to_string()));
    assert_eq!(array_component("[Lpkg/X"), Err("java/lang/NoClassDefFoundError: [Lpkg/X".to_string()));
    assert_eq!(array_component("[Q"), Err("java/lang/NoClassDefFoundError: [Q".to_string()));
    assert_eq!(array_component("["), Err("java/lang/NoClassDefFoundError: [".to_string()));
}

#[test]
fn array_classes_are_defined_by_their_components_loader() {
    let mut registry = ClassIdentityRegistry::new();
    let user = LoaderId::new(4);
    let caller = registry.register_defined_class(user, "app/Main");
    let item = registry.register_defined_class(user, "app/Item");

    let prim = ArrayComponent::Primitive;
    assert_eq!(array_defining_loader(&registry, &prim, None), LoaderId::BOOTSTRAP);
    let class = ArrayComponent::Class("app/Item".to_string());
    assert_eq!(array_defining_loader(&registry, &class, Some(item)), user);
    assert_eq!(array_defining_loader(&registry, &class, None), LoaderId::SYSTEM);
    let nested = ArrayComponent::Array("[I".to_string());
    assert_eq!(array_defining_loader(&registry, &nested, None), LoaderId::BOOTSTRAP);

    let items = finish_array_class(&mut registry, caller, "[Lapp/Item;", user);
    assert_eq!(registry.class_id_for_defined(user, "[Lapp/Item;"), Some(items));
    assert_eq!(registry.class_id_for_initiating(user, "[Lapp/Item;"), Some(items));

    let ints = finish_array_class(&mut registry, caller, "[I", LoaderId::BOOTSTRAP);
    assert_eq!(registry.class_id_for_defined(LoaderId::BOOTSTRAP, "[I"), Some(ints));
    assert_eq!(registry.class_id_for_initiating(LoaderId::BOOTSTRAP, "[I"), Some(ints));
    assert_eq!(registry.class_id_for_initiating(user, "[I"), Some(ints));
    assert_eq!(finish_array_class(&mut registry, caller, "[I", LoaderId::BOOTSTRAP), ints);
}

#[test]
fn array_class_of_a_resolved_component() {
    let mut registry = ClassIdentityRegistry::new();
    let user = LoaderId::new(5);
    let caller = registry.register_defined_class(LoaderId::SYSTEM, "app/Main");
    let item = registry.register_defined_class(user, "app/Item");
    let items = resolve_array_class_for_component(&mut registry, caller, item).expect("array");
    assert_eq!(registry.class_record(items).unwrap().internal_name, "[Lapp/Item;");
    assert_eq!(registry.class_record(items).unwrap().defining_loader, user);
    assert_eq!(registry.class_id_for_initiating(user, "[Lapp/Item;"), Some(items));
    assert_eq!(registry.class_id_for_initiating(LoaderId::SYSTEM, "[Lapp/Item;"), Some(items));
    let nested = resolve_array_class_for_component(&mut registry, caller, items).expect("array");
    assert_eq!(registry.class_record(nested).unwrap().internal_name, "[[Lapp/Item;");

    let mut other = ClassIdentityRegistry::new();
    let bogus = other.register_defined_class(LoaderId::SYSTEM, "x/Y");
    let mut empty = ClassIdentityRegistry::new();
    assert_eq!(
        resolve_array_class_for_component(&mut empty, caller, bogus),
        Err("java/lang/NoClassDefFoundError: invalid array component".to_string())
    );

    let ints = primitive_array_class_id(&mut registry, "[I");
    assert_eq!(registry.class_record(ints).unwrap().defining_loader, LoaderId::BOOTSTRAP);
    assert_eq!(primitive_array_class_id(&mut registry, "[I"), ints);
}
