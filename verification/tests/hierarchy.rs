use jvm_core::class_file::{ConstantPoolEntry, ExceptionTableEntry};
use jvm_core::class_identity::{ClassId, ClassIdentityRegistry, LoaderId};
use jvm_core::hierarchy::{
    symbolic_field_reference, symbolic_method_reference, ClassHierarchy, LinkError, LinkedClass,
    MemberDecl, SymbolicMember,
};

const PUBLIC: u16 = 0x0001;
const PRIVATE: u16 = 0x0002;
const STATIC: u16 = 0x0008;
const INTERFACE: u16 = 0x0200;
const ABSTRACT: u16 = 0x0400;

fn member(name: &str, descriptor: &str, access_flags: u16) -> MemberDecl {
    MemberDecl { name: name.to_string(), descriptor: descriptor.to_string(), access_flags }
}

fn class(
    id: ClassId,
    name: &str,
    access_flags: u16,
    super_id: Option<ClassId>,
    interface_ids: Vec<ClassId>,
    methods: Vec<MemberDecl>,
    fields: Vec<MemberDecl>,
) -> LinkedClass {
    LinkedClass {
        id,
        name: name.to_string(),
        access_flags,
        super_id,
        interface_ids,
        methods,
        fields,
    }
}

struct World {
    registry: ClassIdentityRegistry,
    hierarchy: ClassHierarchy,
}

impl World {
    fn new() -> World {
        World { registry: ClassIdentityRegistry::new(), hierarchy: ClassHierarchy::new() }
    }

    fn define(
        &mut self,
        name: &str,
        access_flags: u16,
        super_id: Option<ClassId>,
        interface_ids: Vec<ClassId>,
        methods: Vec<MemberDecl>,
        fields: Vec<MemberDecl>,
    ) -> ClassId {
        let id = self.registry.register_defined_class(LoaderId::SYSTEM, name);
        self.hierarchy
            .link(class(id, name, access_flags, super_id, interface_ids, methods, fields))
            .expect("link");
        id
    }
}

#[test]
fn method_declared_in_superclass_is_found_there() {
    let mut w = World::new();
    let object = w.define("java/lang/Object", PUBLIC, None, vec![], vec![member("toString", "()Ljava/lang/String;", PUBLIC)], vec![]);
    let base = w.define("pkg/Base", PUBLIC, Some(object), vec![], vec![member("run", "()V", PUBLIC)], vec![]);
    let derived = w.define("pkg/Derived", PUBLIC, Some(base), vec![], vec![], vec![]);

    let target = w.hierarchy.find_method_owner_by_class_id(derived, "run", "()V").expect("found");
    assert_eq!(target.owner_class_id, base);
    assert_eq!(target.owner_class, "pkg/Base");
    assert_eq!(target.name, "run");
    assert_eq!(target.descriptor, "()V");

    let to_string = w
        .hierarchy
        .find_method_owner_by_class_id(derived, "toString", "()Ljava/lang/String;")
        .expect("found");
    assert_eq!(to_string.owner_class, "java/lang/Object");

    assert!(w.hierarchy.find_method_owner_by_class_id(derived, "run", "(I)V").is_none());
}

#[test]
fn overriding_declaration_wins_over_superclass() {
    let mut w = World::new();
    let base = w.define("pkg/Base", PUBLIC, None, vec![], vec![member("run", "()V", PUBLIC)], vec![]);
    let derived = w.define("pkg/Derived", PUBLIC, Some(base), vec![], vec![member("run", "()V", PUBLIC)], vec![]);
    let target = w.hierarchy.find_method_owner_by_class_id(derived, "run", "()V").expect("found");
    assert_eq!(target.owner_class_id, derived);
}

#[test]
fn default_method_is_found_through_interface() {
    let mut w = World::new();
    let greeter = w.define("pkg/Greeter", PUBLIC | INTERFACE | ABSTRACT, None, vec![], vec![member("greet", "()V", PUBLIC)], vec![]);
    let impl_class = w.define("pkg/Impl", PUBLIC, None, vec![greeter], vec![], vec![]);
    let target = w.hierarchy.find_method_owner_by_class_id(impl_class, "greet", "()V").expect("found");
    assert_eq!(target.owner_class, "pkg/Greeter");
}

#[test]
fn maximally_specific_default_method_is_chosen() {
    let mut w = World::new();
    let i1 = w.define("pkg/I1", PUBLIC | INTERFACE | ABSTRACT, None, vec![], vec![member("m", "()V", PUBLIC)], vec![]);
    let i2 = w.define("pkg/I2", PUBLIC | INTERFACE | ABSTRACT, None, vec![i1], vec![member("m", "()V", PUBLIC)], vec![]);
    let c = w.define("pkg/C", PUBLIC, None, vec![i1, i2], vec![], vec![]);

    let candidates = w.hierarchy.superinterface_method_candidates(c, "m", "()V");
    let owners: Vec<&str> = candidates.iter().map(|t| t.owner_class.as_str()).collect();
    assert_eq!(owners, vec!["pkg/I1", "pkg/I2"]);

    let target = w.hierarchy.find_method_owner_by_class_id(c, "m", "()V").expect("found");
    assert_eq!(target.owner_class_id, i2);
}

#[test]
fn ambiguous_defaults_fall_back_to_the_first_candidate() {
    let mut w = World::new();
    let a = w.define("pkg/A", PUBLIC | INTERFACE | ABSTRACT, None, vec![], vec![member("m", "()V", PUBLIC)], vec![]);
    let b = w.define("pkg/B", PUBLIC | INTERFACE | ABSTRACT, None, vec![], vec![member("m", "()V", PUBLIC)], vec![]);
    let c = w.define("pkg/C", PUBLIC, None, vec![b, a], vec![], vec![]);
    let target = w.hierarchy.find_method_owner_by_class_id(c, "m", "()V").expect("found");
    assert_eq!(target.owner_class_id, b);
}

#[test]
fn single_concrete_default_beats_abstract_declarations() {
    let mut w = World::new();
    let a = w.define("pkg/A", PUBLIC | INTERFACE | ABSTRACT, None, vec![], vec![member("m", "()V", PUBLIC | ABSTRACT)], vec![]);
    let b = w.define("pkg/B", PUBLIC | INTERFACE | ABSTRACT, None, vec![], vec![member("m", "()V", PUBLIC)], vec![]);
    let c = w.define("pkg/C", PUBLIC, None, vec![a, b], vec![], vec![]);
    let target = w.hierarchy.find_method_owner_by_class_id(c, "m", "()V").expect("found");
    assert_eq!(target.owner_class_id, b);
}

#[test]
fn private_and_static_interface_methods_are_not_inherited() {
    let mut w = World::new();
    let a = w.define(
        "pkg/A",
        PUBLIC | INTERFACE | ABSTRACT,
        None,
        vec![],
        vec![member("p", "()V", PRIVATE), member("s", "()V", PUBLIC | STATIC)],
        vec![],
    );
    let c = w.define("pkg/C", PUBLIC, None, vec![a], vec![], vec![]);
    assert!(w.hierarchy.superinterface_method_candidates(c, "p", "()V").is_empty());
    assert!(w.hierarchy.find_method_owner_by_class_id(c, "s", "()V").is_none());
}

#[test]
fn shared_superinterface_is_visited_once() {
    let mut w = World::new();
    let top = w.define("pkg/Top", PUBLIC | INTERFACE | ABSTRACT, None, vec![], vec![member("m", "()V", PUBLIC | ABSTRACT)], vec![]);
    let left = w.define("pkg/Left", PUBLIC | INTERFACE | ABSTRACT, None, vec![top], vec![], vec![]);
    let right = w.define("pkg/Right", PUBLIC | INTERFACE | ABSTRACT, None, vec![top], vec![], vec![]);
    let c = w.define("pkg/C", PUBLIC, None, vec![left, right], vec![], vec![]);
    let candidates = w.hierarchy.superinterface_method_candidates(c, "m", "()V");
    assert_eq!(candidates.len(), 1);
    assert_eq!(candidates[0].owner_class_id, top);
}

#[test]
fn interface_extends_follows_superinterfaces() {
    let mut w = World::new();
    let a = w.define("pkg/A", PUBLIC | INTERFACE | ABSTRACT, None, vec![], vec![], vec![]);
    let b = w.define("pkg/B", PUBLIC | INTERFACE | ABSTRACT, None, vec![a], vec![], vec![]);
    let c = w.define("pkg/C", PUBLIC | INTERFACE | ABSTRACT, None, vec![b], vec![], vec![]);
    assert!(w.hierarchy.interface_extends_by_id(c, a));
    assert!(w.hierarchy.interface_extends_by_id(c, b));
    assert!(!w.hierarchy.interface_extends_by_id(a, c));
    assert!(!w.hierarchy.interface_extends_by_id(a, a));
    assert_eq!(w.hierarchy.direct_interface_ids(c), vec![b]);
    assert!(w.hierarchy.class_is_interface_by_id(c));
}

#[test]
fn interface_reference_finds_public_object_method() {
    let mut w = World::new();
    let object = w.define(
        "java/lang/Object",
        PUBLIC,
        None,
        vec![],
        vec![member("hashCode", "()I", PUBLIC), member("clone", "()Ljava/lang/Object;", 0x0004)],
        vec![],
    );
    let iface = w.define("pkg/Shape", PUBLIC | INTERFACE | ABSTRACT, None, vec![], vec![], vec![]);
    let hash = w
        .hierarchy
        .find_interface_method_owner_by_class_id(&w.registry, iface, "hashCode", "()I")
        .expect("found");
    assert_eq!(hash.owner_class_id, object);
    assert!(w
        .hierarchy
        .find_interface_method_owner_by_class_id(&w.registry, iface, "clone", "()Ljava/lang/Object;")
        .is_none());
}

#[test]
fn field_in_superinterface_is_found_before_superclass() {
    let mut w = World::new();
    let base = w.define("pkg/Base", PUBLIC, None, vec![], vec![], vec![member("X", "I", PUBLIC)]);
    let consts = w.define("pkg/Consts", PUBLIC | INTERFACE | ABSTRACT, None, vec![], vec![], vec![member("X", "I", PUBLIC | STATIC)]);
    let derived = w.define("pkg/Derived", PUBLIC, Some(base), vec![consts], vec![], vec![]);
    let target = w.hierarchy.find_field_owner_by_class_id(derived, "X", "I").expect("found");
    assert_eq!(target.owner_class_id, consts);
    assert_eq!(target.access_flags, PUBLIC | STATIC);
    assert!(w.hierarchy.find_field_owner_by_class_id(derived, "X", "J").is_none());
}

#[test]
fn link_refuses_duplicates_and_missing_supertypes() {
    let mut registry = ClassIdentityRegistry::new();
    let mut h = ClassHierarchy::new();
    let a = registry.register_defined_class(LoaderId::SYSTEM, "pkg/A");
    let b = registry.register_defined_class(LoaderId::SYSTEM, "pkg/B");
    assert_eq!(
        h.link(class(b, "pkg/B", PUBLIC, Some(a), vec![], vec![], vec![])),
        Err(LinkError::MissingSupertype(a))
    );
    assert_eq!(
        h.link(class(b, "pkg/B", PUBLIC, None, vec![a], vec![], vec![])),
        Err(LinkError::MissingSupertype(a))
    );
    assert_eq!(h.link(class(a, "pkg/A", PUBLIC, None, vec![], vec![], vec![])), Ok(()));
    assert_eq!(
        h.link(class(a, "pkg/A", PUBLIC, None, vec![], vec![], vec![])),
        Err(LinkError::DuplicateClass(a))
    );
    assert!(h.get_class_by_id(a).is_some());
    assert!(h.get_class_by_id(b).is_none());
}

#[test]
fn linking_later_classes_keeps_earlier_resolution() {
    let mut w = World::new();
    let i1 = w.define("pkg/I1", PUBLIC | INTERFACE | ABSTRACT, None, vec![], vec![member("m", "()V", PUBLIC)], vec![]);
    let c = w.define("pkg/C", PUBLIC, None, vec![i1], vec![], vec![]);
    let before = w.hierarchy.find_method_owner_by_class_id(c, "m", "()V").expect("found");
    let _sub = w.define("pkg/I2", PUBLIC | INTERFACE | ABSTRACT, None, vec![i1], vec![member("m", "()V", PUBLIC)], vec![]);
    let after = w.hierarchy.find_method_owner_by_class_id(c, "m", "()V").expect("found");
    assert_eq!(before.owner_class_id, after.owner_class_id);
    assert_eq!(after.owner_class_id, i1);
}

fn method_pool() -> Vec<ConstantPoolEntry> {
    vec![
        ConstantPoolEntry::Placeholder,
        ConstantPoolEntry::Utf8("pkg/Shape".to_string()),
        ConstantPoolEntry::Class { name_index: 1 },
        ConstantPoolEntry::Utf8("area".to_string()),
        ConstantPoolEntry::Utf8("()D".to_string()),
        ConstantPoolEntry::NameAndType { name_index: 3, descriptor_index: 4 },
        ConstantPoolEntry::Methodref { class_index: 2, name_and_type_index: 5 },
        ConstantPoolEntry::InterfaceMethodref { class_index: 2, name_and_type_index: 5 },
        ConstantPoolEntry::Fieldref { class_index: 2, name_and_type_index: 5 },
    ]
}

#[test]
fn symbolic_references_are_read_from_the_pool() {
    let cp = method_pool();
    let m = symbolic_method_reference(&cp, 6).expect("methodref");
    assert_eq!((m.class_index, m.name.as_str(), m.descriptor.as_str(), m.is_interface), (2, "area", "()D", false));
    let im = symbolic_method_reference(&cp, 7).expect("interface methodref");
    assert!(im.is_interface);
    let f = symbolic_field_reference(&cp, 8).expect("fieldref");
    assert_eq!((f.name.as_str(), f.descriptor.as_str()), ("area", "()D"));

    assert_eq!(
        symbolic_method_reference(&cp, 8).err().unwrap(),
        "java/lang/NoSuchMethodError: invalid method reference #8"
    );
    assert_eq!(
        symbolic_field_reference(&cp, 6).err().unwrap(),
        "java/lang/NoSuchFieldError: invalid field reference #6"
    );
    assert_eq!(
        symbolic_method_reference(&cp, 40).err().unwrap(),
        "java/lang/NoSuchMethodError: invalid method reference #40"
    );
}

#[test]
fn method_reference_kind_must_match_the_class_kind() {
    let mut w = World::new();
    let shape = w.define("pkg/Shape", PUBLIC | INTERFACE | ABSTRACT, None, vec![], vec![member("area", "()D", PUBLIC | ABSTRACT)], vec![]);
    let square = w.define("pkg/Square", PUBLIC, None, vec![shape], vec![member("area", "()D", PUBLIC)], vec![]);

    let as_method = SymbolicMember { class_index: 2, name: "area".to_string(), descriptor: "()D".to_string(), is_interface: false };
    let as_interface = SymbolicMember { is_interface: true, ..as_method.clone() };

    assert_eq!(
        w.hierarchy.resolve_method_reference(&w.registry, shape, &as_method).err().unwrap(),
        "java/lang/IncompatibleClassChangeError: Methodref resolved to interface pkg/Shape"
    );
    assert_eq!(
        w.hierarchy.resolve_method_reference(&w.registry, square, &as_interface).err().unwrap(),
        "java/lang/IncompatibleClassChangeError: InterfaceMethodref resolved to non-interface pkg/Square"
    );
    let ok = w.hierarchy.resolve_method_reference(&w.registry, shape, &as_interface).expect("resolved");
    assert_eq!(ok.owner_class_id, shape);
    let ok = w.hierarchy.resolve_method_reference(&w.registry, square, &as_method).expect("resolved");
    assert_eq!(ok.owner_class_id, square);

    let missing = SymbolicMember { name: "perimeter".to_string(), ..as_method.clone() };
    assert_eq!(
        w.hierarchy.resolve_method_reference(&w.registry, square, &missing).err().unwrap(),
        "java/lang/NoSuchMethodError: pkg/Square.perimeter()D"
    );
    let missing_field = SymbolicMember { name: "side".to_string(), descriptor: "I".to_string(), ..as_method };
    assert_eq!(
        w.hierarchy.resolve_field_reference(&w.registry, square, &missing_field).err().unwrap(),
        "java/lang/NoSuchFieldError: pkg/Square.side:I"
    );
}

#[test]
fn instance_of_follows_superclasses_interfaces_and_arrays() {
    let mut w = World::new();
    let object = w.define("java/lang/Object", PUBLIC, None, vec![], vec![], vec![]);
    let throwable = w.define("java/lang/Throwable", PUBLIC, Some(object), vec![], vec![], vec![]);
    let exception = w.define("java/lang/Exception", PUBLIC, Some(throwable), vec![], vec![], vec![]);
    let runnable = w.define("java/lang/Runnable", PUBLIC | INTERFACE | ABSTRACT, None, vec![], vec![], vec![]);
    let _task = w.define("pkg/Task", PUBLIC, Some(exception), vec![runnable], vec![], vec![]);
    let h = &w.hierarchy;
    let r = &w.registry;

    assert!(h.is_instance_of(r, "pkg/Task", "pkg/Task"));
    assert!(h.is_instance_of(r, "pkg/Task", "java/lang/Throwable"));
    assert!(h.is_instance_of(r, "pkg/Task", "java/lang/Runnable"));
    assert!(h.is_instance_of(r, "pkg/Task", "java/lang/Object"));
    assert!(!h.is_instance_of(r, "java/lang/Exception", "pkg/Task"));
    assert!(!h.is_instance_of(r, "pkg/Unknown", "java/lang/Throwable"));

    assert!(h.is_instance_of(r, "[Lpkg/Task;", "[Ljava/lang/Runnable;"));
    assert!(h.is_instance_of(r, "[[Lpkg/Task;", "[[Ljava/lang/Exception;"));
    assert!(h.is_instance_of(r, "[I", "java/lang/Cloneable"));
    assert!(h.is_instance_of(r, "[I", "java/io/Serializable"));
    assert!(!h.is_instance_of(r, "[I", "[J"));
    assert!(!h.is_instance_of(r, "[Lpkg/Task;", "pkg/Task"));
}

fn handler_pool() -> Vec<ConstantPoolEntry> {
    vec![
        ConstantPoolEntry::Placeholder,
        ConstantPoolEntry::Utf8("java/lang/ArithmeticException".to_string()),
        ConstantPoolEntry::Class { name_index: 1 },
        ConstantPoolEntry::Utf8("java/lang/RuntimeException".to_string()),
        ConstantPoolEntry::Class { name_index: 3 },
    ]
}

#[test]
fn exception_handler_is_the_first_covering_entry_that_catches() {
    let mut w = World::new();
    let object = w.define("java/lang/Object", PUBLIC, None, vec![], vec![], vec![]);
    let runtime = w.define("java/lang/RuntimeException", PUBLIC, Some(object), vec![], vec![], vec![]);
    let _npe = w.define("java/lang/NullPointerException", PUBLIC, Some(runtime), vec![], vec![], vec![]);
    let cp = handler_pool();
    let table = vec![
        ExceptionTableEntry { start_pc: 0, end_pc: 10, handler_pc: 100, catch_type: 2 },
        ExceptionTableEntry { start_pc: 0, end_pc: 10, handler_pc: 200, catch_type: 4 },
        ExceptionTableEntry { start_pc: 0, end_pc: 20, handler_pc: 300, catch_type: 0 },
    ];
    let h = &w.hierarchy;
    let r = &w.registry;
    assert_eq!(h.find_exception_handler(r, &table, &cp, 5, "java/lang/ArithmeticException: / by zero"), Some(100));
    assert_eq!(h.find_exception_handler(r, &table, &cp, 5, "java/lang/NullPointerException"), Some(200));
    assert_eq!(h.find_exception_handler(r, &table, &cp, 5, "java/lang/Error: boom"), Some(300));
    assert_eq!(h.find_exception_handler(r, &table, &cp, 15, "java/lang/ArithmeticException: / by zero"), Some(300));
    assert_eq!(h.find_exception_handler(r, &table, &cp, 20, "java/lang/ArithmeticException: / by zero"), None);
}

#[test]
fn real_descriptor_prefers_parameter_match_then_count_then_varargs() {
    let mut w = World::new();
    let base = w.define(
        "pkg/Base",
        PUBLIC,
        None,
        vec![],
        vec![member("log", "([Ljava/lang/Object;)V", PUBLIC | 0x0080)],
        vec![],
    );
    let derived = w.define(
        "pkg/Derived",
        PUBLIC,
        Some(base),
        vec![],
        vec![
            member("put", "(Ljava/lang/String;)Ljava/lang/Object;", PUBLIC),
            member("put", "(Ljava/lang/Object;)Ljava/lang/Object;", PUBLIC),
            member("add", "(II)I", PUBLIC),
            member("fmt", "(Ljava/lang/String;[Ljava/lang/Object;)Ljava/lang/String;", PUBLIC | 0x0080),
        ],
        vec![],
    );
    let _ = derived;
    let h = &w.hierarchy;
    let r = &w.registry;
    assert_eq!(
        h.find_method_real_descriptor(r, "pkg/Derived", "put", "(Ljava/lang/Object;)V").as_deref(),
        Some("(Ljava/lang/Object;)Ljava/lang/Object;")
    );
    assert_eq!(
        h.find_method_real_descriptor(r, "pkg/Derived", "put", "(I)V").as_deref(),
        Some("(Ljava/lang/String;)Ljava/lang/Object;")
    );
    assert_eq!(h.find_method_real_descriptor(r, "pkg/Derived", "add", "(JJ)J").as_deref(), Some("(II)I"));
    assert_eq!(
        h.find_method_real_descriptor(r, "pkg/Derived", "fmt", "(Ljava/lang/String;)Ljava/lang/String;").as_deref(),
        Some("(Ljava/lang/String;[Ljava/lang/Object;)Ljava/lang/String;")
    );
    assert_eq!(
        h.find_method_real_descriptor(r, "pkg/Derived", "log", "(II)V").as_deref(),
        Some("([Ljava/lang/Object;)V")
    );
    assert_eq!(h.find_method_real_descriptor(r, "pkg/Derived", "missing", "()V"), None);
    assert_eq!(h.find_method_real_descriptor(r, "pkg/Nowhere", "put", "()V"), None);
}

#[test]
fn method_flags_and_owner_by_class_name() {
    let mut w = World::new();
    let i = w.define("pkg/I", PUBLIC | INTERFACE | ABSTRACT, None, vec![], vec![member("size", "()I", PUBLIC | ABSTRACT)], vec![]);
    let base = w.define("pkg/Base", PUBLIC, None, vec![], vec![member("run", "()V", PUBLIC | STATIC)], vec![]);
    let _c = w.define("pkg/C", PUBLIC, Some(base), vec![i], vec![], vec![]);
    let h = &w.hierarchy;
    let r = &w.registry;
    assert_eq!(h.find_method_flags(r, "pkg/C", "run", "()V"), Some(PUBLIC | STATIC));
    assert_eq!(h.find_method_flags(r, "pkg/C", "size", "()I"), Some(PUBLIC | ABSTRACT));
    assert_eq!(h.find_method_flags(r, "pkg/C", "size", "()J"), None);
    let found = h.find_method(r, "pkg/C", "size", "()I").expect("found");
    assert_eq!(found.owner_class, "pkg/I");
    assert!(h.find_method(r, "pkg/C", "size", "()J").is_none());
    assert_eq!(h.find_method_owner(r, "pkg/C", "run", "()V").as_deref(), Some("pkg/Base"));
    assert_eq!(h.find_method_owner(r, "pkg/C", "size", "()I").as_deref(), Some("pkg/I"));
    assert_eq!(h.find_method_owner(r, "pkg/Missing", "run", "()V"), None);
}

#[test]
fn static_field_info_and_final_write_check() {
    let mut w = World::new();
    let consts = w.define(
        "pkg/Consts",
        PUBLIC | INTERFACE | ABSTRACT,
        None,
        vec![],
        vec![],
        vec![member("LIMIT", "I", PUBLIC | STATIC | 0x0010)],
    );
    let base = w.define("pkg/Base", PUBLIC, None, vec![], vec![], vec![member("count", "I", PUBLIC | STATIC), member("inst", "I", PUBLIC)]);
    let _derived = w.define("pkg/Derived", PUBLIC, Some(base), vec![consts], vec![], vec![]);
    let h = &w.hierarchy;
    let r = &w.registry;

    assert_eq!(h.find_static_field_info(r, "pkg/Derived", "count", None), Some(("pkg/Base".to_string(), PUBLIC | STATIC)));
    assert_eq!(h.find_static_field_info(r, "pkg/Derived", "count", Some("J")), None);
    assert_eq!(h.find_static_field_info(r, "pkg/Derived", "inst", None), None);
    assert_eq!(
        h.find_static_field_info(r, "pkg/Derived", "LIMIT", Some("I")),
        Some(("pkg/Consts".to_string(), PUBLIC | STATIC | 0x0010))
    );

    assert_eq!(h.check_final_static_field_write(r, "pkg/Derived", "count", None, "pkg/Other.m()V"), Ok(()));
    assert_eq!(h.check_final_static_field_write(r, "pkg/Derived", "LIMIT", None, "pkg/Consts.<clinit>()V"), Ok(()));
    assert_eq!(
        h.check_final_static_field_write(r, "pkg/Derived", "LIMIT", None, "pkg/Derived.m()V"),
        Err("java/lang/IllegalAccessError: Update to static final field pkg/Consts.LIMIT attempted from pkg/Derived.m()V".to_string())
    );
    assert_eq!(h.check_final_static_field_write(r, "pkg/Missing", "LIMIT", None, "pkg/Derived.m()V"), Ok(()));
}
