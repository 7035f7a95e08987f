use jvm_core::class_identity::{ClassId, ClassIdentityRegistry, LoaderId};
use jvm_core::hierarchy::{ClassHierarchy, LinkedClass};
use jvm_core::lazy_classes::ClassIdStore;
use jvm_core::static_fields::{
    class_constant_value, constant_value_in_hierarchy, default_value_for_descriptor, find_static_field_owner,
    static_field_in_hierarchy, static_field_source, ConstantValue, DefaultValue, StaticFieldSource,
    StaticFieldTable, SystemStream,
};

struct World {
    registry: ClassIdentityRegistry,
    hierarchy: ClassHierarchy,
}

impl World {
    fn new() -> World {
        World { registry: ClassIdentityRegistry::new(), hierarchy: ClassHierarchy::new() }
    }

    fn define(&mut self, name: &str, super_id: Option<ClassId>, interface_ids: Vec<ClassId>) -> ClassId {
        let id = self.registry.register_defined_class(LoaderId::SYSTEM, name);
        self.hierarchy
            .link(LinkedClass {
                id,
                name: name.to_string(),
                access_flags: 0x0001,
                super_id,
                interface_ids,
                methods: vec![],
                fields: vec![],
            })
            .expect("link");
        id
    }
}

#[test]
fn static_table_keeps_the_latest_value() {
    let mut w = World::new();
    let a = w.define("pkg/A", None, vec![]);
    let mut t: StaticFieldTable<i64> = StaticFieldTable::new();
    assert!(!t.contains(a, "count"));
    assert_eq!(t.get(a, "count"), None);
    t.set(a, "count", 1);
    t.set(a, "count", 7);
    assert!(t.contains(a, "count"));
    assert_eq!(t.get(a, "count"), Some(&7));
    assert_eq!(t.get(a, "other"), None);
}

#[test]
fn static_field_is_found_in_the_superclass_chain_before_interfaces() {
    let mut w = World::new();
    let object = w.define("java/lang/Object", None, vec![]);
    let iface = w.define("pkg/Limits", None, vec![]);
    let base = w.define("pkg/Base", Some(object), vec![]);
    let derived = w.define("pkg/Derived", Some(base), vec![iface]);

    let mut t: StaticFieldTable<i64> = StaticFieldTable::new();
    t.set(iface, "MAX", 10);
    assert_eq!(find_static_field_owner(&w.hierarchy, &t, derived, "MAX"), Some(iface));
    assert_eq!(static_field_in_hierarchy(&w.hierarchy, &t, derived, "MAX"), Some(&10));

    t.set(base, "MAX", 20);
    assert_eq!(find_static_field_owner(&w.hierarchy, &t, derived, "MAX"), Some(base));
    assert_eq!(static_field_in_hierarchy(&w.hierarchy, &t, derived, "MAX"), Some(&20));

    t.set(derived, "MAX", 30);
    assert_eq!(find_static_field_owner(&w.hierarchy, &t, derived, "MAX"), Some(derived));
    assert_eq!(static_field_in_hierarchy(&w.hierarchy, &t, base, "MAX"), Some(&20));
}

#[test]
fn missing_static_field_has_no_owner() {
    let mut w = World::new();
    let object = w.define("java/lang/Object", None, vec![]);
    let a = w.define("pkg/A", Some(object), vec![]);
    let t: StaticFieldTable<i64> = StaticFieldTable::new();
    assert_eq!(find_static_field_owner(&w.hierarchy, &t, a, "x"), None);
    assert_eq!(static_field_in_hierarchy(&w.hierarchy, &t, a, "x"), None);
}

#[test]
fn interfaces_are_searched_in_declaration_order() {
    let mut w = World::new();
    let i1 = w.define("pkg/I1", None, vec![]);
    let i2 = w.define("pkg/I2", None, vec![]);
    let c = w.define("pkg/C", None, vec![i1, i2]);
    let mut t: StaticFieldTable<i64> = StaticFieldTable::new();
    t.set(i2, "K", 2);
    assert_eq!(find_static_field_owner(&w.hierarchy, &t, c, "K"), Some(i2));
    t.set(i1, "K", 1);
    assert_eq!(find_static_field_owner(&w.hierarchy, &t, c, "K"), Some(i1));
}

enum Constant<'a> {
    Int(i32),
    Long(i64),
    Str(&'a str),
}

/// A class file whose fields are (name, access flags, constant).
fn class_with_fields(this: &str, fields: &[(&str, u16, Option<Constant>)]) -> jvm_core::class_file::ClassFile {
    let mut cp: Vec<u8> = Vec::new();
    let mut count: u16 = 0;
    let mut utf8 = |cp: &mut Vec<u8>, count: &mut u16, s: &str| -> u16 {
        cp.push(1);
        cp.extend_from_slice(&(s.len() as u16).to_be_bytes());
        cp.extend_from_slice(s.as_bytes());
        *count += 1;
        *count
    };
    let this_name = utf8(&mut cp, &mut count, this);
    cp.push(7);
    cp.extend_from_slice(&this_name.to_be_bytes());
    count += 1;
    let this_idx = count;
    let cv_name = utf8(&mut cp, &mut count, "ConstantValue");
    let desc = utf8(&mut cp, &mut count, "I");
    let mut field_bytes: Vec<u8> = Vec::new();
    for (name, flags, constant) in fields {
        let n = utf8(&mut cp, &mut count, name);
        let value_idx = match constant {
            None => None,
            Some(Constant::Int(v)) => {
                cp.push(3);
                cp.extend_from_slice(&v.to_be_bytes());
                count += 1;
                Some(count)
            }
            Some(Constant::Long(v)) => {
                cp.push(5);
                cp.extend_from_slice(&v.to_be_bytes());
                count += 1;
                let idx = count;
                count += 1;
                Some(idx)
            }
            Some(Constant::Str(s)) => {
                let t = utf8(&mut cp, &mut count, s);
                cp.push(8);
                cp.extend_from_slice(&t.to_be_bytes());
                count += 1;
                Some(count)
            }
        };
        field_bytes.extend_from_slice(&flags.to_be_bytes());
        field_bytes.extend_from_slice(&n.to_be_bytes());
        field_bytes.extend_from_slice(&desc.to_be_bytes());
        match value_idx {
            None => field_bytes.extend_from_slice(&0u16.to_be_bytes()),
            Some(i) => {
                field_bytes.extend_from_slice(&1u16.to_be_bytes());
                field_bytes.extend_from_slice(&cv_name.to_be_bytes());
                field_bytes.extend_from_slice(&2u32.to_be_bytes());
                field_bytes.extend_from_slice(&i.to_be_bytes());
            }
        }
    }
    let mut out = Vec::new();
    out.extend_from_slice(&0xCAFE_BABEu32.to_be_bytes());
    out.extend_from_slice(&0u16.to_be_bytes());
    out.extend_from_slice(&52u16.to_be_bytes());
    out.extend_from_slice(&(count + 1).to_be_bytes());
    out.extend_from_slice(&cp);
    out.extend_from_slice(&0x0021u16.to_be_bytes());
    out.extend_from_slice(&this_idx.to_be_bytes());
    out.extend_from_slice(&0u16.to_be_bytes());
    out.extend_from_slice(&0u16.to_be_bytes());
    out.extend_from_slice(&(fields.len() as u16).to_be_bytes());
    out.extend_from_slice(&field_bytes);
    out.extend_from_slice(&0u16.to_be_bytes());
    out.extend_from_slice(&0u16.to_be_bytes());
    jvm_core::class_file::parse(&out).expect("parse")
}

const STATIC_FINAL: u16 = 0x0018;

#[test]
fn constant_values_are_read_from_static_fields() {
    let cf = class_with_fields(
        "pkg/K",
        &[
            ("inst", 0x0010, Some(Constant::Int(1))),
            ("A", STATIC_FINAL, None),
            ("A", STATIC_FINAL, Some(Constant::Int(42))),
            ("B", STATIC_FINAL, Some(Constant::Long(-5))),
            ("S", STATIC_FINAL, Some(Constant::Str("hi"))),
        ],
    );
    assert_eq!(class_constant_value(&cf, "A"), Some(ConstantValue::Int(42)));
    assert_eq!(class_constant_value(&cf, "B"), Some(ConstantValue::Long(-5)));
    assert_eq!(class_constant_value(&cf, "S"), Some(ConstantValue::Str("hi".to_string())));
    assert_eq!(class_constant_value(&cf, "inst"), None);
    assert_eq!(class_constant_value(&cf, "missing"), None);
}

#[test]
fn constant_value_is_found_through_the_hierarchy() {
    let mut w = World::new();
    let iface = w.define("pkg/Limits", None, vec![]);
    let base = w.define("pkg/Base", None, vec![]);
    let derived = w.define("pkg/Derived", Some(base), vec![iface]);

    let mut classes = ClassIdStore::new();
    classes.load_class(iface, class_with_fields("pkg/Limits", &[("MAX", STATIC_FINAL, Some(Constant::Int(9)))]));
    classes.load_class(base, class_with_fields("pkg/Base", &[("NAME", STATIC_FINAL, Some(Constant::Str("base")))]));
    classes.load_class(derived, class_with_fields("pkg/Derived", &[]));

    assert_eq!(
        constant_value_in_hierarchy(&w.hierarchy, &classes, derived, "MAX"),
        Some((iface, ConstantValue::Int(9))),
    );
    assert_eq!(
        constant_value_in_hierarchy(&w.hierarchy, &classes, derived, "NAME"),
        Some((base, ConstantValue::Str("base".to_string()))),
    );
    assert_eq!(constant_value_in_hierarchy(&w.hierarchy, &classes, derived, "NONE"), None);
    assert_eq!(constant_value_in_hierarchy(&w.hierarchy, &classes, base, "MAX"), None);
}

#[test]
fn default_values_follow_the_descriptor() {
    assert_eq!(default_value_for_descriptor("I"), DefaultValue::Int);
    assert_eq!(default_value_for_descriptor("Z"), DefaultValue::Int);
    assert_eq!(default_value_for_descriptor("C"), DefaultValue::Int);
    assert_eq!(default_value_for_descriptor("J"), DefaultValue::Long);
    assert_eq!(default_value_for_descriptor("F"), DefaultValue::Float);
    assert_eq!(default_value_for_descriptor("D"), DefaultValue::Double);
    assert_eq!(default_value_for_descriptor("Ljava/lang/String;"), DefaultValue::Null);
    assert_eq!(default_value_for_descriptor("[I"), DefaultValue::Null);
    assert_eq!(default_value_for_descriptor(""), DefaultValue::Null);
}

#[test]
fn static_read_prefers_stored_values_then_constants_then_streams() {
    let mut w = World::new();
    let system = w.define("java/lang/System", None, vec![]);
    let k = w.define("pkg/K", None, vec![]);
    let mut classes = ClassIdStore::new();
    classes.load_class(k, class_with_fields("pkg/K", &[("A", STATIC_FINAL, Some(Constant::Int(3)))]));
    let mut table: StaticFieldTable<i64> = StaticFieldTable::new();

    assert_eq!(
        static_field_source(&w.hierarchy, &table, &classes, k, "pkg/K", "A", "I"),
        StaticFieldSource::Constant(k, ConstantValue::Int(3)),
    );
    table.set(k, "A", 4);
    assert_eq!(
        static_field_source(&w.hierarchy, &table, &classes, k, "pkg/K", "A", "I"),
        StaticFieldSource::Table(k),
    );
    assert_eq!(
        static_field_source(&w.hierarchy, &table, &classes, k, "pkg/K", "B", "J"),
        StaticFieldSource::Default(DefaultValue::Long),
    );
    assert_eq!(
        static_field_source(&w.hierarchy, &table, &classes, system, "java/lang/System", "out", "Ljava/io/PrintStream;"),
        StaticFieldSource::Stream(SystemStream::Stdout),
    );
    assert_eq!(
        static_field_source(&w.hierarchy, &table, &classes, system, "java/lang/System", "in", "Ljava/io/InputStream;"),
        StaticFieldSource::Stream(SystemStream::Stdin),
    );
    table.set(system, "err", 1);
    assert_eq!(
        static_field_source(&w.hierarchy, &table, &classes, system, "java/lang/System", "err", "Ljava/io/PrintStream;"),
        StaticFieldSource::Table(system),
    );
    assert_eq!(
        static_field_source(&w.hierarchy, &table, &classes, system, "java/lang/System", "lineSeparator", "Ljava/lang/String;"),
        StaticFieldSource::Default(DefaultValue::Null),
    );
}
