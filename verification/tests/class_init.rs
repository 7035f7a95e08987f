use jvm_core::class_file::{parse, ClassFile};
use jvm_core::class_init::{declares_clinit, init_prerequisites, ClassInitTable, InitStart};

struct Pool {
    bytes: Vec<u8>,
    count: u16,
}

impl Pool {
    fn utf8(&mut self, s: &str) -> u16 {
        self.bytes.push(1);
        self.bytes.extend_from_slice(&(s.len() as u16).to_be_bytes());
        self.bytes.extend_from_slice(s.as_bytes());
        self.count += 1;
        self.count
    }

    fn class(&mut self, name: &str) -> u16 {
        let n = self.utf8(name);
        self.bytes.push(7);
        self.bytes.extend_from_slice(&n.to_be_bytes());
        self.count += 1;
        self.count
    }
}

fn class_file(this: &str, sup: Option<&str>, interfaces: &[&str], methods: &[(&str, &str)]) -> ClassFile {
    let mut pool = Pool { bytes: Vec::new(), count: 0 };
    let this_idx = pool.class(this);
    let super_idx = match sup {
        Some(s) => pool.class(s),
        None => 0,
    };
    let iface_idx: Vec<u16> = interfaces.iter().map(|i| pool.class(i)).collect();
    let method_idx: Vec<(u16, u16)> = methods.iter().map(|(n, d)| (pool.utf8(n), pool.utf8(d))).collect();

    let mut out = Vec::new();
    out.extend_from_slice(&0xCAFE_BABEu32.to_be_bytes());
    out.extend_from_slice(&0u16.to_be_bytes());
    out.extend_from_slice(&52u16.to_be_bytes());
    out.extend_from_slice(&(pool.count + 1).to_be_bytes());
    out.extend_from_slice(&pool.bytes);
    out.extend_from_slice(&0x0021u16.to_be_bytes());
    out.extend_from_slice(&this_idx.to_be_bytes());
    out.extend_from_slice(&super_idx.to_be_bytes());
    out.extend_from_slice(&(iface_idx.len() as u16).to_be_bytes());
    for i in &iface_idx {
        out.extend_from_slice(&i.to_be_bytes());
    }
    out.extend_from_slice(&0u16.to_be_bytes());
    out.extend_from_slice(&(method_idx.len() as u16).to_be_bytes());
    for (n, d) in &method_idx {
        out.extend_from_slice(&0x0008u16.to_be_bytes());
        out.extend_from_slice(&n.to_be_bytes());
        out.extend_from_slice(&d.to_be_bytes());
        out.extend_from_slice(&0u16.to_be_bytes());
    }
    out.extend_from_slice(&0u16.to_be_bytes());
    parse(&out).expect("parse")
}

#[test]
fn first_request_starts_and_second_finds_it_initialized() {
    let mut t = ClassInitTable::new();
    assert!(matches!(t.begin("pkg/A"), InitStart::Started));
    assert!(matches!(t.begin("pkg/A"), InitStart::Initialized));
    assert!(matches!(t.begin("pkg/B"), InitStart::Started));
}

#[test]
fn failed_initializer_makes_the_class_erroneous() {
    let mut t = ClassInitTable::new();
    assert!(matches!(t.begin("pkg/A"), InitStart::Started));
    let e = t.record_failure("pkg/A");
    assert_eq!(e, "java/lang/ExceptionInInitializerError");
    match t.begin("pkg/A") {
        InitStart::Erroneous(msg) => assert_eq!(msg, "java/lang/NoClassDefFoundError: pkg/A"),
        _ => panic!("expected the class to be erroneous"),
    }
    match t.begin("pkg/A") {
        InitStart::Erroneous(msg) => assert_eq!(msg, "java/lang/NoClassDefFoundError: pkg/A"),
        _ => panic!("expected the class to stay erroneous"),
    }
    assert!(matches!(t.begin("pkg/B"), InitStart::Started));
}

#[test]
fn failure_of_one_class_leaves_others_initialized() {
    let mut t = ClassInitTable::new();
    assert!(matches!(t.begin("pkg/A"), InitStart::Started));
    assert!(matches!(t.begin("pkg/B"), InitStart::Started));
    t.record_failure("pkg/B");
    assert!(matches!(t.begin("pkg/A"), InitStart::Initialized));
    assert!(matches!(t.begin("pkg/B"), InitStart::Erroneous(_)));
}

#[test]
fn prerequisites_are_superclass_then_interfaces() {
    let cf = class_file("pkg/C", Some("pkg/Base"), &["pkg/I", "pkg/J"], &[]);
    assert_eq!(init_prerequisites(&cf), vec!["pkg/Base".to_string(), "pkg/I".to_string(), "pkg/J".to_string()]);
}

#[test]
fn object_superclass_is_not_a_prerequisite() {
    let cf = class_file("pkg/C", Some("java/lang/Object"), &["pkg/I"], &[]);
    assert_eq!(init_prerequisites(&cf), vec!["pkg/I".to_string()]);
    let root = class_file("java/lang/Object", None, &[], &[]);
    assert!(init_prerequisites(&root).is_empty());
}

#[test]
fn class_initializer_needs_its_name_and_descriptor() {
    let with = class_file("pkg/C", Some("java/lang/Object"), &[], &[("main", "([Ljava/lang/String;)V"), ("<clinit>", "()V")]);
    assert!(declares_clinit(&with));
    let other_descriptor = class_file("pkg/D", Some("java/lang/Object"), &[], &[("<clinit>", "(I)V")]);
    assert!(!declares_clinit(&other_descriptor));
    let none = class_file("pkg/E", Some("java/lang/Object"), &[], &[("run", "()V")]);
    assert!(!declares_clinit(&none));
}
