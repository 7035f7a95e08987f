use std::io::Write;

use jvm_core::jar::{class_of_entry_name, is_resource_entry_name, normalize_resource_name, JarEntryRef, JarStore};
use jvm_core::class_identity::{ClassIdentityRegistry, LoaderId};
use jvm_core::lazy_classes::{load_jar_classes, register_lazy_jar_class, ClassIdStore, ClassStore, LazyClass};

fn build_jar(entries: &[(&str, &[u8])]) -> Vec<u8> {
    let mut bytes = Vec::new();
    {
        let cursor = std::io::Cursor::new(&mut bytes);
        let mut writer = zip::ZipWriter::new(cursor);
        let options = zip::write::SimpleFileOptions::default()
            .compression_method(zip::CompressionMethod::Deflated);
        for (name, data) in entries {
            if name.ends_with('/') {
                writer.add_directory(name.trim_end_matches('/'), options).expect("directory");
            } else {
                writer.start_file(*name, options).expect("start entry");
                writer.write_all(data).expect("write entry");
            }
        }
        writer.finish().expect("finish jar");
    }
    bytes
}

#[test]
fn entry_names_are_classified() {
    assert_eq!(class_of_entry_name("pkg/Foo.class"), Some("pkg/Foo".to_owned()));
    assert_eq!(class_of_entry_name(".class"), None);
    assert_eq!(class_of_entry_name("notes.txt"), None);
    assert!(is_resource_entry_name("META-INF/MANIFEST.MF"));
    assert!(!is_resource_entry_name("pkg/"));
    assert!(!is_resource_entry_name(".class"));
    assert_eq!(normalize_resource_name("/a/b.txt"), "a/b.txt");
    assert_eq!(normalize_resource_name("a/b.txt"), "a/b.txt");
}

#[test]
fn load_jar_lists_classes_and_keeps_resources_pending() {
    let jar = build_jar(&[
        ("pkg/", b""),
        ("pkg/Foo.class", b"\xca\xfe\xba\xbe"),
        ("pkg/data.txt", b"hello"),
        (".class", b""),
    ]);
    let mut store = JarStore::new();
    let classes = store.load_jar(&jar).expect("load");
    assert_eq!(classes.len(), 1);
    assert_eq!(classes[0].0, "pkg/Foo");
    assert_eq!(classes[0].1.jar_id, 0);
    assert_eq!(classes[0].1.entry_name, "pkg/Foo.class");
    assert!(store.has_resource("pkg/data.txt"));
    assert!(store.has_resource("/pkg/data.txt"));
    assert!(!store.has_resource("pkg/Foo.class"));
    assert_eq!(store.read_resource("/pkg/data.txt"), Ok(Some(b"hello".to_vec())));
    assert_eq!(store.read_resource("pkg/data.txt"), Ok(Some(b"hello".to_vec())));
    assert_eq!(store.read_resource("missing.txt"), Ok(None));
    let bytes = store.read_jar_entry(&classes[0].1).expect("class bytes");
    assert_eq!(bytes, b"\xca\xfe\xba\xbe".to_vec());
}

#[test]
fn later_jar_replaces_a_resource() {
    let mut store = JarStore::new();
    store.load_jar(&build_jar(&[("r.txt", b"one")])).expect("first");
    assert_eq!(store.read_resource("r.txt"), Ok(Some(b"one".to_vec())));
    store.load_jar(&build_jar(&[("r.txt", b"two")])).expect("second");
    assert_eq!(store.read_resource("r.txt"), Ok(Some(b"two".to_vec())));
}

#[test]
fn entry_name_must_match_the_recorded_one() {
    let mut store = JarStore::new();
    let classes = store.load_jar(&build_jar(&[("wrong/Path.class", b"x")])).expect("load");
    let entry = JarEntryRef { jar_id: 0, entry_index: classes[0].1.entry_index, entry_name: "JarTestEntry.class".to_owned() };
    assert_eq!(
        store.read_jar_entry(&entry),
        Err("ZIP entry mismatch at index 0: expected JarTestEntry.class, found wrong/Path.class".to_owned())
    );
    let missing = JarEntryRef { jar_id: 3, entry_index: 0, entry_name: "a.class".to_owned() };
    assert_eq!(store.read_jar_entry(&missing), Err("Missing JAR backing store for a.class".to_owned()));
}

#[test]
fn invalid_archive_is_refused() {
    let mut store = JarStore::new();
    match store.load_jar(b"not a zip") {
        Err(e) => assert!(e.starts_with("Invalid JAR/ZIP: "), "{e}"),
        Ok(_) => panic!("expected an error"),
    }
}

fn u16be(v: u16) -> [u8; 2] {
    v.to_be_bytes()
}

/// A minimal class file for class `name` extending `java/lang/Object`, with
/// no members.
fn class_named(name: &str) -> Vec<u8> {
    let mut b = vec![0xCA, 0xFE, 0xBA, 0xBE, 0, 0, 0, 52];
    let mut cp = Vec::new();
    cp.push(7);
    cp.extend_from_slice(&u16be(2));
    cp.push(1);
    cp.extend_from_slice(&u16be(name.len() as u16));
    cp.extend_from_slice(name.as_bytes());
    cp.push(7);
    cp.extend_from_slice(&u16be(4));
    let object = "java/lang/Object";
    cp.push(1);
    cp.extend_from_slice(&u16be(object.len() as u16));
    cp.extend_from_slice(object.as_bytes());
    b.extend_from_slice(&u16be(5));
    b.extend_from_slice(&cp);
    b.extend_from_slice(&u16be(0x21));
    b.extend_from_slice(&u16be(1));
    b.extend_from_slice(&u16be(3));
    b.extend_from_slice(&u16be(0)); // interfaces
    b.extend_from_slice(&u16be(0)); // fields
    b.extend_from_slice(&u16be(0)); // methods
    b.extend_from_slice(&u16be(0)); // attributes
    b
}

/// A JAR holding the class `JarTestEntry` and a resource, standing in for
/// the test JAR of the interpreter's own tests.
fn test_jar() -> Vec<u8> {
    let entry = class_named("JarTestEntry");
    let helper = class_named("pkg/Helper");
    build_jar(&[
        ("META-INF/", b""),
        ("META-INF/MANIFEST.MF", b"Manifest-Version: 1.0\n"),
        ("JarTestEntry.class", &entry),
        ("pkg/", b""),
        ("pkg/Helper.class", &helper),
    ])
}

fn build_misnamed_jar() -> Vec<u8> {
    let entry = class_named("JarTestEntry");
    build_jar(&[("wrong/Path.class", &entry)])
}

fn load_classes(store: &mut ClassStore, jars: &mut JarStore, bytes: &[u8]) -> Result<usize, String> {
    let mut registry = ClassIdentityRegistry::new();
    let mut by_id = ClassIdStore::new();
    load_jar_classes(jars, &mut registry, store, &mut by_id, bytes)
}

#[test]
fn jar_classes_stay_pending_until_first_access() {
    let mut jars = JarStore::new();
    let mut store = ClassStore::new();
    let count = load_classes(&mut store, &mut jars, &test_jar()).expect("load_jar failed");
    assert!(count > 0, "expected at least one class in test JAR");
    assert!(matches!(store.state("JarTestEntry"), Some(LazyClass::PendingJarEntry(_))));

    store.ensure_class_ready("JarTestEntry", &mut jars);

    assert!(matches!(store.state("JarTestEntry"), Some(LazyClass::Ready(_))));
}

#[test]
fn misnamed_jar_class_uses_entry_path_and_fails_on_parse() {
    let mut jars = JarStore::new();
    let mut store = ClassStore::new();
    let count = load_classes(&mut store, &mut jars, &build_misnamed_jar()).expect("load_jar failed");
    assert_eq!(count, 1, "expected one class in misnamed jar");
    assert!(matches!(store.state("wrong/Path"), Some(LazyClass::PendingJarEntry(_))));
    store.ensure_class_ready("JarTestEntry", &mut jars);
    assert!(store.get_class("JarTestEntry").is_none(), "must not recover by internal name");

    store.ensure_class_ready("wrong/Path", &mut jars);

    match store.state("wrong/Path") {
        Some(LazyClass::ParseError(err)) => {
            assert!(err.contains("Class name mismatch"), "unexpected error: {err}");
            assert!(err.contains("wrong/Path"), "unexpected error: {err}");
            assert!(err.contains("JarTestEntry"), "unexpected error: {err}");
        }
        _ => panic!("expected ParseError for misnamed JAR entry"),
    }
}

#[test]
fn missing_packaged_lookup_leaves_pending_jar_entries_untouched() {
    let mut probe = JarStore::new();
    let class_names: Vec<String> =
        probe.load_jar(&test_jar()).expect("load test jar").into_iter().map(|(name, _)| name).collect();
    let mut jars = JarStore::new();
    let mut store = ClassStore::new();
    load_classes(&mut store, &mut jars, &test_jar()).expect("load test jar");

    for class_name in &class_names {
        assert!(
            matches!(store.state(class_name), Some(LazyClass::PendingJarEntry(_))),
            "expected pending jar entry before miss: {class_name}"
        );
    }

    store.ensure_class_ready("missing/Type", &mut jars);

    for class_name in &class_names {
        assert!(
            matches!(store.state(class_name), Some(LazyClass::PendingJarEntry(_))),
            "packaged miss must not parse or rewrite pending entry: {class_name}"
        );
    }
    assert!(store.get_class("missing/Type").is_none(), "missing class must remain unresolved");
}

#[test]
fn pending_bytes_parse_on_first_access() {
    let mut jars = JarStore::new();
    let mut store = ClassStore::new();
    store.load_lazy("JarTestEntry", class_named("JarTestEntry"));
    store.load_lazy("JarTestEntry", vec![1, 2, 3]);
    assert!(matches!(store.state("JarTestEntry"), Some(LazyClass::PendingBytes(_))));
    store.ensure_class_ready("JarTestEntry", &mut jars);
    let cf = store.get_class("JarTestEntry").expect("ready");
    assert_eq!(cf.constant_pool.class_name(cf.this_class), "JarTestEntry");

    store.load_lazy("Bad", vec![0xDE, 0xAD, 0xBE, 0xEF]);
    store.ensure_class_ready("Bad", &mut jars);
    match store.state("Bad") {
        Some(LazyClass::ParseError(err)) => assert_eq!(err, "Invalid magic: 0xDEADBEEF"),
        _ => panic!("expected ParseError"),
    }
    store.ensure_class_ready("Bad", &mut jars);
    assert!(matches!(store.state("Bad"), Some(LazyClass::ParseError(_))));
}

#[test]
fn loaded_class_is_ready_under_its_own_name() {
    let mut store = ClassStore::new();
    store.load_lazy("pkg/Helper", vec![1, 2, 3]);
    let cf = jvm_core::class_file::parse(&class_named("pkg/Helper")).expect("parse");
    store.load_class(cf);
    let ready = store.get_class("pkg/Helper").expect("ready");
    assert_eq!(ready.constant_pool.class_name(ready.this_class), "pkg/Helper");
    assert!(store.state("pkg/Other").is_none());
}

#[test]
fn classes_by_id_check_the_registered_name() {
    let mut jars = JarStore::new();
    let mut registry = ClassIdentityRegistry::new();
    let mut by_id = ClassIdStore::new();
    let entries = jars.load_jar(&build_misnamed_jar()).expect("load jar");
    for (name, entry) in entries {
        let id = registry.register_defined_class(LoaderId::SYSTEM, &name);
        by_id.load_lazy_jar_entry(id, entry);
    }
    let wrong = registry.class_id_for_defined(LoaderId::SYSTEM, "wrong/Path").expect("registered");
    assert!(matches!(by_id.state(wrong), Some(LazyClass::PendingJarEntry(_))));
    by_id.ensure_class_ready_by_id(&registry, wrong, &mut jars);
    match by_id.state(wrong) {
        Some(LazyClass::ParseError(err)) => {
            assert_eq!(err, "Class name mismatch for wrong/Path.class: expected wrong/Path, found JarTestEntry")
        }
        _ => panic!("expected ParseError"),
    }

    let good = registry.register_defined_class(LoaderId::SYSTEM, "JarTestEntry");
    by_id.load_lazy(good, class_named("JarTestEntry"));
    by_id.ensure_class_ready_by_id(&registry, good, &mut jars);
    assert!(by_id.get_class_by_id(good).is_some());
    assert!(by_id.get_class_by_id(wrong).is_none());
}

#[test]
fn registering_a_jar_class_defines_and_initiates_it() {
    let jar = build_jar(&[("pkg/Helper.class", &class_named("pkg/Helper"))]);
    let mut jars = JarStore::new();
    let loaded = jars.load_jar(&jar).expect("jar");
    assert_eq!(loaded.len(), 1);
    let mut registry = ClassIdentityRegistry::new();
    let mut by_name = ClassStore::new();
    let mut by_id = ClassIdStore::new();
    let (name, entry) = loaded.into_iter().next().unwrap();
    let id = register_lazy_jar_class(&mut registry, &mut by_name, &mut by_id, &name, entry);
    assert_eq!(registry.class_id_for_defined(LoaderId::SYSTEM, "pkg/Helper"), Some(id));
    assert_eq!(registry.class_id_for_initiating(LoaderId::SYSTEM, "pkg/Helper"), Some(id));
    assert!(matches!(by_name.state("pkg/Helper"), Some(LazyClass::PendingJarEntry(_))));
    assert!(matches!(by_id.state(id), Some(LazyClass::PendingJarEntry(_))));
    assert!(by_id.try_ensure_class_ready_by_id(&registry, id, &mut jars));
    assert!(matches!(by_id.state(id), Some(LazyClass::Ready(_))));
    // Registering it again reuses the id and keeps the states.
    let again = JarEntryRef { jar_id: 0, entry_index: 0, entry_name: "pkg/Helper.class".to_string() };
    assert_eq!(register_lazy_jar_class(&mut registry, &mut by_name, &mut by_id, "pkg/Helper", again), id);
    assert!(matches!(by_id.state(id), Some(LazyClass::Ready(_))));
}

#[test]
fn truncated_class_bytes_are_not_readied() {
    let mut jars = JarStore::new();
    let mut store = ClassStore::new();
    store.load_lazy("pkg/Bad", vec![0xCA, 0xFE, 0xBA, 0xBE, 0, 0]);
    assert!(!store.try_ensure_class_ready("pkg/Bad", &mut jars));
    assert!(matches!(store.state("pkg/Bad"), Some(LazyClass::PendingBytes(_))));
    store.load_lazy("pkg/Good", class_named("pkg/Good"));
    assert!(store.try_ensure_class_ready("pkg/Good", &mut jars));
    assert!(matches!(store.state("pkg/Good"), Some(LazyClass::Ready(_))));
    // A name that is not there needs nothing.
    assert!(store.try_ensure_class_ready("pkg/Missing", &mut jars));
}

#[test]
fn missing_backing_store_is_the_only_missing_store_error() {
    let mut jars = JarStore::new();
    let e = JarEntryRef { jar_id: 3, entry_index: 0, entry_name: "pkg/A.class".to_string() };
    assert_eq!(jars.read_jar_entry(&e), Err("Missing JAR backing store for pkg/A.class".to_string()));
    let jar = build_jar(&[("pkg/A.class", &class_named("pkg/A"))]);
    jars.load_jar(&jar).expect("jar");
    let past = JarEntryRef { jar_id: 0, entry_index: 5, entry_name: "pkg/A.class".to_string() };
    let err = jars.read_jar_entry(&past).unwrap_err();
    assert!(err.starts_with("ZIP entry error for pkg/A.class: "));
    let good = JarEntryRef { jar_id: 0, entry_index: 0, entry_name: "pkg/A.class".to_string() };
    assert_eq!(jars.read_jar_entry(&good), Ok(class_named("pkg/A")));
}
