use jvm_core::class_file::{parse, ClassFile, ExceptionTableEntry};
use jvm_core::class_identity::{ClassIdentityRegistry, LoaderId};
use jvm_core::method_exec::{find_method_index, method_exec_info, method_exec_info_for_class_id};

struct Method<'a> {
    name: &'a str,
    descriptor: &'a str,
    access_flags: u16,
    /// max_locals, bytecode and exception table entries.
    code: Option<(u16, Vec<u8>, Vec<[u16; 4]>)>,
}

struct Pool {
    bytes: Vec<u8>,
    count: u16,
}

impl Pool {
    fn utf8(&mut self, s: &str) -> u16 {
        self.bytes.push(1);
        self.bytes.extend_from_slice(&(s.len() as u16).to_be_bytes());
        self.bytes.extend_from_slice(s.as_bytes());
        self.count += 1;
        self.count
    }

    fn class(&mut self, name: &str) -> u16 {
        let n = self.utf8(name);
        self.bytes.push(7);
        self.bytes.extend_from_slice(&n.to_be_bytes());
        self.count += 1;
        self.count
    }
}

fn u16s(out: &mut Vec<u8>, v: u16) {
    out.extend_from_slice(&v.to_be_bytes());
}

fn build(this: &str, methods: &[Method], bootstrap: &[(u16, Vec<u16>)]) -> ClassFile {
    let mut pool = Pool { bytes: Vec::new(), count: 0 };
    let this_idx = pool.class(this);
    let super_idx = pool.class("java/lang/Object");
    let code_name = pool.utf8("Code");
    let bsm_name = pool.utf8("BootstrapMethods");
    let names: Vec<(u16, u16)> = methods.iter().map(|m| (pool.utf8(m.name), pool.utf8(m.descriptor))).collect();

    let mut out = Vec::new();
    out.extend_from_slice(&0xCAFE_BABEu32.to_be_bytes());
    u16s(&mut out, 0);
    u16s(&mut out, 52);
    u16s(&mut out, pool.count + 1);
    out.extend_from_slice(&pool.bytes);
    u16s(&mut out, 0x0021);
    u16s(&mut out, this_idx);
    u16s(&mut out, super_idx);
    u16s(&mut out, 0);
    u16s(&mut out, 0);
    u16s(&mut out, methods.len() as u16);
    for (m, (n, d)) in methods.iter().zip(names.iter()) {
        u16s(&mut out, m.access_flags);
        u16s(&mut out, *n);
        u16s(&mut out, *d);
        match &m.code {
            None => u16s(&mut out, 0),
            Some((max_locals, code, table)) => {
                u16s(&mut out, 1);
                u16s(&mut out, code_name);
                let len = 2 + 2 + 4 + code.len() + 2 + 8 * table.len() + 2;
                out.extend_from_slice(&(len as u32).to_be_bytes());
                u16s(&mut out, 4);
                u16s(&mut out, *max_locals);
                out.extend_from_slice(&(code.len() as u32).to_be_bytes());
                out.extend_from_slice(code);
                u16s(&mut out, table.len() as u16);
                for e in table {
                    for v in e {
                        u16s(&mut out, *v);
                    }
                }
                u16s(&mut out, 0);
            }
        }
    }
    if bootstrap.is_empty() {
        u16s(&mut out, 0);
    } else {
        u16s(&mut out, 1);
        u16s(&mut out, bsm_name);
        let len: usize = 2 + bootstrap.iter().map(|(_, args)| 4 + 2 * args.len()).sum::<usize>();
        out.extend_from_slice(&(len as u32).to_be_bytes());
        u16s(&mut out, bootstrap.len() as u16);
        for (r, args) in bootstrap {
            u16s(&mut out, *r);
            u16s(&mut out, args.len() as u16);
            for a in args {
                u16s(&mut out, *a);
            }
        }
    }
    parse(&out).expect("parse")
}

#[test]
fn exec_info_carries_the_code_of_the_matching_method() {
    let cf = build(
        "pkg/Main",
        &[
            Method { name: "run", descriptor: "()V", access_flags: 0x0001, code: Some((1, vec![0xb1], vec![])) },
            Method {
                name: "run",
                descriptor: "(I)I",
                access_flags: 0x0009,
                code: Some((3, vec![0x1a, 0x04, 0x60, 0xac], vec![[0, 3, 3, 0]])),
            },
        ],
        &[(5, vec![6, 7])],
    );
    let mut registry = ClassIdentityRegistry::new();
    let id = registry.register_defined_class(LoaderId::SYSTEM, "pkg/Main");

    let info = method_exec_info(&registry, &cf, "run", "(I)I").expect("declared");
    assert_eq!(info.class_id, Some(id));
    assert_eq!(info.class_name, "pkg/Main");
    assert_eq!(info.descriptor, "(I)I");
    assert_eq!(info.access_flags, 0x0009);
    assert_eq!(info.max_locals, 3);
    assert!(info.has_code);
    assert_eq!(info.code, vec![0x1a, 0x04, 0x60, 0xac]);
    assert_eq!(
        info.exception_table,
        vec![ExceptionTableEntry { start_pc: 0, end_pc: 3, handler_pc: 3, catch_type: 0 }],
    );
    assert_eq!(info.bootstrap_methods.len(), 1);
    assert_eq!(info.bootstrap_methods[0].bootstrap_method_ref, 5);
    assert_eq!(info.bootstrap_methods[0].bootstrap_arguments, vec![6, 7]);
}

#[test]
fn method_without_code_has_no_locals() {
    let cf = build(
        "pkg/Api",
        &[Method { name: "call", descriptor: "()V", access_flags: 0x0401, code: None }],
        &[],
    );
    let registry = ClassIdentityRegistry::new();
    let info = method_exec_info(&registry, &cf, "call", "()V").expect("declared");
    assert_eq!(info.class_id, None);
    assert!(!info.has_code);
    assert_eq!(info.max_locals, 0);
    assert!(info.code.is_empty());
    assert!(info.exception_table.is_empty());
    assert!(info.bootstrap_methods.is_empty());
}

#[test]
fn undeclared_method_has_no_exec_info() {
    let cf = build(
        "pkg/Main",
        &[Method { name: "run", descriptor: "()V", access_flags: 0x0001, code: Some((1, vec![0xb1], vec![])) }],
        &[],
    );
    let registry = ClassIdentityRegistry::new();
    assert!(method_exec_info(&registry, &cf, "run", "(I)V").is_none());
    assert!(method_exec_info(&registry, &cf, "walk", "()V").is_none());
}

#[test]
fn first_matching_method_index_is_found() {
    let cf = build(
        "pkg/Main",
        &[
            Method { name: "a", descriptor: "()V", access_flags: 0, code: None },
            Method { name: "b", descriptor: "()V", access_flags: 0, code: None },
            Method { name: "b", descriptor: "(J)V", access_flags: 0, code: None },
        ],
        &[],
    );
    assert_eq!(find_method_index(&cf.constant_pool, &cf.methods, "b", "(J)V"), Some(2));
    assert_eq!(find_method_index(&cf.constant_pool, &cf.methods, "b", "()V"), Some(1));
    assert_eq!(find_method_index(&cf.constant_pool, &cf.methods, "c", "()V"), None);
}

#[test]
fn exec_info_by_class_id_uses_the_given_owner() {
    let cf = build(
        "pkg/Main",
        &[Method { name: "run", descriptor: "()V", access_flags: 0x0001, code: Some((2, vec![0xb1], vec![])) }],
        &[],
    );
    let mut registry = ClassIdentityRegistry::new();
    let other = registry.register_defined_class(LoaderId::BOOTSTRAP, "pkg/Other");
    let info = method_exec_info_for_class_id(other, &cf, "run", "()V").expect("declared");
    assert_eq!(info.class_id, Some(other));
    assert_eq!(info.class_name, "pkg/Main");
    assert_eq!(info.max_locals, 2);
    assert!(method_exec_info_for_class_id(other, &cf, "run", "(I)V").is_none());
}

#[test]
fn exec_info_identity_falls_back_to_the_bootstrap_loader() {
    let cf = build(
        "pkg/Main",
        &[Method { name: "run", descriptor: "()V", access_flags: 0x0001, code: None }],
        &[],
    );
    let mut registry = ClassIdentityRegistry::new();
    let boot = registry.register_defined_class(LoaderId::BOOTSTRAP, "pkg/Main");
    let info = method_exec_info(&registry, &cf, "run", "()V").expect("declared");
    assert_eq!(info.class_id, Some(boot));
    let system = registry.register_defined_class(LoaderId::SYSTEM, "pkg/Main");
    let info = method_exec_info(&registry, &cf, "run", "()V").expect("declared");
    assert_eq!(info.class_id, Some(system));
}
