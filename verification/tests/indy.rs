use jvm_core::class_file::{parse, Attribute, BootstrapMethod, ClassFile};
use jvm_core::indy::{resolve_invokedynamic, IndyError, MethodHandleRef};

fn u16s(out: &mut Vec<u8>, v: u16) {
    out.extend_from_slice(&v.to_be_bytes());
}

fn utf8(cp: &mut Vec<u8>, s: &str) {
    cp.push(1);
    u16s(cp, s.len() as u16);
    cp.extend_from_slice(s.as_bytes());
}

fn pair(cp: &mut Vec<u8>, tag: u8, a: u16, b: u16) {
    cp.push(tag);
    u16s(cp, a);
    u16s(cp, b);
}

fn lambda_class() -> ClassFile {
    let mut cp = Vec::new();
    utf8(&mut cp, "pkg/Main"); // 1
    cp.push(7);
    u16s(&mut cp, 1); // 2 Class
    utf8(&mut cp, "java/lang/invoke/LambdaMetafactory"); // 3
    cp.push(7);
    u16s(&mut cp, 3); // 4 Class
    utf8(&mut cp, "metafactory"); // 5
    utf8(&mut cp, "()Ljava/lang/invoke/CallSite;"); // 6
    pair(&mut cp, 12, 5, 6); // 7 NameAndType
    pair(&mut cp, 10, 4, 7); // 8 Methodref
    cp.push(15);
    cp.push(6);
    u16s(&mut cp, 8); // 9 MethodHandle
    utf8(&mut cp, "()V"); // 10
    cp.push(16);
    u16s(&mut cp, 10); // 11 MethodType
    utf8(&mut cp, "lambda$main$0"); // 12
    pair(&mut cp, 12, 12, 10); // 13 NameAndType
    pair(&mut cp, 10, 2, 13); // 14 Methodref
    cp.push(15);
    cp.push(6);
    u16s(&mut cp, 14); // 15 MethodHandle
    utf8(&mut cp, "run"); // 16
    utf8(&mut cp, "()Ljava/lang/Runnable;"); // 17
    pair(&mut cp, 12, 16, 17); // 18 NameAndType
    pair(&mut cp, 18, 0, 18); // 19 InvokeDynamic
    utf8(&mut cp, "BootstrapMethods"); // 20
    pair(&mut cp, 18, 3, 18); // 21 InvokeDynamic with a bad bootstrap index

    let mut out = Vec::new();
    out.extend_from_slice(&0xCAFE_BABEu32.to_be_bytes());
    u16s(&mut out, 0);
    u16s(&mut out, 61);
    u16s(&mut out, 22);
    out.extend_from_slice(&cp);
    u16s(&mut out, 0x0021);
    u16s(&mut out, 2);
    u16s(&mut out, 0);
    u16s(&mut out, 0);
    u16s(&mut out, 0);
    u16s(&mut out, 0);
    u16s(&mut out, 1);
    u16s(&mut out, 20);
    out.extend_from_slice(&12u32.to_be_bytes());
    u16s(&mut out, 1);
    u16s(&mut out, 9);
    u16s(&mut out, 3);
    u16s(&mut out, 11);
    u16s(&mut out, 15);
    u16s(&mut out, 11);
    parse(&out).expect("parse")
}

fn bootstraps(cf: &ClassFile) -> Vec<BootstrapMethod> {
    for a in &cf.attributes {
        if let Attribute::BootstrapMethods(v) = a {
            return v.clone();
        }
    }
    Vec::new()
}

#[test]
fn lambda_call_site_is_decoded() {
    let cf = lambda_class();
    let bms = bootstraps(&cf);
    let site = resolve_invokedynamic(&cf.constant_pool, &bms, 19).expect("call site");
    assert_eq!(site.name, "run");
    assert_eq!(site.descriptor, "()Ljava/lang/Runnable;");
    assert_eq!(site.bootstrap_index, 0);
    assert_eq!(site.bootstrap_class, "java/lang/invoke/LambdaMetafactory");
    assert_eq!(
        site.implementation,
        Some(MethodHandleRef {
            kind: 6,
            class_name: "pkg/Main".to_string(),
            name: "lambda$main$0".to_string(),
            descriptor: "()V".to_string(),
        }),
    );
    assert_eq!(site.interface_descriptor, "()V");
}

#[test]
fn malformed_call_sites_are_refused() {
    let cf = lambda_class();
    let bms = bootstraps(&cf);
    assert_eq!(resolve_invokedynamic(&cf.constant_pool, &bms, 2), Err(IndyError::NotInvokeDynamic(2)));
    assert_eq!(resolve_invokedynamic(&cf.constant_pool, &bms, 21), Err(IndyError::BadBootstrapIndex(3, 1)));
}
