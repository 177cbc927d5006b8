//! Schema loading, validation errors, and the serialize/reload round trip.

use lxtrace::magic::hir::{ItemDef, SyscallId};
use lxtrace::magic::emit::serialize_defs;
use lxtrace::magic::hir::lower::parse_u32;
use lxtrace::magic::ty::{PrimitiveTy, Ty};
use lxtrace::magic::{init, MagicError};

const TEXT: &str = "[id=1, kind=inout] write { fd: fd; [len=count] data: buf; count: num; ret: num; }\n[id=2] open { path: zstring; flags: num; ret: fd; }\n";

#[test]
fn load_basic() {
    let h = init(TEXT).expect("schema should load");
    assert_eq!(h.defs.len(), 2);
    let w = h.lookup_syscall_by_id(SyscallId(1)).expect("write is defined");
    assert_eq!(w.name.as_str(), "write");
    assert!(w.strategy.on_enter);
    assert!(w.strategy.on_exit);
    assert_eq!(w.params_count(), 3);
    assert_eq!(w.ret().name.as_str(), "ret");
    let params = w.params();
    assert_eq!(params.len(), 3);
    assert_eq!(params[0].name.as_str(), "fd");
    assert_eq!(params[1].name.as_str(), "data");
    assert_eq!(params[1].ty_info.len_ref.len(), 1);
    assert_eq!(params[1].ty_info.len_ref[0].as_str(), "count");
    assert_eq!(params[1].ty_info.deps(), vec!["count".to_owned()]);
    let o = h.lookup_syscall_by_id(SyscallId(2)).expect("open is defined");
    assert!(!o.strategy.on_enter);
    assert!(o.strategy.on_exit);
    assert!(h.lookup_syscall_by_id(SyscallId(3)).is_none());
    assert_eq!(*h.resolve_ty("num"), Ty::Primitive(PrimitiveTy::Number));
    assert_eq!(*h.resolve_ty("buf"), Ty::Primitive(PrimitiveTy::Buffer));
}

#[test]
fn lookup_takes_first_match() {
    let h = init("[id=7] first { ret: num; }\n[id=7] second { ret: fd; }\n").unwrap();
    let d = h.lookup_syscall_by_id(SyscallId(7)).unwrap();
    assert_eq!(d.name.as_str(), "first");
}

#[test]
fn load_len_path_splits_on_double_colon() {
    let h = init("[id=5] probe { [len=count::inner] data: buf; count: num; ret: num; }\n").unwrap();
    let d = h.lookup_syscall_by_id(SyscallId(5)).unwrap();
    let ItemDef::Syscall(_) = &h.defs[0];
    assert_eq!(d.body.fields[0].ty_info.len_ref.len(), 2);
    assert_eq!(d.body.fields[0].ty_info.len_ref[0].as_str(), "count");
    assert_eq!(d.body.fields[0].ty_info.len_ref[1].as_str(), "inner");
}

#[test]
fn load_errors() {
    assert_eq!(init("[kind=in] nameless { ret: num; }").err(), Some(MagicError::MissingId));
    assert_eq!(init("[id=99999999999] big { ret: num; }").err(), Some(MagicError::BadId));
    assert_eq!(init("[id=x1] odd { ret: num; }").err(), Some(MagicError::BadId));
    assert_eq!(init("[id=1, kind=sideways] w { ret: num; }").err(), Some(MagicError::BadKind));
    assert_eq!(init("[id=1] w { ret: blob; }").err(), Some(MagicError::UnknownType));
    assert_eq!(init("[id=1] w { }").err(), Some(MagicError::BadArity));
    assert_eq!(
        init("[id=1] w { a: num; b: num; c: num; d: num; e: num; f: num; g: num; ret: num; }").err(),
        Some(MagicError::BadArity)
    );
    assert_eq!(init("[id=1] w { ret: num").err(), Some(MagicError::Syntax));
    assert_eq!(init("??").err(), Some(MagicError::Syntax));
}

#[test]
fn first_error_wins() {
    // the first definition's error is reported even when later ones are worse
    assert_eq!(
        init("[id=bad] a { ret: num; }\nnoid { ret: blob; }").err(),
        Some(MagicError::BadId)
    );
    // lowering errors precede validation errors
    assert_eq!(init("[id=1] a { ret: blob; }\nnoid { ret: num; }").err(), Some(MagicError::MissingId));
}

#[test]
fn parse_u32_bounds() {
    assert_eq!(parse_u32("0"), Some(0));
    assert_eq!(parse_u32("4294967295"), Some(u32::MAX));
    assert_eq!(parse_u32("4294967296"), None);
    assert_eq!(parse_u32(""), None);
    assert_eq!(parse_u32("12a"), None);
}

#[test]
fn round_trip_reload_is_equivalent() {
    let h = init(TEXT).expect("schema should load");
    let out = serialize_defs(&h);
    let h2 = init(out.as_str()).expect("serialized schema should reload");
    assert_eq!(h.defs.len(), h2.defs.len());
    for i in 0..h.defs.len() {
        let ItemDef::Syscall(a) = &h.defs[i];
        let ItemDef::Syscall(b) = &h2.defs[i];
        assert_eq!(a.id, b.id);
        assert_eq!(a.name, b.name);
        assert_eq!(a.strategy, b.strategy);
        assert_eq!(a.body.fields.len(), b.body.fields.len());
        for j in 0..a.body.fields.len() {
            assert_eq!(a.body.fields[j].name, b.body.fields[j].name);
            assert_eq!(a.body.fields[j].ty_info.ty_name, b.body.fields[j].ty_info.ty_name);
            assert_eq!(a.body.fields[j].ty_info.len_ref, b.body.fields[j].ty_info.len_ref);
        }
    }
}

#[test]
fn builtin_schema_loads() {
    let h = lxtrace::magic_init().expect("built-in schema loads");
    let w = h.lookup_syscall_by_id(SyscallId(1)).unwrap();
    assert_eq!(w.name.as_str(), "write");
    let o = h.lookup_syscall_by_id(SyscallId(257)).unwrap();
    assert_eq!(o.name.as_str(), "openat");
}
