//! Decoder behavior: typed values, the kernel error convention, strings and
//! buffers read out of a (here: our own) address space.

use lxtrace::magic::hir::SyscallId;
use lxtrace::magic::init;
use lxtrace::syscall_decode::{decode_error, try_read_buf};
use lxtrace::tracer::process_syscall;
use lxtrace::{RawSyscall, Value};

fn me() -> i32 {
    nix::unistd::getpid().as_raw()
}

const TEXT: &str = "[id=1, kind=inout] write { fd: fd; [len=count] data: buf; count: num; ret: num; }\n[id=2, kind=inout] open { path: zstring; flags: num; ret: fd; }\n[id=62, kind=in] kill { pid: num; sig: signal; ret: num; }\n[id=9, kind=out] probe { where: address; ret: num; }\n";

#[test]
fn decode_write_args() {
    // a write(1, "hi", 2) that returned 2
    let h = init(TEXT).unwrap();
    let def = h.lookup_syscall_by_id(SyscallId(1)).unwrap();
    let data = b"hi";
    let raw = RawSyscall {
        syscall_id: 1,
        args: [1, data.as_ptr() as u64, 2, 0, 0, 0],
        ret: 2,
    };
    let s = process_syscall(&raw, me(), &h, def).expect("decodes");
    assert_eq!(s.name.as_str(), "write");
    assert_eq!(s.args.len(), 3);
    assert_eq!(s.args[0], Value::Handle(1, None));
    assert_eq!(s.args[1], Value::Buffer(vec![0x68, 0x69]));
    assert_eq!(s.args[2], Value::Integral(2));
    assert_eq!(s.ret, Some(Value::Integral(2)));
    assert!(s.backtrace.is_none());
}

#[test]
fn decode_zstring_and_error_ret() {
    // an open("/nope", 0) that failed with ENOENT
    let h = init(TEXT).unwrap();
    let def = h.lookup_syscall_by_id(SyscallId(2)).unwrap();
    let path = b"/nope\0";
    let raw = RawSyscall {
        syscall_id: 2,
        args: [path.as_ptr() as u64, 0, 0, 0, 0, 0],
        ret: (-2i64) as u64,
    };
    let s = process_syscall(&raw, me(), &h, def).expect("decodes");
    assert_eq!(s.args[0], Value::String("/nope".to_owned()));
    assert_eq!(s.args[1], Value::Integral(0));
    assert_eq!(s.ret, Some(Value::Error(2, "No such file or directory".to_owned())));
}

#[test]
fn decode_zstring_lossy_replaces_invalid_utf8() {
    let h = init(TEXT).unwrap();
    let def = h.lookup_syscall_by_id(SyscallId(2)).unwrap();
    let path = [0xff_u8, 0];
    let raw = RawSyscall {
        syscall_id: 2,
        args: [path.as_ptr() as u64, 0, 0, 0, 0, 0],
        ret: 3,
    };
    let s = process_syscall(&raw, me(), &h, def).unwrap();
    assert_eq!(s.args[0], Value::String("\u{FFFD}".to_owned()));
    assert_eq!(s.ret, Some(Value::Handle(3, None)));
}

#[test]
fn decode_signal_and_address() {
    let h = init(TEXT).unwrap();
    let kill = h.lookup_syscall_by_id(SyscallId(62)).unwrap();
    let raw = RawSyscall { syscall_id: 62, args: [4242, 10, 0, 0, 0, 0], ret: 0 };
    let s = process_syscall(&raw, me(), &h, kill).unwrap();
    assert_eq!(s.args[0], Value::Integral(4242));
    assert_eq!(s.args[1], Value::Signal(10, Some("SIGUSR1".to_owned())));
    let probe = h.lookup_syscall_by_id(SyscallId(9)).unwrap();
    let raw = RawSyscall { syscall_id: 9, args: [0xdead_beef, 0, 0, 0, 0, 0], ret: 0 };
    let s = process_syscall(&raw, me(), &h, probe).unwrap();
    assert_eq!(s.args[0], Value::Address(0xdead_beef));
}

#[test]
fn decode_signal_unknown_number_has_no_name() {
    let h = init(TEXT).unwrap();
    let kill = h.lookup_syscall_by_id(SyscallId(62)).unwrap();
    let raw = RawSyscall { syscall_id: 62, args: [1, 0, 0, 0, 0, 0], ret: 0 };
    let s = process_syscall(&raw, me(), &h, kill).unwrap();
    assert_eq!(s.args[1], Value::Signal(0, None));
}

#[test]
fn buffer_needs_resolvable_length() {
    // a negative length leaves the buffer unknown
    let h = init(TEXT).unwrap();
    let def = h.lookup_syscall_by_id(SyscallId(1)).unwrap();
    let data = b"hi";
    let raw = RawSyscall {
        syscall_id: 1,
        args: [1, data.as_ptr() as u64, (-1i64) as u64, 0, 0, 0],
        ret: 0,
    };
    let s = process_syscall(&raw, me(), &h, def).unwrap();
    assert_eq!(s.args[1], Value::Unknown);
    // an unreadable address fails the read and leaves the buffer unknown
    let raw = RawSyscall { syscall_id: 1, args: [1, 8, 2, 0, 0, 0], ret: 0 };
    let s = process_syscall(&raw, me(), &h, def).unwrap();
    assert_eq!(s.args[1], Value::Unknown);
}

#[test]
fn read_buf_rejects_oversized_and_partial_reads() {
    let data = b"hi";
    assert_eq!(try_read_buf(data.as_ptr() as usize, 2, me()), Some(vec![0x68, 0x69]));
    assert_eq!(try_read_buf(data.as_ptr() as usize, 4097, me()), None);
    assert_eq!(try_read_buf(8, 2, me()), None);
}

#[test]
fn error_convention_bounds() {
    // [-4095, -1] is an errno; everything else decodes by the declared type
    match decode_error((-5i64) as u64) {
        Some(Value::Error(code, msg)) => {
            assert_eq!(code, 5);
            assert_eq!(msg.as_str(), "I/O error");
        },
        other => panic!("expected an error value, got {:?}", other),
    }
    match decode_error((-4095i64) as u64) {
        Some(Value::Error(code, msg)) => {
            assert_eq!(code, 4095);
            assert!(!msg.is_empty());
        },
        other => panic!("expected an error value, got {:?}", other),
    }
    assert_eq!(decode_error((-4096i64) as u64), None);
    assert_eq!(decode_error(0), None);
    assert_eq!(decode_error(7), None);
}

#[test]
fn values_are_scalars_and_projection() {
    let v = Value::Integral(7);
    assert!(v.is_known());
    assert!(!Value::Unknown.is_known());
    assert!(v.is_scalar());
    let empty: Vec<String> = Vec::new();
    assert_eq!(v.project(&empty), Some(&Value::Integral(7)));
    let path = vec!["x".to_owned()];
    assert_eq!(v.project(&path), None);
}
