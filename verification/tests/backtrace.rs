//! Backtrace data model and on-demand symbol demangling.

use lxtrace::backtrace::{Backtrace, Frame, Symbol, ThreadBacktrace};

fn sym(name: &str) -> Symbol {
    Symbol { name: name.to_owned(), offset: 4, addr: 0x1000, size: 32 }
}

#[test]
fn demangles_rust_symbols() {
    let s = sym("_ZN4core3fmt5Debug3fmt17h0000000000000000E");
    let d = s.demangle();
    assert!(d.starts_with("core::fmt::Debug::fmt"), "got {}", d);
}

#[test]
fn demangles_cpp_symbols() {
    let s = sym("_Z3fooi");
    assert_eq!(s.demangle(), "foo(int)");
}

#[test]
fn unmangled_names_pass_through() {
    let s = sym("plain_name");
    assert_eq!(s.demangle(), "plain_name");
    assert_eq!(s.raw_name(), "plain_name");
    assert_eq!(s.offset(), 4);
    assert_eq!(s.addr(), 0x1000);
    assert_eq!(s.size(), 32);
}

#[test]
fn thread_and_frame_accessors() {
    let f = Frame { ip: 0x42, sym: Some(sym("_Z3fooi")) };
    assert_eq!(f.ip(), 0x42);
    assert_eq!(f.sym().unwrap().raw_name(), "_Z3fooi");
    let t = ThreadBacktrace { name: Some("main".to_owned()), id: 9, frames: vec![f] };
    assert_eq!(t.name(), Some("main"));
    assert_eq!(t.id(), 9);
    assert_eq!(t.frames().len(), 1);
    let anon = ThreadBacktrace { name: None, id: 1, frames: vec![] };
    assert_eq!(anon.name(), None);
    let bt = Backtrace { threads: vec![t] };
    assert_eq!(bt.threads().len(), 1);
}
