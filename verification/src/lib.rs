//! Core of a Linux/x86-64 system-call tracer.
//!
//! The library holds the verified logic: the schema ("magic") loader and its
//! grammar, the syscall decoder, and the tracer supervisor's decision machine.
//! Process control, IPC and output formatting are left to the embedding
//! program, which drives the supervisor loop and performs the actions it asks
//! for.

pub mod backtrace;
pub mod magic;
pub mod strutil;
pub mod syscall_decode;
pub mod syscall_spec;
pub mod tracer;

use vstd::prelude::*;

pub use magic::ty::Value;

verus! {

/// Tracer configuration chosen by the embedding program.
pub struct Settings {
    /// Capture a userspace backtrace at each syscall entry.
    pub capture_backtrace: bool,
    /// When set, `open`/`openat` calls on paths starting with this prefix are
    /// candidates for fault injection.
    pub fail_path: Option<String>,
    /// Probability, in percent, that a candidate call is actually spoiled.
    pub fail_rate: u8,
}

/// Raw syscall snapshot captured from user registers at a syscall-stop.
#[derive(Debug, Clone, PartialEq)]
pub struct RawSyscall {
    pub syscall_id: u64,
    pub args: [u64; 6],
    pub ret: u64,
}

/// A decoded syscall.
#[derive(Debug, Clone, PartialEq)]
pub struct Syscall {
    pub name: String,
    pub args: Vec<Value>,
    /// Absent on sysenter events (the call has not returned yet), present on
    /// sysexit events.
    pub ret: Option<Value>,
    /// Only attached on sysenter events, and only when capture was requested.
    pub backtrace: Option<backtrace::Backtrace>,
}

#[derive(Debug, Clone, PartialEq)]
pub enum EventPayload {
    Attach,
    Sysenter {
        /// Raw syscall args as they stand in the registers.
        raw: RawSyscall,
        /// Parsed data, when the syscall is in the schema.
        decoded: Option<Syscall>,
    },
    Sysexit {
        raw: RawSyscall,
        decoded: Option<Syscall>,
    },
    Signal {
        raw: i32,
        decoded: String,
    },
    Exit(i32),
    /// The tracer is about to exit because all tracees have finished.
    /// This event carries pid 0 and ends the stream.
    Eos,
}

#[derive(Debug, Clone, PartialEq)]
pub struct Event {
    pub payload: EventPayload,
    pub pid: u32,
}

/// Whether the relay between the supervisor process and the consumer forwards
/// this event: everything but the terminal end-of-stream event, on which the
/// relay stops.
pub fn forward_event(ev: &Event) -> (r: bool)
    ensures
        r == !(ev.payload is Eos),
{
    match ev.payload {
        EventPayload::Eos => false,
        _ => true,
    }
}

/// The built-in schema text: the handful of syscalls the tracer decodes out
/// of the box.
pub open spec fn builtin_magic_text() -> Seq<char> {
    "[id=0, kind=out] read { fd: fd; data: address; count: num; ret: num; }\n[id=1, kind=inout] write { fd: fd; [len=count] data: buf; count: num; ret: num; }\n[id=2, kind=inout] open { path: zstring; flags: num; ret: fd; }\n[id=3] close { fd: fd; ret: num; }\n[id=62, kind=inout] kill { pid: num; sig: signal; ret: num; }\n[id=257, kind=inout] openat { dirfd: fd; path: zstring; flags: num; ret: fd; }\n"@
}

/// Load the built-in schema: the result is exactly what loading the built-in
/// text yields, and nothing when that text does not load, which a caller
/// treats as a startup failure.
pub fn magic_init() -> (r: Option<magic::Magic>)
    ensures
        r is Some <==> magic::init_err(builtin_magic_text()) is None,
        r matches Some(h) ==> magic::hir::schema_wf(h) && magic::hir::primitives_ok(h.types)
            && magic::emit::loadable(h) && (magic::parse_tree::parse_spec(builtin_magic_text())
            matches Some(ds) && magic::loaded_ok(ds, h)),
{
    let text = "[id=0, kind=out] read { fd: fd; data: address; count: num; ret: num; }\n[id=1, kind=inout] write { fd: fd; [len=count] data: buf; count: num; ret: num; }\n[id=2, kind=inout] open { path: zstring; flags: num; ret: fd; }\n[id=3] close { fd: fd; ret: num; }\n[id=62, kind=inout] kill { pid: num; sig: signal; ret: num; }\n[id=257, kind=inout] openat { dirfd: fd; path: zstring; flags: num; ret: fd; }\n";
    proof {
        assert(text@ == builtin_magic_text());
    }
    match magic::init(text) {
        Ok(h) => Some(h),
        Err(_) => None,
    }
}

} // verus!
