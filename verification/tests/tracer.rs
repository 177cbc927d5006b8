//! The supervisor's decision machine, driven with synthetic stop reports: the
//! end-to-end scenarios' event streams, strategy filtering, and fault
//! injection.

use lxtrace::magic::init;
use lxtrace::tracer::{
    RegPatch, ResumeHow, StopKind, Tracer, UserRegs, EIO_RET, NOOP_SYSCALL,
};
use lxtrace::{forward_event, Event, EventPayload, Settings, Value};

fn me() -> u32 {
    nix::unistd::getpid().as_raw() as u32
}

fn settings() -> Settings {
    Settings { capture_backtrace: false, fail_path: None, fail_rate: 1 }
}

fn regs(orig_rax: u64, args: [u64; 6], rax: u64) -> UserRegs {
    UserRegs {
        orig_rax,
        rax,
        rdi: args[0],
        rsi: args[1],
        rdx: args[2],
        r10: args[3],
        r8: args[4],
        r9: args[5],
    }
}

const TEXT: &str = "[id=0, kind=out] read { fd: fd; data: address; count: num; ret: num; }\n[id=1, kind=inout] write { fd: fd; [len=count] data: buf; count: num; ret: num; }\n[id=257, kind=inout] openat { dirfd: fd; path: zstring; flags: num; ret: fd; }\n";

#[test]
fn exit_only_child_stream() {
    // a child that only exits: attach, exit, end of stream
    let h = init(TEXT).unwrap();
    let mut t = Tracer::new(h, settings());
    assert!(t.active());
    let s1 = t.on_stop(100, StopKind::SignalStop(19), None);
    assert_eq!(s1.event, Some(Event { payload: EventPayload::Attach, pid: 100 }));
    assert!(s1.set_options);
    assert_eq!(s1.resume, ResumeHow::Plain);
    let s2 = t.on_stop(100, StopKind::Exited(0), None);
    assert_eq!(s2.event, Some(Event { payload: EventPayload::Exit(0), pid: 100 }));
    assert_eq!(s2.resume, ResumeHow::No);
    assert!(!t.active());
    let eos = t.eos();
    assert_eq!(eos, Event { payload: EventPayload::Eos, pid: 0 });
}

#[test]
fn signal_stop_is_reported_and_injected() {
    // the tracee sees SIGUSR1: the event names it and the resume injects it
    let h = init(TEXT).unwrap();
    let mut t = Tracer::new(h, settings());
    t.on_stop(7, StopKind::SignalStop(19), None);
    let s = t.on_stop(7, StopKind::SignalStop(10), None);
    assert_eq!(
        s.event,
        Some(Event {
            payload: EventPayload::Signal { raw: 10, decoded: "SIGUSR1".to_owned() },
            pid: 7
        })
    );
    assert_eq!(s.resume, ResumeHow::WithSignal(10));
}

#[test]
fn write_enter_and_exit_decode() {
    // write(1, "hi", 2): entry decodes the arguments without a return value,
    // the exit has the return value
    let h = init(TEXT).unwrap();
    let mut t = Tracer::new(h, settings());
    let pid = me();
    t.on_stop(pid, StopKind::SignalStop(19), None);
    let data = b"hi";
    let r = regs(1, [1, data.as_ptr() as u64, 2, 0, 0, 0], 999);
    let s = t.on_stop(pid, StopKind::SyscallStop, Some(r));
    match s.event.expect("entry is surfaced").payload {
        EventPayload::Sysenter { raw, decoded } => {
            assert_eq!(raw.syscall_id, 1);
            assert_eq!(raw.args, [1, data.as_ptr() as u64, 2, 0, 0, 0]);
            let d = decoded.expect("write is in the schema");
            assert_eq!(d.name.as_str(), "write");
            assert_eq!(
                d.args,
                vec![Value::Handle(1, None), Value::Buffer(vec![0x68, 0x69]), Value::Integral(2)]
            );
            assert_eq!(d.ret, None);
        },
        other => panic!("expected a syscall entry, got {:?}", other),
    }
    let r = regs(1, [1, data.as_ptr() as u64, 2, 0, 0, 0], 2);
    let s = t.on_stop(pid, StopKind::SyscallStop, Some(r));
    match s.event.expect("exit is surfaced").payload {
        EventPayload::Sysexit { raw, decoded } => {
            assert_eq!(raw.ret, 2);
            assert_eq!(decoded.unwrap().ret, Some(Value::Integral(2)));
        },
        other => panic!("expected a syscall exit, got {:?}", other),
    }
}

#[test]
fn strategy_suppresses_one_side() {
    // read is declared kind=out: its entry is suppressed, its exit surfaces
    let h = init(TEXT).unwrap();
    let mut t = Tracer::new(h, settings());
    t.on_stop(5, StopKind::SignalStop(19), None);
    let s = t.on_stop(5, StopKind::SyscallStop, Some(regs(0, [3, 0, 0, 0, 0, 0], 0)));
    assert_eq!(s.event, None);
    assert_eq!(s.resume, ResumeHow::Plain);
    let s = t.on_stop(5, StopKind::SyscallStop, Some(regs(0, [3, 0, 0, 0, 0, 0], 0)));
    assert!(matches!(
        s.event.unwrap().payload,
        EventPayload::Sysexit { .. }
    ));
}

#[test]
fn unknown_syscall_surfaces_both_sides_undecoded() {
    let h = init(TEXT).unwrap();
    let mut t = Tracer::new(h, settings());
    t.on_stop(5, StopKind::SignalStop(19), None);
    let s = t.on_stop(5, StopKind::SyscallStop, Some(regs(9999, [0; 6], 0)));
    match s.event.unwrap().payload {
        EventPayload::Sysenter { raw, decoded } => {
            assert_eq!(raw.syscall_id, 9999);
            assert!(decoded.is_none());
        },
        other => panic!("expected a syscall entry, got {:?}", other),
    }
    let s = t.on_stop(5, StopKind::SyscallStop, Some(regs(9999, [0; 6], 0)));
    assert!(matches!(s.event.unwrap().payload, EventPayload::Sysexit { .. }));
}

#[test]
fn ptrace_event_and_unknown_stops_are_quiet() {
    let h = init(TEXT).unwrap();
    let mut t = Tracer::new(h, settings());
    t.on_stop(5, StopKind::SignalStop(19), None);
    let s = t.on_stop(5, StopKind::PtraceEvent(4), None);
    assert_eq!(s.event, None);
    assert_eq!(s.resume, ResumeHow::Plain);
    let s = t.on_stop(5, StopKind::Other, None);
    assert_eq!(s.event, None);
    assert_eq!(s.resume, ResumeHow::Plain);
}

#[test]
fn spoil_at_full_rate_rewrites_and_fails_the_call() {
    // spoil configured for /etc/ at certainty: an openat of /etc/hosts is
    // rewritten to the no-op at entry and reports -EIO at exit
    let h = init(TEXT).unwrap();
    let st = Settings {
        capture_backtrace: false,
        fail_path: Some("/etc/".to_owned()),
        fail_rate: 100,
    };
    let mut t = Tracer::new(h, st);
    let pid = me();
    t.on_stop(pid, StopKind::SignalStop(19), None);
    let path = b"/etc/hosts\0";
    let enter = regs(257, [u64::MAX, path.as_ptr() as u64, 0, 0, 0, 0], 0);
    let s = t.on_stop(pid, StopKind::SyscallStop, Some(enter));
    assert_eq!(
        s.regs_patch,
        Some(RegPatch { orig_rax: NOOP_SYSCALL, rax: NOOP_SYSCALL })
    );
    // the kernel then runs the no-op; at the exit stop the original id is
    // restored and the error planted
    let exit = regs(NOOP_SYSCALL, [u64::MAX, path.as_ptr() as u64, 0, 0, 0, 0], 0);
    let s = t.on_stop(pid, StopKind::SyscallStop, Some(exit));
    assert_eq!(s.regs_patch, Some(RegPatch { orig_rax: 257, rax: EIO_RET }));
    match s.event.expect("exit is surfaced").payload {
        EventPayload::Sysexit { raw, decoded } => {
            assert_eq!(raw.syscall_id, 257);
            assert_eq!(raw.ret, EIO_RET);
            let d = decoded.expect("openat is in the schema");
            assert_eq!(d.ret, Some(Value::Error(5, "I/O error".to_owned())));
        },
        other => panic!("expected a syscall exit, got {:?}", other),
    }
}

#[test]
fn spoil_leaves_other_paths_alone() {
    let h = init(TEXT).unwrap();
    let st = Settings {
        capture_backtrace: false,
        fail_path: Some("/etc/".to_owned()),
        fail_rate: 100,
    };
    let mut t = Tracer::new(h, st);
    let pid = me();
    t.on_stop(pid, StopKind::SignalStop(19), None);
    let path = b"/home/hosts\0";
    let enter = regs(257, [0, path.as_ptr() as u64, 0, 0, 0, 0], 0);
    let s = t.on_stop(pid, StopKind::SyscallStop, Some(enter));
    assert_eq!(s.regs_patch, None);
    let exit = regs(257, [0, path.as_ptr() as u64, 0, 0, 0, 0], 3);
    let s = t.on_stop(pid, StopKind::SyscallStop, Some(exit));
    assert_eq!(s.regs_patch, None);
    match s.event.unwrap().payload {
        EventPayload::Sysexit { decoded, .. } => {
            assert_eq!(decoded.unwrap().ret, Some(Value::Handle(3, None)));
        },
        other => panic!("expected a syscall exit, got {:?}", other),
    }
}

#[test]
fn rate_zero_never_spoils() {
    let h = init(TEXT).unwrap();
    let st = Settings {
        capture_backtrace: false,
        fail_path: Some("/etc/".to_owned()),
        fail_rate: 0,
    };
    let mut t = Tracer::new(h, st);
    let pid = me();
    t.on_stop(pid, StopKind::SignalStop(19), None);
    let path = b"/etc/hosts\0";
    let enter = regs(257, [0, path.as_ptr() as u64, 0, 0, 0, 0], 0);
    let s = t.on_stop(pid, StopKind::SyscallStop, Some(enter));
    assert_eq!(s.regs_patch, None);
}

#[test]
fn three_children_stream() {
    // two forks: three attaches, three exits with distinct codes, one eos
    let h = init(TEXT).unwrap();
    let mut t = Tracer::new(h, settings());
    let mut events: Vec<Event> = Vec::new();
    for step in [
        t.on_stop(10, StopKind::SignalStop(19), None),
        t.on_stop(11, StopKind::SignalStop(19), None),
        t.on_stop(12, StopKind::SignalStop(19), None),
        t.on_stop(11, StopKind::Exited(1), None),
        t.on_stop(12, StopKind::Exited(2), None),
        t.on_stop(10, StopKind::Exited(0), None),
    ] {
        if let Some(ev) = step.event {
            events.push(ev);
        }
    }
    assert!(!t.active());
    events.push(t.eos());
    let attaches = events
        .iter()
        .filter(|e| matches!(e.payload, EventPayload::Attach))
        .count();
    let exits = events
        .iter()
        .filter(|e| matches!(e.payload, EventPayload::Exit(_)))
        .count();
    assert_eq!(attaches, 3);
    assert_eq!(exits, 3);
    assert_eq!(events.len(), 7);
    assert_eq!(events[6], Event { payload: EventPayload::Eos, pid: 0 });
    assert_eq!(events[3], Event { payload: EventPayload::Exit(1), pid: 11 });
}

#[test]
fn relay_forwards_everything_but_eos() {
    assert!(forward_event(&Event { payload: EventPayload::Attach, pid: 4 }));
    assert!(forward_event(&Event { payload: EventPayload::Exit(0), pid: 4 }));
    assert!(!forward_event(&Event { payload: EventPayload::Eos, pid: 0 }));
}

#[test]
fn backtrace_capture_flag_on_decoded_entries() {
    let h = init(TEXT).unwrap();
    let st = Settings { capture_backtrace: true, fail_path: None, fail_rate: 0 };
    let mut t = Tracer::new(h, st);
    let pid = me();
    t.on_stop(pid, StopKind::SignalStop(19), None);
    let data = b"hi";
    let enter = regs(1, [1, data.as_ptr() as u64, 2, 0, 0, 0], 0);
    let s = t.on_stop(pid, StopKind::SyscallStop, Some(enter));
    assert!(s.capture_backtrace);
    let exit = regs(1, [1, data.as_ptr() as u64, 2, 0, 0, 0], 2);
    let s = t.on_stop(pid, StopKind::SyscallStop, Some(exit));
    assert!(!s.capture_backtrace);
}
