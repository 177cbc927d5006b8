//! The tracer supervisor's decision machine.
//!
//! The supervisor is a state machine over kernel stop reports: given a stop
//! (pid and kind, plus the stopped tracee's registers at syscall-stops) it
//! updates its per-tracee table, decodes the syscall, decides on fault
//! injection, and says which event to emit and how to resume the tracee. The
//! embedding program runs the wait loop and performs those actions; the
//! machine, and the shape of the event stream it emits, are verified here.
//!
//! The emitted stream is modelled by a ghost log; the invariants below pin
//! down its shape: per pid an attach comes first and an exit last, syscall
//! events alternate, and the end-of-stream event is unique and final.

use vstd::prelude::*;

use std::collections::HashMap;

use crate::magic::hir::{def_of, lookup_spec, schema_wf, Hir, SyscallDef, SyscallId};
use crate::magic::ty::Value;
use crate::strutil::{has_prefix, str_starts_with};
use crate::syscall_decode::{
    errno_text, ret_value_ok, signal_lookup, signal_name, syscall_args_ok, Decoder,
};
use crate::{Event, EventPayload, RawSyscall, Settings, Syscall};

verus! {

broadcast use vstd::std_specs::hash::group_hash_axioms;

/// The syscall substituted during a spoil: the process-id query, which is
/// harmless to run in place of the spoiled call.
pub const NOOP_SYSCALL: u64 = 39;

/// The return value written back at a spoiled call's exit: -EIO as the kernel
/// would deliver it.
pub const EIO_RET: u64 = 0xffff_ffff_ffff_fffb;

/// Per-tracee bookkeeping, owned by the supervisor alone.
#[derive(Debug, Clone, Copy, PartialEq, Eq, Structural)]
pub struct ChildInfo {
    /// Toggles at every syscall-stop: false-to-true marks an entry,
    /// true-to-false an exit.
    pub in_syscall: bool,
    /// The current syscall was rewritten to the no-op at its entry.
    pub in_spoiled: bool,
    /// The original syscall id to restore at the spoiled call's exit.
    pub spoiled_syscall: u64,
}

/// The user registers the supervisor reads and rewrites (x86-64).
#[derive(Debug, Clone, Copy, PartialEq, Eq, Structural)]
pub struct UserRegs {
    pub orig_rax: u64,
    pub rax: u64,
    pub rdi: u64,
    pub rsi: u64,
    pub rdx: u64,
    pub r10: u64,
    pub r8: u64,
    pub r9: u64,
}

/// A classified stop report from the all-children wait.
#[derive(Debug, Clone, Copy, PartialEq, Eq, Structural)]
pub enum StopKind {
    /// A syscall-stop (entry or exit; parity tells which).
    SyscallStop,
    /// The tracee exited with the given code.
    Exited(i32),
    /// The tracee stopped on a signal, to be injected on resume.
    SignalStop(i32),
    /// A trace event such as a fork or exec notification.
    PtraceEvent(i32),
    /// Any other stop report.
    Other,
}

/// How the tracee is to be resumed after this stop.
#[derive(Debug, Clone, Copy, PartialEq, Eq, Structural)]
pub enum ResumeHow {
    /// Do not resume: the tracee is gone.
    No,
    /// Resume to the next syscall-stop without a signal.
    Plain,
    /// Resume and inject the signal.
    WithSignal(i32),
}

/// A rewrite of the two registers the supervisor ever changes.
#[derive(Debug, Clone, Copy, PartialEq, Eq, Structural)]
pub struct RegPatch {
    pub orig_rax: u64,
    pub rax: u64,
}

/// What the embedding program must do after one stop.
#[derive(Debug, Clone, PartialEq)]
pub struct Step {
    /// The event to deliver to the consumer, if this stop surfaces one.
    pub event: Option<Event>,
    /// How to resume the tracee.
    pub resume: ResumeHow,
    /// Set the trace options on this newly adopted tracee before resuming.
    pub set_options: bool,
    /// Write these two registers back before resuming.
    pub regs_patch: Option<RegPatch>,
    /// Capture a backtrace of the stopped tracee and attach it to the event's
    /// decoded syscall before delivering it.
    pub capture_backtrace: bool,
}

// ---------------------------------------------------------------------------
// The shape of the emitted event stream, as recursive folds over the log.

/// Whether `e` is an event of tracee `p` (the end-of-stream event belongs to
/// no tracee).
pub open spec fn is_event_of(e: Event, p: u32) -> bool {
    e.pid == p && !(e.payload is Eos)
}

/// Whether `e` is a syscall event (entry or exit) of tracee `p`.
pub open spec fn is_sys_event(e: Event, p: u32) -> bool {
    e.pid == p && (e.payload is Sysenter || e.payload is Sysexit)
}

/// Syscall-stop parity of `p` after the log: true between an emitted entry
/// and the matching emitted exit.
pub open spec fn sys_parity(log: Seq<Event>, p: u32) -> bool
    decreases log.len(),
{
    if log.len() == 0 {
        false
    } else if is_sys_event(log.last(), p) {
        !sys_parity(log.drop_last(), p)
    } else {
        sys_parity(log.drop_last(), p)
    }
}

/// The syscall events of `p` strictly alternate, beginning with an entry.
pub open spec fn sys_alternates(log: Seq<Event>, p: u32) -> bool
    decreases log.len(),
{
    if log.len() == 0 {
        true
    } else {
        sys_alternates(log.drop_last(), p) && (is_sys_event(log.last(), p) ==> (log.last().payload
            is Sysenter <==> !sys_parity(log.drop_last(), p)))
    }
}

/// Some event of `p` is in the log.
pub open spec fn appears(log: Seq<Event>, p: u32) -> bool
    decreases log.len(),
{
    if log.len() == 0 {
        false
    } else {
        appears(log.drop_last(), p) || is_event_of(log.last(), p)
    }
}

/// An attach event of `p` is in the log.
pub open spec fn attached(log: Seq<Event>, p: u32) -> bool
    decreases log.len(),
{
    if log.len() == 0 {
        false
    } else {
        attached(log.drop_last(), p) || (log.last().pid == p && log.last().payload is Attach)
    }
}

/// Every event of `p` other than an attach is preceded by an attach of `p`.
pub open spec fn attach_ok(log: Seq<Event>, p: u32) -> bool
    decreases log.len(),
{
    if log.len() == 0 {
        true
    } else {
        attach_ok(log.drop_last(), p) && (is_event_of(log.last(), p) && !(log.last().payload
            is Attach) ==> attached(log.drop_last(), p))
    }
}

/// An exit event of `p` is in the log.
pub open spec fn has_exit(log: Seq<Event>, p: u32) -> bool
    decreases log.len(),
{
    if log.len() == 0 {
        false
    } else {
        has_exit(log.drop_last(), p) || (log.last().pid == p && log.last().payload is Exit)
    }
}

/// No event of `p` follows an exit event of `p`.
pub open spec fn exit_ok(log: Seq<Event>, p: u32) -> bool
    decreases log.len(),
{
    if log.len() == 0 {
        true
    } else {
        exit_ok(log.drop_last(), p) && (is_event_of(log.last(), p) ==> !has_exit(
            log.drop_last(),
            p,
        ))
    }
}

/// The return value's presence in a decoded syscall event: absent on entry
/// events (the call has not returned yet), present on exit events.
pub open spec fn ret_presence_ok(e: Event) -> bool {
    match e.payload {
        EventPayload::Sysenter { decoded, .. } => decoded matches Some(s) ==> s.ret is None,
        EventPayload::Sysexit { decoded, .. } => decoded matches Some(s) ==> s.ret is Some,
        _ => true,
    }
}

proof fn lemma_presence_push(log: Seq<Event>, e: Event)
    requires
        forall|i: int| 0 <= i < log.len() ==> ret_presence_ok(#[trigger] log[i]),
        ret_presence_ok(e),
    ensures
        forall|i: int| 0 <= i < log.push(e).len() ==> ret_presence_ok(#[trigger] log.push(e)[i]),
{
    assert forall|i: int| 0 <= i < log.push(e).len() implies ret_presence_ok(
        #[trigger] log.push(e)[i],
    ) by {
        if i < log.len() {
            assert(log.push(e)[i] == log[i]);
        } else {
            assert(log.push(e)[i] == e);
        }
    }
}

/// How many end-of-stream events the log holds.
pub open spec fn eos_count(log: Seq<Event>) -> nat
    decreases log.len(),
{
    if log.len() == 0 {
        0
    } else {
        eos_count(log.drop_last()) + if log.last().payload is Eos {
            1nat
        } else {
            0nat
        }
    }
}

/// How each fold evolves when one event is appended.
proof fn lemma_stream_push(log: Seq<Event>, e: Event, p: u32)
    ensures
        sys_parity(log.push(e), p) == if is_sys_event(e, p) {
            !sys_parity(log, p)
        } else {
            sys_parity(log, p)
        },
        sys_alternates(log.push(e), p) == (sys_alternates(log, p) && (is_sys_event(e, p) ==> (
        e.payload is Sysenter <==> !sys_parity(log, p)))),
        appears(log.push(e), p) == (appears(log, p) || is_event_of(e, p)),
        attached(log.push(e), p) == (attached(log, p) || (e.pid == p && e.payload is Attach)),
        attach_ok(log.push(e), p) == (attach_ok(log, p) && (is_event_of(e, p) && !(e.payload
            is Attach) ==> attached(log, p))),
        has_exit(log.push(e), p) == (has_exit(log, p) || (e.pid == p && e.payload is Exit)),
        exit_ok(log.push(e), p) == (exit_ok(log, p) && (is_event_of(e, p) ==> !has_exit(log, p))),
        eos_count(log.push(e)) == eos_count(log) + if e.payload is Eos {
            1nat
        } else {
            0nat
        },
{
    assert(log.push(e).drop_last() =~= log);
    assert(log.push(e).last() == e);
}

/// A pid with no event in the log has no attach, no exit, and even parity.
proof fn lemma_unseen(log: Seq<Event>, p: u32)
    requires
        !appears(log, p),
    ensures
        !attached(log, p),
        !has_exit(log, p),
        sys_parity(log, p) == false,
    decreases log.len(),
{
    if log.len() > 0 {
        lemma_unseen(log.drop_last(), p);
    }
}

// ---------------------------------------------------------------------------
// The supervisor's invariant over log, live tracees and retired tracees.

/// The shape every emitted stream has: attach first and exit last per pid,
/// only adopted pids in the stream, and at most one final end-of-stream event.
pub open spec fn stream_shape_ok(
    log: Seq<Event>,
    live: Set<u32>,
    retired: Set<u32>,
    eos_sent: bool,
) -> bool {
    &&& forall|p: u32| attach_ok(log, p)
    &&& forall|p: u32| exit_ok(log, p)
    &&& forall|p: u32| #[trigger] appears(log, p) ==> attached(log, p)
    &&& forall|p: u32| #[trigger] attached(log, p) ==> live.contains(p) || retired.contains(p)
    &&& forall|p: u32|
        #[trigger] live.contains(p) ==> attached(log, p) && !retired.contains(p) && p != 0
    &&& forall|p: u32| #[trigger] has_exit(log, p) ==> retired.contains(p)
    &&& (!eos_sent ==> eos_count(log) == 0)
    &&& (eos_sent ==> log.len() > 0 && eos_count(log) == 1 && log.last() == (Event {
        payload: EventPayload::Eos,
        pid: 0u32,
    }) && eos_count(log.drop_last()) == 0)
}

/// Syscall-stop parity of every live tracee matches the stream, and syscall
/// events alternate.
pub open spec fn parity_shape_ok(log: Seq<Event>, children: Map<u32, ChildInfo>) -> bool {
    &&& forall|p: u32| sys_alternates(log, p)
    &&& forall|p: u32|
        #[trigger] children.contains_key(p) ==> sys_parity(log, p) == children[p].in_syscall
}

proof fn lemma_shape_attach(log: Seq<Event>, live: Set<u32>, retired: Set<u32>, p: u32)
    requires
        stream_shape_ok(log, live, retired, false),
        !live.contains(p),
        !retired.contains(p),
        p != 0,
    ensures
        stream_shape_ok(
            log.push((Event { payload: EventPayload::Attach, pid: p })),
            live.insert(p),
            retired,
            false,
        ),
{
    let e = Event { payload: EventPayload::Attach, pid: p };
    let log2 = log.push(e);
    assert forall|q: u32| attach_ok(log2, q) by {
        lemma_stream_push(log, e, q);
    }
    assert forall|q: u32| exit_ok(log2, q) by {
        lemma_stream_push(log, e, q);
    }
    assert forall|q: u32| #[trigger] appears(log2, q) implies attached(log2, q) by {
        lemma_stream_push(log, e, q);
    }
    assert forall|q: u32| #[trigger] attached(log2, q) implies live.insert(p).contains(q)
        || retired.contains(q) by {
        lemma_stream_push(log, e, q);
    }
    assert forall|q: u32| #[trigger] live.insert(p).contains(q) implies attached(log2, q)
        && !retired.contains(q) && q != 0 by {
        lemma_stream_push(log, e, q);
    }
    assert forall|q: u32| #[trigger] has_exit(log2, q) implies retired.contains(q) by {
        lemma_stream_push(log, e, q);
    }
    lemma_stream_push(log, e, 0);
}

proof fn lemma_shape_exit(log: Seq<Event>, live: Set<u32>, retired: Set<u32>, p: u32, code: i32)
    requires
        stream_shape_ok(log, live, retired, false),
        live.contains(p),
    ensures
        stream_shape_ok(
            log.push((Event { payload: EventPayload::Exit(code), pid: p })),
            live.remove(p),
            retired.insert(p),
            false,
        ),
{
    let e = Event { payload: EventPayload::Exit(code), pid: p };
    let log2 = log.push(e);
    assert forall|q: u32| attach_ok(log2, q) by {
        lemma_stream_push(log, e, q);
    }
    assert forall|q: u32| exit_ok(log2, q) by {
        lemma_stream_push(log, e, q);
    }
    assert forall|q: u32| #[trigger] appears(log2, q) implies attached(log2, q) by {
        lemma_stream_push(log, e, q);
    }
    assert forall|q: u32| #[trigger] attached(log2, q) implies live.remove(p).contains(q)
        || retired.insert(p).contains(q) by {
        lemma_stream_push(log, e, q);
    }
    assert forall|q: u32| #[trigger] live.remove(p).contains(q) implies attached(log2, q)
        && !retired.insert(p).contains(q) && q != 0 by {
        lemma_stream_push(log, e, q);
    }
    assert forall|q: u32| #[trigger] has_exit(log2, q) implies retired.insert(p).contains(q) by {
        lemma_stream_push(log, e, q);
    }
    lemma_stream_push(log, e, 0);
}

/// Pushing a syscall or signal event of a live tracee keeps the shape.
proof fn lemma_shape_live_event(log: Seq<Event>, live: Set<u32>, retired: Set<u32>, e: Event)
    requires
        stream_shape_ok(log, live, retired, false),
        live.contains(e.pid),
        !(e.payload is Attach),
        !(e.payload is Exit),
        !(e.payload is Eos),
    ensures
        stream_shape_ok(log.push(e), live, retired, false),
{
    let log2 = log.push(e);
    assert forall|q: u32| attach_ok(log2, q) by {
        lemma_stream_push(log, e, q);
    }
    assert forall|q: u32| exit_ok(log2, q) by {
        lemma_stream_push(log, e, q);
    }
    assert forall|q: u32| #[trigger] appears(log2, q) implies attached(log2, q) by {
        lemma_stream_push(log, e, q);
    }
    assert forall|q: u32| #[trigger] attached(log2, q) implies live.contains(q) || retired.contains(
        q,
    ) by {
        lemma_stream_push(log, e, q);
    }
    assert forall|q: u32| #[trigger] live.contains(q) implies attached(log2, q) && !retired.contains(
        q,
    ) && q != 0 by {
        lemma_stream_push(log, e, q);
    }
    assert forall|q: u32| #[trigger] has_exit(log2, q) implies retired.contains(q) by {
        lemma_stream_push(log, e, q);
    }
    lemma_stream_push(log, e, 0);
}

proof fn lemma_shape_eos(log: Seq<Event>, live: Set<u32>, retired: Set<u32>)
    requires
        stream_shape_ok(log, live, retired, false),
    ensures
        stream_shape_ok(
            log.push((Event { payload: EventPayload::Eos, pid: 0u32 })),
            live,
            retired,
            true,
        ),
{
    let e = Event { payload: EventPayload::Eos, pid: 0u32 };
    let log2 = log.push(e);
    assert forall|q: u32| attach_ok(log2, q) by {
        lemma_stream_push(log, e, q);
    }
    assert forall|q: u32| exit_ok(log2, q) by {
        lemma_stream_push(log, e, q);
    }
    assert forall|q: u32| #[trigger] appears(log2, q) implies attached(log2, q) by {
        lemma_stream_push(log, e, q);
    }
    assert forall|q: u32| #[trigger] attached(log2, q) implies live.contains(q) || retired.contains(
        q,
    ) by {
        lemma_stream_push(log, e, q);
    }
    assert forall|q: u32| #[trigger] live.contains(q) implies attached(log2, q) && !retired.contains(
        q,
    ) && q != 0 by {
        lemma_stream_push(log, e, q);
    }
    assert forall|q: u32| #[trigger] has_exit(log2, q) implies retired.contains(q) by {
        lemma_stream_push(log, e, q);
    }
    lemma_stream_push(log, e, 0);
    assert(log2.drop_last() =~= log);
}

proof fn lemma_parity_push_nonsys(log: Seq<Event>, m: Map<u32, ChildInfo>, e: Event)
    requires
        parity_shape_ok(log, m),
        !(e.payload is Sysenter),
        !(e.payload is Sysexit),
    ensures
        parity_shape_ok(log.push(e), m),
{
    assert forall|q: u32| sys_alternates(log.push(e), q) by {
        lemma_stream_push(log, e, q);
    }
    assert forall|q: u32| #[trigger] m.contains_key(q) implies sys_parity(log.push(e), q)
        == m[q].in_syscall by {
        lemma_stream_push(log, e, q);
    }
}

proof fn lemma_parity_insert(log: Seq<Event>, m: Map<u32, ChildInfo>, p: u32, ci: ChildInfo)
    requires
        parity_shape_ok(log, m),
        ci.in_syscall == sys_parity(log, p),
    ensures
        parity_shape_ok(log, m.insert(p, ci)),
{
}

proof fn lemma_parity_remove(log: Seq<Event>, m: Map<u32, ChildInfo>, p: u32)
    requires
        parity_shape_ok(log, m),
    ensures
        parity_shape_ok(log, m.remove(p)),
{
}

// ---------------------------------------------------------------------------
// Helpers around registers, decoding and fault injection.

/// A freshly adopted tracee: outside any syscall, nothing spoiled.
pub open spec fn fresh_child() -> ChildInfo {
    ChildInfo { in_syscall: false, in_spoiled: false, spoiled_syscall: 0 }
}

/// The registers after the exit-side spoil rewrite: the original syscall id
/// restored and the I/O error planted as the return value.
pub open spec fn eio_patched(regs: UserRegs, id: u64) -> UserRegs {
    UserRegs {
        orig_rax: id,
        rax: EIO_RET,
        rdi: regs.rdi,
        rsi: regs.rsi,
        rdx: regs.rdx,
        r10: regs.r10,
        r8: regs.r8,
        r9: regs.r9,
    }
}

/// How a raw syscall snapshot relates to the registers it was read from: the
/// id is the low 24 bits of `orig_rax`, the six argument registers follow the
/// x86-64 syscall convention, and `rax` is the return value.
pub open spec fn raw_matches(regs: UserRegs, raw: RawSyscall) -> bool {
    &&& raw.syscall_id == regs.orig_rax & 0xffffff
    &&& raw.args@ == seq![regs.rdi, regs.rsi, regs.rdx, regs.r10, regs.r8, regs.r9]
    &&& raw.ret == regs.rax
}

/// Capture a raw syscall snapshot from the registers.
pub fn decode_syscall_args(regs: &UserRegs) -> (out: RawSyscall)
    ensures
        raw_matches(*regs, out),
        out.syscall_id < 0x1000000,
{
    proof {
        let x = regs.orig_rax;
        assert(x & 0xffffff < 0x1000000) by (bit_vector);
    }
    let out = RawSyscall {
        syscall_id: regs.orig_rax & 0xffffff,
        args: [regs.rdi, regs.rsi, regs.rdx, regs.r10, regs.r8, regs.r9],
        ret: regs.rax,
    };
    proof {
        assert(out.args@ =~= seq![regs.rdi, regs.rsi, regs.rdx, regs.r10, regs.r8, regs.r9]);
    }
    out
}

/// Rewrite the registers of a spoiled call at its exit: restore the original
/// syscall id and plant -EIO as the return value.
pub fn return_eio(regs: &mut UserRegs, syscall: u64) -> (p: RegPatch)
    ensures
        *final(regs) == eio_patched(*old(regs), syscall),
        p == (RegPatch { orig_rax: syscall, rax: EIO_RET }),
{
    regs.orig_rax = syscall;
    regs.rax = EIO_RET;
    RegPatch { orig_rax: syscall, rax: EIO_RET }
}

/// Mark the tracee's current syscall as spoiled and produce the entry-side
/// rewrite: the no-op syscall id in both registers.
pub fn spoil(
    children: &mut HashMap<u32, ChildInfo>,
    pid: u32,
    in_syscall: bool,
    original_syscall: u64,
) -> (p: RegPatch)
    ensures
        final(children)@ == old(children)@.insert(
            pid,
            (ChildInfo { in_syscall, in_spoiled: true, spoiled_syscall: original_syscall }),
        ),
        p == (RegPatch { orig_rax: NOOP_SYSCALL, rax: NOOP_SYSCALL }),
{
    children.insert(
        pid,
        ChildInfo { in_syscall, in_spoiled: true, spoiled_syscall: original_syscall },
    );
    RegPatch { orig_rax: NOOP_SYSCALL, rax: NOOP_SYSCALL }
}

/// Relies on rand::random_range: a uniformly random value below 100; nothing
/// more can be promised of a random draw.
#[verifier::external_body]
fn roll_percent() -> (r: u8)
    ensures
        r < 100,
{
    rand::random_range(0..100u8)
}

/// Decode one raw syscall against its schema definition.
pub fn process_syscall(raw: &RawSyscall, proc: i32, magic: &Hir, def: &SyscallDef) -> (r: Option<
    Syscall,
>)
    requires
        crate::magic::hir::def_wf(magic.types, *def),
    ensures
        r matches Some(s) && crate::syscall_decode::syscall_decoded_ok(*magic, *def, *raw, s),
{
    let n = def.params_count();
    let mut evaluated: Vec<Option<Value>> = Vec::new();
    while evaluated.len() < n
        invariant
            evaluated@.len() <= n,
            forall|j: int| 0 <= j < evaluated@.len() ==> evaluated@[j] is None,
        decreases n - evaluated@.len(),
    {
        evaluated.push(None);
    }
    let mut syscall_decoder = Decoder { magic, evaluated, raw, proc, syscall: def };
    Some(syscall_decoder.process())
}

/// A syscall event of a tracee, as the supervisor emits it at a stop of the
/// given parity: raw registers read under the x86-64 convention, decoded
/// content exactly when the schema knows the syscall, and no return value
/// before the call has returned.
pub open spec fn syscall_event_ok(
    h: Hir,
    eregs: UserRegs,
    started: bool,
    payload: EventPayload,
) -> bool {
    match payload {
        EventPayload::Sysenter { raw, decoded } => started && raw_matches(eregs, raw)
            && decoded_event_ok(h, raw, true, decoded),
        EventPayload::Sysexit { raw, decoded } => !started && raw_matches(eregs, raw)
            && decoded_event_ok(h, raw, false, decoded),
        _ => false,
    }
}

/// The decoded part of a syscall event: present exactly when the schema has
/// the syscall; its arguments decode the registers; the return value is
/// absent on entry events and decoded on exit events.
pub open spec fn decoded_event_ok(
    h: Hir,
    raw: RawSyscall,
    started: bool,
    decoded: Option<Syscall>,
) -> bool {
    match lookup_spec(h.defs@, raw.syscall_id as u32) {
        None => decoded is None,
        Some(d) => decoded matches Some(s) && syscall_args_ok(h, d, raw, s) && (if started {
            s.ret is None
        } else {
            s.ret matches Some(rv) && ret_value_ok(h.types, d, raw.ret, rv)
        }),
    }
}

/// Whether the schema asks for this stop to surface an event: the definition's
/// strategy decides, and an unknown syscall is always surfaced.
pub open spec fn emit_of(h: Hir, eregs: UserRegs, started: bool) -> bool {
    match lookup_spec(h.defs@, (eregs.orig_rax & 0xffffff) as u32) {
        Some(d) => if started {
            d.strategy.on_enter
        } else {
            d.strategy.on_exit
        },
        None => true,
    }
}

/// Whether an emitted entry event is a fault-injection candidate: an `open`
/// or `openat` whose decoded path argument starts with the configured prefix.
pub open spec fn spoil_candidate(payload: EventPayload, prefix: Seq<char>) -> bool {
    match payload {
        EventPayload::Sysenter { raw, decoded } => (raw.syscall_id == 2 || raw.syscall_id == 257)
            && (match decoded {
            Some(s) => {
                let k: int = if raw.syscall_id == 2 {
                    0
                } else {
                    1
                };
                k < s.args@.len() && (s.args@[k] matches Value::String(ps) && has_prefix(
                    ps@,
                    prefix,
                ))
            },
            None => false,
        }),
        _ => false,
    }
}

/// Every definition of the schema surfaces both of its syscall-stops. Under
/// this hypothesis no event is suppressed, and the per-pid alternation of
/// syscall events holds of the stream.
pub open spec fn all_inout(h: Hir) -> bool {
    forall|i: int|
        0 <= i < h.defs@.len() ==> def_of(#[trigger] h.defs@[i]).strategy.on_enter && def_of(
            h.defs@[i],
        ).strategy.on_exit
}

proof fn lemma_all_inout_lookup(h: Hir, id: u32)
    requires
        all_inout(h),
    ensures
        lookup_spec(h.defs@, id) matches Some(d) ==> d.strategy.on_enter && d.strategy.on_exit,
{
    crate::magic::hir::lemma_lookup_spec_in(h.defs@, id);
}

/// A syscall event of a live tracee, emitted on the right parity, toggles
/// that tracee's parity and keeps alternation.
proof fn lemma_parity_push_sys(
    log: Seq<Event>,
    m: Map<u32, ChildInfo>,
    e: Event,
    p: u32,
    ci: ChildInfo,
)
    requires
        parity_shape_ok(log, m),
        m.contains_key(p),
        is_sys_event(e, p),
        e.payload is Sysenter <==> !m[p].in_syscall,
        ci.in_syscall == !m[p].in_syscall,
    ensures
        parity_shape_ok(log.push(e), m.insert(p, ci)),
{
    assert forall|q: u32| sys_alternates(log.push(e), q) by {
        lemma_stream_push(log, e, q);
    }
    assert forall|q: u32| #[trigger] m.insert(p, ci).contains_key(q) implies sys_parity(
        log.push(e),
        q,
    ) == m.insert(p, ci)[q].in_syscall by {
        lemma_stream_push(log, e, q);
    }
}

// ---------------------------------------------------------------------------
// The supervisor.

/// The tracer supervisor's state: the schema, the settings, the table of live
/// tracees, and — in the ghost world — the stream of events emitted so far
/// and the pids whose exit was already reported.
pub struct Tracer {
    pub magic: Hir,
    pub settings: Settings,
    pub children: HashMap<u32, ChildInfo>,
    pub first_iteration: bool,
    pub eos_sent: bool,
    /// The events emitted so far, in order.
    pub log: Ghost<Seq<Event>>,
    /// Pids whose exit event has been emitted.
    pub retired: Ghost<Set<u32>>,
}

impl Tracer {
    /// The supervisor's invariant. The stream shape holds of every run; the
    /// parity claims additionally need a schema that never suppresses an
    /// event.
    pub open spec fn inv(self) -> bool {
        &&& schema_wf(self.magic)
        &&& forall|p: u32|
            self.children@.contains_key(p) ==> ((#[trigger] self.children@[p]).in_spoiled
                ==> self.children@[p].in_syscall && self.children@[p].spoiled_syscall < 0x1000000)
        &&& stream_shape_ok(self.log@, self.children@.dom(), self.retired@, self.eos_sent)
        &&& forall|i: int| 0 <= i < self.log@.len() ==> ret_presence_ok(#[trigger] self.log@[i])
        &&& (all_inout(self.magic) ==> parity_shape_ok(self.log@, self.children@))
    }

    /// A supervisor with no tracee and an empty stream.
    pub fn new(magic: Hir, settings: Settings) -> (t: Tracer)
        requires
            schema_wf(magic),
        ensures
            t.inv(),
            t.magic == magic,
            t.settings == settings,
            t.children@ == Map::<u32, ChildInfo>::empty(),
            t.first_iteration,
            !t.eos_sent,
            t.log@ == Seq::<Event>::empty(),
            t.retired@ == Set::<u32>::empty(),
    {
        let t = Tracer {
            magic,
            settings,
            children: HashMap::new(),
            first_iteration: true,
            eos_sent: false,
            log: Ghost(Seq::empty()),
            retired: Ghost(Set::empty()),
        };
        proof {
            assert(t.children@.dom() =~= Set::<u32>::empty());
            assert forall|p: u32| attach_ok(t.log@, p) by {}
            assert forall|p: u32| exit_ok(t.log@, p) by {}
            assert forall|p: u32| sys_alternates(t.log@, p) by {}
        }
        t
    }

    /// Whether the wait loop must keep waiting: some tracee is still live, or
    /// no stop has been seen yet.
    pub fn active(&self) -> (r: bool)
        ensures
            r == (self.children@.len() > 0 || self.first_iteration),
    {
        !self.children.is_empty() || self.first_iteration
    }

    /// Handle one stop report: update the tracee table, decode the syscall,
    /// decide on fault injection, and say which event to emit and how the
    /// tracee is to be resumed.
    ///
    /// The ghost preconditions state what the kernel guarantees of wait
    /// reports: a reported pid is a real process (never 0), and a pid is not
    /// reported again once its exit has been reported.
    pub fn on_stop(&mut self, pid: u32, kind: StopKind, regs: Option<UserRegs>) -> (step: Step)
        requires
            old(self).inv(),
            !old(self).eos_sent,
            pid != 0,
            !old(self).retired@.contains(pid),
            kind is SyscallStop ==> regs is Some,
        ensures
            final(self).inv(),
            final(self).magic == old(self).magic,
            final(self).settings == old(self).settings,
            !final(self).eos_sent,
            !final(self).first_iteration,
            (match step.event {
                Some(ev) => final(self).log@ == old(self).log@.push(ev) && ev.pid == pid,
                None => final(self).log@ == old(self).log@,
            }),
            !old(self).children@.contains_key(pid) ==> attach_step_ok(
                *old(self),
                *final(self),
                pid,
                step,
            ),
            old(self).children@.contains_key(pid) ==> (match kind {
                StopKind::Exited(code) => exit_step_ok(*old(self), *final(self), pid, code, step),
                StopKind::SignalStop(sig) => signal_step_ok(*old(self), *final(self), pid, sig, step),
                StopKind::SyscallStop => (match regs {
                    Some(r) => syscall_step_ok(*old(self), *final(self), pid, r, step),
                    None => false,
                }),
                StopKind::PtraceEvent(_) => quiet_step_ok(*old(self), *final(self), step),
                StopKind::Other => quiet_step_ok(*old(self), *final(self), step),
            }),
    {
        self.first_iteration = false;
        let known = self.children.contains_key(&pid);
        if !known {
            // first stop of a new tracee: adopt it
            self.children.insert(
                pid,
                ChildInfo { in_syscall: false, in_spoiled: false, spoiled_syscall: 0 },
            );
            let ev = Event { payload: EventPayload::Attach, pid };
            proof {
                lemma_unseen(old(self).log@, pid);
                lemma_shape_attach(
                    old(self).log@,
                    old(self).children@.dom(),
                    old(self).retired@,
                    pid,
                );
                assert(self.children@.dom() =~= old(self).children@.dom().insert(pid));
                lemma_presence_push(old(self).log@, ev);
                if all_inout(self.magic) {
                    lemma_parity_insert(old(self).log@, old(self).children@, pid, fresh_child());
                    lemma_parity_push_nonsys(old(self).log@, self.children@, ev);
                }
            }
            self.log = Ghost(self.log@.push(ev));
            return Step {
                event: Some(ev),
                resume: ResumeHow::Plain,
                set_options: true,
                regs_patch: None,
                capture_backtrace: false,
            };
        }
        match kind {
            StopKind::Exited(code) => {
                self.children.remove(&pid);
                let ev = Event { payload: EventPayload::Exit(code), pid };
                proof {
                    lemma_shape_exit(
                        old(self).log@,
                        old(self).children@.dom(),
                        old(self).retired@,
                        pid,
                        code,
                    );
                    assert(self.children@.dom() =~= old(self).children@.dom().remove(pid));
                    assert(self.children@ =~= old(self).children@.remove(pid));
                    lemma_presence_push(old(self).log@, ev);
                    if all_inout(self.magic) {
                        lemma_parity_remove(old(self).log@, old(self).children@, pid);
                        lemma_parity_push_nonsys(old(self).log@, self.children@, ev);
                    }
                }
                self.retired = Ghost(self.retired@.insert(pid));
                self.log = Ghost(self.log@.push(ev));
                Step {
                    event: Some(ev),
                    resume: ResumeHow::No,
                    set_options: false,
                    regs_patch: None,
                    capture_backtrace: false,
                }
            },
            StopKind::SignalStop(sig) => {
                let decoded = match signal_name(sig) {
                    Some(s) => s,
                    None => String::new(),
                };
                let ev = Event { payload: EventPayload::Signal { raw: sig, decoded }, pid };
                proof {
                    lemma_shape_live_event(
                        old(self).log@,
                        old(self).children@.dom(),
                        old(self).retired@,
                        ev,
                    );
                    lemma_presence_push(old(self).log@, ev);
                    if all_inout(self.magic) {
                        lemma_parity_push_nonsys(old(self).log@, old(self).children@, ev);
                    }
                }
                self.log = Ghost(self.log@.push(ev));
                Step {
                    event: Some(ev),
                    resume: ResumeHow::WithSignal(sig),
                    set_options: false,
                    regs_patch: None,
                    capture_backtrace: false,
                }
            },
            StopKind::SyscallStop => {
                let ci = *self.children.get(&pid).unwrap();
                let started = !ci.in_syscall;
                let mut regs_v = regs.unwrap();
                let mut patch: Option<RegPatch> = None;
                if ci.in_spoiled {
                    // restore the spoiled call's id and plant the error
                    patch = Some(return_eio(&mut regs_v, ci.spoiled_syscall));
                }
                let raw = decode_syscall_args(&regs_v);
                let mut emit_this = true;
                let mut decoded: Option<Syscall> = None;
                match self.magic.lookup_syscall_by_id(SyscallId(raw.syscall_id as u32)) {
                    Some(d) => {
                        proof {
                            crate::magic::hir::lemma_lookup_spec_in(
                                self.magic.defs@,
                                raw.syscall_id as u32,
                            );
                        }
                        emit_this = if started {
                            d.strategy.on_enter
                        } else {
                            d.strategy.on_exit
                        };
                        decoded = process_syscall(&raw, pid as i32, &self.magic, d);
                    },
                    None => {},
                }
                let mut spoiled_now = false;
                if started && self.settings.fail_rate > 0 && (raw.syscall_id == 2
                    || raw.syscall_id == 257) {
                    if let Some(dec) = &decoded {
                        if let Some(prefix) = &self.settings.fail_path {
                            let arg_idx: usize = if raw.syscall_id == 2 {
                                0
                            } else {
                                1
                            };
                            if arg_idx < dec.args.len() {
                                if let Value::String(s) = &dec.args[arg_idx] {
                                    if str_starts_with(s.as_str(), prefix.as_str()) {
                                        if roll_percent() < self.settings.fail_rate {
                                            spoiled_now = true;
                                        }
                                    }
                                }
                            }
                        }
                    }
                }
                self.children.insert(
                    pid,
                    ChildInfo { in_syscall: started, in_spoiled: false, spoiled_syscall: 0 },
                );
                if spoiled_now {
                    patch = Some(spoil(&mut self.children, pid, started, raw.syscall_id));
                }
                let decoded_evt = if started {
                    match decoded {
                        Some(s) => {
                            let Syscall { name, args, ret: _, backtrace } = s;
                            Some(Syscall { name, args, ret: None, backtrace })
                        },
                        None => None,
                    }
                } else {
                    decoded
                };
                let mut capture = false;
                let event: Option<Event> = if emit_this {
                    capture = self.settings.capture_backtrace && started && decoded_evt.is_some();
                    let payload = if started {
                        EventPayload::Sysenter { raw, decoded: decoded_evt }
                    } else {
                        EventPayload::Sysexit { raw, decoded: decoded_evt }
                    };
                    Some(Event { payload, pid })
                } else {
                    None
                };
                proof {
                    assert(self.children@.dom() =~= old(self).children@.dom());
                    assert(0xffff_ffff_ffff_fffbu64 as i64 == -5i64) by (bit_vector);
                    if spoiled_now {
                        match (&event, &self.settings.fail_path) {
                            (Some(ev), Some(p)) => {
                                assert(spoil_candidate(ev.payload, p@));
                            },
                            _ => {},
                        }
                    }
                    match &event {
                        Some(ev) => {
                            lemma_shape_live_event(
                                old(self).log@,
                                old(self).children@.dom(),
                                old(self).retired@,
                                *ev,
                            );
                            assert(ret_presence_ok(*ev));
                            lemma_presence_push(old(self).log@, *ev);
                        },
                        None => {},
                    }
                    if all_inout(self.magic) {
                        lemma_all_inout_lookup(self.magic, raw.syscall_id as u32);
                        match &event {
                            Some(ev) => {
                                assert(self.children@ =~= old(self).children@.insert(
                                    pid,
                                    self.children@[pid],
                                ));
                                lemma_parity_push_sys(
                                    old(self).log@,
                                    old(self).children@,
                                    *ev,
                                    pid,
                                    self.children@[pid],
                                );
                            },
                            None => {},
                        }
                    }
                }
                match &event {
                    Some(ev) => {
                        self.log = Ghost(self.log@.push(*ev));
                    },
                    None => {},
                }
                Step {
                    event,
                    resume: ResumeHow::Plain,
                    set_options: false,
                    regs_patch: patch,
                    capture_backtrace: capture,
                }
            },
            StopKind::PtraceEvent(_) => Step {
                event: None,
                resume: ResumeHow::Plain,
                set_options: false,
                regs_patch: None,
                capture_backtrace: false,
            },
            StopKind::Other => Step {
                event: None,
                resume: ResumeHow::Plain,
                set_options: false,
                regs_patch: None,
                capture_backtrace: false,
            },
        }
    }

    /// Emit the terminal end-of-stream event. It is emitted once, after the
    /// last tracee has gone.
    pub fn eos(&mut self) -> (ev: Event)
        requires
            old(self).inv(),
            !old(self).eos_sent,
        ensures
            final(self).inv(),
            final(self).eos_sent,
            final(self).magic == old(self).magic,
            final(self).settings == old(self).settings,
            final(self).children@ == old(self).children@,
            final(self).retired@ == old(self).retired@,
            ev == (Event { payload: EventPayload::Eos, pid: 0u32 }),
            final(self).log@ == old(self).log@.push(ev),
    {
        let ev = Event { payload: EventPayload::Eos, pid: 0 };
        proof {
            lemma_shape_eos(old(self).log@, old(self).children@.dom(), old(self).retired@);
            lemma_presence_push(old(self).log@, ev);
            if all_inout(self.magic) {
                lemma_parity_push_nonsys(old(self).log@, old(self).children@, ev);
            }
        }
        self.eos_sent = true;
        self.log = Ghost(self.log@.push(ev));
        ev
    }
}

// ---------------------------------------------------------------------------
// What one step guarantees, per kind of stop.

/// Adopting a new tracee: it enters the table outside any syscall, an attach
/// event is emitted, and the embedding program must set the trace options
/// before resuming it without a signal.
pub open spec fn attach_step_ok(pre: Tracer, post: Tracer, pid: u32, step: Step) -> bool {
    &&& post.children@ == pre.children@.insert(pid, fresh_child())
    &&& post.retired@ == pre.retired@
    &&& step.event matches Some(ev) && ev == (Event { payload: EventPayload::Attach, pid })
    &&& step.resume is Plain
    &&& step.set_options
    &&& step.regs_patch is None
    &&& !step.capture_backtrace
}

/// A tracee exited: it leaves the table for good, its exit event is emitted,
/// and it is not resumed.
pub open spec fn exit_step_ok(pre: Tracer, post: Tracer, pid: u32, code: i32, step: Step) -> bool {
    &&& post.children@ == pre.children@.remove(pid)
    &&& post.retired@ == pre.retired@.insert(pid)
    &&& step.event matches Some(ev) && ev == (Event { payload: EventPayload::Exit(code), pid })
    &&& step.resume is No
    &&& !step.set_options
    &&& step.regs_patch is None
    &&& !step.capture_backtrace
}

/// A signal stop: a signal event carrying the signal's number and name is
/// emitted, and the signal is injected on resume.
pub open spec fn signal_step_ok(pre: Tracer, post: Tracer, pid: u32, sig: i32, step: Step) -> bool {
    &&& post.children@ == pre.children@
    &&& post.retired@ == pre.retired@
    &&& step.event matches Some(ev) && ev.pid == pid && (ev.payload matches EventPayload::Signal {
        raw,
        decoded,
    } && raw == sig && (match signal_lookup(sig) {
        Some(t) => decoded@ == t,
        None => decoded@ == Seq::<char>::empty(),
    }))
    &&& step.resume matches ResumeHow::WithSignal(s2) && s2 == sig
    &&& !step.set_options
    &&& step.regs_patch is None
    &&& !step.capture_backtrace
}

/// A stop that surfaces nothing: the tracee is resumed without a signal and
/// the state is unchanged.
pub open spec fn quiet_step_ok(pre: Tracer, post: Tracer, step: Step) -> bool {
    &&& post.children@ == pre.children@
    &&& post.retired@ == pre.retired@
    &&& step.event is None
    &&& step.resume is Plain
    &&& !step.set_options
    &&& step.regs_patch is None
    &&& !step.capture_backtrace
}

/// A syscall stop of a known tracee: parity toggles, the registers of a
/// spoiled call are rewritten at its exit, the event carries the raw and
/// decoded syscall as the strategy asks, and fault injection is decided at
/// the entry of an `open`/`openat` on the configured path prefix.
pub open spec fn syscall_step_ok(
    pre: Tracer,
    post: Tracer,
    pid: u32,
    regs: UserRegs,
    step: Step,
) -> bool {
    let ci = pre.children@[pid];
    let started = !ci.in_syscall;
    let eregs = if ci.in_spoiled {
        eio_patched(regs, ci.spoiled_syscall)
    } else {
        regs
    };
    &&& post.retired@ == pre.retired@
    &&& post.children@.dom() == pre.children@.dom()
    &&& forall|q: u32|
        #[trigger] pre.children@.contains_key(q) && q != pid ==> post.children@[q]
            == pre.children@[q]
    &&& post.children@[pid].in_syscall == started
    &&& (!started ==> !post.children@[pid].in_spoiled)
    // exit of a spoiled call: restore the id, plant the error
    &&& (ci.in_spoiled ==> (step.regs_patch matches Some(pa) && pa == (RegPatch {
        orig_rax: ci.spoiled_syscall,
        rax: EIO_RET,
    })))
    &&& (!ci.in_spoiled && !post.children@[pid].in_spoiled ==> step.regs_patch is None)
    // a spoil happens only at the entry of an open/openat under a configured
    // prefix, and substitutes the no-op syscall
    &&& (post.children@[pid].in_spoiled ==> started && pre.settings.fail_path is Some
        && pre.settings.fail_rate > 0 && post.children@[pid].spoiled_syscall == (eregs.orig_rax
        & 0xffffff) && (eregs.orig_rax & 0xffffff == 2 || eregs.orig_rax & 0xffffff == 257)
        && (step.regs_patch matches Some(pa) && pa == (RegPatch {
        orig_rax: NOOP_SYSCALL,
        rax: NOOP_SYSCALL,
    })))
    // at a certain rate, a matching decoded path forces the spoil
    &&& (started && pre.settings.fail_rate >= 100 && (match (pre.settings.fail_path, step.event) {
        (Some(prefix), Some(ev)) => spoil_candidate(ev.payload, prefix@),
        _ => false,
    }) ==> post.children@[pid].in_spoiled)
    // and conversely: a spoiled call whose entry event is emitted is a
    // candidate — its decoded path matches the configured prefix
    &&& (post.children@[pid].in_spoiled && step.event is Some ==> (match (
        pre.settings.fail_path,
        step.event,
    ) {
        (Some(prefix), Some(ev)) => spoil_candidate(ev.payload, prefix@),
        _ => false,
    }))
    // the emitted event
    &&& (step.event is Some <==> emit_of(pre.magic, eregs, started))
    &&& (step.event matches Some(ev) ==> ev.pid == pid && syscall_event_ok(
        pre.magic,
        eregs,
        started,
        ev.payload,
    ))
    // a spoiled call's exit event reports the planted I/O error
    &&& (ci.in_spoiled ==> (match step.event {
        Some(ev) => (ev.payload matches EventPayload::Sysexit { decoded: Some(s), .. } ==> (s.ret
            matches Some(v) && v matches Value::Error(c, m) && c == 5 && m@ == errno_text(5))),
        None => true,
    }))
    &&& step.resume is Plain
    &&& !step.set_options
    // backtrace capture: at emitted, decoded entries, when the settings ask
    &&& (step.capture_backtrace ==> started && pre.settings.capture_backtrace)
    &&& (started && pre.settings.capture_backtrace && (step.event matches Some(ev) && (ev.payload
        matches EventPayload::Sysenter { decoded: Some(_), .. })) ==> step.capture_backtrace)
}

// ---------------------------------------------------------------------------
// The laws of the emitted stream.

/// For every pid, an attach event precedes all other events of that pid, and
/// an exit event of that pid, if present, is last.
pub proof fn lemma_attach_first_exit_last(t: Tracer, p: u32)
    requires
        t.inv(),
    ensures
        attach_ok(t.log@, p),
        exit_ok(t.log@, p),
{
}

/// For every pid, the emitted syscall events strictly alternate between
/// entries and exits, beginning with an entry — for schemas that surface
/// both stops of every syscall (one-sided strategies suppress events and
/// so break the alternation of what is emitted).
pub proof fn lemma_syscall_alternation(t: Tracer, p: u32)
    requires
        t.inv(),
        all_inout(t.magic),
    ensures
        sys_alternates(t.log@, p),
{
}

/// For every decoded syscall event of the stream, the decoded return value is
/// absent on entry events and present on exit events.
pub proof fn lemma_ret_presence(t: Tracer, i: int)
    requires
        t.inv(),
        0 <= i < t.log@.len(),
    ensures
        ret_presence_ok(t.log@[i]),
{
}

/// Exactly one end-of-stream event is emitted, strictly after every other
/// event.
pub proof fn lemma_single_eos(t: Tracer)
    requires
        t.inv(),
        t.eos_sent,
    ensures
        eos_count(t.log@) == 1,
        t.log@.last() == (Event { payload: EventPayload::Eos, pid: 0u32 }),
        eos_count(t.log@.drop_last()) == 0,
{
}

} // verus!

