//! Decodes raw syscalls into human-readable typed values.
//!
//! Decoding reads the schema and, for string and buffer parameters, the
//! stopped tracee's memory. Memory reads go through a trusted wrapper around
//! the kernel's cross-process read; everything the decoder concludes from
//! what came back is verified.

use vstd::prelude::*;

use crate::magic::hir::{def_wf, FieldDef, FieldTypeInfo, Hir, SyscallDef};
use crate::magic::ty::{PrimitiveTy, Ty, Value};
use crate::strutil::{opt_str_view, str_eq};
use crate::{RawSyscall, Syscall};

verus! {

/// Cap on foreign-memory reads, in bytes.
pub const MAX_LEN: usize = 4096;

/// What `String::from_utf8_lossy` yields on the given bytes.
pub uninterp spec fn utf8_lossy(b: Seq<u8>) -> Seq<char>;

/// Relies on std's String::from_utf8_lossy: decodes UTF-8, replacing invalid
/// sequences; the result depends on the bytes alone.
#[verifier::external_body]
fn lossy_string(b: &[u8]) -> (r: String)
    ensures
        r@ == utf8_lossy(b@),
{
    String::from_utf8_lossy(b).to_string()
}

/// The message text of an errno value.
pub uninterp spec fn errno_text(code: i32) -> Seq<char>;

/// Relies on nix::errno::Errno::desc: a fixed, non-empty message for every
/// errno value (values outside the table get "Unknown errno").
#[verifier::external_body]
pub(crate) fn errno_message(code: i32) -> (r: String)
    ensures
        r@ == errno_text(code),
        r@.len() > 0,
{
    nix::errno::Errno::from_raw(code).desc().to_string()
}

/// The name of a signal number, if the number names a signal on this platform.
pub uninterp spec fn signal_lookup(code: i32) -> Option<Seq<char>>;

/// Relies on nix::sys::signal::Signal::try_from and Signal::as_str: whether a
/// number names a signal, and that name, depend on the number alone.
#[verifier::external_body]
pub(crate) fn signal_name(code: i32) -> (r: Option<String>)
    ensures
        opt_str_view(r) == signal_lookup(code),
{
    nix::sys::signal::Signal::try_from(code).ok().map(|s| s.as_str().to_string())
}

/// Relies on nix::sys::uio::process_vm_readv: fills `buf` from the tracee's
/// address space without changing its length, and reports how many bytes the
/// kernel copied (at most the buffer's length). What the bytes hold depends on
/// the tracee's memory.
#[verifier::external_body]
fn vm_read_into(pid: i32, addr: usize, buf: &mut Vec<u8>) -> (r: Option<usize>)
    ensures
        final(buf)@.len() == old(buf)@.len(),
        r matches Some(n) ==> n <= final(buf)@.len(),
{
    let len = buf.len();
    let mut local = [std::io::IoSliceMut::new(&mut buf[..])];
    let remote = [nix::sys::uio::RemoteIoVec { base: addr, len }];
    match nix::sys::uio::process_vm_readv(nix::unistd::Pid::from_raw(pid), &mut local, &remote) {
        Ok(n) => Some(n),
        Err(_) => None,
    }
}

/// Read exactly `len` bytes at `ptr` in the tracee's address space. Reads
/// longer than the cap fail; a read the kernel could not complete in full is
/// reported as failed, never as partial.
pub fn try_read_buf(ptr: usize, len: usize, proc: i32) -> (r: Option<Vec<u8>>)
    ensures
        r matches Some(b) ==> b@.len() == len && len <= MAX_LEN,
{
    if len > MAX_LEN {
        return None;
    }
    let mut out: Vec<u8> = Vec::new();
    while out.len() < len
        invariant
            out@.len() <= len,
        decreases len - out@.len(),
    {
        out.push(0xBA);
    }
    match vm_read_into(proc, ptr, &mut out) {
        Some(n) => {
            if n == len {
                Some(out)
            } else {
                None
            }
        },
        None => None,
    }
}

/// Read a zero-terminated string at `ptr`, one byte at a time, up to the cap.
/// The terminator is not part of the result; if a read fails before any
/// terminator was seen, the whole read fails.
pub fn try_read_zstring(ptr: usize, proc: i32) -> (r: Option<Vec<u8>>)
    ensures
        r matches Some(b) ==> b@.len() <= MAX_LEN && (forall|i: int|
            0 <= i < b@.len() ==> b@[i] != 0),
{
    let mut out: Vec<u8> = Vec::new();
    while out.len() < MAX_LEN
        invariant
            out@.len() <= MAX_LEN,
            forall|i: int| 0 <= i < out@.len() ==> out@[i] != 0,
        decreases MAX_LEN - out@.len(),
    {
        if out.len() > usize::MAX - ptr {
            // the address would wrap around the address space
            return None;
        }
        match try_read_buf(ptr + out.len(), 1, proc) {
            Some(v) => {
                let ch = v[0];
                if ch != 0 {
                    out.push(ch);
                } else {
                    return Some(out);
                }
            },
            None => {
                return None;
            },
        }
    }
    Some(out)
}

/// The errno carried by a return value under the kernel's small-negative
/// convention: a value whose signed interpretation lies in [-4095, -1].
pub open spec fn errno_of_ret(value: u64) -> Option<i32> {
    let v = value as i64;
    if -4095 <= v && v <= -1 {
        Some((-v) as i32)
    } else {
        None
    }
}

/// Decode a return value under the kernel's error convention.
pub fn decode_error(value: u64) -> (r: Option<Value>)
    ensures
        match errno_of_ret(value) {
            Some(c) => r matches Some(v) && v matches Value::Error(code, msg) && code == c && msg@
                == errno_text(c) && msg@.len() > 0,
            None => r is None,
        },
{
    let v = value as i64;
    if v >= 0 {
        return None;
    }
    if v < -4095 {
        return None;
    }
    let code = (-v) as i32;
    Some(Value::Error(code, errno_message(code)))
}

/// The index of the first parameter (among the first `n` fields) with the
/// given name.
pub open spec fn find_param_from(fields: Seq<FieldDef>, i: int, n: int, name: Seq<char>) -> Option<
    int,
>
    decreases n - i,
{
    if i < 0 || i >= n {
        None
    } else if fields[i].name@ == name {
        Some(i)
    } else {
        find_param_from(fields, i + 1, n, name)
    }
}

proof fn lemma_find_param_props(fields: Seq<FieldDef>, i: int, n: int, name: Seq<char>)
    requires
        0 <= i,
        n <= fields.len(),
    ensures
        match find_param_from(fields, i, n, name) {
            Some(k) => i <= k < n && fields[k].name@ == name && (forall|j: int|
                #![trigger fields[j]]
                i <= j < k ==> fields[j].name@ != name),
            None => forall|j: int| #![trigger fields[j]] i <= j < n ==> fields[j].name@ != name,
        },
    decreases n - i,
{
    if !(i < 0 || i >= n) && fields[i].name@ != name {
        lemma_find_param_props(fields, i + 1, n, name);
    }
}

/// What the length path denotes against the evaluation vector: the head names
/// a parameter, whose already-computed value the rest of the path projects
/// into (a scalar is reached only by an empty rest).
pub open spec fn resolve_spec(
    fields: Seq<FieldDef>,
    evaluated: Seq<Option<Value>>,
    path: Seq<String>,
) -> Option<Value> {
    if path.len() == 0 {
        None
    } else {
        match find_param_from(fields, 0, evaluated.len() as int, path[0]@) {
            None => None,
            Some(k) => match evaluated[k] {
                None => None,
                Some(v) => if path.len() == 1 {
                    Some(v)
                } else {
                    None
                },
            },
        }
    }
}

/// A decoded string value is the lossy UTF-8 decoding of some NUL-free byte
/// sequence within the read cap: what any zero-terminated read can yield.
pub open spec fn zstring_value_ok(out: Value) -> bool {
    out matches Value::String(s) && exists|b: Seq<u8>|
        #![trigger utf8_lossy(b)]
        b.len() <= MAX_LEN && (forall|i: int| 0 <= i < b.len() ==> b[i] != 0) && s@ == utf8_lossy(b)
}

/// Relation between a register value and its decoded form, for every decode
/// that does not depend on the tracee's memory; which string and buffer the
/// memory reads may yield is pinned down further by the decoder's own
/// contract.
pub open spec fn value_ok(ty: Ty, v: u64, out: Value) -> bool {
    match ty {
        Ty::Null => out == Value::Unknown,
        Ty::Primitive(p) => match p {
            PrimitiveTy::Fd => out == Value::Handle(v as u32, None::<u64>),
            PrimitiveTy::Number => out == Value::Integral(v as i64),
            PrimitiveTy::ZString => zstring_value_ok(out) || out == Value::Unknown,
            PrimitiveTy::Buffer => (out matches Value::Buffer(_)) || out == Value::Unknown,
            PrimitiveTy::Signal => out matches Value::Signal(c, n) && c == v as i32 && opt_str_view(
                n,
            ) == signal_lookup(v as i32),
            PrimitiveTy::Address => out == Value::Address(v),
        },
    }
}

/// The decoded form of a syscall's return value: the kernel's error
/// convention takes precedence, then the declared type of the last field.
pub open spec fn ret_value_ok(types: crate::magic::hir::TyDb, def: SyscallDef, v: u64, out: Value) -> bool {
    match errno_of_ret(v) {
        Some(c) => out matches Value::Error(code, msg) && code == c && msg@ == errno_text(c)
            && msg@.len() > 0,
        None => value_ok(types.ty_of(def.body.fields@.last().ty_info.ty_name@), v, out),
    }
}

/// The evaluation vector as the decoder saw it while decoding slot `i`:
/// parameters are evaluated in reverse positional order, so exactly the slots
/// after `i` were computed.
pub open spec fn masked_after(args: Seq<Value>, i: int) -> Seq<Option<Value>> {
    Seq::new(args.len(), |k: int| if k > i { Some(args[k]) } else { None })
}

/// What buffer decoding guarantees for parameter `i` of a decoded syscall:
/// a buffer value holds exactly as many bytes as the length its `len` path
/// resolved to, and a path that does not resolve to a non-negative integral
/// leaves the slot unknown.
pub open spec fn buffer_arg_ok(def: SyscallDef, args: Seq<Value>, i: int) -> bool {
    let resolved = resolve_spec(
        def.body.fields@,
        masked_after(args, i),
        def.body.fields@[i].ty_info.len_ref@,
    );
    &&& (args[i] matches Value::Buffer(b) ==> resolved matches Some(l) && l matches Value::Integral(
        n,
    ) && 0 <= n && b@.len() == n)
    &&& (!(resolved matches Some(l) && l matches Value::Integral(n) && 0 <= n) ==> args[i]
        == Value::Unknown)
}

/// What the decoder guarantees of a decoded syscall's name and arguments,
/// against the schema definition it was decoded under.
pub open spec fn syscall_args_ok(h: Hir, def: SyscallDef, raw: RawSyscall, s: Syscall) -> bool {
    &&& s.name@ == def.name@
    &&& s.args@.len() == def.body.fields@.len() - 1
    &&& forall|i: int|
        0 <= i < s.args@.len() ==> value_ok(
            h.types.ty_of(#[trigger] def.body.fields@[i].ty_info.ty_name@),
            raw.args@[i],
            s.args@[i],
        )
    &&& forall|i: int|
        0 <= i < s.args@.len() && h.types.ty_of(#[trigger] def.body.fields@[i].ty_info.ty_name@)
            == Ty::Primitive(PrimitiveTy::Buffer) ==> buffer_arg_ok(def, s.args@, i)
    &&& s.backtrace is None
}

/// Everything the decoder guarantees of a decoded syscall, against the schema
/// definition it was decoded under.
pub open spec fn syscall_decoded_ok(h: Hir, def: SyscallDef, raw: RawSyscall, s: Syscall) -> bool {
    &&& syscall_args_ok(h, def, raw, s)
    &&& s.ret matches Some(rv) && ret_value_ok(h.types, def, raw.ret, rv)
}

/// Decoder state for one syscall: the schema, the raw registers, and the
/// per-parameter evaluation vector, filled in dependency order.
pub struct Decoder<'a> {
    pub magic: &'a Hir,
    pub evaluated: Vec<Option<Value>>,
    pub raw: &'a RawSyscall,
    pub proc: i32,
    pub syscall: &'a SyscallDef,
}

impl<'a> Decoder<'a> {
    /// The evaluation vector has one slot per parameter, and every type name
    /// of the definition resolves.
    pub open spec fn wf(self) -> bool {
        &&& def_wf(self.magic.types, *self.syscall)
        &&& self.evaluated@.len() == self.syscall.body.fields@.len() - 1
    }

    /// Resolve a length path against the evaluation vector.
    fn resolve_path(&self, path: &Vec<String>) -> (r: Option<&Value>)
        requires
            self.wf(),
        ensures
            match resolve_spec(self.syscall.body.fields@, self.evaluated@, path@) {
                Some(v) => r matches Some(rv) && *rv == v,
                None => r is None,
            },
    {
        if path.len() == 0 {
            return None;
        }
        let head: &String = &path[0];
        let n = self.evaluated.len();
        let mut i: usize = 0;
        while i < n
            invariant
                0 <= i <= n,
                self.wf(),
                n == self.evaluated@.len(),
                path@.len() > 0,
                head@ == path@[0]@,
                forall|j: int|
                    #![trigger self.syscall.body.fields@[j]]
                    0 <= j < i ==> self.syscall.body.fields@[j].name@ != head@,
            decreases n - i,
        {
            if str_eq(self.syscall.body.fields[i].name.as_str(), head.as_str()) {
                proof {
                    lemma_find_param_props(self.syscall.body.fields@, 0, n as int, head@);
                }
                let val = match &self.evaluated[i] {
                    Some(v) => v,
                    None => {
                        return None;
                    },
                };
                return val.project(vstd::slice::slice_subrange(path.as_slice(), 1, path.len()));
            }
            i = i + 1;
        }
        proof {
            lemma_find_param_props(self.syscall.body.fields@, 0, n as int, head@);
        }
        None
    }

    /// Decode one register value by its schema type.
    fn do_decode(&self, ty: &Ty, value: u64, field_ty_info: &FieldTypeInfo) -> (out: Value)
        requires
            self.wf(),
        ensures
            value_ok(*ty, value, out),
            *ty == Ty::Primitive(PrimitiveTy::Buffer) ==> {
                let resolved = resolve_spec(
                    self.syscall.body.fields@,
                    self.evaluated@,
                    field_ty_info.len_ref@,
                );
                &&& (out matches Value::Buffer(b) ==> resolved matches Some(l) && l matches
                    Value::Integral(n) && 0 <= n && b@.len() == n)
                &&& (!(resolved matches Some(l) && l matches Value::Integral(n) && 0 <= n) ==> out
                    == Value::Unknown)
            },
    {
        match ty {
            Ty::Primitive(PrimitiveTy::Fd) => Value::Handle(value as u32, None),
            Ty::Primitive(PrimitiveTy::Number) => Value::Integral(value as i64),
            Ty::Primitive(PrimitiveTy::ZString) => {
                let mut result = Value::Unknown;
                if let Some(buf) = try_read_zstring(value as usize, self.proc) {
                    let s = lossy_string(buf.as_slice());
                    proof {
                        assert(buf@.len() <= MAX_LEN && (forall|i: int|
                            0 <= i < buf@.len() ==> buf@[i] != 0) && s@ == utf8_lossy(buf@));
                    }
                    result = Value::String(s);
                }
                result
            },
            Ty::Primitive(PrimitiveTy::Buffer) => {
                let mut result = Value::Unknown;
                let len_arg_path = &field_ty_info.len_ref;
                if len_arg_path.len() > 0 {
                    let len = self.resolve_path(len_arg_path);
                    if let Some(len) = len {
                        if let Value::Integral(len) = len {
                            let len = *len;
                            if len >= 0 && len <= MAX_LEN as i64 {
                                let len = len as usize;
                                let buf = try_read_buf(value as usize, len, self.proc);
                                if let Some(buf) = buf {
                                    result = Value::Buffer(buf);
                                }
                            }
                        }
                    }
                }
                result
            },
            Ty::Primitive(PrimitiveTy::Signal) => {
                let signal_id = value as i32;
                Value::Signal(signal_id, signal_name(signal_id))
            },
            Ty::Primitive(PrimitiveTy::Address) => Value::Address(value),
            Ty::Null => Value::Unknown,
        }
    }

    /// Decode the parameter at position `idx`.
    fn do_decode_arg(&self, idx: usize) -> (out: Value)
        requires
            self.wf(),
            idx < self.evaluated@.len(),
        ensures
            value_ok(
                self.magic.types.ty_of(self.syscall.body.fields@[idx as int].ty_info.ty_name@),
                self.raw.args@[idx as int],
                out,
            ),
            self.magic.types.ty_of(self.syscall.body.fields@[idx as int].ty_info.ty_name@)
                == Ty::Primitive(PrimitiveTy::Buffer) ==> {
                let resolved = resolve_spec(
                    self.syscall.body.fields@,
                    self.evaluated@,
                    self.syscall.body.fields@[idx as int].ty_info.len_ref@,
                );
                &&& (out matches Value::Buffer(b) ==> resolved matches Some(l) && l matches
                    Value::Integral(n) && 0 <= n && b@.len() == n)
                &&& (!(resolved matches Some(l) && l matches Value::Integral(n) && 0 <= n) ==> out
                    == Value::Unknown)
            },
    {
        let field = &self.syscall.body.fields[idx];
        let value = self.raw.args[idx];
        let ty = self.magic.resolve_ty(field.ty_info.ty_name.as_str());
        self.do_decode(ty, value, &field.ty_info)
    }

    /// Decode the return value: the kernel's error convention first, then the
    /// declared type of the return field.
    fn do_decode_ret(&self) -> (out: Value)
        requires
            self.wf(),
        ensures
            ret_value_ok(self.magic.types, *self.syscall, self.raw.ret, out),
    {
        let value = self.raw.ret;
        if let Some(err_val) = decode_error(value) {
            return err_val;
        }
        let field = self.syscall.ret();
        let ty = self.magic.resolve_ty(field.ty_info.ty_name.as_str());
        self.do_decode(ty, value, &field.ty_info)
    }

    /// Decode parameter `idx` into its evaluation slot, which must be empty.
    fn decode_arg(&mut self, idx: usize)
        requires
            old(self).wf(),
            idx < old(self).evaluated@.len(),
            forall|j: int| 0 <= j <= idx ==> old(self).evaluated@[j] is None,
        ensures
            final(self).magic == old(self).magic,
            final(self).raw == old(self).raw,
            final(self).proc == old(self).proc,
            final(self).syscall == old(self).syscall,
            final(self).evaluated@.len() == old(self).evaluated@.len(),
            forall|j: int|
                0 <= j < old(self).evaluated@.len() && j != idx ==> final(self).evaluated@[j] == old(
                    self,
                ).evaluated@[j],
            final(self).evaluated@[idx as int] matches Some(v) && value_ok(
                old(self).magic.types.ty_of(
                    old(self).syscall.body.fields@[idx as int].ty_info.ty_name@,
                ),
                old(self).raw.args@[idx as int],
                v,
            ),
            old(self).magic.types.ty_of(old(self).syscall.body.fields@[idx as int].ty_info.ty_name@)
                == Ty::Primitive(PrimitiveTy::Buffer) ==> {
                let resolved = resolve_spec(
                    old(self).syscall.body.fields@,
                    old(self).evaluated@,
                    old(self).syscall.body.fields@[idx as int].ty_info.len_ref@,
                );
                &&& (final(self).evaluated@[idx as int] matches Some(Value::Buffer(b)) ==> resolved
                    matches Some(l) && l matches Value::Integral(n) && 0 <= n && b@.len() == n)
                &&& (!(resolved matches Some(l) && l matches Value::Integral(n) && 0 <= n)
                    ==> final(self).evaluated@[idx as int] == Some(Value::Unknown))
            },
    {
        let val = self.do_decode_arg(idx);
        self.evaluated[idx] = Some(val);
    }

    /// Decode the whole syscall: every parameter in reverse positional order
    /// (so a buffer's length is computed before the buffer), then the return
    /// value.
    pub fn process(&mut self) -> (r: Syscall)
        requires
            old(self).wf(),
            forall|j: int| 0 <= j < old(self).evaluated@.len() ==> old(self).evaluated@[j] is None,
        ensures
            syscall_decoded_ok(*old(self).magic, *old(self).syscall, *old(self).raw, r),
    {
        let ghost fields = self.syscall.body.fields@;
        let ghost types = self.magic.types;
        let n = self.evaluated.len();
        let mut i: usize = n;
        while i > 0
            invariant
                self.wf(),
                self.magic == old(self).magic,
                self.raw == old(self).raw,
                self.proc == old(self).proc,
                self.syscall == old(self).syscall,
                fields == self.syscall.body.fields@,
                types == self.magic.types,
                0 <= i <= n,
                n == self.evaluated@.len(),
                forall|j: int| 0 <= j < i ==> self.evaluated@[j] is None,
                forall|j: int|
                    i <= j < n ==> (#[trigger] self.evaluated@[j] matches Some(v) && value_ok(
                        types.ty_of(fields[j].ty_info.ty_name@),
                        self.raw.args@[j],
                        v,
                    )),
                forall|j: int|
                    i <= j < n && types.ty_of(#[trigger] fields[j].ty_info.ty_name@)
                        == Ty::Primitive(PrimitiveTy::Buffer) ==> {
                        let resolved = resolve_spec(
                            fields,
                            mask_from(self.evaluated@, j),
                            fields[j].ty_info.len_ref@,
                        );
                        &&& (self.evaluated@[j] matches Some(Value::Buffer(b)) ==> resolved matches
                            Some(l) && l matches Value::Integral(m) && 0 <= m && b@.len() == m)
                        &&& (!(resolved matches Some(l) && l matches Value::Integral(m) && 0 <= m)
                            ==> self.evaluated@[j] == Some(Value::Unknown))
                    },
            decreases i,
        {
            let ghost eval_before = self.evaluated@;
            i = i - 1;
            proof {
                assert(eval_before =~= mask_from(eval_before, i as int));
            }
            self.decode_arg(i);
            proof {
                assert(mask_from(self.evaluated@, i as int) =~= mask_from(eval_before, i as int));
                assert forall|j: int|
                    i < j < n && types.ty_of(#[trigger] fields[j].ty_info.ty_name@)
                        == Ty::Primitive(PrimitiveTy::Buffer) implies mask_from(
                    self.evaluated@,
                    j,
                ) =~= mask_from(eval_before, j) by {}
            }
        }
        let ret_val = self.do_decode_ret();
        let ghost final_eval = self.evaluated@;
        let mut rev: Vec<Value> = Vec::new();
        while self.evaluated.len() > 0
            invariant
                self.magic == old(self).magic,
                self.syscall == old(self).syscall,
                rev@.len() + self.evaluated@.len() == n,
                n == final_eval.len(),
                forall|j: int| 0 <= j < n ==> final_eval[j] is Some,
                forall|j: int| 0 <= j < self.evaluated@.len() ==> self.evaluated@[j] == final_eval[j],
                forall|j: int|
                    0 <= j < rev@.len() ==> Some(#[trigger] rev@[j]) == final_eval[n - 1 - j],
            decreases self.evaluated@.len(),
        {
            let ghost plen = self.evaluated@.len() as int;
            proof {
                assert(self.evaluated@[plen - 1] == final_eval[plen - 1]);
            }
            match self.evaluated.pop() {
                Some(Some(v)) => {
                    rev.push(v);
                },
                _ => {
                    proof {
                        assert(false);
                    }
                },
            }
        }
        let mut args: Vec<Value> = Vec::new();
        while rev.len() > 0
            invariant
                args@.len() + rev@.len() == n,
                n == final_eval.len(),
                forall|j: int| 0 <= j < rev@.len() ==> Some(#[trigger] rev@[j]) == final_eval[n - 1 - j],
                forall|j: int| 0 <= j < args@.len() ==> Some(#[trigger] args@[j]) == final_eval[j],
            decreases rev@.len(),
        {
            match rev.pop() {
                Some(v) => {
                    args.push(v);
                },
                None => {
                    proof {
                        assert(false);
                    }
                },
            }
        }
        proof {
            assert forall|j: int| 0 <= j < n implies Some(#[trigger] args@[j]) == final_eval[j] by {}
            assert forall|j: int|
                0 <= j < n && types.ty_of(#[trigger] fields[j].ty_info.ty_name@) == Ty::Primitive(
                    PrimitiveTy::Buffer,
                ) implies buffer_arg_ok(*old(self).syscall, args@, j) by {
                assert(mask_from(final_eval, j) =~= masked_after(args@, j));
            }
        }
        Syscall { name: self.syscall.name.clone(), args, ret: Some(ret_val), backtrace: None }
    }
}

/// The vector with every slot at or before `i` cleared: what the reverse
/// evaluation order guarantees the decoder saw when it decoded slot `i`.
pub open spec fn mask_from(evaluated: Seq<Option<Value>>, i: int) -> Seq<Option<Value>> {
    Seq::new(evaluated.len(), |k: int| if k > i { evaluated[k] } else { None })
}

} // verus!
