//! Userspace backtraces of stopped tracees, as the data model of events.
//!
//! Capturing a backtrace is the embedding program's job (it drives the
//! third-party unwinder); this module only holds the captured data and
//! demangles symbol names on demand.

use vstd::prelude::*;

use crate::strutil::opt_str_view;

verus! {

/// A backtrace: one entry per thread of the tracee.
#[derive(Debug, Clone, PartialEq)]
pub struct Backtrace {
    pub threads: Vec<ThreadBacktrace>,
}

impl Backtrace {
    pub fn threads(&self) -> (r: &[ThreadBacktrace])
        ensures
            r@ == self.threads@,
    {
        self.threads.as_slice()
    }
}

#[derive(Debug, Clone, PartialEq)]
pub struct ThreadBacktrace {
    pub name: Option<String>,
    pub id: u32,
    pub frames: Vec<Frame>,
}

impl ThreadBacktrace {
    pub fn name(&self) -> (r: Option<&str>)
        ensures
            match self.name {
                Some(ref n) => r matches Some(s) && s@ == n@,
                None => r is None,
            },
    {
        match &self.name {
            Some(n) => Some(n.as_str()),
            None => None,
        }
    }

    pub fn frames(&self) -> (r: &[Frame])
        ensures
            r@ == self.frames@,
    {
        self.frames.as_slice()
    }

    pub fn id(&self) -> (r: u32)
        ensures
            r == self.id,
    {
        self.id
    }
}

/// One stack frame: an instruction pointer and, when the unwinder resolved
/// one, a symbol.
#[derive(Debug, Clone, PartialEq)]
pub struct Frame {
    pub ip: usize,
    pub sym: Option<Symbol>,
}

impl Frame {
    pub fn ip(&self) -> (r: usize)
        ensures
            r == self.ip,
    {
        self.ip
    }

    pub fn sym(&self) -> (r: Option<&Symbol>)
        ensures
            match self.sym {
                Some(ref s) => r matches Some(rs) && *rs == s,
                None => r is None,
            },
    {
        self.sym.as_ref()
    }
}

/// A resolved symbol, still under its raw (possibly mangled) name.
#[derive(Debug, Clone, PartialEq)]
pub struct Symbol {
    pub name: String,
    pub offset: usize,
    pub addr: usize,
    pub size: usize,
}

/// The demangled form of a name under the Rust mangling scheme, if the name
/// demangles under it.
pub uninterp spec fn rust_demangling(s: Seq<char>) -> Option<Seq<char>>;

/// The demangled form of a name under the C++ (Itanium) mangling scheme, if
/// the name demangles under it.
pub uninterp spec fn cpp_demangling(s: Seq<char>) -> Option<Seq<char>>;

/// Relies on rustc_demangle::try_demangle: whether a name demangles, and its
/// demangled display form, depend on the name's characters alone.
#[verifier::external_body]
fn rust_demangle(s: &str) -> (r: Option<String>)
    ensures
        opt_str_view(r) == rust_demangling(s@),
{
    rustc_demangle::try_demangle(s).ok().map(|d| d.to_string())
}

/// Relies on cpp_demangle::Symbol::new and Symbol::demangle: whether a name
/// parses as a mangled C++ symbol, and its demangled form, depend on the
/// name's characters alone.
#[verifier::external_body]
fn cpp_demangle_name(s: &str) -> (r: Option<String>)
    ensures
        opt_str_view(r) == cpp_demangling(s@),
{
    cpp_demangle::Symbol::new(s).ok().and_then(|sym| sym.demangle().ok())
}

impl Symbol {
    pub fn raw_name(&self) -> (r: &str)
        ensures
            r@ == self.name@,
    {
        self.name.as_str()
    }

    /// Demangle the raw name: first as a Rust symbol, then as a C++ symbol;
    /// a name that demangles under neither scheme is returned as it is.
    pub fn demangle(&self) -> (r: String)
        ensures
            match rust_demangling(self.name@) {
                Some(t) => r@ == t,
                None => match cpp_demangling(self.name@) {
                    Some(t) => r@ == t,
                    None => r@ == self.name@,
                },
            },
    {
        if let Some(rust_sym) = rust_demangle(self.raw_name()) {
            return rust_sym;
        }
        if let Some(cpp_sym) = cpp_demangle_name(self.raw_name()) {
            return cpp_sym;
        }
        self.name.clone()
    }

    pub fn offset(&self) -> (r: usize)
        ensures
            r == self.offset,
    {
        self.offset
    }

    pub fn addr(&self) -> (r: usize)
        ensures
            r == self.addr,
    {
        self.addr
    }

    pub fn size(&self) -> (r: usize)
        ensures
            r == self.size,
    {
        self.size
    }
}

} // verus!
