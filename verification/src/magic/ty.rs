//! Types and decoded values of the schema's type system.

use vstd::prelude::*;

verus! {

/// A primitive schema type.
#[derive(Debug, Clone, PartialEq)]
pub enum PrimitiveTy {
    /// handle
    Fd,
    /// number
    Number,
    /// zero-terminated string
    ZString,
    /// buffer with an explicit length
    Buffer,
    /// signal id
    Signal,
    /// address
    Address,
}

/// Data type
#[derive(Debug, Clone, PartialEq)]
pub enum Ty {
    /// not used in this syscall
    Null,
    Primitive(PrimitiveTy),
}

/// A decoded value.
#[derive(Debug, Clone, PartialEq)]
pub enum Value {
    Integral(i64),
    /// raw fd value, and an optional per-open identity (always absent today)
    Handle(u32, Option<u64>),
    String(String),
    Buffer(Vec<u8>),
    Flags(u64, Vec<String>),
    Signal(i32, Option<String>),
    Address(u64),
    Error(i32, String),
    Unknown,
}

impl Value {
    /// A value is known unless decoding failed for its slot.
    pub fn is_known(&self) -> (r: bool)
        ensures
            r == !(self is Unknown),
    {
        match self {
            Value::Unknown => false,
            _ => true,
        }
    }

    /// Every value is scalar until aggregate types exist.
    pub fn is_scalar(&self) -> (r: bool)
        ensures
            r,
    {
        true
    }

    /// Project a path into the value: a scalar is reached only by the empty
    /// path.
    pub fn project<'a>(&'a self, path: &[String]) -> (r: Option<&'a Value>)
        ensures
            r == if path@.len() == 0 {
                Some(self)
            } else {
                None::<&'a Value>
            },
    {
        if path.len() == 0 {
            Some(self)
        } else {
            None
        }
    }
}

} // verus!
