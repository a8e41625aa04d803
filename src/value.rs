//! The tagged runtime value.
use vstd::prelude::*;

verus! {

/// A small integer that stands for a name after interning.
#[derive(Debug, Clone, Copy, PartialEq, Eq, Hash, Structural)]
pub struct Ident(pub usize);

/// Every runtime value. Floats are carried as their IEEE-754 bit patterns:
/// the evaluator only moves them between literals, variables and native calls.
#[derive(Debug, PartialEq, Eq)]
pub enum HugValue {
    Int8(i8),
    Int16(i16),
    Int32(i32),
    Int64(i64),
    Int128(i128),
    UInt8(u8),
    UInt16(u16),
    UInt32(u32),
    UInt64(u64),
    UInt128(u128),
    Float32(u32),
    Float64(u64),
    String(String),
    Function(HugFunction),
    Module(HugModule),
    Void,
}

#[derive(Debug, Clone, Copy, PartialEq, Eq, Structural)]
pub enum HugFunction {
    /// A function of a script, by the position of its definition in the main
    /// sequence; the definition holds its argument list.
    Hug { address: usize },
    /// A native entry point, by the handle that the host issued for it.
    External { function: usize },
}

#[derive(Debug)]
pub struct HugFunctionArgument {
    pub ident: Ident,
    pub default_value: Option<HugValue>,
}

/// A loaded native library: the host's handle for it, and the index of the
/// module's own variable store in the evaluator.
#[derive(Debug, Clone, Copy, PartialEq, Eq, Structural)]
pub struct HugModule {
    pub library: usize,
    pub store: usize,
}

/// A value of another type than the one asked for.
#[derive(Debug, Clone, Copy, PartialEq, Eq, Structural)]
pub struct TypeError;

impl Clone for HugValue {
    fn clone(&self) -> (r: Self)
        ensures
            r == *self,
    {
        match self {
            HugValue::Int8(v) => HugValue::Int8(*v),
            HugValue::Int16(v) => HugValue::Int16(*v),
            HugValue::Int32(v) => HugValue::Int32(*v),
            HugValue::Int64(v) => HugValue::Int64(*v),
            HugValue::Int128(v) => HugValue::Int128(*v),
            HugValue::UInt8(v) => HugValue::UInt8(*v),
            HugValue::UInt16(v) => HugValue::UInt16(*v),
            HugValue::UInt32(v) => HugValue::UInt32(*v),
            HugValue::UInt64(v) => HugValue::UInt64(*v),
            HugValue::UInt128(v) => HugValue::UInt128(*v),
            HugValue::Float32(v) => HugValue::Float32(*v),
            HugValue::Float64(v) => HugValue::Float64(*v),
            HugValue::String(v) => HugValue::String(v.clone()),
            HugValue::Function(f) => HugValue::Function(*f),
            HugValue::Module(m) => HugValue::Module(*m),
            HugValue::Void => HugValue::Void,
        }
    }
}

impl Clone for HugFunctionArgument {
    fn clone(&self) -> (r: Self)
        ensures
            r == *self,
    {
        let default_value = match &self.default_value {
            Some(v) => Some(v.clone()),
            None => None,
        };
        HugFunctionArgument { ident: self.ident, default_value }
    }
}

impl From<i32> for HugValue {
    fn from(v: i32) -> (r: HugValue)
        ensures
            r == HugValue::Int32(v),
    {
        HugValue::Int32(v)
    }
}

impl vstd::std_specs::convert::FromSpecImpl<i32> for HugValue {
    open spec fn obeys_from_spec() -> bool {
        true
    }

    open spec fn from_spec(v: i32) -> HugValue {
        HugValue::Int32(v)
    }
}

impl From<String> for HugValue {
    fn from(v: String) -> (r: HugValue)
        ensures
            r == HugValue::String(v),
    {
        HugValue::String(v)
    }
}

impl vstd::std_specs::convert::FromSpecImpl<String> for HugValue {
    open spec fn obeys_from_spec() -> bool {
        true
    }

    open spec fn from_spec(v: String) -> HugValue {
        HugValue::String(v)
    }
}

} // verus!
