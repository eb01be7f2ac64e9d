//! Primitive types and comparisons, as the emitters read them.
//!
//! The emitters read a primitive type for three things only: its name, its
//! width in bytes and whether it is signed or floating. This is that.

use vstd::prelude::*;

verus! {

/// A flat primitive type: eight integers and two floats.
#[derive(Clone, Copy, Debug, PartialEq, Eq, Structural)]
pub enum PrimTy {
    Int8,
    Int16,
    Int32,
    Int64,
    UInt8,
    UInt16,
    UInt32,
    UInt64,
    Float32,
    Float64,
}

/// A comparison.
#[derive(Clone, Copy, Debug, PartialEq, Eq, Structural)]
pub enum PrimCmp {
    Eq,
    Ne,
    Lt,
    Le,
    Gt,
    Ge,
}

/// The name of a primitive type in Adamas.
pub open spec fn spec_name(ty: PrimTy) -> Seq<char> {
    match ty {
        PrimTy::Int8 => "Int8"@,
        PrimTy::Int16 => "Int16"@,
        PrimTy::Int32 => "Int32"@,
        PrimTy::Int64 => "Int64"@,
        PrimTy::UInt8 => "UInt8"@,
        PrimTy::UInt16 => "UInt16"@,
        PrimTy::UInt32 => "UInt32"@,
        PrimTy::UInt64 => "UInt64"@,
        PrimTy::Float32 => "Float32"@,
        PrimTy::Float64 => "Float64"@,
    }
}

/// Width in bytes.
pub open spec fn spec_size(ty: PrimTy) -> u32 {
    match ty {
        PrimTy::Int8 | PrimTy::UInt8 => 1,
        PrimTy::Int16 | PrimTy::UInt16 => 2,
        PrimTy::Int32 | PrimTy::UInt32 | PrimTy::Float32 => 4,
        PrimTy::Int64 | PrimTy::UInt64 | PrimTy::Float64 => 8,
    }
}

/// Whether the type is a signed integer.
pub open spec fn spec_signed(ty: PrimTy) -> bool {
    match ty {
        PrimTy::Int8 | PrimTy::Int16 | PrimTy::Int32 | PrimTy::Int64 => true,
        _ => false,
    }
}

/// Whether the type is floating.
pub open spec fn spec_floating(ty: PrimTy) -> bool {
    ty == PrimTy::Float32 || ty == PrimTy::Float64
}

impl PrimTy {
    /// The name of the type in Adamas: `Int64`, `Float32`.
    pub fn name(self) -> (name: &'static str)
        ensures
            name@ == spec_name(self),
    {
        match self {
            PrimTy::Int8 => "Int8",
            PrimTy::Int16 => "Int16",
            PrimTy::Int32 => "Int32",
            PrimTy::Int64 => "Int64",
            PrimTy::UInt8 => "UInt8",
            PrimTy::UInt16 => "UInt16",
            PrimTy::UInt32 => "UInt32",
            PrimTy::UInt64 => "UInt64",
            PrimTy::Float32 => "Float32",
            PrimTy::Float64 => "Float64",
        }
    }

    /// Width in bytes.
    pub fn size(self) -> (size: u32)
        ensures
            size == spec_size(self),
    {
        match self {
            PrimTy::Int8 | PrimTy::UInt8 => 1,
            PrimTy::Int16 | PrimTy::UInt16 => 2,
            PrimTy::Int32 | PrimTy::UInt32 | PrimTy::Float32 => 4,
            PrimTy::Int64 | PrimTy::UInt64 | PrimTy::Float64 => 8,
        }
    }

    /// Whether the type is a signed integer.
    pub fn signed(self) -> (signed: bool)
        ensures
            signed == spec_signed(self),
    {
        match self {
            PrimTy::Int8 | PrimTy::Int16 | PrimTy::Int32 | PrimTy::Int64 => true,
            _ => false,
        }
    }

    /// Whether the type is floating.
    pub fn floating(self) -> (floating: bool)
        ensures
            floating == spec_floating(self),
    {
        match self {
            PrimTy::Float32 | PrimTy::Float64 => true,
            _ => false,
        }
    }
}

} // verus!
