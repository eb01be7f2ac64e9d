//! How a value is held at run time, as far as the emitters' choice of C
//! types reads it.

use vstd::prelude::*;

use crate::prim::PrimTy;

verus! {

/// How a value is held at run time.
#[derive(Clone, Copy, Debug, PartialEq, Eq, Structural)]
pub enum Repr {
    /// A reference to a heap object with a header and a count.
    Boxed,
    /// An array: one heap object, whatever its cells hold.
    Array,
    /// A region block: a heap object with the payload's bytes inside.
    Region,
    /// A record: a heap object whose slots the record's shape hands out.
    Record,
    /// A resumption: the handle of a stack segment.
    Resumption,
    /// A layout descriptor: size and alignment.
    Layout,
    /// A flat element whose type is known only at run time: bytes in a
    /// buffer on the frame.
    Opaque,
    /// A flat value of a primitive type: bits, no header.
    Flat(PrimTy),
    /// A flat aggregate laid out by the layout with this number.
    Packed(usize),
    /// A vector: `lanes` lanes of one primitive type.
    Simd {
        /// How many lanes.
        lanes: u32,
        /// Of which type.
        lane: PrimTy,
    },
}

/// The primitive type of a flat value, if the value is one.
pub open spec fn spec_primitive(repr: Repr) -> Option<PrimTy> {
    match repr {
        Repr::Flat(ty) => Some(ty),
        _ => None,
    }
}

impl Repr {
    /// The primitive type of a flat value, if the value is one.
    pub fn primitive(self) -> (ty: Option<PrimTy>)
        ensures
            ty == spec_primitive(self),
    {
        match self {
            Repr::Flat(ty) => Some(ty),
            _ => None,
        }
    }
}

} // verus!
