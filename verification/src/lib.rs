//! Code generation helpers for the Adamas compiler back ends.

pub mod text;
pub mod collapse;
pub mod path;
pub mod llvm;
pub mod native;
pub mod prim;
pub mod repr;
pub mod emit_c;
pub mod emit_llvm;
pub mod pairing;
pub mod lower;
pub mod layout;
