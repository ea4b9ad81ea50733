//! Symbolic SDE expressions, their derivatives, Malliavin weight synthesis,
//! a compact binary format, structural hashing, and the lowering plans that
//! a JIT backend turns into machine code.

pub mod expr;
pub mod float_bits;
pub mod diff;
pub mod kernel;
pub mod plan;
pub mod serial;
pub mod hash;
pub mod weight;
pub mod text;
pub mod disk_cache;
pub mod cpu;
pub mod cache;
pub mod sde;
pub mod render;
