//! A verified interpreter for a small CHIP-8-style virtual machine.
//!
//! The machine owns a byte-addressable memory, sixteen 8-bit registers, a
//! bounded call stack and a program counter. `semantics` gives the
//! mathematical model: a total decoder and a deterministic small-step
//! transition function. `machine` gives the executable interpreter, whose
//! contracts tie every method to that model.

pub mod machine;
pub mod semantics;
