//! A kernel for describing, simulating and emitting synchronous digital logic.
//!
//! Values are fixed-width bit vectors; designs are flat netlists of signals
//! driven by combinational units and clocked registers whose bodies are small
//! expression trees, so that the simulator and the Verilog emitter read one
//! and the same description.
pub mod bits;
pub mod design;
pub mod expr;
pub mod parts;
pub mod router;
pub mod signal;
pub mod sim;
pub mod trace;
pub mod verilog;
