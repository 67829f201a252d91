//! A path-sensitive symbolic interpreter for Dalvik (DEX) bytecode.
//!
//! The engine explores control-flow branches of one decoded method,
//! maintains per-branch symbolic register state, folds constants,
//! tracks the provenance of values through arithmetic and invoke
//! instructions, and surfaces filtered branch and call events to queries.

pub mod branch;
pub mod dex;
pub mod flow;
pub mod instr;
pub mod step;
pub mod value;
pub mod vm;

pub use branch::{Branch, State};
pub use flow::InstructionFlow;
pub use value::{BinaryOp, InstructionType, LastInstruction, Value};
