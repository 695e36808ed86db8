//! A compiler for a small imperative language targeting an eight-instruction
//! tape machine: `<` `>` move the data pointer, `+` `-` adjust the cell under
//! it, `[` `]` loop while the cell is non-zero, and `.` `,` do byte I/O.
//!
//! The heart of the crate is [`context::Context`], a code-emission engine that
//! presents random-access named cells over the strictly sequential pointer,
//! reuses cell addresses through a stack-discipline allocator, and tracks
//! compile-time-known cell values to elide redundant emissions. On top of it
//! sit single-cell primitives, control flow, and arithmetic/logic primitives;
//! the front end parses the source language into an AST and lowers it by
//! composing those primitives. A reference interpreter for the emitted
//! instruction stream lives in [`vm`].

pub mod ptr;
pub mod context;
pub mod slots;
pub mod cells;
pub mod flow;
pub mod logic;
pub mod vm;
pub mod ir;
pub mod trans;
pub mod soundness;

pub use context::Context;
pub use context::CtxView;
pub use ptr::Ptr;
