//! A verified interpreter for a minimal tape-based esoteric language.
//!
//! Eight single-character instructions manipulate a movable head over a tape
//! of byte cells; `[` and `]` form a bracket-delimited loop construct.  The
//! crate parses source text into a [`Program`], validates that its brackets
//! are well-nested, and executes it on a [`VirtualMachine`] bound to an
//! in-memory input/output byte-stream pair.

pub mod cell;
pub mod errors;
pub mod machine;
pub mod program;
pub mod semantics;
pub mod streams;

pub use cell::CellKind;
pub use errors::VMError;
pub use machine::RunState;
pub use machine::VirtualMachine;
pub use program::Instruction;
pub use program::Program;
pub use streams::InputStream;
pub use streams::OutputStream;
