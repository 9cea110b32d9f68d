//! A source-level debugger core for x86-64 Linux executables carrying DWARF
//! debug information: the breakpoint table built from line programs, the
//! reverse lookup of an address to a source line, the rules that locate a
//! local variable, the software-trap bookkeeping of the tracer, and the
//! session state machine that binds them together.
use vstd::prelude::*;

pub mod address;
pub mod error;
pub mod lines;
pub mod prompt;
pub mod registers;
pub mod session;
pub mod tracer;
pub mod variables;
