//! A single-tape Turing machine: rule declarations are compiled into a
//! transition table, and the table is run against an input tape.

pub mod symbol;
pub mod program;
pub mod table;
pub mod compiler;
pub mod tape;
pub mod dump;
pub mod machine;
pub mod outcome;

pub use crate::compiler::{compile, CompileError};
pub use crate::dump::{caret_line, dump_line};
pub use crate::machine::{AbortReason, Machine, Status};
pub use crate::outcome::{outcome, run, Abort, RunOutcome};
pub use crate::program::{Destination, Movement, RuleDecl, TransitionDecl};
pub use crate::symbol::{default_blank, split_input};
pub use crate::table::TransitionRule;
pub use crate::tape::{arrange_tape, RenderError, Tape};
