//! The mid-level IR: functions as control-flow graphs of basic blocks, and the analyses
//! and rewrites that work on them.

pub mod borrow_check;
pub mod const_eval;
pub mod determinism;
pub mod nodes;
pub mod optimize;
pub mod lower;

pub use borrow_check::{check_mutable_assignments, BorrowIssue};
pub use const_eval::{evaluate_constant_rvalue, fold_block_constants, fold_function_constants};
pub use optimize::{optimize_function, optimize_program};
pub use lower::lower_program;
pub use determinism::{find_nondeterministic_calls, DeterminismIssue};
pub use nodes::{
    BasicBlockData, BasicBlockId, Constant, ConstantValue, LocalDecl, LocalId, MatchTarget, MirFunction, MirProgram,
    Operand, Place, ProjectionElem, Rvalue, Statement, StatementKind, TerminatorKind,
};
