//! A timeline-based planning problem model: the binding-surface value types
//! handed to a scripting host, their core counterparts, structural validation
//! of problems, and a function that decides whether a schedule satisfies a
//! problem.
//!
//! - `model`: the binding-surface types (`ProblemPy`, `TokenPy`, ...), the
//!   shared mathematical views, and `goal` / `fact`.
//! - `problem`: the core types, where a token time is a sum type.
//! - `marshal`: conversions between the two shapes, and their round trip.
//! - `validate`: the structural invariants and `make_problem`.
//! - `schedule`: what a schedule must satisfy, and `accept_solution`.
pub mod marshal;
pub mod model;
pub mod problem;
pub mod schedule;
pub mod validate;

pub use marshal::{problem_from_py, problem_to_py};
pub use model::{
    fact, goal, Bound, ConditionPy, GroupPy, ProblemPy, SolutionPy, SolutionTokenPy,
    TemporalRelationship, TemporalRelationshipPy, TimelinePy, TokenPy, TokenTime, TokenTimePy,
    ValuePy,
};
pub use problem::{Condition, Group, Problem, Timeline, Token, Value};
pub use schedule::{accept_solution, check_solution, resolve_target};
pub use validate::{make_problem, validate, SolveError};
