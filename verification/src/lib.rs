//! A propositional-logic forward-chaining inference engine.
//!
//! Formula text is parsed by [`parser`] into [`expr::Expr`] trees; the
//! engine in [`engine`] derives new facts from the premises with a fixed
//! table of inference rules until the goal or its canonical negation
//! appears, and [`trace`] reconstructs a linear proof from the
//! dependency links of the winning fact. [`solve`] ties the stages
//! together. The sibling modules [`numbers`] and [`relations`] hold
//! small standalone calculators and relation-property checks.

pub mod engine;
pub mod expr;
pub mod numbers;
pub mod parser;
pub mod relations;
pub mod solve;
pub mod text;
pub mod trace;

pub use engine::{Fact, Rule, Source, Verdict};
pub use expr::{negate, Expr};
pub use solve::{solve, Solution};
