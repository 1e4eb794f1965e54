//! Evaluator core of a minimal Lisp-like scripting language.
//!
//! Given an already-parsed syntax tree, the evaluator resolves identifiers
//! through a lexically-nested scope chain, dispatches list expressions as
//! function applications, and implements a fixed set of special forms
//! (binding, sequencing, branching, function definition, quoting) as fexprs:
//! callables that receive unevaluated syntax and decide for themselves what
//! to evaluate and when.
//!
//! The intended behaviour is written down once, as a specification-level
//! interpreter over abstract values (`semantics`), and the executable
//! evaluator (`runtime`) is proved to compute exactly what that interpreter
//! says, including the scope-frame discipline: every frame pushed for a
//! function application is popped again on every exit path.

pub mod ast;
pub mod error;
pub mod semantics;
pub mod runtime;
