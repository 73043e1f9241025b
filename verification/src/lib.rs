//! A desk-calculator evaluation engine: an infix expression over numbers,
//! named variables and the last-answer slot is tokenized, converted to
//! postfix by operator precedence, and reduced on a value stack to one
//! value — a scalar, a vector or a matrix — or to a stated refusal.
//!
//! The engine fixes every structural decision and proves it: the grammar
//! checks and the shunting of operators, the shape dispatch of the value
//! algebra, the bounds and shapes of the dense matrix kernels, the framing
//! of the storage encoding, and the bookkeeping of the variable store. The
//! element arithmetic itself is abstract: the [`numeric::Numeric`] trait
//! carries it, and the surrounding program supplies a machine-float
//! implementation that the verified core never inspects.

pub mod math_types;
pub mod numeric;
pub mod ops;
pub mod parsing;
pub mod stack;
pub mod text;
pub mod variables;
