//! A reverse-mode automatic differentiation tape over exact rational
//! tensors, together with the Easy21 card-game environment and a family
//! of tabular and approximate reinforcement-learning algorithms.
//!
//! All numeric state is kept in exact rational arithmetic (`rat::Rat`),
//! so every update rule has a precise mathematical contract; operations
//! whose exact result would not fit the fixed-width representation
//! report that instead of rounding.

pub mod ad;
pub mod approx;
pub mod env;
pub mod learn;
pub mod net;
pub mod rat;
pub mod table;
pub mod td;
pub mod tensor;
pub mod worker;
