//! AI implementations for games built with the engine.

pub mod minimax;

pub use minimax::Heuristic;
pub use minimax::Negamax;
