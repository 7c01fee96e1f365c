//! Helper logic used by the quant Python surface.
pub mod calendar_code;
pub mod factors;
pub mod grid;
pub mod indexing;
pub mod labels;
pub mod matrix;
pub mod periods;
