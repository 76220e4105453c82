//! Dense row-major matrices over a numeric element type, with a deferred
//! scalar factor, sequential and parallel multiplication, the Kronecker
//! product, and a truncating text rendering.

pub mod display;
pub mod element;
pub mod kronecker;
pub mod laws;
pub mod matrix;
pub mod parallel;

pub use element::Element;
pub use matrix::Matrix;
