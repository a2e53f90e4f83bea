//! Two small utilities: checked integer arithmetic, and a converter that reads
//! a size such as `1500 kb` and renders it in bytes, kilobytes, megabytes and
//! gigabytes with decimal (1000-based) scaling.
pub mod arith;
pub mod size;
pub mod text;

pub use arith::{add, div, sub, DivError};
pub use size::{FileSize, SizeError, Sizes};
