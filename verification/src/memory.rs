//! Register memory: address ranges, typed register values and contiguous slices.

pub mod range;
pub mod value;
pub mod slice;

pub use range::Range;
pub use value::{Kind, Value, ValueRange};
pub use slice::Slice;
