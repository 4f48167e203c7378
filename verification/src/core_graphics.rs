//! The parts of CoreGraphics whose logic does not depend on floating point.

pub mod cg_context;
pub mod cg_path;
