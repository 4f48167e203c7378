//! The parts of CoreAnimation whose logic stands on plain values.

pub mod ca_layer;
