//! The parts of CoreFoundation whose logic stands on plain values.

pub mod cf_array;
pub mod cf_set;
pub mod cf_url;
