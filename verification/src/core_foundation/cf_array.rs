//! `CFArrayCallBacks`, and whether an array made with them retains its
//! values.

use crate::bytes::{le32, le32_signed, read_le32, read_le32_signed};
use vstd::prelude::*;

verus! {

/// `CFIndex`.
pub type CFIndex = i32;

/// A guest function, by its address; 0 is none.
pub type GuestFunction = u32;

/// The layout of `CFArrayCallBacks` in guest memory. This is the same shape
/// as `CFDictionaryValueCallBacks`.
#[derive(Clone, Copy, Debug, PartialEq, Eq, Structural)]
pub struct CFArrayCallBacks {
    pub version: CFIndex,
    /// `const void *(*retain)(CFAllocatorRef, const void *value)`
    pub retain: GuestFunction,
    /// `void (*release)(CFAllocatorRef alloc, const void *val)`
    pub release: GuestFunction,
    /// `CFStringRef (*copy_desc)(const void *val)`
    pub copy_desc: GuestFunction,
    /// `Boolean (*equal)(const void *val1, const void *val2)`
    pub equal: GuestFunction,
}

/// The size of `CFArrayCallBacks` in guest memory.
pub const CF_ARRAY_CALLBACKS_SIZE: usize = 20;

/// The callbacks `bytes` hold from `at`, as the guest lays them out.
pub open spec fn array_callbacks_at(bytes: Seq<u8>, at: int) -> CFArrayCallBacks {
    CFArrayCallBacks {
        version: le32_signed(bytes, at) as i32,
        retain: le32(bytes, at + 4) as u32,
        release: le32(bytes, at + 8) as u32,
        copy_desc: le32(bytes, at + 12) as u32,
        equal: le32(bytes, at + 16) as u32,
    }
}

impl CFArrayCallBacks {
    /// Read the callbacks from guest memory `bytes` at `at`.
    pub fn read(bytes: &[u8], at: usize) -> (r: CFArrayCallBacks)
        requires
            at + CF_ARRAY_CALLBACKS_SIZE <= bytes@.len(),
        ensures
            r == array_callbacks_at(bytes@, at as int),
    {
        let n = bytes.len();
        assert(at + CF_ARRAY_CALLBACKS_SIZE <= n);
        CFArrayCallBacks {
            version: read_le32_signed(bytes, at),
            retain: read_le32(bytes, at + 4),
            release: read_le32(bytes, at + 8),
            copy_desc: read_le32(bytes, at + 12),
            equal: read_le32(bytes, at + 16),
        }
    }
}

/// Whether `CFArrayCreateMutable` makes an array that retains its values: a
/// null callbacks pointer means it does not (the values need not even be
/// objects), and so do callbacks without a retain function.
pub fn array_retains_values(callbacks: Option<&CFArrayCallBacks>) -> (r: bool)
    ensures
        r == (match callbacks {
            Some(c) => c.retain != 0,
            None => false,
        }),
{
    match callbacks {
        Some(c) => c.retain != 0,
        None => false,
    }
}

} // verus!
