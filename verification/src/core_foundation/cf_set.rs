//! `CFSetCallBacks`, as the guest lays them out.

use crate::bytes::{le32, le32_signed, read_le32, read_le32_signed};
use crate::core_foundation::cf_array::{CFIndex, GuestFunction};
use vstd::prelude::*;

verus! {

/// The layout of `CFSetCallBacks` in guest memory.
#[derive(Clone, Copy, Debug, PartialEq, Eq, Structural)]
pub struct CFSetCallBacks {
    pub version: CFIndex,
    /// `const void *(*retain)(CFAllocatorRef, const void *value)`
    pub retain: GuestFunction,
    /// `void (*release)(CFAllocatorRef alloc, const void *value)`
    pub release: GuestFunction,
    /// `CFStringRef (*copyDescription)(const void *value)`
    pub copy_desc: GuestFunction,
    /// `Boolean (*equal)(const void *value1, const void *value2)`
    pub equal: GuestFunction,
    /// `CFHashCode (*hash)(const void *value)`
    pub hash: GuestFunction,
}

/// The size of `CFSetCallBacks` in guest memory.
pub const CF_SET_CALLBACKS_SIZE: usize = 24;

/// The callbacks `bytes` hold from `at`, as the guest lays them out.
pub open spec fn set_callbacks_at(bytes: Seq<u8>, at: int) -> CFSetCallBacks {
    CFSetCallBacks {
        version: le32_signed(bytes, at) as i32,
        retain: le32(bytes, at + 4) as u32,
        release: le32(bytes, at + 8) as u32,
        copy_desc: le32(bytes, at + 12) as u32,
        equal: le32(bytes, at + 16) as u32,
        hash: le32(bytes, at + 20) as u32,
    }
}

impl CFSetCallBacks {
    /// Read the callbacks from guest memory `bytes` at `at`.
    pub fn read(bytes: &[u8], at: usize) -> (r: CFSetCallBacks)
        requires
            at + CF_SET_CALLBACKS_SIZE <= bytes@.len(),
        ensures
            r == set_callbacks_at(bytes@, at as int),
    {
        let n = bytes.len();
        assert(at + CF_SET_CALLBACKS_SIZE <= n);
        CFSetCallBacks {
            version: read_le32_signed(bytes, at),
            retain: read_le32(bytes, at + 4),
            release: read_le32(bytes, at + 8),
            copy_desc: read_le32(bytes, at + 12),
            equal: read_le32(bytes, at + 16),
            hash: read_le32(bytes, at + 20),
        }
    }
}

} // verus!
