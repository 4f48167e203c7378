//! Reading fixed-width integers out of byte buffers.

use vstd::prelude::*;

verus! {

/// The big-endian 16-bit value of `s[at..at + 2]`.
pub open spec fn be16(s: Seq<u8>, at: int) -> int {
    s[at] * 256 + s[at + 1]
}

/// The big-endian 32-bit value of `s[at..at + 4]`.
pub open spec fn be32(s: Seq<u8>, at: int) -> int {
    be16(s, at) * 65536 + be16(s, at + 2)
}

/// The big-endian 64-bit value of `s[at..at + 8]`.
pub open spec fn be64(s: Seq<u8>, at: int) -> int {
    be32(s, at) * 4294967296 + be32(s, at + 4)
}

/// Whether `s[at..at + 4]` spells the four ASCII bytes of `tag`.
pub open spec fn has_tag(s: Seq<u8>, at: int, tag: Seq<u8>) -> bool {
    &&& tag.len() == 4
    &&& 0 <= at
    &&& at + 4 <= s.len()
    &&& s.subrange(at, at + 4) == tag
}

pub fn read_be16(s: &[u8], at: usize) -> (r: u16)
    requires
        at + 2 <= s.len(),
    ensures
        r == be16(s@, at as int),
{
    (s[at] as u16) * 256 + (s[at + 1] as u16)
}

pub fn read_be32(s: &[u8], at: usize) -> (r: u32)
    requires
        at + 4 <= s.len(),
    ensures
        r == be32(s@, at as int),
{
    let hi = read_be16(s, at) as u32;
    let lo = read_be16(s, at + 2) as u32;
    hi * 65536 + lo
}

pub fn read_be64(s: &[u8], at: usize) -> (r: u64)
    requires
        at + 8 <= s.len(),
    ensures
        r == be64(s@, at as int),
{
    let hi = read_be32(s, at) as u64;
    let lo = read_be32(s, at + 4) as u64;
    hi * 4294967296 + lo
}

/// Whether `s[at..at + 4]` equals `tag`.
pub fn tag_is(s: &[u8], at: usize, tag: &[u8; 4]) -> (r: bool)
    requires
        at + 4 <= s.len(),
    ensures
        r == has_tag(s@, at as int, tag@),
{
    let r = s[at] == tag[0] && s[at + 1] == tag[1] && s[at + 2] == tag[2] && s[at + 3] == tag[3];
    if r {
        assert(s@.subrange(at as int, at + 4) =~= tag@);
    } else {
        assert(s@.subrange(at as int, at + 4) != tag@) by {
            if s@.subrange(at as int, at + 4) == tag@ {
                assert(s@.subrange(at as int, at + 4)[0] == tag@[0]);
                assert(s@.subrange(at as int, at + 4)[1] == tag@[1]);
                assert(s@.subrange(at as int, at + 4)[2] == tag@[2]);
                assert(s@.subrange(at as int, at + 4)[3] == tag@[3]);
            }
        }
    }
    r
}

/// The little-endian 32-bit value of `s[at..at + 4]`, as the ARM guest
/// stores it.
pub open spec fn le32(s: Seq<u8>, at: int) -> int {
    s[at] + s[at + 1] * 256 + s[at + 2] * 65536 + s[at + 3] * 16777216
}

pub fn read_le32(s: &[u8], at: usize) -> (r: u32)
    requires
        at + 4 <= s.len(),
    ensures
        r == le32(s@, at as int),
{
    (s[at] as u32) + (s[at + 1] as u32) * 256 + (s[at + 2] as u32) * 65536 + (s[at + 3] as u32)
        * 16777216
}

/// The signed little-endian 32-bit value of `s[at..at + 4]`.
pub open spec fn le32_signed(s: Seq<u8>, at: int) -> int {
    if le32(s, at) >= 0x8000_0000 {
        le32(s, at) - 0x1_0000_0000
    } else {
        le32(s, at)
    }
}

pub fn read_le32_signed(s: &[u8], at: usize) -> (r: i32)
    requires
        at + 4 <= s.len(),
    ensures
        r == le32_signed(s@, at as int),
{
    let u = read_le32(s, at);
    if u >= 0x8000_0000 {
        let magnitude = (u32::MAX - u) + 1;
        if magnitude == 0x8000_0000 {
            i32::MIN
        } else {
            -(magnitude as i32)
        }
    } else {
        u as i32
    }
}

} // verus!
