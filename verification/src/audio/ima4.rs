//! Apple IMA4 ADPCM: 34-byte packets, each expanding to 64 samples of one
//! channel.

use crate::bytes::{be16, read_be16};
use vstd::prelude::*;

verus! {

/// Bytes in one IMA4 packet.
pub const IMA4_PACKET_SIZE: usize = 34;

/// Samples one IMA4 packet expands to.
pub const IMA4_SAMPLES_PER_PACKET: usize = 64;

/// The IMA ADPCM quantiser step sizes.
pub open spec fn step_table() -> Seq<i32> {
    seq![
        7i32, 8, 9, 10, 11, 12, 13, 14, 16, 17, 19, 21, 23, 25, 28, 31, 34, 37, 41, 45, 50, 55, 60,
        66, 73, 80, 88, 97, 107, 118, 130, 143, 157, 173, 190, 209, 230, 253, 279, 307, 337, 371,
        408, 449, 494, 544, 598, 658, 724, 796, 876, 963, 1060, 1166, 1282, 1411, 1552, 1707, 1878,
        2066, 2272, 2499, 2749, 3024, 3327, 3660, 4026, 4428, 4871, 5358, 5894, 6484, 7132, 7845,
        8630, 9493, 10442, 11487, 12635, 13899, 15289, 16818, 18500, 20350, 22385, 24623, 27086,
        29794, 32767,
    ]
}

/// How each 4-bit code moves the step index.
pub open spec fn index_table() -> Seq<i32> {
    seq![-1i32, -1i32, -1i32, -1i32, 2, 4, 6, 8, -1i32, -1i32, -1i32, -1i32, 2, 4, 6, 8]
}

pub open spec fn clamp_sample(x: int) -> int {
    if x > 32767 {
        32767
    } else if x < -32768 {
        -32768
    } else {
        x
    }
}

pub open spec fn clamp_index(x: int) -> int {
    if x < 0 {
        0
    } else if x > 88 {
        88
    } else {
        x
    }
}

/// The magnitude a code of `nibble` adds to or takes from the prediction.
pub open spec fn code_difference(step: int, nibble: int) -> int {
    step / 8 + (if nibble % 2 == 1 { step / 4 } else { 0 }) + (if (nibble / 2) % 2 == 1 {
        step / 2
    } else {
        0
    }) + (if (nibble / 4) % 2 == 1 { step } else { 0 })
}

/// The decoder state `(predictor, step index)` after one more code.
pub open spec fn next_state(state: (int, int), nibble: int) -> (int, int) {
    let step = step_table()[state.1] as int;
    let diff = code_difference(step, nibble);
    let predictor = if nibble >= 8 {
        state.0 - diff
    } else {
        state.0 + diff
    };
    (clamp_sample(predictor), clamp_index(state.1 + index_table()[nibble] as int))
}

/// The packet header: the top nine bits of the first big-endian word are the
/// initial predictor, the low seven the initial step index.
pub open spec fn initial_state(packet: Seq<u8>) -> (int, int) {
    let header = be16(packet, 0);
    let high = header - header % 128;
    let predictor = if high >= 32768 {
        high - 65536
    } else {
        high
    };
    (predictor, clamp_index(header % 128))
}

/// The `n`th 4-bit code of a packet, low nibble of each byte first.
pub open spec fn code_at(packet: Seq<u8>, n: int) -> int {
    if n % 2 == 0 {
        (packet[2 + n / 2] % 16) as int
    } else {
        (packet[2 + n / 2] / 16) as int
    }
}

/// The decoder state once the first `n` codes of `packet` are consumed.
pub open spec fn state_after(packet: Seq<u8>, n: nat) -> (int, int)
    decreases n,
{
    if n == 0 {
        initial_state(packet)
    } else {
        next_state(state_after(packet, (n - 1) as nat), code_at(packet, n - 1))
    }
}

/// The 64 samples an IMA4 packet decodes to.
pub open spec fn ima4_samples(packet: Seq<u8>) -> Seq<i16> {
    Seq::new(64, |i: int| state_after(packet, (i + 1) as nat).0 as i16)
}

proof fn lemma_state_in_range(packet: Seq<u8>, n: nat)
    requires
        packet.len() == 34,
    ensures
        -32768 <= state_after(packet, n).0 <= 32767,
        0 <= state_after(packet, n).1 <= 88,
    decreases n,
{
    if n > 0 {
        lemma_state_in_range(packet, (n - 1) as nat);
    }
}

/// One decoding step, on the exec side.
fn step(predictor: i32, index: i32, nibble: u8) -> (r: (i32, i32))
    requires
        -32768 <= predictor <= 32767,
        0 <= index <= 88,
        nibble < 16,
    ensures
        (r.0 as int, r.1 as int) == next_state((predictor as int, index as int), nibble as int),
        -32768 <= r.0 <= 32767,
        0 <= r.1 <= 88,
{
    let steps: [i32; 89] = [
        7, 8, 9, 10, 11, 12, 13, 14, 16, 17, 19, 21, 23, 25, 28, 31, 34, 37, 41, 45, 50, 55, 60,
        66, 73, 80, 88, 97, 107, 118, 130, 143, 157, 173, 190, 209, 230, 253, 279, 307, 337, 371,
        408, 449, 494, 544, 598, 658, 724, 796, 876, 963, 1060, 1166, 1282, 1411, 1552, 1707, 1878,
        2066, 2272, 2499, 2749, 3024, 3327, 3660, 4026, 4428, 4871, 5358, 5894, 6484, 7132, 7845,
        8630, 9493, 10442, 11487, 12635, 13899, 15289, 16818, 18500, 20350, 22385, 24623, 27086,
        29794, 32767,
    ];
    let moves: [i32; 16] = [-1, -1, -1, -1, 2, 4, 6, 8, -1, -1, -1, -1, 2, 4, 6, 8];
    assert(steps@ =~= step_table());
    assert(moves@ =~= index_table());
    let step = steps[index as usize];
    assert(0 < step <= 32767) by {
        assert(forall|i: int| 0 <= i < 89 ==> 0 < #[trigger] steps@[i] <= 32767);
    }
    let mut diff = step / 8;
    if nibble % 2 == 1 {
        diff = diff + step / 4;
    }
    if (nibble / 2) % 2 == 1 {
        diff = diff + step / 2;
    }
    if (nibble / 4) % 2 == 1 {
        diff = diff + step;
    }
    let mut p = if nibble >= 8 {
        predictor - diff
    } else {
        predictor + diff
    };
    if p > 32767 {
        p = 32767;
    } else if p < -32768 {
        p = -32768;
    }
    let mut i = index + moves[nibble as usize];
    if i < 0 {
        i = 0;
    } else if i > 88 {
        i = 88;
    }
    (p, i)
}

/// Decode the IMA4 packet at `bytes[at..at + 34]` to its 64 samples.
pub fn decode_ima4_at(bytes: &[u8], at: usize) -> (r: Vec<i16>)
    requires
        at + 34 <= bytes.len(),
    ensures
        r@ == ima4_samples(bytes@.subrange(at as int, at + 34)),
        forall|k: int|
            0 <= k < 32 ==> #[trigger] r@[2 * k] == next_state(
                state_after(bytes@.subrange(at as int, at + 34), (2 * k) as nat),
                (bytes@[at + 2 + k] % 16) as int,
            ).0 as i16 && r@[2 * k + 1] == next_state(
                next_state(
                    state_after(bytes@.subrange(at as int, at + 34), (2 * k) as nat),
                    (bytes@[at + 2 + k] % 16) as int,
                ),
                (bytes@[at + 2 + k] / 16) as int,
            ).0 as i16,
{
    let ghost packet = bytes@.subrange(at as int, at + 34);
    let header = read_be16(bytes, at);
    assert(header == be16(packet, 0));
    let high = header - header % 128;
    let mut predictor: i32 = if high >= 32768 {
        high as i32 - 65536
    } else {
        high as i32
    };
    let mut index: i32 = (header % 128) as i32;
    if index > 88 {
        index = 88;
    }
    let mut out: Vec<i16> = Vec::with_capacity(64);
    let mut n: usize = 0;
    while n < 64
        invariant
            at + 34 <= bytes.len(),
            packet == bytes@.subrange(at as int, at + 34),
            n <= 64,
            (predictor as int, index as int) == state_after(packet, n as nat),
            -32768 <= predictor <= 32767,
            0 <= index <= 88,
            out@.len() == n,
            forall|k: int| 0 <= k < n ==> out@[k] == state_after(packet, (k + 1) as nat).0 as i16,
        decreases 64 - n,
    {
        let byte = bytes[at + 2 + n / 2];
        assert(byte == packet[2 + n / 2]);
        let nibble = if n % 2 == 0 {
            byte % 16
        } else {
            byte / 16
        };
        let (p, i) = step(predictor, index, nibble);
        predictor = p;
        index = i;
        out.push(predictor as i16);
        n = n + 1;
    }
    assert(out@ =~= ima4_samples(packet));
    assert forall|k: int| 0 <= k < 32 implies #[trigger] out@[2 * k] == next_state(
        state_after(packet, (2 * k) as nat),
        (bytes@[at + 2 + k] % 16) as int,
    ).0 as i16 && out@[2 * k + 1] == next_state(
        next_state(state_after(packet, (2 * k) as nat), (bytes@[at + 2 + k] % 16) as int),
        (bytes@[at + 2 + k] / 16) as int,
    ).0 as i16 by {
        lemma_low_nibble_first(packet, k);
        assert(packet[2 + k] == bytes@[at + 2 + k]);
    }
    out
}

/// Decode one IMA4 packet to its 64 samples.
pub fn decode_ima4(packet: &[u8]) -> (r: Vec<i16>)
    requires
        packet@.len() == 34,
    ensures
        r@ == ima4_samples(packet@),
{
    let r = decode_ima4_at(packet, 0);
    assert(packet@.subrange(0, 34) =~= packet@);
    r
}

/// Each code byte of a packet is decoded low nibble first: sample `2k` is
/// the state before it moved by the low four bits of code byte `k` (byte
/// `2 + k` of the packet), and sample `2k + 1` that state moved by the high
/// four bits. In particular the first two samples come from the header and
/// the low, then the high, nibble of byte 2.
pub proof fn lemma_low_nibble_first(packet: Seq<u8>, k: int)
    requires
        packet.len() == 34,
        0 <= k < 32,
    ensures
        ima4_samples(packet)[2 * k] == next_state(
            state_after(packet, (2 * k) as nat),
            (packet[2 + k] % 16) as int,
        ).0 as i16,
        ima4_samples(packet)[2 * k + 1] == next_state(
            next_state(state_after(packet, (2 * k) as nat), (packet[2 + k] % 16) as int),
            (packet[2 + k] / 16) as int,
        ).0 as i16,
        ima4_samples(packet)[0] == next_state(initial_state(packet), (packet[2] % 16) as int).0 as i16,
        ima4_samples(packet)[1] == next_state(
            next_state(initial_state(packet), (packet[2] % 16) as int),
            (packet[2] / 16) as int,
        ).0 as i16,
{
    assert((2 * k) / 2 == k && (2 * k) % 2 == 0);
    assert((2 * k + 1) / 2 == k && (2 * k + 1) % 2 == 1);
    assert(state_after(packet, (2 * k + 1) as nat) == next_state(
        state_after(packet, (2 * k) as nat),
        code_at(packet, 2 * k),
    ));
    assert(state_after(packet, (2 * k + 2) as nat) == next_state(
        state_after(packet, (2 * k + 1) as nat),
        code_at(packet, 2 * k + 1),
    ));
    assert(state_after(packet, 1) == next_state(state_after(packet, 0), code_at(packet, 0)));
    assert(state_after(packet, 2) == next_state(state_after(packet, 1), code_at(packet, 1)));
}

/// How one code moves the decoder: its top bit is the sign and its low
/// three bits the magnitude. A code and the same code with the sign bit set
/// move the step index alike (down one for magnitudes 0 to 3, up 2, 4, 6
/// or 8 for 4 to 7) and move the prediction by the same amount, one up and
/// the other down, before clamping; a larger magnitude never moves it less.
pub proof fn lemma_code_effect(state: (int, int), m: int)
    requires
        0 <= state.1 <= 88,
        0 <= m < 8,
    ensures
        next_state(state, m).1 == next_state(state, m + 8).1,
        next_state(state, m).1 == clamp_index(state.1 + if m < 4 { -1 } else { 2 * (m - 3) }),
        next_state(state, m).0 == clamp_sample(state.0 + code_difference(step_table()[state.1] as int, m)),
        next_state(state, m + 8).0 == clamp_sample(
            state.0 - code_difference(step_table()[state.1] as int, m),
        ),
        m < 7 ==> code_difference(step_table()[state.1] as int, m) <= code_difference(
            step_table()[state.1] as int,
            m + 1,
        ),
        code_difference(step_table()[state.1] as int, m) >= 0,
{
    let step = step_table()[state.1] as int;
    assert(step > 0) by {
        assert(forall|i: int| 0 <= i < 89 ==> 0 < #[trigger] step_table()[i]);
    }
    assert((m + 8) % 2 == m % 2);
    assert(((m + 8) / 2) % 2 == (m / 2) % 2);
    assert(((m + 8) / 4) % 2 == (m / 4) % 2);
}

} // verus!
