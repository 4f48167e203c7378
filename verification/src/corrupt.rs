//! RTCV-style "game corruption" engine.
//!
//! At a configurable cadence, random bytes of the guest's live allocations
//! are replaced with random values, which gives the characteristic glitchy
//! "broken game" behaviour. Only memory the guest has actually allocated is
//! targeted: blasting arbitrary addresses would almost always hit unmapped
//! pages.
//!
//! The engine is driven by a small seedable generator (a SplitMix64
//! variant), so that a given seed reproduces the same corruption stream.

use crate::mem::{in_allocation, live_total, GuestUSize, Mem};
use vstd::prelude::*;
use vstd::wrapping::{u32_specs, u64_specs};

verus! {

/// The SplitMix64 increment, also used to scramble the seed.
pub const GOLDEN_GAMMA: u64 = 0x9E37_79B9_7F4A_7C15;

/// The generator state after one more draw.
pub open spec fn advance(state: u64) -> u64 {
    u64_specs::wrapping_add(state, GOLDEN_GAMMA)
}

/// The SplitMix64 output function.
pub open spec fn mix(z: u64) -> u64 {
    let z1 = u64_specs::wrapping_mul(z ^ (z >> 30u64), 0xBF58_476D_1CE4_E5B9);
    let z2 = u64_specs::wrapping_mul(z1 ^ (z1 >> 27u64), 0x94D0_49BB_1331_11EB);
    z2 ^ (z2 >> 31u64)
}

/// The value drawn from state `state`.
pub open spec fn draw(state: u64) -> u64 {
    mix(advance(state))
}

/// A tiny, fast, seedable PRNG (SplitMix64).
#[derive(Debug, Clone)]
pub struct Rng {
    state: u64,
}

impl Rng {
    /// The generator's state.
    pub closed spec fn state(&self) -> u64 {
        self.state
    }

    /// The state a generator seeded with `seed` starts from.
    pub open spec fn seeded(seed: u64) -> u64 {
        seed ^ GOLDEN_GAMMA
    }

    pub fn new(seed: u64) -> (r: Rng)
        ensures
            r.state() == Rng::seeded(seed),
    {
        // Avoid an all-zero state producing a degenerate stream.
        Rng { state: seed ^ GOLDEN_GAMMA }
    }

    pub fn next_u64(&mut self) -> (r: u64)
        ensures
            final(self).state() == advance(old(self).state()),
            r == draw(old(self).state()),
    {
        self.state = self.state.wrapping_add(GOLDEN_GAMMA);
        let mut z = self.state;
        z = (z ^ (z >> 30u64)).wrapping_mul(0xBF58_476D_1CE4_E5B9);
        z = (z ^ (z >> 27u64)).wrapping_mul(0x94D0_49BB_1331_11EB);
        z ^ (z >> 31u64)
    }

    pub fn next_u32(&mut self) -> (r: u32)
        ensures
            final(self).state() == advance(old(self).state()),
            r == draw(old(self).state()) / 0x1_0000_0000,
    {
        let v = self.next_u64();
        proof {
            vstd::bits::lemma_u64_shr_is_div(v, 32);
            vstd::arithmetic::power2::lemma2_to64();
        }
        (v >> 32u64) as u32
    }

    /// A `u64` in `[0, bound)`, by modulo reduction; the slight bias is
    /// irrelevant for this use.
    pub fn below(&mut self, bound: u64) -> (r: u64)
        requires
            bound > 0,
        ensures
            final(self).state() == advance(old(self).state()),
            r == draw(old(self).state()) % bound,
            r < bound,
    {
        self.next_u64() % bound
    }
}

impl Rng {
    /// A generator is its state: two in the same state are the same
    /// generator, so, as each draw is a function of the state, generators
    /// seeded alike and drawn from alike give the same stream, call for call.
    pub proof fn lemma_rng_is_its_state(a: Rng, b: Rng)
        requires
            a.state() == b.state(),
        ensures
            a == b,
    {
    }
}

impl Default for Rng {
    /// The generator seeded with 0.
    fn default() -> (r: Rng)
        ensures
            r.state() == Rng::seeded(0),
    {
        Rng::new(0)
    }
}

/// The engine's settings.
#[derive(Debug, Clone, Copy, Default)]
pub struct CorruptionOptions {
    /// Whether the engine does anything at all.
    pub enabled: bool,
    /// Main-loop iterations between bursts (at least one).
    pub interval_frames: u32,
    /// Bytes corrupted per burst (at least one).
    pub bytes_per_burst: u32,
    /// When set and non-zero, only the first this many bytes of an allocation
    /// are targeted, which tends to hit object headers and hot fields.
    pub max_offset: Option<u32>,
    /// Seed of the corruption stream.
    pub seed: u64,
}

/// The allocation a global byte index `pick` falls in, counting from the
/// `i`th allocation, as `(base, offset)`.
pub open spec fn locate(live: Seq<(int, int)>, pick: int, i: int) -> Option<(int, int)>
    decreases live.len() - i,
{
    if i < 0 || i >= live.len() {
        None
    } else if pick < live[i].1 {
        Some((live[i].0, pick))
    } else {
        locate(live, pick - live[i].1, i + 1)
    }
}

/// One step of a burst from generator state `state`: the state after it and
/// the write it makes, if any.
pub open spec fn blast_step(state: u64, live: Seq<(int, int)>, total: int, max_offset: Option<u32>) -> (
    u64,
    Option<(int, u8)>,
) {
    let pick = draw(state) % (total as u64);
    let state1 = advance(state);
    match locate(live, pick as int, 0) {
        None => (state1, None),
        Some((base, offset)) => {
            let offset = match max_offset {
                Some(m) => if m > 0 {
                    offset % (m as int)
                } else {
                    offset
                },
                None => offset,
            };
            let addr = u32_specs::wrapping_add(base as u32, offset as u32);
            let value = ((draw(state1) / 0x1_0000_0000) % 256) as u8;
            (advance(state1), Some((addr as int, value)))
        },
    }
}

/// The state after `n` burst steps from `state`, and the writes they make,
/// in order.
pub open spec fn blast_writes(
    state: u64,
    live: Seq<(int, int)>,
    total: int,
    max_offset: Option<u32>,
    n: nat,
) -> (u64, Seq<(int, u8)>)
    decreases n,
{
    if n == 0 {
        (state, Seq::empty())
    } else {
        let (s, w) = blast_writes(state, live, total, max_offset, (n - 1) as nat);
        let (s2, write) = blast_step(s, live, total, max_offset);
        match write {
            None => (s2, w),
            Some(x) => (s2, w.push(x)),
        }
    }
}

/// What the byte at `addr` holds after `writes` land on memory where it held
/// `before`: writes only land inside live allocations.
pub open spec fn after_writes(writes: Seq<(int, u8)>, addr: int, before: Option<u8>) -> Option<u8>
    decreases writes.len(),
{
    if writes.len() == 0 {
        before
    } else {
        let prev = after_writes(writes.drop_last(), addr, before);
        if writes.last().0 == addr && prev is Some {
            Some(writes.last().1)
        } else {
            prev
        }
    }
}

/// Allocations that are non-empty and lie inside the 32-bit address space.
pub open spec fn ranges_ok(live: Seq<(int, int)>) -> bool {
    forall|i: int|
        0 <= i < live.len() ==> 0 <= (#[trigger] live[i]).0 && 0 < live[i].1 && live[i].0 + live[i].1
            <= 0x1_0000_0000
}

/// A pick below the total size of the allocations from the `i`th on falls
/// inside one of them.
proof fn lemma_locate(live: Seq<(int, int)>, pick: int, i: int)
    requires
        ranges_ok(live),
        0 <= i <= live.len(),
        0 <= pick < live_total(live, live.len() as int) - live_total(live, i),
    ensures
        locate(live, pick, i) matches Some((base, offset)) && exists|j: int|
            i <= j < live.len() && live[j].0 == base && 0 <= offset < live[j].1,
    decreases live.len() - i,
{
    if i < live.len() {
        assert(live_total(live, i + 1) == live_total(live, i) + live[i].1);
        if pick >= live[i].1 {
            lemma_locate(live, pick - live[i].1, i + 1);
        }
    }
}

/// Where the allocations hold some bytes, a burst of `n` steps makes `n`
/// writes, each inside a live allocation, whatever the generator state and
/// whether or not the offset is limited.
pub proof fn lemma_burst_writes(state: u64, live: Seq<(int, int)>, max_offset: Option<u32>, n: nat)
    requires
        ranges_ok(live),
        0 < live_total(live, live.len() as int) <= 0x1_0000_0000,
    ensures
        blast_writes(state, live, live_total(live, live.len() as int), max_offset, n).1.len() == n,
        forall|k: int|
            0 <= k < n ==> exists|j: int|
                0 <= j < live.len() && in_allocation(
                    live[j],
                    (#[trigger] blast_writes(state, live, live_total(live, live.len() as int), max_offset, n).1[k]).0,
                ),
    decreases n,
{
    let total = live_total(live, live.len() as int);
    if n > 0 {
        lemma_burst_writes(state, live, max_offset, (n - 1) as nat);
        let (s, w) = blast_writes(state, live, total, max_offset, (n - 1) as nat);
        let pick = draw(s) % (total as u64);
        assert(total as u64 == total);
        assert(0 <= pick < total);
        lemma_locate(live, pick as int, 0);
        let (base, offset) = locate(live, pick as int, 0)->0;
        let j = choose|j: int| 0 <= j < live.len() && live[j].0 == base && 0 <= offset < live[j].1;
        let off = match max_offset {
            Some(m) => if m > 0 {
                offset % (m as int)
            } else {
                offset
            },
            None => offset,
        };
        if let Some(m) = max_offset {
            if m > 0 {
                let mi = m as int;
                assert(0 <= offset % mi <= offset) by (nonlinear_arith)
                    requires
                        offset >= 0,
                        mi > 0,
                ;
            }
        }
        assert(0 <= off <= offset);
        assert(base as u32 == base);
        assert(off as u32 == off);
        let addr = u32_specs::wrapping_add(base as u32, off as u32);
        assert(addr == base + off);
        let (s2, write) = blast_step(s, live, total, max_offset);
        assert(write == Some((addr as int, ((draw(advance(s)) / 0x1_0000_0000) % 256) as u8)));
        let w2 = blast_writes(state, live, total, max_offset, n).1;
        assert(w2 == w.push(write->0));
        assert forall|k: int| 0 <= k < n implies exists|j: int|
            0 <= j < live.len() && in_allocation(live[j], (#[trigger] w2[k]).0) by {
            if k < n - 1 {
                assert(w2[k] == w[k]);
            } else {
                assert(in_allocation(live[j], w2[k].0));
            }
        }
    }
}

/// What a tick does: `e` and `m` are the engine and the memory before it,
/// `e2` and `m2` after.
pub open spec fn tick_outcome(e: Corruptor, m: Mem, e2: Corruptor, m2: Mem) -> bool {
    let live = m.live();
    let total = live_total(live, live.len() as int);
    let interval = at_least_one(e.options().interval_frames);
    let (state, writes) = blast_writes(
        e.rng_state(),
        live,
        total,
        e.options().max_offset,
        at_least_one(e.options().bytes_per_burst) as nat,
    );
    &&& e2.options() == e.options()
    &&& m2.live() == m.live()
    &&& m2.floor() == m.floor()
    &&& !e.options().enabled ==> e2 == e && m2 == m
    &&& e.options().enabled && e.frames() + 1 < interval ==> {
        &&& e2.frames() == e.frames() + 1
        &&& e2.rng_state() == e.rng_state()
        &&& e2.total() == e.total()
        &&& m2 == m
    }
    &&& e.options().enabled && e.frames() + 1 >= interval ==> {
        &&& e2.frames() == 0
        &&& total == 0 ==> e2.rng_state() == e.rng_state() && e2.total() == e.total() && m2 == m
        &&& total > 0 ==> e2.rng_state() == state && e2.total() == e.total() + writes.len()
            && forall|a: int| #[trigger] m2.byte_at(a) == after_writes(writes, a, m.byte_at(a))
    }
}

/// Where no write lands on `a`, the byte there is as it was.
proof fn lemma_after_no_write(writes: Seq<(int, u8)>, a: int, before: Option<u8>)
    requires
        forall|k: int| 0 <= k < writes.len() ==> (#[trigger] writes[k]).0 != a,
    ensures
        after_writes(writes, a, before) == before,
    decreases writes.len(),
{
    if writes.len() > 0 {
        assert(writes.last() == writes[writes.len() - 1]);
        lemma_after_no_write(writes.drop_last(), a, before);
    }
}

/// A burst of an enabled engine whose interval is up, over memory with live
/// bytes, corrupts exactly `max(1, bytes_per_burst)` bytes, and every byte
/// it changes lies inside a live allocation, whether or not the offset is
/// limited.
pub proof fn lemma_burst_corrupts_only_live_bytes(e: Corruptor, m: Mem, e2: Corruptor, m2: Mem)
    requires
        m.wf(),
        e.options().enabled,
        e.frames() + 1 >= at_least_one(e.options().interval_frames),
        live_total(m.live(), m.live().len() as int) > 0,
        tick_outcome(e, m, e2, m2),
    ensures
        e2.total() == e.total() + at_least_one(e.options().bytes_per_burst),
        forall|a: int|
            #[trigger] m2.byte_at(a) != m.byte_at(a) ==> exists|j: int|
                0 <= j < m.live().len() && in_allocation(m.live()[j], a),
{
    let live = m.live();
    let total = live_total(live, live.len() as int);
    let n = at_least_one(e.options().bytes_per_burst) as nat;
    m.lemma_live_ranges();
    lemma_burst_writes(e.rng_state(), live, e.options().max_offset, n);
    let writes = blast_writes(e.rng_state(), live, total, e.options().max_offset, n).1;
    assert forall|a: int| #[trigger] m2.byte_at(a) != m.byte_at(a) implies exists|j: int|
        0 <= j < live.len() && in_allocation(live[j], a) by {
        if forall|k: int| 0 <= k < writes.len() ==> (#[trigger] writes[k]).0 != a {
            lemma_after_no_write(writes, a, m.byte_at(a));
        } else {
            let k = choose|k: int| 0 <= k < writes.len() && (#[trigger] writes[k]).0 == a;
            assert(exists|j: int| 0 <= j < live.len() && in_allocation(live[j], writes[k].0));
        }
    }
}

/// Two ticks of one engine over memories with the same live allocations
/// holding the same bytes end alike, in the engine and in every byte: equal
/// engines on equal memories stay equal, so a seed reproduces its
/// corruption stream.
pub proof fn lemma_ticks_agree(
    e: Corruptor,
    ma: Mem,
    ea: Corruptor,
    ma2: Mem,
    mb: Mem,
    eb: Corruptor,
    mb2: Mem,
)
    requires
        ma.wf(),
        mb.wf(),
        ma.live() == mb.live(),
        ma.floor() == mb.floor(),
        forall|a: int| #[trigger] ma.byte_at(a) == mb.byte_at(a),
        tick_outcome(e, ma, ea, ma2),
        tick_outcome(e, mb, eb, mb2),
    ensures
        ea == eb,
        ma2.live() == mb2.live(),
        ma2.floor() == mb2.floor(),
        forall|a: int| #[trigger] ma2.byte_at(a) == mb2.byte_at(a),
{
    ma.lemma_live_ranges();
    if e.options().enabled {
        Corruptor::lemma_engine_is_its_state(ea, eb);
    }
    assert forall|a: int| #[trigger] ma2.byte_at(a) == mb2.byte_at(a) by {
        assert(ma.byte_at(a) == mb.byte_at(a));
    }
}

/// A burst fires on exactly every `max(1, interval_frames)`th tick of an
/// enabled engine: the frame count runs up to the interval and back to
/// zero, and a tick that does not complete an interval leaves memory and
/// the total as they were.
pub proof fn lemma_burst_cadence(e: Corruptor, m: Mem, e2: Corruptor, m2: Mem)
    requires
        e.wf(),
        e.options().enabled,
        tick_outcome(e, m, e2, m2),
    ensures
        e2.frames() == (e.frames() + 1) % at_least_one(e.options().interval_frames),
        e.frames() + 1 < at_least_one(e.options().interval_frames) ==> m2 == m && e2.total()
            == e.total(),
{
    Corruptor::lemma_wf(e);
    let x = e.frames() + 1;
    let n = at_least_one(e.options().interval_frames);
    if x < n {
        vstd::arithmetic::div_mod::lemma_small_mod(x as nat, n as nat);
    } else {
        assert(x == n);
        vstd::arithmetic::div_mod::lemma_mod_self_0(n);
    }
}

/// Runtime state for the corruption engine.
pub struct Corruptor {
    options: CorruptionOptions,
    rng: Rng,
    /// Main-loop iterations ("frames") since the last corruption burst.
    frames_since_burst: u64,
    /// Total bytes corrupted so far.
    total_corrupted: u64,
}

/// The larger of `x` and one.
pub open spec fn at_least_one(x: u32) -> int {
    if x == 0 {
        1
    } else {
        x as int
    }
}

impl Default for Corruptor {
    /// A disabled engine, for environments that run no game.
    fn default() -> (c: Corruptor)
        ensures
            c.wf(),
            !c.options().enabled,
            c.rng_state() == Rng::seeded(0),
            c.frames() == 0,
            c.total() == 0,
    {
        Corruptor::new(
            CorruptionOptions {
                enabled: false,
                interval_frames: 0,
                bytes_per_burst: 0,
                max_offset: None,
                seed: 0,
            },
        )
    }
}

impl Corruptor {
    pub closed spec fn options(&self) -> CorruptionOptions {
        self.options
    }

    pub closed spec fn rng_state(&self) -> u64 {
        self.rng.state
    }

    pub closed spec fn frames(&self) -> u64 {
        self.frames_since_burst
    }

    pub closed spec fn total(&self) -> u64 {
        self.total_corrupted
    }

    /// The frame counter never reaches the burst interval.
    pub closed spec fn wf(&self) -> bool {
        self.frames_since_burst < at_least_one(self.options.interval_frames)
    }

    /// An engine is its settings, its generator state, its frame count and
    /// its total: two that agree on these are the same engine. As
    /// [Corruptor::new] fixes each of them from the settings, and
    /// [Corruptor::tick] fixes them and the memory it writes from what they
    /// were and the memory it was given, a seed reproduces its corruption
    /// stream.
    pub proof fn lemma_engine_is_its_state(a: Corruptor, b: Corruptor)
        requires
            a.options() == b.options(),
            a.rng_state() == b.rng_state(),
            a.frames() == b.frames(),
            a.total() == b.total(),
        ensures
            a == b,
    {
        assert(a.rng == b.rng);
    }

    /// The frame count of a well-formed engine is below its interval.
    pub proof fn lemma_wf(e: Corruptor)
        requires
            e.wf(),
        ensures
            e.frames() < at_least_one(e.options().interval_frames),
    {
    }

    pub fn new(options: CorruptionOptions) -> (c: Corruptor)
        ensures
            c.wf(),
            c.options() == options,
            c.rng_state() == Rng::seeded(options.seed),
            c.frames() == 0,
            c.total() == 0,
    {
        let seed = options.seed;
        Corruptor { options, rng: Rng::new(seed), frames_since_burst: 0, total_corrupted: 0 }
    }

    pub fn is_enabled(&self) -> (r: bool)
        ensures
            r == self.options().enabled,
    {
        self.options.enabled
    }

    /// Total number of bytes corrupted over the lifetime of this engine.
    pub fn total_corrupted(&self) -> (r: u64)
        ensures
            r == self.total(),
    {
        self.total_corrupted
    }

    /// Call this once per main-loop iteration. When enough frames have
    /// elapsed it performs one corruption burst against `mem`.
    pub fn tick(&mut self, mem: &mut Mem)
        requires
            old(self).wf(),
            old(mem).wf(),
            old(self).options().enabled && old(self).frames() + 1 >= at_least_one(
                old(self).options().interval_frames,
            ) && live_total(old(mem).live(), old(mem).live().len() as int) > 0 ==> old(self).total()
                + at_least_one(old(self).options().bytes_per_burst) <= u64::MAX,
        ensures
            final(self).wf(),
            final(mem).wf(),
            tick_outcome(*old(self), *old(mem), *final(self), *final(mem)),
    {
        if !self.options.enabled {
            return;
        }
        self.frames_since_burst = self.frames_since_burst + 1;
        let interval = if self.options.interval_frames == 0 {
            1
        } else {
            self.options.interval_frames
        };
        if self.frames_since_burst < interval as u64 {
            return;
        }
        self.frames_since_burst = 0;
        self.blast(mem);
    }

    /// Perform a single corruption burst: corrupt
    /// `CorruptionOptions::bytes_per_burst` random bytes within live
    /// allocations.
    fn blast(&mut self, mem: &mut Mem)
        requires
            old(mem).wf(),
            live_total(old(mem).live(), old(mem).live().len() as int) > 0 ==> old(self).total()
                + at_least_one(old(self).options().bytes_per_burst) <= u64::MAX,
        ensures
            final(self).options() == old(self).options(),
            final(self).frames() == old(self).frames(),
            final(mem).wf(),
            final(mem).live() == old(mem).live(),
            final(mem).floor() == old(mem).floor(),
            ({
                let live = old(mem).live();
                let total = live_total(live, live.len() as int);
                let (state, writes) = blast_writes(
                    old(self).rng_state(),
                    live,
                    total,
                    old(self).options().max_offset,
                    at_least_one(old(self).options().bytes_per_burst) as nat,
                );
                &&& total == 0 ==> final(self).rng_state() == old(self).rng_state()
                    && final(self).total() == old(self).total() && *final(mem) == *old(mem)
                &&& total > 0 ==> final(self).rng_state() == state && final(self).total() == old(
                    self,
                ).total() + writes.len() && forall|a: int|
                    #[trigger] final(mem).byte_at(a) == after_writes(writes, a, old(mem).byte_at(a))
            }),
    {
        let allocations = mem.live_allocations();
        let ghost live = mem.live();
        assert(allocations@.len() == live.len());
        proof {
            mem.lemma_live_total(live.len() as int);
        }
        // Total corruptible byte budget across all live allocations.
        let mut total_bytes: u64 = 0;
        let mut i: usize = 0;
        while i < allocations.len()
            invariant
                i <= allocations@.len(),
                allocations@.len() == live.len(),
                live == mem.live(),
                mem.wf(),
                forall|k: int|
                    0 <= k < allocations@.len() ==> (allocations@[k].0 as int, allocations@[k].1
                        as int) == #[trigger] live[k],
                total_bytes == live_total(live, i as int),
            decreases allocations@.len() - i,
        {
            proof {
                mem.lemma_live_total(i + 1);
            }
            total_bytes = total_bytes + allocations[i].1 as u64;
            i = i + 1;
        }
        if total_bytes == 0 {
            return;
        }
        let ghost total = total_bytes as int;
        let burst = if self.options.bytes_per_burst == 0 {
            1
        } else {
            self.options.bytes_per_burst
        };
        let ghost mo = self.options.max_offset;
        let ghost start_state = self.rng.state;
        let ghost start_mem = *mem;
        let ghost start_options = self.options;
        let ghost start_frames = self.frames_since_burst;
        let ghost start_total = self.total_corrupted;
        let mut corrupted_this_burst: u64 = 0;
        let mut n: u32 = 0;
        while n < burst
            invariant
                self.options == start_options,
                self.frames_since_burst == start_frames,
                self.total_corrupted == start_total,
                start_total + burst <= u64::MAX,
                n <= burst,
                burst == at_least_one(self.options.bytes_per_burst),
                mo == self.options.max_offset,
                allocations@.len() == live.len(),
                forall|k: int|
                    0 <= k < allocations@.len() ==> (allocations@[k].0 as int, allocations@[k].1
                        as int) == #[trigger] live[k],
                start_mem.wf(),
                live == start_mem.live(),
                total == total_bytes,
                total > 0,
                start_options == old(self).options,
                mem.wf(),
                mem.live() == live,
                mem.floor() == start_mem.floor(),
                ({
                    let (state, writes) = blast_writes(start_state, live, total, mo, n as nat);
                    &&& self.rng.state == state
                    &&& corrupted_this_burst == writes.len()
                    &&& writes.len() <= n
                    &&& forall|a: int|
                        #[trigger] mem.byte_at(a) == after_writes(writes, a, start_mem.byte_at(a))
                }),
            decreases burst - n,
        {
            let ghost prev = blast_writes(start_state, live, total, mo, n as nat);
            let ghost before = *mem;
            // Pick a global byte index weighted by allocation size, then map
            // it back to a concrete (base, offset) within one allocation.
            let mut pick = self.rng.below(total_bytes);
            let mut target: Option<(GuestUSize, GuestUSize)> = None;
            let ghost pick0 = pick as int;
            assert(pick0 == draw(prev.0) % total_bytes);
            let mut j: usize = 0;
            while j < allocations.len() && target.is_none()
                invariant
                    j <= allocations@.len(),
                    allocations@.len() == live.len(),
                    forall|k: int|
                        0 <= k < allocations@.len() ==> (allocations@[k].0 as int, allocations@[k].1
                            as int) == #[trigger] live[k],
                    target is None ==> locate(live, pick0, 0) == locate(live, pick as int, j as int),
                    target matches Some(t) ==> locate(live, pick0, 0) == Some(
                        (t.0 as int, t.1 as int),
                    ),
                decreases allocations@.len() - j, (if target is None { 1int } else { 0int }),
            {
                let (base, size) = allocations[j];
                if pick < size as u64 {
                    target = Some((base, pick as u32));
                } else {
                    pick = pick - size as u64;
                    j = j + 1;
                }
            }
            proof {
                if target is None {
                    assert(locate(live, pick as int, j as int) is None);
                }
            }
            match target {
                None => {},
                Some((base, offset)) => {
                    let mut offset = offset;
                    match self.options.max_offset {
                        Some(max_offset) => {
                            if max_offset > 0 {
                                offset = offset % max_offset;
                            }
                        },
                        None => {},
                    }
                    let addr = base.wrapping_add(offset);
                    let value = (self.rng.next_u32() % 256) as u8;
                    mem.corrupt_byte(addr, value);
                    corrupted_this_burst = corrupted_this_burst + 1;
                    proof {
                        let w = prev.1.push((addr as int, value));
                        assert(w.drop_last() =~= prev.1);
                        assert forall|a: int|
                            #[trigger] mem.byte_at(a) == after_writes(w, a, start_mem.byte_at(a)) by {
                            assert(before.byte_at(a) == after_writes(
                                prev.1,
                                a,
                                start_mem.byte_at(a),
                            ));
                        }
                    }
                },
            }
            n = n + 1;
        }
        self.total_corrupted = self.total_corrupted + corrupted_this_burst;
    }
}

} // verus!
