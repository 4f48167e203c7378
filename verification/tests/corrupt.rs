use taphle::corrupt::{CorruptionOptions, Corruptor, Rng};
use taphle::mem::{Mem, PAGE_SIZE};

#[test]
fn rng_is_deterministic_for_seed() {
    let mut a = Rng::new(12345);
    let mut b = Rng::new(12345);
    for _ in 0..1000 {
        assert_eq!(a.next_u64(), b.next_u64());
    }
}

#[test]
fn rng_below_respects_bound() {
    let mut r = Rng::new(7);
    for _ in 0..10_000 {
        assert!(r.below(10) < 10);
    }
}

/// SplitMix64 from seed 0 scrambled with the increment: the first state is
/// the increment doubled (modulo 2^64).
#[test]
fn rng_matches_the_splitmix_reference() {
    let mut r = Rng::new(0x9E37_79B9_7F4A_7C15);
    // A zero state after scrambling: the first draw is SplitMix64's first
    // output from state 0, which is well known.
    assert_eq!(r.next_u64(), 0xE220_A839_7B1D_CDAF);
    let mut s = Rng::new(0x9E37_79B9_7F4A_7C15);
    assert_eq!(s.next_u32(), 0xE220_A839);
}

/// The core guarantee: when enabled, the engine actually mutates live
/// guest memory, and only within the allocation it was given.
#[test]
fn corrupts_only_live_allocation() {
    let mut mem = Mem::new();
    mem.set_null_segment_size(PAGE_SIZE);

    let size: u32 = 4096;
    let base = mem.allocate(size);

    // Fill the allocation with a known sentinel.
    mem.fill(base, size, 0xAA);

    let opts = CorruptionOptions {
        enabled: true,
        interval_frames: 1,
        bytes_per_burst: 256,
        max_offset: None,
        seed: 42,
    };
    let mut corruptor = Corruptor::new(opts);

    // One tick at interval=1 should trigger exactly one burst.
    corruptor.tick(&mut mem);

    // Count how many sentinel bytes changed.
    let bytes = mem.read_bytes(base, size);
    let changed = bytes.iter().filter(|&&b| b != 0xAA).count();

    assert!(corruptor.total_corrupted() > 0, "engine reported no corruption");
    assert!(changed > 0, "no bytes were actually changed in guest memory");
    assert_eq!(mem.live_allocations(), vec![(base, size)]);
}

#[test]
fn disabled_engine_does_nothing() {
    let mut mem = Mem::new();
    mem.set_null_segment_size(PAGE_SIZE);

    let size: u32 = 1024;
    let base = mem.allocate(size);
    mem.fill(base, size, 0x55);

    let mut corruptor = Corruptor::new(CorruptionOptions {
        enabled: false,
        ..CorruptionOptions::default()
    });
    for _ in 0..100 {
        corruptor.tick(&mut mem);
    }
    let bytes = mem.read_bytes(base, size);
    assert!(bytes.iter().all(|&b| b == 0x55), "disabled engine corrupted memory");
    assert_eq!(corruptor.total_corrupted(), 0);
}

#[test]
fn interval_gates_bursts() {
    let mut mem = Mem::new();
    mem.set_null_segment_size(PAGE_SIZE);
    let base = mem.allocate(4096);
    mem.fill(base, 4096, 0);

    let mut corruptor = Corruptor::new(CorruptionOptions {
        enabled: true,
        interval_frames: 10,
        bytes_per_burst: 4,
        max_offset: None,
        seed: 1,
    });
    // 9 ticks: not enough to fire.
    for _ in 0..9 {
        corruptor.tick(&mut mem);
    }
    assert_eq!(corruptor.total_corrupted(), 0, "burst fired before interval elapsed");
    // 10th tick fires.
    corruptor.tick(&mut mem);
    assert!(corruptor.total_corrupted() > 0, "burst did not fire at interval");
}

#[test]
fn deterministic_with_same_seed() {
    let run = || -> Vec<u8> {
        let mut mem = Mem::new();
        mem.set_null_segment_size(PAGE_SIZE);
        let base = mem.allocate(4096);
        mem.fill(base, 4096, 0xAA);
        let mut c = Corruptor::new(CorruptionOptions {
            enabled: true,
            interval_frames: 1,
            bytes_per_burst: 128,
            max_offset: None,
            seed: 99,
        });
        c.tick(&mut mem);
        mem.read_bytes(base, 4096)
    };
    assert_eq!(run(), run(), "same seed produced different corruption");
}

/// With `max_offset`, only the head of each allocation is hit.
#[test]
fn max_offset_confines_corruption_to_the_head() {
    let mut mem = Mem::new();
    mem.set_null_segment_size(PAGE_SIZE);
    let base = mem.allocate(4096);
    mem.fill(base, 4096, 0xAA);
    let mut c = Corruptor::new(CorruptionOptions {
        enabled: true,
        interval_frames: 1,
        bytes_per_burst: 64,
        max_offset: Some(16),
        seed: 5,
    });
    c.tick(&mut mem);
    assert_eq!(c.total_corrupted(), 64);
    let bytes = mem.read_bytes(base, 4096);
    assert!(bytes[16..].iter().all(|&b| b == 0xAA));
}

/// With nothing allocated there is nothing to corrupt.
#[test]
fn no_allocations_means_no_corruption() {
    let mut mem = Mem::new();
    let mut c = Corruptor::new(CorruptionOptions {
        enabled: true,
        interval_frames: 0,
        bytes_per_burst: 0,
        max_offset: None,
        seed: 5,
    });
    c.tick(&mut mem);
    assert_eq!(c.total_corrupted(), 0);
    assert!(c.is_enabled());
}

#[test]
fn the_default_engine_is_disabled_and_seeded_with_zero() {
    let engine = Corruptor::default();
    assert!(!engine.is_enabled());
    assert_eq!(engine.total_corrupted(), 0);
    let mut a = Rng::default();
    let mut b = Rng::new(0);
    assert_eq!(a.next_u64(), b.next_u64());
}
