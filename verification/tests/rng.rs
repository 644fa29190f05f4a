use dsp_core::SplitMix64;

#[test]
fn same_seed_same_stream() {
    let mut a = SplitMix64::new(42);
    let mut b = SplitMix64::new(42);
    for _ in 0..1000 {
        assert_eq!(a.next_u64(), b.next_u64());
    }
}

#[test]
fn different_seeds_diverge() {
    let mut a = SplitMix64::new(1);
    let mut b = SplitMix64::new(2);
    assert_ne!(a.next_u64(), b.next_u64());
}

#[test]
fn splitmix_reference_values() {
    let mut r = SplitMix64::new(0);
    assert_eq!(r.next_u64(), 0xe220_a839_7b1d_cdaf);
    assert_eq!(r.next_u64(), 0x6e78_9e6a_a1b9_65f4);
    assert_eq!(r.next_u64(), 0x06c4_5d18_8009_454f);
    let mut r = SplitMix64::new(42);
    assert_eq!(r.next_u64(), 0xbdd7_3226_2feb_6e95);
}

#[test]
fn stream_can_be_entered_at_any_draw() {
    // The state after n draws is seed + n * gamma, so a stream seeded there
    // continues the original one.
    let gamma: u64 = 0x9E37_79B9_7F4A_7C15;
    let mut a = SplitMix64::new(7);
    for _ in 0..5 {
        a.next_u64();
    }
    let mut b = SplitMix64::new(7u64.wrapping_add(gamma.wrapping_mul(5)));
    for _ in 0..100 {
        assert_eq!(a.next_u64(), b.next_u64());
    }
}

#[test]
fn distinct_seeds_differ_at_every_draw() {
    let mut a = SplitMix64::new(1);
    let mut b = SplitMix64::new(2);
    for _ in 0..1000 {
        assert_ne!(a.next_u64(), b.next_u64());
    }
}

#[test]
fn no_repeated_output_in_a_short_stream() {
    let mut r = SplitMix64::new(123);
    let mut seen: Vec<u64> = (0..2000).map(|_| r.next_u64()).collect();
    seen.sort();
    seen.dedup();
    assert_eq!(seen.len(), 2000);
}

#[test]
fn clone_forks_an_identical_substream() {
    let mut a = SplitMix64::new(99);
    a.next_u64();
    let mut b = a.clone();
    for _ in 0..10 {
        assert_eq!(a.next_u64(), b.next_u64());
    }
}
