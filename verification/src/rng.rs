//! Seeded, deterministic SplitMix64 stream: a fixed odd additive step followed
//! by an avalanche mix. All randomness of a render derives from its seed.

use vstd::arithmetic::div_mod::{
    lemma_add_mod_noop, lemma_mod_equivalence, lemma_mul_mod_noop_left, lemma_mul_mod_noop_right,
    lemma_small_mod,
};
use vstd::arithmetic::mul::lemma_mul_is_associative;
use vstd::prelude::*;

verus! {

/// The golden-ratio odd increment (2^64 / phi).
pub const SPLITMIX_GAMMA: u64 = 0x9E37_79B9_7F4A_7C15;

/// First avalanche multiplier.
pub const SPLITMIX_MUL1: u64 = 0xBF58_476D_1CE4_E5B9;

/// Second avalanche multiplier.
pub const SPLITMIX_MUL2: u64 = 0x94D0_49BB_1331_11EB;

/// 2^64, the modulus of all wrapping arithmetic here.
pub open spec fn word_modulus() -> int {
    0x1_0000_0000_0000_0000
}

/// Multiplication modulo 2^64.
pub open spec fn mul_wrap(x: u64, y: u64) -> u64 {
    ((x as int * y as int) % word_modulus()) as u64
}

/// One step of the state: add the odd increment modulo 2^64.
pub open spec fn advance(s: u64) -> u64 {
    ((s as int + SPLITMIX_GAMMA as int) % word_modulus()) as u64
}

/// The avalanche mix that turns a state word into an output word.
pub open spec fn mix(s: u64) -> u64 {
    let z1 = mul_wrap(s ^ (s >> 30u64), SPLITMIX_MUL1);
    let z2 = mul_wrap(z1 ^ (z1 >> 27u64), SPLITMIX_MUL2);
    z2 ^ (z2 >> 31u64)
}

/// The state after `n` draws from a stream seeded with `seed`.
pub open spec fn state_after(seed: u64, n: nat) -> u64
    decreases n,
{
    if n == 0 {
        seed
    } else {
        advance(state_after(seed, (n - 1) as nat))
    }
}

/// The `n`-th value (counting from 0) drawn from a stream seeded with `seed`.
pub open spec fn nth_output(seed: u64, n: nat) -> u64 {
    mix(state_after(seed, n + 1))
}

/// A SplitMix64 stream. `Clone` so a voice can fork a sub-stream from a known
/// point without disturbing the parent.
#[derive(Clone)]
pub struct SplitMix64 {
    state: u64,
}

impl View for SplitMix64 {
    type V = u64;

    /// The stream's current state word.
    closed spec fn view(&self) -> u64 {
        self.state
    }
}

impl SplitMix64 {
    /// A stream whose state is the seed itself.
    pub fn new(seed: u64) -> (r: Self)
        ensures
            r@ == seed,
    {
        SplitMix64 { state: seed }
    }

    /// Advance the stream and return the next 64-bit value.
    pub fn next_u64(&mut self) -> (r: u64)
        ensures
            final(self)@ == advance(old(self)@),
            r == mix(final(self)@),
    {
        self.state = self.state.wrapping_add(SPLITMIX_GAMMA);
        let mut z = self.state;
        z = (z ^ (z >> 30)).wrapping_mul(SPLITMIX_MUL1);
        z = (z ^ (z >> 27)).wrapping_mul(SPLITMIX_MUL2);
        z ^ (z >> 31)
    }
}

/// Multiplying by an odd word modulo 2^64 can be undone by multiplying with
/// its inverse `inv`.
proof fn lemma_mul_wrap_cancel(x: u64, c: u64, inv: u64)
    requires
        (c as int * inv as int) % word_modulus() == 1,
    ensures
        mul_wrap(mul_wrap(x, c), inv) == x,
{
    let m = word_modulus();
    lemma_mul_mod_noop_left(x as int * c as int, inv as int, m);
    lemma_mul_is_associative(x as int, c as int, inv as int);
    lemma_mul_mod_noop_right(x as int, c as int * inv as int, m);
    lemma_small_mod(x as nat, m as nat);
}

/// Multiplication by an invertible word modulo 2^64 is injective.
proof fn lemma_mul_wrap_injective(x: u64, y: u64, c: u64, inv: u64)
    requires
        (c as int * inv as int) % word_modulus() == 1,
        mul_wrap(x, c) == mul_wrap(y, c),
    ensures
        x == y,
{
    lemma_mul_wrap_cancel(x, c, inv);
    lemma_mul_wrap_cancel(y, c, inv);
}

/// The mix is injective: distinct state words give distinct outputs.
pub proof fn lemma_mix_injective(x: u64, y: u64)
    ensures
        mix(x) == mix(y) ==> x == y,
{
    if mix(x) == mix(y) {
        assert((SPLITMIX_MUL1 as int * 0x96de1b173f119089int) % word_modulus() == 1);
        assert((SPLITMIX_MUL2 as int * 0x319642b2d24d8ec3int) % word_modulus() == 1);
        let x1 = mul_wrap(x ^ (x >> 30u64), SPLITMIX_MUL1);
        let y1 = mul_wrap(y ^ (y >> 30u64), SPLITMIX_MUL1);
        let x2 = mul_wrap(x1 ^ (x1 >> 27u64), SPLITMIX_MUL2);
        let y2 = mul_wrap(y1 ^ (y1 >> 27u64), SPLITMIX_MUL2);
        assert(x2 ^ (x2 >> 31u64) == y2 ^ (y2 >> 31u64) ==> x2 == y2) by (bit_vector);
        lemma_mul_wrap_injective(x1 ^ (x1 >> 27u64), y1 ^ (y1 >> 27u64), SPLITMIX_MUL2, 0x319642b2d24d8ec3);
        assert(x1 ^ (x1 >> 27u64) == y1 ^ (y1 >> 27u64) ==> x1 == y1) by (bit_vector);
        lemma_mul_wrap_injective(x ^ (x >> 30u64), y ^ (y >> 30u64), SPLITMIX_MUL1, 0x96de1b173f119089);
        assert(x ^ (x >> 30u64) == y ^ (y >> 30u64) ==> x == y) by (bit_vector);
    }
}

/// After `n` draws the state is `seed + n * GAMMA` modulo 2^64, so any position
/// of a stream is reachable without replaying the draws before it.
pub proof fn lemma_state_after_closed_form(seed: u64, n: nat)
    ensures
        state_after(seed, n) as int == (seed as int + n * SPLITMIX_GAMMA) % word_modulus(),
    decreases n,
{
    let m = word_modulus();
    if n == 0 {
        lemma_small_mod(seed as nat, m as nat);
    } else {
        let k = (n - 1) as nat;
        lemma_state_after_closed_form(seed, k);
        let a = seed as int + k * SPLITMIX_GAMMA;
        lemma_add_mod_noop(a, SPLITMIX_GAMMA as int, m);
        lemma_small_mod(SPLITMIX_GAMMA as nat, m as nat);
        lemma_small_mod(state_after(seed, k) as nat, m as nat);
        assert(a + SPLITMIX_GAMMA == seed as int + n * SPLITMIX_GAMMA);
    }
}

/// Shifting two distinct words by the same amount keeps them distinct
/// modulo 2^64.
proof fn lemma_shift_keeps_distinct(a: u64, b: u64, k: int)
    requires
        a > b,
    ensures
        (a as int + k) % word_modulus() != (b as int + k) % word_modulus(),
{
    let m = word_modulus();
    lemma_mod_equivalence(a as int + k, b as int + k, m);
    assert((a as int + k) - (b as int + k) == a - b);
    lemma_small_mod((a - b) as nat, m as nat);
}

/// Two streams with different seeds never agree at the same draw: their
/// `n`-th outputs differ for every `n`.
pub proof fn lemma_distinct_seeds_diverge(s1: u64, s2: u64, n: nat)
    requires
        s1 != s2,
    ensures
        state_after(s1, n) != state_after(s2, n),
        nth_output(s1, n) != nth_output(s2, n),
{
    lemma_state_after_closed_form(s1, n + 1);
    lemma_state_after_closed_form(s2, n + 1);
    lemma_state_after_closed_form(s1, n);
    lemma_state_after_closed_form(s2, n);
    if s1 > s2 {
        lemma_shift_keeps_distinct(s1, s2, n * SPLITMIX_GAMMA);
        lemma_shift_keeps_distinct(s1, s2, (n + 1) * SPLITMIX_GAMMA);
    } else {
        lemma_shift_keeps_distinct(s2, s1, n * SPLITMIX_GAMMA);
        lemma_shift_keeps_distinct(s2, s1, (n + 1) * SPLITMIX_GAMMA);
    }
    lemma_mix_injective(state_after(s1, n + 1), state_after(s2, n + 1));
}

/// A stream does not revisit a state, and so does not repeat an output, within
/// 2^64 draws: the increment is odd, hence invertible modulo 2^64.
pub proof fn lemma_no_repeat_within_period(seed: u64, i: nat, j: nat)
    requires
        i < j,
        j - i < word_modulus(),
    ensures
        state_after(seed, i) != state_after(seed, j),
        nth_output(seed, i) != nth_output(seed, j),
{
    let m = word_modulus();
    lemma_no_repeat_states(seed, i, j);
    lemma_no_repeat_states(seed, i + 1, j + 1);
    lemma_mix_injective(state_after(seed, i + 1), state_after(seed, j + 1));
}

proof fn lemma_no_repeat_states(seed: u64, i: nat, j: nat)
    requires
        i < j,
        j - i < word_modulus(),
    ensures
        state_after(seed, i) != state_after(seed, j),
{
    let m = word_modulus();
    let d = (j - i) as nat;
    lemma_state_after_closed_form(seed, i);
    lemma_state_after_closed_form(seed, j);
    let xi = seed as int + i * SPLITMIX_GAMMA;
    let xj = seed as int + j * SPLITMIX_GAMMA;
    assert(xj - xi == d * SPLITMIX_GAMMA);
    lemma_mod_equivalence(xj, xi, m);
    if state_after(seed, i) == state_after(seed, j) {
        assert((d * SPLITMIX_GAMMA) % m == 0);
        assert((SPLITMIX_GAMMA as int * 0xf1de83e19937733dint) % m == 1);
        lemma_mul_wrap_cancel(d as u64, SPLITMIX_GAMMA, 0xf1de83e19937733d);
        assert(mul_wrap(d as u64, SPLITMIX_GAMMA) == 0);
        assert(mul_wrap(0, 0xf1de83e19937733d) == 0);
    }
}

/// The output mix is SplitMix64's published finaliser, written with the
/// wrapping multiplication of 64-bit words.
pub proof fn lemma_mix_is_splitmix_finaliser(s: u64)
    ensures
        ({
            let z1 = vstd::wrapping::u64_specs::wrapping_mul(s ^ (s >> 30u64), 0xBF58_476D_1CE4_E5B9u64);
            let z2 = vstd::wrapping::u64_specs::wrapping_mul(z1 ^ (z1 >> 27u64), 0x94D0_49BB_1331_11EBu64);
            mix(s) == z2 ^ (z2 >> 31u64)
        }),
{
}

/// The published first draws of SplitMix64 for seeds 0, 1 and 42.
pub proof fn lemma_reference_draws()
    ensures
        nth_output(0, 0) == 0xe220_a839_7b1d_cdafu64,
        nth_output(1, 0) == 0x910a_2dec_8902_5cc1u64,
        nth_output(42, 0) == 0xbdd7_3226_2feb_6e95u64,
{
    reveal_with_fuel(state_after, 2);
    assert(advance(0) == 0x9E37_79B9_7F4A_7C15u64);
    assert(advance(1) == 0x9E37_79B9_7F4A_7C16u64);
    assert(advance(42) == 0x9E37_79B9_7F4A_7C3Fu64);
    assert(mix(0x9E37_79B9_7F4A_7C15u64) == 0xe220_a839_7b1d_cdafu64) by (bit_vector);
    assert(mix(0x9E37_79B9_7F4A_7C16u64) == 0x910a_2dec_8902_5cc1u64) by (bit_vector);
    assert(mix(0x9E37_79B9_7F4A_7C3Fu64) == 0xbdd7_3226_2feb_6e95u64) by (bit_vector);
}

} // verus!
