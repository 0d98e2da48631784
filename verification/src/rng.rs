use vstd::prelude::*;

verus! {

/// One step of the linear congruential generator: the whole stream is a
/// function of the seed, so tests can replay any run exactly.
#[verifier::opaque]
pub open spec fn rng_next_spec(s: u64) -> u64 {
    (((s as int) * 6364136223846793005 + 1442695040888963407) % 0x1_0000_0000_0000_0000) as u64
}

/// The draw taken from a state: the upper bits of the successor state,
/// reduced below the bound.
#[verifier::opaque]
pub open spec fn rng_draw_spec(s: u64, n: u32) -> u32
    recommends
        n >= 1,
{
    (((rng_next_spec(s) >> 33) as int) % (n as int)) as u32
}

/// The generator state after `k` draws from `s`.
pub open spec fn rng_skip_spec(s: u64, k: nat) -> u64
    decreases k,
{
    if k == 0 {
        s
    } else {
        rng_next_spec(rng_skip_spec(s, (k - 1) as nat))
    }
}

/// Every draw is strictly below its bound.
pub proof fn lemma_rng_draw_bound(s: u64, n: u32)
    requires
        n >= 1,
    ensures
        rng_draw_spec(s, n) < n,
{
    reveal(rng_draw_spec);
    vstd::arithmetic::div_mod::lemma_mod_bound((rng_next_spec(s) >> 33) as int, n as int);
}

/// A deterministic uniform source.  The simulation needs draws from a
/// uniform range; their exact provenance is the host's business, so the
/// host may reseed at will and tests may fix the seed.
pub struct Rng {
    state: u64,
}

impl Rng {
    /// The current generator state.
    pub closed spec fn view(self) -> u64 {
        self.state
    }

    pub fn new(seed: u64) -> (r: Rng)
        ensures
            r@ == seed,
    {
        Rng { state: seed }
    }

    /// Draws a value below `n` and advances the state by one step.
    pub fn next_below(&mut self, n: u32) -> (r: u32)
        requires
            n >= 1,
        ensures
            final(self)@ == rng_next_spec(old(self)@),
            r == rng_draw_spec(old(self)@, n),
            r < n,
    {
        proof {
            reveal(rng_next_spec);
            reveal(rng_draw_spec);
        }
        let wide: u128 = (self.state as u128) * 6364136223846793005u128 + 1442695040888963407u128;
        let next: u64 = (wide % 0x1_0000_0000_0000_0000u128) as u64;
        self.state = next;
        let hi: u64 = next >> 33;
        proof {
            assert(next >> 33 < 0x8000_0000u64) by (bit_vector);
        }
        let r: u32 = (hi % (n as u64)) as u32;
        r
    }
}

} // verus!
