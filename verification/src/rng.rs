use vstd::prelude::*;

verus! {

/// The splitmix64 state advance: the golden-ratio increment, modulo 2^64.
pub open spec fn splitmix_next_state(s: u64) -> u64 {
    ((s + 0x9E3779B97F4A7C15) % 0x1_0000_0000_0000_0000) as u64
}

/// The splitmix64 output mix of a state: two xor-shift-multiply rounds and a
/// final xor-shift, modulo 2^64.
pub open spec fn splitmix_output(s0: u64) -> u64 {
    let z1 = (((s0 ^ (s0 >> 30)) * 0xBF58476D1CE4E5B9) % 0x1_0000_0000_0000_0000) as u64;
    let z2 = (((z1 ^ (z1 >> 27)) * 0x94D049BB133111EB) % 0x1_0000_0000_0000_0000) as u64;
    z2 ^ (z2 >> 31)
}

/// Deterministic pseudo-random source that drives obstacle layout, agent
/// spawning, and undirected exploration. Replaying a seed replays a run
/// exactly, which the functional contracts below make provable; `fresh` draws
/// the seed from the process entropy source.
pub struct SimRng {
    pub state: u64,
}

impl SimRng {
    /// A generator that will replay deterministically for a given seed.
    pub fn from_seed(seed: u64) -> (r: SimRng)
        ensures
            r.state == seed,
    {
        SimRng { state: seed }
    }

    /// A generator seeded unpredictably.
    pub fn fresh() -> SimRng {
        SimRng { state: entropy_seed() }
    }

    /// Advances the generator and returns the next raw draw (splitmix64).
    pub fn next_raw(&mut self) -> (r: u64)
        ensures
            final(self).state == splitmix_next_state(old(self).state),
            r == splitmix_output(final(self).state),
    {
        let m: u128 = 0x1_0000_0000_0000_0000;
        let s0: u64 = (((self.state as u128) + 0x9E3779B97F4A7C15u128) % m) as u64;
        self.state = s0;
        let z1: u64 = ((((s0 ^ (s0 >> 30)) as u128) * 0xBF58476D1CE4E5B9u128) % m) as u64;
        let z2: u64 = ((((z1 ^ (z1 >> 27)) as u128) * 0x94D049BB133111EBu128) % m) as u64;
        z2 ^ (z2 >> 31)
    }

    /// A draw in `[0, n)`.
    pub fn below(&mut self, n: u64) -> (r: u64)
        requires
            n > 0,
        ensures
            r < n,
            final(self).state == splitmix_next_state(old(self).state),
            r == splitmix_output(final(self).state) % n,
    {
        self.next_raw() % n
    }
}

/// Relies on rand::random over ThreadRng for an entropy-seeded u64;
/// nothing is promised of its value.
#[verifier::external_body]
fn entropy_seed() -> u64 {
    rand::random::<u64>()
}

} // verus!
