use vstd::prelude::*;

verus! {

/// Increment added to the state on every step.
pub const INCREMENT: u64 = 0xA0761D6478BD642F;

/// Constant mixed into the state to produce an output.
pub const MIXER: u64 = 0xE7037ED1A0B428DB;

/// Seed of a generator created while no other generator could be drawn from.
pub const FALLBACK_SEED: u64 = 0x4d595df4d0f33173;

/// 2^64, the number of values of a `u64`.
pub open spec fn modulus() -> int {
    0x1_0000_0000_0000_0000
}

/// The state after one step: the state plus `INCREMENT`, wrapping.
pub open spec fn next(s: u64) -> u64 {
    ((s as int + INCREMENT as int) % modulus()) as u64
}

/// The output of a step that lands on state `s`: the two halves of the
/// 128-bit product of `s` and `s ^ MIXER`, xored.
pub open spec fn mix(s: u64) -> u64 {
    let t = s as int * (s ^ MIXER) as int;
    ((t % modulus()) as u64) ^ ((t / modulus()) as u64)
}

/// How many draws past the first a bounded sample may reject. With this many
/// the state has gone once round its whole period of 2^64 steps.
pub const RETRIES: u64 = 0xFFFF_FFFF_FFFF_FFFF;

/// Products whose low half falls under this bound are rejected, so that every
/// value below `n` is reached by the same number of outputs.
pub open spec fn threshold(n: u64) -> int {
    (modulus() - n as int) % (n as int)
}

/// A value below `n` and the state after it, from state `s`, with at most
/// `budget` rejections: the high half of `output * n`, where an output whose
/// low half falls under `threshold(n)` is drawn again.
pub open spec fn below_from(s: u64, n: u64, budget: nat) -> (u64, u64)
    decreases budget,
{
    let s1 = next(s);
    let m = mix(s1) as int * n as int;
    if m % modulus() >= threshold(n) || budget == 0 {
        ((m / modulus()) as u64, s1)
    } else {
        below_from(s1, n, (budget - 1) as nat)
    }
}

/// A uniform value below `n` drawn from state `s`, and the state after it.
pub open spec fn below(s: u64, n: u64) -> (u64, u64) {
    below_from(s, n, RETRIES as nat)
}

/// A uniform integer in `lo..=hi` drawn from state `s`, and the state after it.
/// A span of all 2^64 values takes one output as it is.
pub open spec fn pick(s: u64, lo: int, hi: int) -> (int, u64) {
    if hi - lo + 1 >= modulus() {
        (lo + mix(next(s)), next(s))
    } else {
        let b = below(s, (hi - lo + 1) as u64);
        (lo + b.0, b.1)
    }
}

/// A value drawn by `below_from` is below `n`.
pub proof fn lemma_below_from_bound(s: u64, n: u64, budget: nat)
    requires
        n > 0,
    ensures
        below_from(s, n, budget).0 < n,
    decreases budget,
{
    let s1 = next(s);
    let r = mix(s1);
    let m = r as int * n as int;
    assert(m / modulus() < n as int) by (nonlinear_arith)
        requires m == r as int * n as int, 0 <= r < modulus(), n > 0, modulus() > 0;
    assert(m >= 0) by (nonlinear_arith)
        requires m == r as int * n as int, r >= 0, n > 0;
    if !(m % modulus() >= threshold(n) || budget == 0) {
        lemma_below_from_bound(s1, n, (budget - 1) as nat);
    }
}

/// A value drawn by `pick` lies in `lo..=hi`.
pub proof fn lemma_pick_bound(s: u64, lo: int, hi: int)
    requires
        lo <= hi,
    ensures
        lo <= pick(s, lo, hi).0 <= hi,
{
    if hi - lo + 1 < modulus() {
        lemma_below_from_bound(s, (hi - lo + 1) as u64, RETRIES as nat);
    }
}

/// 2^128, the number of values of a `u128`.
pub open spec fn wide_modulus() -> int {
    modulus() * modulus()
}

/// A 128-bit value drawn from state `s`, two outputs high half first, and the
/// state after it.
pub open spec fn wide(s: u64) -> (int, u64) {
    (mix(next(s)) as int * modulus() + mix(next(next(s))) as int, next(next(s)))
}

/// The least 128-bit value that is rejected when drawing below `n`: past it
/// the remainders by `n` would not all come equally often.
pub open spec fn zone(n: int) -> int {
    wide_modulus() - wide_modulus() % n
}

/// A value below `n`, at most 2^128, and the state after it, from state `s`,
/// with at most `budget` rejections: the remainder by `n` of a 128-bit value,
/// where a value at or past `zone(n)` is drawn again.
pub open spec fn wide_below_from(s: u64, n: int, budget: nat) -> (int, u64)
    decreases budget,
{
    let (x, s2) = wide(s);
    if x < zone(n) || budget == 0 {
        (x % n, s2)
    } else {
        wide_below_from(s2, n, (budget - 1) as nat)
    }
}

/// A uniform 128-bit integer in `lo..=hi`, and the state after it.
pub open spec fn pick_wide(s: u64, lo: int, hi: int) -> (int, u64) {
    if hi - lo + 1 >= wide_modulus() {
        (lo + wide(s).0, wide(s).1)
    } else {
        let b = wide_below_from(s, hi - lo + 1, RETRIES as nat);
        (lo + b.0, b.1)
    }
}

/// A 128-bit value lies below 2^128.
pub proof fn lemma_wide_bound(s: u64)
    ensures
        0 <= wide(s).0 < wide_modulus(),
{
    let a = mix(next(s)) as int;
    let b = mix(next(next(s))) as int;
    assert(0 <= a * modulus() + b < modulus() * modulus()) by (nonlinear_arith)
        requires 0 <= a < modulus(), 0 <= b < modulus(), modulus() > 0;
}

/// A value drawn by `pick_wide` lies in `lo..=hi`.
pub proof fn lemma_pick_wide_bound(s: u64, lo: int, hi: int)
    requires
        lo <= hi,
        hi - lo < wide_modulus(),
    ensures
        lo <= pick_wide(s, lo, hi).0 <= hi,
{
    lemma_wide_bound(s);
    if hi - lo + 1 < wide_modulus() {
        lemma_wide_below_bound(s, hi - lo + 1, RETRIES as nat);
    }
}

/// A value drawn by `wide_below_from` is below `n`.
pub proof fn lemma_wide_below_bound(s: u64, n: int, budget: nat)
    requires
        n > 0,
    ensures
        0 <= wide_below_from(s, n, budget).0 < n,
    decreases budget,
{
    let (x, s2) = wide(s);
    if !(x < zone(n) || budget == 0) {
        lemma_wide_below_bound(s2, n, (budget - 1) as nat);
    }
}

/// A pseudo-random generator whose whole state is one `u64`.
pub struct Rng {
    state: u64,
}

impl View for Rng {
    type V = u64;

    closed spec fn view(&self) -> u64 {
        self.state
    }
}

impl Rng {
    /// Creates a generator whose state is `seed`.
    pub fn with_seed(seed: u64) -> (r: Rng)
        ensures
            r@ == seed,
    {
        Rng { state: seed }
    }

    /// Creates a generator seeded from a value drawn from another one.
    /// Where no value could be drawn, the fixed `FALLBACK_SEED` is used.
    pub fn new(drawn: Option<u64>) -> (r: Rng)
        ensures
            r@ == match drawn {
                Some(v) => v,
                None => FALLBACK_SEED,
            },
    {
        match drawn {
            Some(v) => Rng::with_seed(v),
            None => Rng::with_seed(FALLBACK_SEED),
        }
    }

    /// Resets the state to `seed`.
    pub fn seed(&mut self, seed: u64)
        ensures
            final(self)@ == seed,
    {
        self.state = seed;
    }

    /// The current state, from which every later draw follows.
    pub fn get_seed(&self) -> (r: u64)
        ensures
            r == self@,
    {
        self.state
    }

    /// Draws a uniform value below `n`, by the high half of the 128-bit
    /// product of an output and `n`, drawing again where the low half falls
    /// under `threshold(n)`.
    pub fn gen_below(&mut self, n: u64) -> (r: u64)
        requires
            n > 0,
        ensures
            (r, final(self)@) == below(old(self)@, n),
            r < n,
    {
        proof {
            lemma_below_from_bound(self@, n, RETRIES as nat);
        }
        let ghost goal = below(self@, n);
        let t: u64 = (u64::MAX - n + 1) % n;
        let mut budget: u64 = RETRIES;
        loop
            invariant
                below_from(self@, n, budget as nat) == goal,
                goal == below(old(self)@, n),
                goal.0 < n,
                n > 0,
                t as int == threshold(n),
            decreases budget,
        {
            let ghost before = self@;
            let r = self.gen_u64();
            let a = r as u128;
            let b = n as u128;
            assert(a * b <= u128::MAX) by (nonlinear_arith)
                requires a <= u64::MAX as u128, b <= u64::MAX as u128;
            let m: u128 = a * b;
            assert(m / 0x1_0000_0000_0000_0000 < n as u128) by (nonlinear_arith)
                requires m == a * b, a <= u64::MAX as u128, b == n as u128, n > 0;
            let lo = (m % 0x1_0000_0000_0000_0000) as u64;
            let hi = (m / 0x1_0000_0000_0000_0000) as u64;
            assert(m as int == mix(next(before)) as int * n as int);
            assert(lo as int == (m as int) % modulus());
            assert(hi as int == (m as int) / modulus());
            if lo >= t || budget == 0 {
                assert(below_from(before, n, budget as nat) == (hi, self@));
                return hi;
            }
            budget = budget - 1;
        }
    }

    /// Draws a uniform offset in `0..=span`: one output as it is where the
    /// span covers every `u64`, else a value below `span + 1`.
    pub fn gen_offset(&mut self, span: u64) -> (r: u64)
        ensures
            r <= span,
            (r as int, final(self)@) == pick(old(self)@, 0, span as int),
    {
        if span == u64::MAX {
            self.gen_u64()
        } else {
            self.gen_below(span + 1)
        }
    }

    /// Draws a 128-bit value from two outputs, the first as the high half.
    pub fn gen_u128(&mut self) -> (r: u128)
        ensures
            (r as int, final(self)@) == wide(old(self)@),
    {
        proof {
            lemma_wide_bound(self@);
        }
        let a = self.gen_u64() as u128;
        let b = self.gen_u64() as u128;
        assert(a * 0x1_0000_0000_0000_0000 + b <= u128::MAX) by (nonlinear_arith)
            requires a <= u64::MAX as u128, b <= u64::MAX as u128;
        a * 0x1_0000_0000_0000_0000 + b
    }

    /// Draws a uniform 128-bit offset in `0..=span`: the remainder by
    /// `span + 1` of a 128-bit value, drawing again at or past `zone`.
    pub fn gen_wide_offset(&mut self, span: u128) -> (r: u128)
        ensures
            r <= span,
            (r as int, final(self)@) == pick_wide(old(self)@, 0, span as int),
    {
        proof {
            lemma_pick_wide_bound(self@, 0, span as int);
        }
        if span == u128::MAX {
            return self.gen_u128();
        }
        let n: u128 = span + 1;
        let ghost goal = pick_wide(self@, 0, span as int);
        let rem: u128 = (u128::MAX % n + 1) % n;
        assert(rem as int == wide_modulus() % (n as int)) by (nonlinear_arith)
            requires
                rem as int == ((u128::MAX as int % n as int) + 1) % (n as int),
                u128::MAX as int + 1 == wide_modulus(),
                n > 0;
        let limit: u128 = u128::MAX - rem;
        let mut budget: u64 = RETRIES;
        loop
            invariant
                wide_below_from(self@, n as int, budget as nat) == goal,
                goal == pick_wide(old(self)@, 0, span as int),
                n == span + 1,
                n > 0,
                limit as int == zone(n as int) - 1,
                goal.0 <= span,
            decreases budget,
        {
            let x = self.gen_u128();
            if x <= limit || budget == 0 {
                return x % n;
            }
            budget = budget - 1;
        }
    }

    /// Advances the state one step and returns the output of that step.
    pub fn gen_u64(&mut self) -> (r: u64)
        ensures
            final(self)@ == next(old(self)@),
            r == mix(next(old(self)@)),
    {
        let s = (((self.state as u128) + (INCREMENT as u128)) % 0x1_0000_0000_0000_0000) as u64;
        self.state = s;
        let a = s as u128;
        let b = (s ^ MIXER) as u128;
        assert(a * b <= u128::MAX) by (nonlinear_arith)
            requires a <= u64::MAX as u128, b <= u64::MAX as u128;
        let t: u128 = a * b;
        ((t % 0x1_0000_0000_0000_0000) as u64) ^ ((t / 0x1_0000_0000_0000_0000) as u64)
    }
}

} // verus!
