//! The PCG pseudo-random number generator (O'Neill 2014).
//!
//! The generator is a 64-bit linear congruential generator (LCG) whose successive
//! states are scrambled into 32-bit outputs.  All arithmetic on the state is modulo
//! 2^64.
use vstd::prelude::*;
use vstd::arithmetic::div_mod::*;
use vstd::arithmetic::mul::*;
use vstd::arithmetic::power2::*;

verus! {

/// Initial state of the default generator.
pub const PCG32_DEFAULT_STATE: u64 = 0x853c49e6748fea9b;

/// Initial increment (stream) of the default generator.
pub const PCG32_DEFAULT_STREAM: u64 = 0xda3e39cb94b95bdb;

/// Multiplier of the underlying linear congruential generator.
pub const PCG32_MULT: u64 = 0x5851f42d4c957f2d;

/// 2^64, the modulus of all state arithmetic.
pub open spec fn state_modulus() -> int {
    0x1_0000_0000_0000_0000
}

/// One step of the underlying LCG: `state * PCG32_MULT + inc` modulo 2^64.
pub open spec fn lcg_step(state: u64, inc: u64) -> u64 {
    ((state as int * PCG32_MULT as int + inc as int) % state_modulus()) as u64
}

/// The state reached from `state` after `n` steps of the LCG with increment `inc`.
pub open spec fn advance(state: u64, inc: u64, n: nat) -> u64
    decreases n,
{
    if n == 0 {
        state
    } else {
        advance(lcg_step(state, inc), inc, (n - 1) as nat)
    }
}

/// `x` rotated right by `r` bits as a 32-bit word (`r < 32`).
pub open spec fn rotr32(x: u32, r: u32) -> u32 {
    if r == 0 {
        x
    } else {
        (x >> r) | (x << ((32 - r) as u32))
    }
}

/// The 32-bit output that PCG derives from the state `old` (XSH-RR): the
/// xor-shifted high bits rotated right by the top five bits of the state.
pub open spec fn pcg_output(old: u64) -> u32 {
    rotr32((((old >> 18u64) ^ old) >> 27u64) as u32, (old >> 59u64) as u32)
}

/// The rejection threshold used to draw uniformly below `b`: `2^32 mod b`.
pub open spec fn rejection_threshold(b: u32) -> int {
    (0x1_0000_0000 - b as int) % (b as int)
}

/// The state increment used for sequence `sequence_index`: `(sequence_index << 1) | 1`.
pub open spec fn stream_of(sequence_index: u64) -> u64 {
    (sequence_index << 1u64) | 1u64
}

/// The state and increment of a generator.
#[derive(Clone, Copy, PartialEq, Eq, Debug)]
pub struct PcgState {
    /// Current LCG state.
    pub state: u64,
    /// LCG increment, which selects the stream; always odd.
    pub inc: u64,
}

/// Rng maintains the state for a PCG pseudo-random number generator based on O'Neill 2014.
pub struct Rng {
    state: u64,
    inc: u64,
}

impl View for Rng {
    type V = PcgState;

    closed spec fn view(&self) -> PcgState {
        PcgState { state: self.state, inc: self.inc }
    }
}

impl Rng {
    /// The increment of every generator is odd, which gives the LCG its full period.
    #[verifier::type_invariant]
    spec fn odd_increment(self) -> bool {
        self.inc % 2 == 1
    }

    /// The current LCG state.
    pub fn state(&self) -> (r: u64)
        ensures
            r == self@.state,
    {
        self.state
    }

    /// The LCG increment, which selects the stream.
    pub fn inc(&self) -> (r: u64)
        ensures
            r == self@.inc,
    {
        self.inc
    }

    /// Creates new random number generator seeded with `sequence_index`.
    pub fn new(sequence_index: u64) -> (rng: Rng)
        ensures
            rng@.inc == stream_of(sequence_index),
            rng@.inc % 2 == 1,
            rng@.state == lcg_step(
                ((stream_of(sequence_index) as int + PCG32_DEFAULT_STATE as int) % state_modulus()) as u64,
                stream_of(sequence_index),
            ),
    {
        let mut rng: Rng = Default::default();
        rng.set_sequence(sequence_index);
        rng
    }

    /// Resets RNG state and sets the sequence_index.
    pub fn set_sequence(&mut self, sequence_index: u64)
        ensures
            final(self)@.inc == stream_of(sequence_index),
            final(self)@.inc % 2 == 1,
            final(self)@.state == lcg_step(
                ((stream_of(sequence_index) as int + PCG32_DEFAULT_STATE as int) % state_modulus()) as u64,
                stream_of(sequence_index),
            ),
    {
        let inc = (sequence_index << 1) | 1;
        assert(inc % 2 == 1) by (bit_vector)
            requires inc == (sequence_index << 1u64) | 1u64;
        *self = Rng { state: 0, inc };
        self.uniform_u32();
        assert(self.state == inc);
        self.state = self.state.wrapping_add(PCG32_DEFAULT_STATE);
        self.uniform_u32();
    }

    /// Returns pseudo-random value uniformly distributed in the range [0, (2^32)-1].
    pub fn uniform_u32(&mut self) -> (r: u32)
        ensures
            r == pcg_output(old(self)@.state),
            final(self)@.state == lcg_step(old(self)@.state, old(self)@.inc),
            final(self)@.inc == old(self)@.inc,
    {
        proof {
            use_type_invariant(&*self);
        }
        let oldstate = self.state;
        let next = oldstate.wrapping_mul(PCG32_MULT).wrapping_add(self.inc);
        proof {
            lemma_wrapping_step(oldstate, self.inc);
        }
        self.state = next;
        let xorshifted = #[verifier::truncate] ((((oldstate >> 18) ^ oldstate) >> 27) as u32);
        let rot = (oldstate >> 59) as u32;
        // Promote to 64 bits for final operation.
        let xs = xorshifted as u64;
        let rot_inverse = (!rot) as u64;
        let rot = rot as u64;
        assert(rot < 32) by (bit_vector)
            requires rot == ((oldstate >> 59u64) as u32) as u64;
        let k = (rot_inverse + 1) & 31;
        assert(k < 32) by (bit_vector)
            requires k == ((rot_inverse + 1) as u64) & 31u64;
        let res = #[verifier::truncate] (((xs >> rot) | (xs << k)) as u32);
        proof {
            lemma_output_rotation(oldstate);
        }
        res
    }

    /// Returns pseudo-random value uniformly distributed in the range [0, b − 1].
    ///
    /// Outputs below `2^32 mod b` are rejected, so that every residue modulo `b` is drawn
    /// from equally many outputs; the result is the first accepted output modulo `b`.
    pub fn uniform_u32_threshold(&mut self, b: u32) -> (r: u32)
        requires
            b > 0,
        ensures
            r < b,
            final(self)@.inc == old(self)@.inc,
            exists|n: nat|
                first_accepted(old(self)@.state, old(self)@.inc, rejection_threshold(b), n) && r
                    == pcg_output(advance(old(self)@.state, old(self)@.inc, n)) % b
                    && final(self)@.state == advance(old(self)@.state, old(self)@.inc, n + 1),
    {
        proof {
            use_type_invariant(&*self);
        }
        let threshold = (!b).wrapping_add(1) % b;
        proof {
            lemma_threshold(b);
            assert(!b == 0xffff_ffffu32 - b) by (bit_vector);
        }
        let ghost start = self.state;
        let ghost inc = self.inc;
        let ghost mut n: nat = 0;
        let ghost mut rem: nat = lemma_reachable(start, accepting_state(), inc);
        proof {
            lemma_accepting_state();
        }
        loop
            invariant
                b > 0,
                threshold == rejection_threshold(b),
                threshold <= 0x8000_0000,
                pcg_output(accepting_state()) >= 0x8000_0000,
                self@.inc == inc,
                old(self)@.inc == inc,
                old(self)@.state == start,
                self@.state == advance(start, inc, n),
                advance(self@.state, inc, rem) == accepting_state(),
                forall|j: nat| j < n ==> pcg_output(#[trigger] advance(start, inc, j)) < threshold,
            decreases rem,
        {
            let ghost before = self@.state;
            let r = self.uniform_u32();
            if r >= threshold {
                proof {
                    lemma_advance_last(start, inc, n);
                    assert(first_accepted(start, inc, rejection_threshold(b), n));
                }
                return r % b;
            }
            proof {
                assert(before != accepting_state());
                assert(rem > 0);
                assert(advance(before, inc, rem) == advance(lcg_step(before, inc), inc, (rem - 1) as nat));
                lemma_advance_last(start, inc, n);
                rem = (rem - 1) as nat;
                n = n + 1;
            }
        }
    }
}


/// `n` is the index of the first of the outputs drawn from `start` that is not below `threshold`.
pub open spec fn first_accepted(start: u64, inc: u64, threshold: int, n: nat) -> bool {
    &&& pcg_output(advance(start, inc, n)) >= threshold
    &&& forall|j: nat| j < n ==> pcg_output(#[trigger] advance(start, inc, j)) < threshold
}

/// A state whose output is at least 2^31 and hence never rejected.
pub open spec fn accepting_state() -> u64 {
    0x0400_0000_0000_0000
}

proof fn lemma_accepting_state()
    ensures
        pcg_output(accepting_state()) >= 0x8000_0000,
{
    let s: u64 = 0x0400_0000_0000_0000;
    assert((s >> 59u64) as u32 == 0) by (bit_vector)
        requires s == 0x0400_0000_0000_0000u64;
    assert(((((s >> 18u64) ^ s) >> 27u64) as u32) >= 0x8000_0000u32) by (bit_vector)
        requires s == 0x0400_0000_0000_0000u64;
}

/// The rejection threshold never exceeds 2^31.
proof fn lemma_threshold(b: u32)
    requires
        b > 0,
    ensures
        0 <= rejection_threshold(b) <= 0x8000_0000,
        rejection_threshold(b) < b,
{
    let x = 0x1_0000_0000 - b as int;
    lemma_mod_bound(x, b as int);
    if b as int > 0x8000_0000 {
        lemma_mod_decreases(x as nat, b as nat);
    }
}

/// Distinct sequence indices select distinct streams: the increment for an index is odd,
/// and two indices below `2^63` that give the same increment are equal.
pub proof fn law_streams_distinct(i: u64, j: u64)
    ensures
        stream_of(i) % 2 == 1,
        i < 0x8000_0000_0000_0000 && j < 0x8000_0000_0000_0000 && stream_of(i) == stream_of(j) ==> i
            == j,
{
    assert(((i << 1u64) | 1u64) % 2 == 1) by (bit_vector);
    assert(i < 0x8000_0000_0000_0000 && j < 0x8000_0000_0000_0000 && ((i << 1u64) | 1u64) == ((j
        << 1u64) | 1u64) ==> i == j) by (bit_vector);
}

/// The rejection threshold for drawing below `b` makes the draw uniform: it is below `b`, and
/// the outputs at or above it, of which there are `2^32` minus the threshold, fall into the
/// `b` residues equally often, `2^32 / b` times each (their count is a multiple of `b`).
pub proof fn law_rejection_threshold_uniform(b: u32)
    requires
        b > 0,
    ensures
        0 <= rejection_threshold(b) < b,
        (0x1_0000_0000 - rejection_threshold(b)) % (b as int) == 0,
        (0x1_0000_0000 - rejection_threshold(b)) / (b as int) == 0x1_0000_0000int / (b as int),
{
    let bb = b as int;
    let x = 0x1_0000_0000int - bb;
    let t = rejection_threshold(b);
    lemma_threshold(b);
    lemma_fundamental_div_mod(x, bb);
    let q = x / bb;
    assert(0x1_0000_0000int - t == bb * (q + 1)) by (nonlinear_arith)
        requires
            x == bb * q + t,
            x == 0x1_0000_0000int - bb,
    ;
    lemma_mod_multiples_basic(q + 1, bb);
    lemma_div_multiples_vanish(q + 1, bb);
    lemma_mul_is_commutative(bb, q + 1);
    lemma_fundamental_div_mod_converse(0x1_0000_0000int, bb, q + 1, t);
}

/// The wrapping arithmetic of the exec code computes one LCG step.
proof fn lemma_wrapping_step(state: u64, inc: u64)
    ensures
        vstd::wrapping::u64_specs::wrapping_add(
            vstd::wrapping::u64_specs::wrapping_mul(state, PCG32_MULT),
            inc,
        ) == lcg_step(state, inc),
{
    let m = state_modulus();
    let p = state as int * PCG32_MULT as int;
    lemma_add_mod_noop(p, inc as int, m);
    lemma_small_mod(inc as nat, m as nat);
    let w = p % m;
    assert(0 <= w < m) by {
        lemma_mod_bound(p, m);
    }
    if w + inc >= m {
        lemma_mod_sub_multiples_vanish(w + inc, m);
        lemma_small_mod((w + inc - m) as nat, m as nat);
    } else {
        lemma_small_mod((w + inc) as nat, m as nat);
    }
}

/// The 64-bit shift-and-or expression of the exec code is a 32-bit right rotation.
proof fn lemma_output_rotation(old: u64)
    ensures
        ({
            let xorshifted = (((old >> 18u64) ^ old) >> 27u64) as u32;
            let rot = (old >> 59u64) as u32;
            let xs = xorshifted as u64;
            let rot_inverse = (!rot) as u64;
            (((xs >> (rot as u64)) | (xs << ((rot_inverse + 1) as u64 & 31u64))) as u32)
                == pcg_output(old)
        }),
{
    let xorshifted = (((old >> 18u64) ^ old) >> 27u64) as u32;
    let rot = (old >> 59u64) as u32;
    assert(rot < 32) by (bit_vector)
        requires rot == (old >> 59u64) as u32;
    assert(rot == 0 ==> ((((xorshifted as u64) >> (rot as u64)) | ((xorshifted as u64) << (((!rot) as u64 + 1) as u64 & 31u64))) as u32) == xorshifted) by (bit_vector);
    assert(rot != 0 && rot < 32 ==> ((((xorshifted as u64) >> (rot as u64)) | ((xorshifted as u64) << (((!rot) as u64 + 1) as u64 & 31u64))) as u32)
        == ((xorshifted >> rot) | (xorshifted << ((32 - rot) as u32)))) by (bit_vector);
}


// ---------------------------------------------------------------------------
// Jump-ahead theory: 2^i steps of the LCG form an affine map whose multiplier is
// 1 modulo 2^(i+2) and whose offset is 2^i modulo 2^(i+1).  Such a jump flips bit i
// of the state and keeps the bits below it, which lets one reach any state.
// ---------------------------------------------------------------------------

/// 2^i as an integer.
pub open spec fn p2(i: nat) -> int {
    pow2(i) as int
}

/// `n` steps of the LCG with increment `inc` are the affine map `x -> a*x + c` (mod 2^64).
pub open spec fn affine_jump(inc: u64, n: nat, a: u64, c: u64) -> bool {
    forall|x: u64|
        #[trigger] advance(x, inc, n) == ((a as int * x as int + c as int) % state_modulus()) as u64
}

/// The congruences satisfied by the multiplier and offset of a jump of 2^i steps.
pub open spec fn jump_congruences(i: nat, a: u64, c: u64) -> bool {
    &&& (a as int - 1) % (4 * p2(i)) == 0
    &&& (c as int) % (2 * p2(i)) == p2(i)
}

/// Advancing `n + m` steps is advancing `n` steps and then `m` steps.
pub proof fn lemma_advance_add(x: u64, inc: u64, n: nat, m: nat)
    ensures
        advance(x, inc, n + m) == advance(advance(x, inc, n), inc, m),
    decreases n,
{
    if n > 0 {
        lemma_advance_add(lcg_step(x, inc), inc, (n - 1) as nat, m);
        assert((n + m - 1) as nat == (n - 1) as nat + m);
    }
}

/// Advancing `n + 1` steps is advancing `n` steps and then one step.
pub proof fn lemma_advance_last(x: u64, inc: u64, n: nat)
    ensures
        advance(x, inc, n + 1) == lcg_step(advance(x, inc, n), inc),
{
    lemma_advance_add(x, inc, n, 1);
    assert(advance(advance(x, inc, n), inc, 1) == advance(lcg_step(advance(x, inc, n), inc), inc, 0));
}

proof fn lemma_modulus_facts()
    ensures
        p2(64) == state_modulus(),
        state_modulus() > 0,
{
    lemma2_to64();
    lemma2_to64_rest();
}

/// `2^k` divides 2^64 for `k <= 64`.
proof fn lemma_pow2_divides_modulus(k: nat)
    requires
        k <= 64,
    ensures
        p2(k) > 0,
        state_modulus() % (p2(k) as int) == 0,
        state_modulus() == p2(k) * p2((64 - k) as nat),
{
    lemma_modulus_facts();
    lemma_pow2_adds(k, (64 - k) as nat);
    lemma_pow2_pos(k);
    lemma_pow2_pos((64 - k) as nat);
    lemma_mod_multiples_basic(p2((64 - k) as nat) as int, p2(k) as int);
    lemma_mul_is_commutative(p2(k) as int, p2((64 - k) as nat) as int);
}

/// Reducing modulo 2^64 and then modulo a divisor `d` of 2^64 is reducing modulo `d`.
proof fn lemma_mod_divisor(x: int, d: int)
    requires
        d > 0,
        state_modulus() % d == 0,
    ensures
        (x % state_modulus()) % d == x % d,
{
    let m = state_modulus();
    let q = m / d;
    lemma_fundamental_div_mod(m, d);
    assert(m == d * q);
    assert(q > 0) by {
        if q <= 0 {
            lemma_mul_nonpositive(d, q);
        }
    }
    lemma_mod_mod(x, d, q);
}

proof fn lemma_mul_nonpositive(d: int, q: int)
    requires
        d > 0,
        q <= 0,
    ensures
        d * q <= 0,
{
    assert(d * q <= 0) by (nonlinear_arith)
        requires d > 0, q <= 0;
}

/// One step is the affine map `x -> PCG32_MULT * x + inc`, whose congruences hold for an odd `inc`.
proof fn lemma_jump_base(inc: u64)
    requires
        inc % 2 == 1,
    ensures
        affine_jump(inc, 1, PCG32_MULT, inc),
        jump_congruences(0, PCG32_MULT, inc),
{
    lemma2_to64();
    assert(p2(0) == 1);
    assert((PCG32_MULT as int - 1) % 4 == 0);
    assert forall|x: u64| #[trigger] advance(x, inc, 1)
        == ((PCG32_MULT as int * x as int + inc as int) % state_modulus()) as u64 by {
        assert(advance(x, inc, 1) == advance(lcg_step(x, inc), inc, 0));
    }
}

/// Composing a jump of `n` steps with itself gives a jump of `2n` steps.
proof fn lemma_jump_double(inc: u64, n: nat, a: u64, c: u64)
    requires
        affine_jump(inc, n, a, c),
    ensures
        affine_jump(
            inc,
            n + n,
            ((a as int * a as int) % state_modulus()) as u64,
            ((c as int * (a as int + 1)) % state_modulus()) as u64,
        ),
{
    let m = state_modulus();
    lemma_modulus_facts();
    let a2 = ((a as int * a as int) % m) as u64;
    let c2 = ((c as int * (a as int + 1)) % m) as u64;
    assert forall|x: u64| #[trigger] advance(x, inc, n + n)
        == ((a2 as int * x as int + c2 as int) % m) as u64 by {
        lemma_advance_add(x, inc, n, n);
        let y = advance(x, inc, n);
        let lin = a as int * x as int + c as int;
        assert(y == (lin % m) as u64);
        lemma_mod_bound(lin, m);
        // a * (lin % m) + c  ==  a * lin + c  (mod m)
        lemma_mul_mod_noop_right(a as int, lin, m);
        lemma_add_mod_noop(a as int * (lin % m), c as int, m);
        lemma_add_mod_noop(a as int * lin, c as int, m);
        // a * lin + c == a*a*x + c*(a+1)
        assert(a as int * lin + c as int == (a as int * a as int) * x as int + c as int * (a as int + 1)) by (nonlinear_arith)
            requires lin == a as int * x as int + c as int;
        // the right-hand side reduced
        lemma_mod_bound(a as int * a as int, m);
        lemma_mod_bound(c as int * (a as int + 1), m);
        lemma_mul_mod_noop_left(a as int * a as int, x as int, m);
        lemma_add_mod_noop((a as int * a as int) * x as int, c as int * (a as int + 1), m);
        lemma_add_mod_noop(a2 as int * x as int, c2 as int, m);
        lemma_mod_twice(c as int * (a as int + 1), m);
        lemma_mod_twice((a as int * a as int) * x as int, m);
    }
}

/// The congruences of a jump of 2^i steps imply those of a jump of 2^(i+1) steps.
proof fn lemma_congruences_double(i: nat, a: u64, c: u64)
    requires
        i < 63,
        jump_congruences(i, a, c),
    ensures
        jump_congruences(
            i + 1,
            ((a as int * a as int) % state_modulus()) as u64,
            ((c as int * (a as int + 1)) % state_modulus()) as u64,
        ),
{
    let m = state_modulus();
    let p = p2(i) as int;
    lemma_pow2_pos(i);
    lemma_pow2_unfold(i + 1);
    assert(p2(i + 1) == 2 * p);
    lemma_modulus_facts();
    // a = 1 + 4p*k, c = p + 2p*j
    let k = (a as int - 1) / (4 * p);
    let j = (c as int) / (2 * p);
    lemma_fundamental_div_mod(a as int - 1, 4 * p);
    lemma_fundamental_div_mod(c as int, 2 * p);
    assert(a as int == 1 + (4 * p) * k);
    assert(c as int == (2 * p) * j + p);
    let a2 = ((a as int * a as int) % m) as u64;
    let c2 = ((c as int * (a as int + 1)) % m) as u64;
    // offset: c*(a+1) = 2p + 4p*(j + p*k + 2p*j*k)
    let t = j + p * k + 2 * p * j * k;
    assert(c as int * (a as int + 1) == (4 * p) * t + 2 * p) by (nonlinear_arith)
        requires a as int == 1 + (4 * p) * k, c as int == (2 * p) * j + p, t == j + p * k + 2 * p * j * k;
    lemma_pow2_divides_modulus(i + 2);
    lemma_pow2_unfold(i + 2);
    assert(p2(i + 2) == 4 * p);
    lemma_mod_bound(c as int * (a as int + 1), m);
    lemma_mod_divisor(c as int * (a as int + 1), 4 * p);
    lemma_mod_multiples_vanish(t, 2 * p, 4 * p);
    lemma_small_mod((2 * p) as nat, (4 * p) as nat);
    assert((c2 as int) % (2 * p2(i + 1)) == p2(i + 1));
    // multiplier
    if i < 62 {
        // a*a = 1 + 8p*(k + 2p*k*k)
        let u = k + 2 * p * k * k;
        assert(a as int * a as int == (8 * p) * u + 1) by (nonlinear_arith)
            requires a as int == 1 + (4 * p) * k, u == k + 2 * p * k * k;
        lemma_pow2_divides_modulus(i + 3);
        lemma_pow2_unfold(i + 3);
        assert(p2(i + 3) == 8 * p);
        lemma_mod_bound(a as int * a as int, m);
        lemma_mod_divisor(a as int * a as int, 8 * p);
        lemma_mod_multiples_vanish(u, 1, 8 * p);
        lemma_small_mod(1, (8 * p) as nat);
        assert((a2 as int) % (8 * p) == 1);
        lemma_fundamental_div_mod(a2 as int, 8 * p);
        let q = (a2 as int) / (8 * p);
        assert(a2 as int - 1 == (8 * p) * q);
        lemma_mod_multiples_vanish(q, 0, 8 * p);
        assert((a2 as int - 1) % (4 * p2(i + 1)) == 0);
    } else {
        // i == 62: 4p == 2^64, so a == 1
        assert(i == 62);
        assert(4 * p == m) by {
            lemma_pow2_divides_modulus(64);
        }
        if a == 0 {
            lemma_mod_sub_multiples_vanish(m - 1, m);
            lemma_small_mod((m - 1) as nat, m as nat);
            assert(false);
        }
        lemma_small_mod((a as int - 1) as nat, m as nat);
        assert(a == 1);
        assert(a as int * a as int == 1) by (nonlinear_arith)
            requires a == 1;
        assert(a2 == 1) by {
            lemma_small_mod(1, m as nat);
        }
        assert((a2 as int - 1) % (4 * p2(i + 1)) == 0);
    }
}

/// A jump of 2^i steps flips bit i of any state and keeps the bits below it.
proof fn lemma_jump_flips_bit(i: nat, a: u64, c: u64, x: u64)
    requires
        i < 64,
        jump_congruences(i, a, c),
    ensures
        (((a as int * x as int + c as int) % state_modulus()) as u64 as int) % (2 * p2(i))
            == (x as int + p2(i)) % (2 * p2(i)),
{
    let m = state_modulus();
    let p = p2(i) as int;
    lemma_pow2_pos(i);
    lemma_pow2_unfold(i + 1);
    lemma_pow2_divides_modulus(i + 1);
    lemma_modulus_facts();
    let k = (a as int - 1) / (4 * p);
    let j = (c as int) / (2 * p);
    lemma_fundamental_div_mod(a as int - 1, 4 * p);
    lemma_fundamental_div_mod(c as int, 2 * p);
    let w = 2 * k * x as int + j;
    assert(a as int * x as int + c as int == (2 * p) * w + (x as int + p)) by (nonlinear_arith)
        requires
            a as int == 1 + (4 * p) * k,
            c as int == (2 * p) * j + p,
            w == 2 * k * x as int + j;
    lemma_mod_bound(a as int * x as int + c as int, m);
    lemma_mod_divisor(a as int * x as int + c as int, 2 * p);
    lemma_mod_multiples_vanish(w, x as int + p, 2 * p);
}

/// The bits of `x` below `i + 1` in terms of those below `i` and bit `i`.
proof fn lemma_low_bits(x: u64, i: nat)
    ensures
        p2(i) > 0,
        (x as int) % (2 * p2(i)) == p2(i) * ((x as int / p2(i) as int) % 2) + (x as int) % (p2(i) as int),
{
    lemma_pow2_pos(i);
    lemma_breakdown(x as int, p2(i) as int, 2);
    lemma_mul_is_commutative(p2(i) as int, 2);
}

/// After a flip of bit i that fixes a mismatch at bit i, `x` and `t` agree below bit i + 1.
proof fn lemma_agree_after_step(x: u64, y: u64, t: u64, i: nat, flipped: bool)
    requires
        (x as int) % (p2(i) as int) == (t as int) % (p2(i) as int),
        flipped ==> (y as int) % (2 * p2(i)) == (x as int + p2(i)) % (2 * p2(i)),
        flipped ==> (x as int / p2(i) as int) % 2 != (t as int / p2(i) as int) % 2,
        !flipped ==> y == x,
        !flipped ==> (x as int / p2(i) as int) % 2 == (t as int / p2(i) as int) % 2,
    ensures
        (y as int) % (p2(i + 1) as int) == (t as int) % (p2(i + 1) as int),
{
    let p = p2(i) as int;
    lemma_low_bits(x, i);
    lemma_low_bits(t, i);
    lemma_pow2_unfold(i + 1);
    assert(p2(i + 1) == 2 * p);
    let r = (x as int) % p;
    let bx = (x as int / p) % 2;
    let bt = (t as int / p) % 2;
    lemma_mod_bound(x as int, p);
    lemma_mod_bound(x as int / p, 2);
    lemma_mod_bound(t as int / p, 2);
    assert((x as int) % (2 * p) == p * bx + r);
    assert((t as int) % (2 * p) == p * bt + r);
    if flipped {
        lemma_add_mod_noop(x as int, p, 2 * p);
        lemma_small_mod(p as nat, (2 * p) as nat);
        assert((y as int) % (2 * p) == (p * bx + r + p) % (2 * p));
        if bx == 0 {
            assert(bt == 1);
            lemma_small_mod((r + p) as nat, (2 * p) as nat);
        } else {
            assert(bx == 1 && bt == 0);
            assert(p * bx + r + p == r + 2 * p);
            lemma_mod_sub_multiples_vanish(r + 2 * p, 2 * p);
            lemma_small_mod(r as nat, (2 * p) as nat);
        }
    }
}

/// From any state the LCG with odd increment reaches any other state within 2^64 steps.
pub proof fn lemma_reachable(start: u64, target: u64, inc: u64) -> (d: nat)
    requires
        inc % 2 == 1,
    ensures
        d < state_modulus(),
        advance(start, inc, d) == target,
{
    lemma_jump_base(inc);
    lemma2_to64();
    lemma_reachable_from(start, target, inc, 0, PCG32_MULT, inc, start, 0)
}

proof fn lemma_reachable_from(
    start: u64,
    target: u64,
    inc: u64,
    i: nat,
    a: u64,
    c: u64,
    cur: u64,
    dist: nat,
) -> (d: nat)
    requires
        i <= 64,
        dist < p2(i),
        cur == advance(start, inc, dist),
        (cur as int) % (p2(i) as int) == (target as int) % (p2(i) as int),
        i < 64 ==> affine_jump(inc, pow2(i), a, c),
        i < 64 ==> jump_congruences(i, a, c),
    ensures
        d < state_modulus(),
        advance(start, inc, d) == target,
    decreases 64 - i,
{
    lemma_modulus_facts();
    lemma_pow2_pos(i);
    if cur == target {
        if i < 64 {
            lemma_pow2_strictly_increases(i, 64);
        }
        dist
    } else {
        if i == 64 {
            lemma_small_mod(cur as nat, state_modulus() as nat);
            lemma_small_mod(target as nat, state_modulus() as nat);
            assert(false);
        }
        let p = pow2(i);
        let differ = (cur as int / p as int) % 2 != (target as int / p as int) % 2;
        let next = if differ { ((a as int * cur as int + c as int) % state_modulus()) as u64 } else { cur };
        let next_dist = if differ { dist + p } else { dist };
        if differ {
            lemma_jump_flips_bit(i, a, c, cur);
            lemma_advance_add(start, inc, dist, p);
        }
        lemma_agree_after_step(cur, next, target, i, differ);
        lemma_pow2_unfold(i + 1);
        let a2 = ((a as int * a as int) % state_modulus()) as u64;
        let c2 = ((c as int * (a as int + 1)) % state_modulus()) as u64;
        if i + 1 < 64 {
            lemma_jump_double(inc, p, a, c);
            assert(p + p == p2(i + 1));
            lemma_congruences_double(i, a, c);
        }
        lemma_reachable_from(start, target, inc, i + 1, a2, c2, next, next_dist)
    }
}

impl Default for Rng {
    /// The generator with the default state and stream.
    fn default() -> (rng: Self)
        ensures
            rng@ == (PcgState { state: PCG32_DEFAULT_STATE, inc: PCG32_DEFAULT_STREAM }),
    {
        Rng { state: PCG32_DEFAULT_STATE, inc: PCG32_DEFAULT_STREAM }
    }
}

impl core::ops::Sub for Rng {
    type Output = i64;

    /// The number of steps that take `other` to `self`: advancing `other` by the returned
    /// distance (read as an unsigned 64-bit count) yields the state of `self`.
    ///
    /// The distance is found bit by bit with jumps of 2^i steps (Brown 1994).
    fn sub(self, other: Self) -> (distance: i64)
        ensures
            advance(other@.state, other@.inc, distance as u64 as nat) == self@.state,
            distance as u64 as nat == pcg_distance(other@.state, self@.state, self@.inc),
    {
        proof {
            use_type_invariant(&self);
            lemma_jump_base(self.inc);
            lemma2_to64();
        }
        let mut cur_mult: u64 = PCG32_MULT;
        let mut cur_plus: u64 = self.inc;
        let mut cur_state: u64 = other.state;
        let mut the_bit: u64 = 1;
        let mut distance: u64 = 0;
        let ghost inc = self.inc;
        let ghost mut i: nat = 0;
        while self.state != cur_state
            invariant
                inc == self.inc,
                inc == other.inc,
                distance_search(self.state, other.state, inc, i, the_bit, distance, cur_state, cur_mult, cur_plus),
            decreases 64 - i,
        {
            proof {
                lemma_search_not_done(self.state, other.state, inc, i, the_bit, distance, cur_state, cur_mult, cur_plus);
            }
            let differ = (self.state / the_bit) % 2 != (cur_state / the_bit) % 2;
            let next_state = if differ { cur_state.wrapping_mul(cur_mult).wrapping_add(cur_plus) } else { cur_state };
            let next_distance = if differ { distance + the_bit } else { distance };
            let next_bit = the_bit << 1;
            let next_plus = cur_plus.wrapping_mul(cur_mult.wrapping_add(1));
            let next_mult = cur_mult.wrapping_mul(cur_mult);
            proof {
                lemma_wrapping_affine(cur_state, cur_mult, cur_plus);
                lemma_wrapping_affine(cur_mult, cur_mult, 0);
                lemma_wrapping_affine(cur_plus, (((cur_mult as int + 1) % state_modulus()) as u64), 0);
                lemma_mul_mod_noop_right(cur_plus as int, cur_mult as int + 1, state_modulus());
                lemma_mul_is_commutative(cur_plus as int, ((cur_mult as int + 1) % state_modulus()));
                lemma_search_step(self.state, other.state, inc, i, the_bit, distance, cur_state, cur_mult, cur_plus,
                    differ, next_state, next_distance as int, next_bit, next_plus, next_mult);
            }
            cur_state = next_state;
            distance = next_distance;
            the_bit = next_bit;
            cur_plus = next_plus;
            cur_mult = next_mult;
            proof {
                i = i + 1;
            }
        }
        proof {
            assert((distance as i64) as u64 == distance) by (bit_vector);
            lemma_modulus_facts();
            let d = pcg_distance(other.state, self.state, inc);
            assert(exists|e: nat| e < state_modulus() && advance(other.state, inc, e) == self.state) by {
                assert(advance(other.state, inc, distance as nat) == self.state);
            }
            lemma_distance_unique(other.state, inc, d, distance as nat);
        }
        distance as i64
    }
}

impl vstd::std_specs::ops::SubSpecImpl for Rng {
    open spec fn obeys_sub_spec() -> bool {
        true
    }

    /// Distances are defined between generators of the same stream.
    open spec fn sub_req(self, rhs: Rng) -> bool {
        self@.inc == rhs@.inc
    }

    /// The distance from `rhs` to `self`, as a 64-bit count read as `i64`.
    open spec fn sub_spec(self, rhs: Rng) -> i64 {
        pcg_distance(rhs@.state, self@.state, self@.inc) as u64 as i64
    }
}



/// For every `i < 64` there is a jump of 2^i steps with the expected congruences.
proof fn lemma_jump_exists(inc: u64, i: nat) -> (ac: (u64, u64))
    requires
        inc % 2 == 1,
        i < 64,
    ensures
        affine_jump(inc, pow2(i), ac.0, ac.1),
        jump_congruences(i, ac.0, ac.1),
    decreases i,
{
    if i == 0 {
        lemma_jump_base(inc);
        lemma2_to64();
        (PCG32_MULT, inc)
    } else {
        let (a, c) = lemma_jump_exists(inc, (i - 1) as nat);
        lemma_jump_double(inc, pow2((i - 1) as nat), a, c);
        lemma_congruences_double((i - 1) as nat, a, c);
        lemma_pow2_unfold(i);
        (((a as int * a as int) % state_modulus()) as u64, ((c as int * (a as int + 1)) % state_modulus()) as u64)
    }
}

/// Advancing `q` jumps of 2^i steps flips bit `i` exactly when `q` is odd and keeps the bits below.
proof fn lemma_repeated_jump(x: u64, inc: u64, i: nat, q: nat)
    requires
        inc % 2 == 1,
        i < 64,
    ensures
        (advance(x, inc, pow2(i) * q) as int) % (2 * p2(i)) == (x as int + p2(i) * (q as int % 2)) % (2 * p2(i)),
    decreases q,
{
    let p = p2(i);
    lemma_pow2_pos(i);
    if q == 0 {
        assert(pow2(i) * q == 0) by (nonlinear_arith)
            requires q == 0;
    } else {
        lemma_repeated_jump(x, inc, i, (q - 1) as nat);
        let (a, c) = lemma_jump_exists(inc, i);
        let z = advance(x, inc, pow2(i) * ((q - 1) as nat));
        assert(pow2(i) * q == pow2(i) * ((q - 1) as nat) + pow2(i)) by (nonlinear_arith)
            requires q >= 1;
        lemma_advance_add(x, inc, pow2(i) * ((q - 1) as nat), pow2(i));
        lemma_jump_flips_bit(i, a, c, z);
        let y = advance(x, inc, pow2(i) * q);
        assert((y as int) % (2 * p) == (z as int + p) % (2 * p));
        let bq = (q - 1) as int % 2;
        let base = x as int + p * bq;
        assert((z as int) % (2 * p) == base % (2 * p));
        lemma_add_mod_noop(z as int, p, 2 * p);
        lemma_add_mod_noop(base, p, 2 * p);
        lemma_small_mod(p as nat, (2 * p) as nat);
        assert((y as int) % (2 * p) == (base + p) % (2 * p));
        if bq == 0 {
            assert(q as int % 2 == 1);
            assert(p * bq == 0) by (nonlinear_arith)
                requires bq == 0;
            assert(p * (q as int % 2) == p) by (nonlinear_arith)
                requires q as int % 2 == 1;
        } else {
            assert(bq == 1);
            assert(q as int % 2 == 0);
            assert(p * bq == p) by (nonlinear_arith)
                requires bq == 1;
            assert(p * (q as int % 2) == 0) by (nonlinear_arith)
                requires q as int % 2 == 0;
            assert(base + p == x as int + 2 * p);
            lemma_mod_add_multiples_vanish(x as int, 2 * p);
        }
    }
}

/// Two distances below 2^64 that lead from `x` to the same state are equal:
/// the LCG with an odd increment has period 2^64.
pub proof fn lemma_distance_unique(x: u64, inc: u64, d1: nat, d2: nat)
    requires
        inc % 2 == 1,
        d1 < state_modulus(),
        d2 < state_modulus(),
        advance(x, inc, d1) == advance(x, inc, d2),
    ensures
        d1 == d2,
{
    lemma_modulus_facts();
    lemma_low_digits_agree(x, inc, d1, d2, 64);
    lemma_small_mod(d1, state_modulus() as nat);
    lemma_small_mod(d2, state_modulus() as nat);
}

proof fn lemma_low_digits_agree(x: u64, inc: u64, d1: nat, d2: nat, i: nat)
    requires
        inc % 2 == 1,
        i <= 64,
        advance(x, inc, d1) == advance(x, inc, d2),
    ensures
        (d1 as int) % p2(i) == (d2 as int) % p2(i),
    decreases i,
{
    lemma_pow2_pos(i);
    if i == 0 {
        lemma2_to64();
    } else {
        let j = (i - 1) as nat;
        lemma_low_digits_agree(x, inc, d1, d2, j);
        let p = p2(j);
        lemma_pow2_pos(j);
        lemma_pow2_unfold(i);
        let r = (d1 as int) % p;
        let q1 = (d1 as int) / p;
        let q2 = (d2 as int) / p;
        lemma_fundamental_div_mod(d1 as int, p);
        lemma_fundamental_div_mod(d2 as int, p);
        lemma_mod_bound(d1 as int, p);
        assert(q1 >= 0 && q2 >= 0) by {
            lemma_div_pos_is_pos(d1 as int, p);
            lemma_div_pos_is_pos(d2 as int, p);
        }
        let cur = advance(x, inc, r as nat);
        lemma_mul_is_commutative(p, q1);
        lemma_mul_is_commutative(p, q2);
        assert(d1 == r as nat + pow2(j) * (q1 as nat));
        assert(d2 == r as nat + pow2(j) * (q2 as nat));
        lemma_advance_add(x, inc, r as nat, pow2(j) * (q1 as nat));
        lemma_advance_add(x, inc, r as nat, pow2(j) * (q2 as nat));
        lemma_repeated_jump(cur, inc, j, q1 as nat);
        lemma_repeated_jump(cur, inc, j, q2 as nat);
        // bit j of d1 and d2 agree
        lemma_mod_bound(q1, 2);
        lemma_mod_bound(q2, 2);
        if q1 % 2 != q2 % 2 {
            // then cur + p and cur agree modulo 2p, which is impossible
            let c0 = cur as int;
            let t = advance(x, inc, d1) as int;
            assert(advance(x, inc, d1) == advance(cur, inc, pow2(j) * (q1 as nat)));
            assert(advance(x, inc, d2) == advance(cur, inc, pow2(j) * (q2 as nat)));
            assert(t % (2 * p) == (c0 + p * (q1 % 2)) % (2 * p));
            assert(t % (2 * p) == (c0 + p * (q2 % 2)) % (2 * p));
            if q1 % 2 == 0 {
                assert(q2 % 2 == 1);
                assert(p * (q1 % 2) == 0 && p * (q2 % 2) == p) by (nonlinear_arith)
                    requires q1 % 2 == 0, q2 % 2 == 1;
            } else {
                assert(q2 % 2 == 0);
                assert(p * (q2 % 2) == 0 && p * (q1 % 2) == p) by (nonlinear_arith)
                    requires q2 % 2 == 0, q1 % 2 == 1;
            }
            assert((c0 + p) % (2 * p) == c0 % (2 * p));
            lemma_add_mod_noop(c0, p, 2 * p);
            lemma_small_mod(p as nat, (2 * p) as nat);
            lemma_mod_bound(c0, 2 * p);
            let w = c0 % (2 * p);
            if w + p < 2 * p {
                lemma_small_mod((w + p) as nat, (2 * p) as nat);
            } else {
                lemma_mod_sub_multiples_vanish(w + p, 2 * p);
                lemma_small_mod((w + p - 2 * p) as nat, (2 * p) as nat);
            }
            assert(false);
        }
        lemma_breakdown(d1 as int, p, 2);
        lemma_breakdown(d2 as int, p, 2);
        lemma_mul_is_commutative(p, 2);
    }
}

/// The number of steps that lead from `from` to `to` on the stream with increment `inc`.
pub open spec fn pcg_distance(from: u64, to: u64, inc: u64) -> nat {
    choose|d: nat| d < state_modulus() && advance(from, inc, d) == to
}

/// Law: the distance from a state to the state `k` steps later is `k` (for `k < 2^64`).
pub proof fn law_distance_of_advance(from: u64, inc: u64, k: nat)
    requires
        inc % 2 == 1,
        k < state_modulus(),
    ensures
        pcg_distance(from, advance(from, inc, k), inc) == k,
{
    let to = advance(from, inc, k);
    assert(exists|d: nat| d < state_modulus() && advance(from, inc, d) == to);
    let d = pcg_distance(from, to, inc);
    lemma_distance_unique(from, inc, d, k);
}

/// The state of the bitwise search for the distance from `start` to `target`.
pub open spec fn distance_search(
    target: u64,
    start: u64,
    inc: u64,
    i: nat,
    the_bit: u64,
    distance: u64,
    cur_state: u64,
    cur_mult: u64,
    cur_plus: u64,
) -> bool {
    &&& inc % 2 == 1
    &&& i <= 64
    &&& i < 64 ==> the_bit == p2(i)
    &&& distance < p2(i)
    &&& cur_state == advance(start, inc, distance as nat)
    &&& (cur_state as int) % p2(i) == (target as int) % p2(i)
    &&& i < 64 ==> affine_jump(inc, pow2(i), cur_mult, cur_plus)
    &&& i < 64 ==> jump_congruences(i, cur_mult, cur_plus)
}

/// While the search has not reached the target, fewer than 64 bits have been fixed.
proof fn lemma_search_not_done(
    target: u64,
    start: u64,
    inc: u64,
    i: nat,
    the_bit: u64,
    distance: u64,
    cur_state: u64,
    cur_mult: u64,
    cur_plus: u64,
)
    requires
        distance_search(target, start, inc, i, the_bit, distance, cur_state, cur_mult, cur_plus),
        cur_state != target,
    ensures
        i < 64,
        the_bit > 0,
        distance as int + the_bit as int <= u64::MAX,
{
    lemma_pow2_pos(i);
    lemma_modulus_facts();
    if i == 64 {
        lemma_small_mod(cur_state as nat, state_modulus() as nat);
        lemma_small_mod(target as nat, state_modulus() as nat);
    }
    lemma_pow2_unfold(i + 1);
    if i + 1 < 64 {
        lemma_pow2_strictly_increases(i + 1, 64);
    }
}

/// One round of the search fixes bit `i` and preserves the search invariant.
proof fn lemma_search_step(
    target: u64,
    start: u64,
    inc: u64,
    i: nat,
    the_bit: u64,
    distance: u64,
    cur_state: u64,
    cur_mult: u64,
    cur_plus: u64,
    differ: bool,
    next_state: u64,
    next_distance: int,
    next_bit: u64,
    next_plus: u64,
    next_mult: u64,
)
    requires
        distance_search(target, start, inc, i, the_bit, distance, cur_state, cur_mult, cur_plus),
        i < 64,
        differ == ((target as int / the_bit as int) % 2 != (cur_state as int / the_bit as int) % 2),
        next_state == (if differ {
            ((cur_mult as int * cur_state as int + cur_plus as int) % state_modulus()) as u64
        } else {
            cur_state
        }),
        next_distance == (if differ { distance + the_bit } else { distance as int }),
        next_bit == the_bit << 1u64,
        next_plus == ((cur_plus as int * (cur_mult as int + 1)) % state_modulus()) as u64,
        next_mult == ((cur_mult as int * cur_mult as int) % state_modulus()) as u64,
    ensures
        0 <= next_distance <= u64::MAX,
        distance_search(target, start, inc, i + 1, next_bit, next_distance as u64, next_state, next_mult, next_plus),
{
    lemma_pow2_pos(i);
    lemma_pow2_unfold(i + 1);
    lemma_modulus_facts();
    lemma2_to64();
    if i + 1 < 64 {
        lemma_pow2_strictly_increases(i + 1, 64);
    }
    assert(p2(i + 1) <= state_modulus());
    if differ {
        lemma_jump_flips_bit(i, cur_mult, cur_plus, cur_state);
        lemma_advance_add(start, inc, distance as nat, pow2(i));
    }
    lemma_agree_after_step(cur_state, next_state, target, i, differ);
    if i + 1 < 64 {
        lemma_jump_double(inc, pow2(i), cur_mult, cur_plus);
        lemma_congruences_double(i, cur_mult, cur_plus);
        assert(the_bit < 0x8000_0000_0000_0000) by {
            lemma_pow2_strictly_increases(i, 63);
        }
        assert((the_bit << 1u64) == the_bit * 2) by (bit_vector)
            requires the_bit < 0x8000_0000_0000_0000u64;
    }
}

/// The wrapping arithmetic `x * a + c` of the exec code is the affine map modulo 2^64.
proof fn lemma_wrapping_affine(x: u64, a: u64, c: u64)
    ensures
        vstd::wrapping::u64_specs::wrapping_add(vstd::wrapping::u64_specs::wrapping_mul(x, a), c)
            == ((a as int * x as int + c as int) % state_modulus()) as u64,
        vstd::wrapping::u64_specs::wrapping_mul(x, a) == ((a as int * x as int) % state_modulus()) as u64,
        vstd::wrapping::u64_specs::wrapping_add(x, 1) == ((x as int + 1) % state_modulus()) as u64,
{
    let m = state_modulus();
    let p = x as int * a as int;
    lemma_mul_is_commutative(x as int, a as int);
    lemma_add_mod_noop(p, c as int, m);
    lemma_small_mod(c as nat, m as nat);
    let w = p % m;
    lemma_mod_bound(p, m);
    if w + c >= m {
        lemma_mod_sub_multiples_vanish(w + c, m);
        lemma_small_mod((w + c - m) as nat, m as nat);
    } else {
        lemma_small_mod((w + c) as nat, m as nat);
    }
    if x as int + 1 == m {
        lemma_mod_self_0(m);
    } else {
        lemma_small_mod((x as int + 1) as nat, m as nat);
    }
}

} // verus!
