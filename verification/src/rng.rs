//! The random streams of a run: a hash of text to a number, one stream per
//! key, and the generator that each draw seeds afresh.
use crate::double;
use crate::double::Double;
use crate::keymap::KeyMap;
use crate::text::join2;
use vstd::prelude::*;

verus! {

/// The circle constant as a double.
pub const PI_BITS: u64 = 0x4009_21fb_5444_2d18;

/// Euler's number as a double.
pub const E_BITS: u64 = 0x4005_bf0a_8b14_5769;

/// The fractional part, `x - floor(x)`; NaN for an infinity.
pub open spec fn mod1(x: Double) -> Double {
    x.minus(x.floored())
}

/// One step of the text hash: from the value of the bytes behind it, the byte
/// and its place counted from 1.
pub open spec fn hash_step(num: Double, byte: u8, place: int) -> Double {
    let pi = Double { bits: PI_BITS };
    mod1(
        Double::frac(11239285023, 10_000_000_000).over(num).times(Double::of(byte as int)).times(
            pi,
        ).plus(pi.times(Double::of(place))),
    )
}

/// The hash of the bytes from place `from` on, taken from the last to the
/// first.
pub open spec fn hash_from(bytes: Seq<u8>, from: nat) -> Double
    decreases bytes.len() - from,
{
    if from >= bytes.len() {
        Double::of(1)
    } else {
        hash_step(hash_from(bytes, from + 1), bytes[from as int], from as int + 1)
    }
}

/// The hash of a text: its bytes from the last to the first.
#[verifier::opaque]
pub open spec fn text_hash(s: Seq<char>) -> Double {
    hash_from(vstd::utf8::encode_utf8(s), 0)
}

fn fraction(x: Double) -> (r: Double)
    ensures
        r == mod1(x),
{
    x.sub(x.floor())
}

/// The hash of a text. The empty text hashes to 1.
pub fn pseudohash(s: &str) -> (r: Double)
    ensures
        r == text_hash(s@),
{
    proof {
        reveal(text_hash);
    }
    let bytes = s.as_bytes();
    let pi = Double { bits: PI_BITS };
    let mut num = Double::from_i64(1);
    let mut i: usize = bytes.len();
    while i > 0
        invariant
            i <= bytes.len(),
            pi == (Double { bits: PI_BITS }),
            num == hash_from(bytes@, i as nat),
        decreases i,
    {
        i = i - 1;
        let place = Double::from_u64(i as u64 + 1);
        num = fraction(
            Double::lit(11239285023, 10_000_000_000).div(num).mul(
                Double::from_i64(bytes[i] as i64),
            ).mul(pi).add(pi.mul(place)),
        );
    }
    num
}

/// The streams of a run: the seed, its hash, and where each key's stream
/// stands.
#[verifier::ext_equal]
pub struct Streams {
    pub seed: Seq<char>,
    pub hashed_seed: Double,
    pub states: Map<Seq<char>, Double>,
}

impl Streams {
    /// The streams at the start of a run.
    pub open spec fn start(seed: Seq<char>) -> Streams {
        Streams { seed, hashed_seed: text_hash(seed), states: Map::empty() }
    }

    /// The next position of a key's stream; an untouched stream starts at the
    /// hash of the key followed by the seed.
    #[verifier::opaque]
    pub open spec fn advanced(self, key: Seq<char>) -> Double {
        let now = if self.states.dom().contains(key) {
            self.states[key]
        } else {
            text_hash(key + self.seed)
        };
        mod1(
            Double::frac(2134453429141, 1_000_000_000_000).plus(
                now.times(Double::frac(172431234, 100_000_000)),
            ),
        ).decimal13().magnitude()
    }

    /// The streams after one draw from `key`.
    pub open spec fn after(self, key: Seq<char>) -> Streams {
        Streams { states: self.states.insert(key, self.advanced(key)), ..self }
    }

    /// The streams after `n` draws from `key`.
    pub open spec fn after_draws(self, key: Seq<char>, n: nat) -> Streams
        decreases n,
    {
        if n == 0 {
            self
        } else {
            self.after_draws(key, (n - 1) as nat).after(key)
        }
    }

    /// The place in a list of `len` elements that a draw from `key` names.
    pub open spec fn place(self, key: Seq<char>, len: nat) -> int {
        drawn_place(self.range(key, 1, len as i64), len)
    }

    /// The seed that a draw from `key` hands to the generator.
    #[verifier::opaque]
    pub open spec fn drawn_seed(self, key: Seq<char>) -> Double {
        self.advanced(key).plus(self.hashed_seed).over(Double::of(2))
    }

    /// The number in `[0, 1)` that a draw from `key` gives.
    #[verifier::opaque]
    pub open spec fn unit(self, key: Seq<char>) -> Double {
        LuaRandom::from_seed(self.drawn_seed(key)).unit()
    }

    /// The integer between `min` and `max` that a draw from `key` gives.
    #[verifier::opaque]
    pub open spec fn range(self, key: Seq<char>, min: i64, max: i64) -> i64 {
        LuaRandom::from_seed(self.drawn_seed(key)).range(min, max)
    }
}

/// The place, from 0, that a draw between 1 and `len` names in a list. A draw
/// outside of that range, which no list of fewer than `2^53` elements sees,
/// names the first.
pub open spec fn drawn_place(draw: i64, len: nat) -> int {
    if 1 <= draw <= len {
        draw - 1
    } else {
        0
    }
}

/// The keyed random streams of a run.
#[derive(Debug, Clone)]
pub struct RngState {
    seed: String,
    hashed_seed: Double,
    states: KeyMap<Double>,
}

impl View for RngState {
    type V = Streams;

    closed spec fn view(&self) -> Streams {
        Streams {
            seed: self.seed@,
            hashed_seed: self.hashed_seed,
            states: self.states@,
        }
    }
}

impl RngState {
    /// The streams of a new run.
    pub fn new(seed: &str) -> (r: Self)
        ensures
            r@ == Streams::start(seed@),
    {
        RngState { seed: seed.to_owned(), hashed_seed: pseudohash(seed), states: KeyMap::new() }
    }

    pub fn seed(&self) -> (r: &str)
        ensures
            r@ == self@.seed,
    {
        self.seed.as_str()
    }

    /// The streams with what they hold, as a snapshot has them.
    pub fn from_parts(seed: String, hashed_seed: Double, states: KeyMap<Double>) -> (r: Self)
        ensures
            r@ == (Streams { seed: seed@, hashed_seed, states: states@ }),
    {
        RngState { seed, hashed_seed, states }
    }

    pub fn hashed_seed(&self) -> (r: Double)
        ensures
            r == self@.hashed_seed,
    {
        self.hashed_seed
    }

    /// Where each stream stands.
    pub fn states(&self) -> (r: &KeyMap<Double>)
        ensures
            r@ == self@.states,
    {
        &self.states
    }

    /// Advance the stream of `key` and return the seed of the draw.
    pub fn pseudoseed(&mut self, key: &str) -> (r: Double)
        ensures
            r == old(self)@.drawn_seed(key@),
            final(self)@ == old(self)@.after(key@),
    {
        proof {
            reveal(Streams::advanced);
            reveal(Streams::drawn_seed);
        }
        let now = match self.states.get(key) {
            Some(x) => x,
            None => pseudohash(join2(key, self.seed.as_str()).as_str()),
        };
        let next = fraction(
            Double::lit(2134453429141, 1_000_000_000_000).add(
                now.mul(Double::lit(172431234, 100_000_000)),
            ),
        ).round13().abs();
        self.states.insert(key, next);
        next.add(self.hashed_seed).div(Double::from_i64(2))
    }

    /// One draw from `key`, a number in `[0, 1)`.
    pub fn random(&mut self, key: &str) -> (r: Double)
        ensures
            r == old(self)@.unit(key@),
            final(self)@ == old(self)@.after(key@),
    {
        proof {
            reveal(Streams::unit);
        }
        let mut g = LuaRandom::seeded(self.pseudoseed(key));
        g.random()
    }

    /// One draw from `key`, an integer between `min` and `max`.
    pub fn random_range(&mut self, key: &str, min: i64, max: i64) -> (r: i64)
        ensures
            r == old(self)@.range(key@, min, max),
            final(self)@ == old(self)@.after(key@),
    {
        proof {
            reveal(Streams::range);
        }
        let mut g = LuaRandom::seeded(self.pseudoseed(key));
        g.random_range(min, max)
    }
}

/// The place that a draw names in a list of `len` elements.
pub(crate) fn place_of(draw: i64, len: usize) -> (r: usize)
    ensures
        r == drawn_place(draw, len as nat),
        len > 0 ==> r < len,
{
    if 1 <= draw && (draw as u64) <= len as u64 {
        (draw - 1) as usize
    } else {
        0
    }
}

impl RngState {
    /// One draw from `key`, a place in a list of `len` elements.
    pub fn random_place(&mut self, key: &str, len: usize) -> (r: usize)
        ensures
            r == old(self)@.place(key@, len as nat),
            len > 0 ==> r < len,
            final(self)@ == old(self)@.after(key@),
    {
        let draw: i64 = self.random_range(key, 1, len as i64);
        place_of(draw, len)
    }
}

/// The generator of single draws: four linear-feedback shift registers whose
/// outputs are combined.
#[derive(Debug, Clone, Copy, PartialEq, Eq, Structural)]
pub struct LuaRandom {
    pub g0: u64,
    pub g1: u64,
    pub g2: u64,
    pub g3: u64,
}

/// One step of a register of `k` significant bits with taps `q` and `s`.
pub open spec fn shift_register(z: u64, k: u64, q: u64, s: u64) -> u64 {
    (((z << q) ^ z) >> (k - s)) ^ ((z & (0xffff_ffff_ffff_ffffu64 << (64 - k))) << s)
}

/// The seed of a register: its significant bits are never all zero.
pub open spec fn register_seed(d: Double, least: u64) -> u64 {
    if d.bits < least {
        (d.bits + least) as u64
    } else {
        d.bits
    }
}

/// The next seed number of the chain: `d * pi + e`.
pub open spec fn next_seed(d: Double) -> Double {
    d.times(Double { bits: PI_BITS }).plus(Double { bits: E_BITS })
}

impl LuaRandom {
    /// The registers one step on.
    pub open spec fn stepped(self) -> LuaRandom {
        LuaRandom {
            g0: shift_register(self.g0, 63, 31, 18),
            g1: shift_register(self.g1, 58, 19, 28),
            g2: shift_register(self.g2, 55, 24, 7),
            g3: shift_register(self.g3, 47, 21, 8),
        }
    }

    /// What the registers give together.
    pub open spec fn output(self) -> u64 {
        0 ^ self.g0 ^ self.g1 ^ self.g2 ^ self.g3
    }

    pub open spec fn steps(self, n: nat) -> LuaRandom
        decreases n,
    {
        if n == 0 {
            self
        } else {
            self.steps((n - 1) as nat).stepped()
        }
    }

    /// The generator seeded with `d`: four chained seeds, then ten steps.
    #[verifier::opaque]
    pub open spec fn from_seed(d: Double) -> LuaRandom {
        let d0 = next_seed(d);
        let d1 = next_seed(d0);
        let d2 = next_seed(d1);
        let d3 = next_seed(d2);
        LuaRandom {
            g0: register_seed(d0, 0x2),
            g1: register_seed(d1, 0x40),
            g2: register_seed(d2, 0x200),
            g3: register_seed(d3, 0x2_0000),
        }.steps(10)
    }

    /// The number that the next draw gives: the low 52 bits of the output as
    /// the binary places of a number in `[0, 1)`.
    pub open spec fn unit(self) -> Double {
        Double {
            bits: (self.stepped().output() & 0x000f_ffff_ffff_ffff) | 0x3ff0_0000_0000_0000,
        }.minus(Double::of(1))
    }

    /// The integer that the next draw between `m` and `n` gives.
    pub open spec fn range(self, m: i64, n: i64) -> i64 {
        let width = n.wrapping_sub(m).wrapping_add(1);
        self.unit().times(Double::of(width as int)).floored().truncated().wrapping_add(m)
    }

    /// Seed the generator.
    pub fn seeded(d: Double) -> (r: Self)
        ensures
            r == LuaRandom::from_seed(d),
    {
        proof {
            reveal(LuaRandom::from_seed);
        }
        let d0 = LuaRandom::chain(d);
        let d1 = LuaRandom::chain(d0);
        let d2 = LuaRandom::chain(d1);
        let d3 = LuaRandom::chain(d2);
        let start = LuaRandom {
            g0: LuaRandom::register(d0, 0x2),
            g1: LuaRandom::register(d1, 0x40),
            g2: LuaRandom::register(d2, 0x200),
            g3: LuaRandom::register(d3, 0x2_0000),
        };
        let mut rs = start;
        let mut i: u32 = 0;
        while i < 10
            invariant
                i <= 10,
                rs == start.steps(i as nat),
            decreases 10 - i,
        {
            rs.step();
            i = i + 1;
        }
        rs
    }

    fn chain(d: Double) -> (r: Double)
        ensures
            r == next_seed(d),
    {
        d.mul(Double { bits: PI_BITS }).add(Double { bits: E_BITS })
    }

    fn register(d: Double, least: u64) -> (r: u64)
        requires
            least <= 0x2_0000,
        ensures
            r == register_seed(d, least),
    {
        let u: u64 = d.to_bits();
        if u < least {
            u + least
        } else {
            u
        }
    }

    fn step(&mut self) -> (r: u64)
        ensures
            *final(self) == old(self).stepped(),
            r == old(self).stepped().output(),
    {
        let all: u64 = 0xffff_ffff_ffff_ffff;
        let z0: u64 = (((self.g0 << 31u64) ^ self.g0) >> 45u64) ^ ((self.g0 & (all << 1u64)) << 18u64);
        let z1: u64 = (((self.g1 << 19u64) ^ self.g1) >> 30u64) ^ ((self.g1 & (all << 6u64)) << 28u64);
        let z2: u64 = (((self.g2 << 24u64) ^ self.g2) >> 48u64) ^ ((self.g2 & (all << 9u64)) << 7u64);
        let z3: u64 = (((self.g3 << 21u64) ^ self.g3) >> 39u64) ^ ((self.g3 & (all << 17u64)) << 8u64);
        self.g0 = z0;
        self.g1 = z1;
        self.g2 = z2;
        self.g3 = z3;
        0 ^ z0 ^ z1 ^ z2 ^ z3
    }

    /// The next number in `[0, 1)`.
    pub fn random(&mut self) -> (r: Double)
        ensures
            r == old(self).unit(),
            *final(self) == old(self).stepped(),
    {
        let u: u64 = (self.step() & 0x000f_ffff_ffff_ffff) | 0x3ff0_0000_0000_0000;
        Double { bits: u }.sub(Double::from_i64(1))
    }

    /// The next integer between `m` and `n`.
    pub fn random_range(&mut self, m: i64, n: i64) -> (r: i64)
        ensures
            r == old(self).range(m, n),
            *final(self) == old(self).stepped(),
    {
        let d = self.random();
        let width: i64 = n.wrapping_sub(m).wrapping_add(1);
        d.mul(Double::from_i64(width)).floor().to_i64().wrapping_add(m)
    }
}

// ---- laws ----------------------------------------------------------------

/// Draws from one key leave every other key's stream where it was.
pub proof fn law_streams_are_independent(s: Streams, key: Seq<char>, other: Seq<char>, n: nat)
    requires
        key != other,
    ensures
        s.after_draws(key, n).advanced(other) == s.advanced(other),
        s.after_draws(key, n).drawn_seed(other) == s.drawn_seed(other),
        s.after_draws(key, n).seed == s.seed,
        s.after_draws(key, n).hashed_seed == s.hashed_seed,
    decreases n,
{
    reveal(Streams::advanced);
    reveal(Streams::drawn_seed);
    if n > 0 {
        law_streams_are_independent(s, key, other, (n - 1) as nat);
    }
}

/// A named place in a list that is not empty is a place of that list.
pub proof fn law_drawn_place_is_in_the_list(draw: i64, len: nat)
    requires
        len > 0,
    ensures
        0 <= drawn_place(draw, len) < len,
{
}

/// The binary places of a draw.
proof fn lemma_unit_bits(x: u64) -> (f: nat)
    ensures
        f < 0x10_0000_0000_0000,
        ((x & 0x000f_ffff_ffff_ffff) | 0x3ff0_0000_0000_0000) == 0x3ff0_0000_0000_0000 + f,
{
    assert((x & 0x000f_ffff_ffff_ffff) < 0x10_0000_0000_0000u64) by (bit_vector);
    assert(((x & 0x000f_ffff_ffff_ffff) | 0x3ff0_0000_0000_0000) == 0x3ff0_0000_0000_0000u64 + (x
        & 0x000f_ffff_ffff_ffff)) by (bit_vector);
    (x & 0x000f_ffff_ffff_ffff) as nat
}

/// A draw between two integers is one of them or lies between them, as long as
/// they span fewer than `2^53` integers.
pub proof fn law_draws_stay_in_range(g: LuaRandom, m: i64, n: i64)
    requires
        m <= n,
        n - m + 1 < 0x20_0000_0000_0000,
    ensures
        m <= g.range(m, n) <= n,
{
    let x = g.stepped().output();
    let f = lemma_unit_bits(x);
    let u = Double { bits: (x & 0x000f_ffff_ffff_ffff) | 0x3ff0_0000_0000_0000 };
    let j = double::lemma_places(u, f);
    let d = u.minus(Double::of(1));
    let w = (n - m + 1) as nat;
    assert(n.wrapping_sub(m).wrapping_add(1) == w);
    let prod = d.times(Double::of(w as int));
    if f > 0 {
        double::lemma_product_below(d, f, j, w);
    } else {
        double::lemma_zero_product(d, w);
    }
    double::lemma_floored(prod);
}

/// A draw from a key for a list of fewer than `2^53` elements names the place
/// that it was drawn for.
pub proof fn law_places_are_drawn(s: Streams, key: Seq<char>, len: nat)
    requires
        0 < len < 0x20_0000_0000_0000,
    ensures
        s.place(key, len) == s.range(key, 1, len as i64) - 1,
        0 <= s.place(key, len) < len,
{
    reveal(Streams::range);
    law_draws_stay_in_range(
        LuaRandom::from_seed(s.drawn_seed(key)),
        1,
        len as i64,
    );
}

/// A draw gives a number from 0 up to but not including 1.
pub proof fn law_units_are_below_one(s: Streams, key: Seq<char>)
    ensures
        Double::of(0).at_most(s.unit(key)),
        s.unit(key).below(Double::of(1)),
{
    reveal(Streams::unit);
    let g = LuaRandom::from_seed(s.drawn_seed(key));
    let x = g.stepped().output();
    let f = lemma_unit_bits(x);
    let u = Double { bits: (x & 0x000f_ffff_ffff_ffff) | 0x3ff0_0000_0000_0000 };
    double::lemma_unit_interval(u, f);
}

/// A text that is not empty hashes to a number from 0 up to but not including
/// 1, or to NaN; the empty text hashes to 1.
pub proof fn law_hashes_are_below_one(s: Seq<char>)
    ensures
        s.len() == 0 ==> text_hash(s) == Double::of(1),
        s.len() > 0 ==> double::is_nan(text_hash(s)) || (Double::of(0).at_most(text_hash(s))
            && text_hash(s).below(Double::of(1))),
{
    reveal(text_hash);
    let bytes = vstd::utf8::encode_utf8(s);
    vstd::utf8::encode_utf8_decode_utf8(s);
    if s.len() == 0 {
        assert(bytes.len() == 0);
    } else {
        assert(bytes.len() > 0) by {
            if bytes.len() == 0 {
                let empty = Seq::<char>::empty();
                assert(vstd::utf8::encode_utf8(empty).len() == 0);
                vstd::utf8::encode_utf8_decode_utf8(empty);
                assert(bytes =~= vstd::utf8::encode_utf8(empty));
            }
        }
        lemma_hash_from(bytes, 0);
    }
}

proof fn lemma_hash_from(bytes: Seq<u8>, from: nat)
    ensures
        double::is_unsigned(hash_from(bytes, from)),
        from < bytes.len() ==> double::is_nan(hash_from(bytes, from)) || (Double::of(0).at_most(
            hash_from(bytes, from),
        ) && hash_from(bytes, from).below(Double::of(1))),
    decreases bytes.len() - from,
{
    if from >= bytes.len() {
        double::lemma_of_unsigned(1);
    } else {
        lemma_hash_from(bytes, from + 1);
        let num = hash_from(bytes, from + 1);
        let pi = Double { bits: PI_BITS };
        let byte = Double::of(bytes[from as int] as int);
        let place = Double::of(from as int + 1);
        let ratio = Double::frac(11239285023, 10_000_000_000);
        double::lemma_frac_unsigned(11239285023, 10_000_000_000);
        double::lemma_of_unsigned(bytes[from as int] as nat);
        double::lemma_of_unsigned(from + 1);
        double::lemma_over_unsigned(ratio, num);
        double::lemma_times_unsigned(ratio.over(num), byte);
        double::lemma_times_unsigned(ratio.over(num).times(byte), pi);
        double::lemma_times_unsigned(pi, place);
        let x = ratio.over(num).times(byte).times(pi);
        double::lemma_plus_one_or_more(x, pi.times(place));
        double::lemma_fraction(x.plus(pi.times(place)));
    }
}

} // verus!
