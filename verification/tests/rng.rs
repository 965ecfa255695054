use balatro_core::double::Double;
use balatro_core::rng::{pseudohash, LuaRandom, RngState};
use std::collections::HashMap;

/// The generator over hardware numbers, to compare with.
fn hash(s: &str) -> f64 {
    let b = s.as_bytes();
    let mut num = 1.0f64;
    for i in (0..b.len()).rev() {
        let x = (1.1239285023 / num) * b[i] as f64 * std::f64::consts::PI
            + std::f64::consts::PI * (i + 1) as f64;
        num = x - x.floor();
    }
    num
}

struct Native {
    seed: String,
    hashed: f64,
    states: HashMap<String, f64>,
}

impl Native {
    fn new(seed: &str) -> Native {
        Native {
            seed: seed.to_string(),
            hashed: hash(seed),
            states: HashMap::new(),
        }
    }

    fn pseudoseed(&mut self, key: &str) -> f64 {
        let first = hash(&format!("{key}{}", self.seed));
        let s = self.states.entry(key.to_string()).or_insert(first);
        let x = 2.134453429141 + *s * 1.72431234;
        let y = x - x.floor();
        let z: f64 = format!("{y:.13}").parse().unwrap();
        *s = z.abs();
        (*s + self.hashed) / 2.0
    }
}

struct Generator([u64; 4]);

impl Generator {
    fn seeded(d: f64) -> Generator {
        let mut r: u32 = 0x11090601;
        let mut gen = [0u64; 4];
        let mut d = d;
        for slot in gen.iter_mut() {
            let m = 1u64 << (r & 255);
            r >>= 8;
            d = d * 3.14159265358979323846 + 2.7182818284590452354;
            let mut u = d.to_bits();
            if u < m {
                u += m;
            }
            *slot = u;
        }
        let mut g = Generator(gen);
        for _ in 0..10 {
            g.step();
        }
        g
    }

    fn step(&mut self) -> u64 {
        let mut r = 0u64;
        for (i, (k, q, s)) in [(63, 31, 18), (58, 19, 28), (55, 24, 7), (47, 21, 8)]
            .into_iter()
            .enumerate()
        {
            let mut z = self.0[i];
            z = (((z << q) ^ z) >> (k - s)) ^ ((z & (u64::MAX << (64 - k))) << s);
            r ^= z;
            self.0[i] = z;
        }
        r
    }

    fn random(&mut self) -> f64 {
        f64::from_bits((self.step() & 0x000f_ffff_ffff_ffff) | 0x3ff0_0000_0000_0000) - 1.0
    }

    fn range(&mut self, m: i64, n: i64) -> i64 {
        (self.random() * ((n - m + 1) as f64)).floor() as i64 + m
    }
}

#[test]
fn text_hashes_match_hardware_numbers() {
    for s in ["", "A", "shuffle", "TUTORIAL", "boss7LB2WVPK", "Joker1sho3", "é"] {
        let want = hash(s);
        let got = pseudohash(s);
        assert!(
            (got.is_nan() && want.is_nan()) || got.to_bits() == want.to_bits(),
            "{s}"
        );
    }
    assert_eq!(pseudohash("").to_bits(), 1.0f64.to_bits());
}

#[test]
fn streams_match_hardware_numbers() {
    for seed in ["", "DECKTEST", "7LB2WVPK", "A"] {
        let mut ours = RngState::new(seed);
        let mut theirs = Native::new(seed);
        assert_eq!(ours.seed(), seed);
        for key in ["boss", "shuffle", "boss", "erratic", "boss", "shuffle", "lucky_mult"] {
            let want = theirs.pseudoseed(key);
            let got = ours.pseudoseed(key);
            assert!(
                (got.is_nan() && want.is_nan()) || got.to_bits() == want.to_bits(),
                "{seed} {key}"
            );
        }
    }
}

#[test]
fn draws_match_hardware_numbers() {
    let mut ours = RngState::new("DECKTEST");
    let mut theirs = Native::new("DECKTEST");
    for i in 0..200i64 {
        let seed = theirs.pseudoseed("wheel");
        let want = Generator::seeded(seed).random();
        assert_eq!(ours.random("wheel").to_bits(), want.to_bits());
        let seed = theirs.pseudoseed("range");
        let want = Generator::seeded(seed).range(1, i + 1);
        let got = ours.random_range("range", 1, i + 1);
        assert_eq!(got, want);
        assert!(1 <= got && got <= i + 1);
        let seed = theirs.pseudoseed("place");
        let want = Generator::seeded(seed).range(1, 52) - 1;
        assert_eq!(ours.random_place("place", 52) as i64, want);
    }
}

#[test]
fn one_generator_gives_a_series() {
    let mut a = LuaRandom::seeded(Double::from_bits(0.25f64.to_bits()));
    let mut b = Generator::seeded(0.25);
    for _ in 0..100 {
        assert_eq!(a.random().to_bits(), b.random().to_bits());
        assert_eq!(a.random_range(-3, 12), b.range(-3, 12));
        assert_eq!(a.random_range(5, 4), b.range(5, 4));
    }
}

#[test]
fn keys_do_not_disturb_each_other() {
    let mut a = RngState::new("STREAMS");
    let mut b = RngState::new("STREAMS");
    for _ in 0..5 {
        a.random("one");
    }
    assert_eq!(a.random("two").to_bits(), b.random("two").to_bits());
}

#[test]
fn streams_go_on_from_their_parts() {
    let mut a = RngState::new("PARTS");
    a.pseudoseed("one");
    a.pseudoseed("two");
    let mut b = RngState::from_parts(a.seed().to_string(), a.hashed_seed(), a.states().clone());
    for key in ["one", "two", "three", "one"] {
        assert_eq!(a.pseudoseed(key), b.pseudoseed(key));
    }
}

#[test]
fn hashes_lie_below_one() {
    for text in ["A", "boss", "shuffleSEED", "7LB2WVPK", "a longer text than any key has"] {
        let h = f64::from_bits(pseudohash(text).to_bits());
        assert!((0.0..1.0).contains(&h), "{text}: {h}");
    }
    assert_eq!(f64::from_bits(pseudohash("").to_bits()), 1.0);
}
