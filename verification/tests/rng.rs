use rusty_panda::rng::SimpleRng;

fn reference(seed: u64, count: usize) -> Vec<u64> {
    let mut s = [0u64; 4];
    let mut x = seed;
    for slot in &mut s {
        x = x.wrapping_mul(6364136223846793005).wrapping_add(1);
        *slot = x;
    }
    let mut out = Vec::new();
    for _ in 0..count {
        out.push(s[1].wrapping_mul(5).rotate_left(7).wrapping_mul(9));
        let t = s[1] << 17;
        s[2] ^= s[0];
        s[3] ^= s[1];
        s[1] ^= s[2];
        s[0] ^= s[3];
        s[2] ^= t;
        s[3] = s[3].rotate_left(45);
    }
    out
}

#[test]
fn the_first_numbers_for_seed_42_are_known() {
    let mut rng = SimpleRng::new(42);
    assert_eq!(rng.next_u64(), 1613417858675942796);
    assert_eq!(rng.next_u64(), 2296176085551763489);
    assert_eq!(rng.next_u64(), 12996350693515357008);
}

#[test]
fn the_generator_follows_xoshiro256_star_star() {
    for seed in [0u64, 1, 42, u64::MAX, 0x9E37_79B9_7F4A_7C15] {
        let mut rng = SimpleRng::new(seed);
        for expected in reference(seed, 200) {
            assert_eq!(rng.next_u64(), expected);
        }
    }
}

#[test]
fn one_seed_gives_one_sequence() {
    let mut a = SimpleRng::new(7);
    let mut b = SimpleRng::new(7);
    for _ in 0..50 {
        assert_eq!(a.next_u64(), b.next_u64());
    }
    let mut c = SimpleRng::new(8);
    let mut d = SimpleRng::new(7);
    assert_ne!(c.next_u64(), d.next_u64());
}
