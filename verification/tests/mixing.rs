use squares_rnd::mix::{rand32, rand64, KEY};

#[test]
fn default_key_value() {
    assert_eq!(KEY, 0x5d8491e219f6537d);
}

#[test]
fn rand32_reference_values() {
    assert_eq!(rand32(0, KEY), 3352654702);
    assert_eq!(rand32(1, KEY), 4074910648);
    assert_eq!(rand32(2, KEY), 2177904447);
    assert_eq!(rand32(u64::MAX, KEY), 3214814131);
}

#[test]
fn rand64_reference_values() {
    assert_eq!(rand64(0, KEY), 14399542303155484263);
    assert_eq!(rand64(1, KEY), 17501607969359464034);
    assert_eq!(rand64(2, KEY), 9354028374942533382);
    assert_eq!(rand64(u64::MAX, KEY), 13807521558586635296);
}

#[test]
fn rand32_at_boundary_keys() {
    assert_eq!(rand32(5, 0), 0);
    assert_eq!(rand32(0, u64::MAX), 4294967295);
    assert_eq!(rand32(u64::MAX, u64::MAX), 0);
    assert_eq!(rand32(u64::MAX, 0), 0);
    assert_eq!(rand32(1, 1), 0);
}

#[test]
fn rand64_at_boundary_keys() {
    assert_eq!(rand64(5, 0), 0);
    assert_eq!(rand64(0, u64::MAX), 18446744073709551615);
    assert_eq!(rand64(u64::MAX, u64::MAX), 0);
    assert_eq!(rand64(u64::MAX, 0), 0);
    assert_eq!(rand64(1, 1), 2);
}

#[test]
fn mixing_is_deterministic() {
    let counters: [u64; 6] = [0, 1, 2, 0xdead_beef, u64::MAX - 1, u64::MAX];
    let keys: [u64; 4] = [0, 1, KEY, u64::MAX];
    for counter in counters {
        for key in keys {
            assert_eq!(rand32(counter, key), rand32(counter, key));
            assert_eq!(rand64(counter, key), rand64(counter, key));
        }
    }
}

#[test]
fn high_half_of_rand64_is_rand32() {
    let keys: [u64; 3] = [1, KEY, u64::MAX];
    for key in keys {
        for counter in 0..2000u64 {
            assert_eq!((rand64(counter, key) >> 32) as u32, rand32(counter, key));
        }
        assert_eq!((rand64(u64::MAX, key) >> 32) as u32, rand32(u64::MAX, key));
    }
}

#[test]
fn rand64_is_not_two_rand32_stitched() {
    let wide = rand64(0, KEY);
    let stitched = ((rand32(0, KEY) as u64) << 32) | rand32(1, KEY) as u64;
    assert_ne!(wide, stitched);
    assert_ne!(wide as u32, rand32(1, KEY));
    assert_eq!(wide as u32, 3284858471);
}
