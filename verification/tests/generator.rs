use squares_rnd::{rand32, rand64, Rand, RandRes, KEY};

#[test]
fn first_two_draws_of_a_fresh_generator() {
    let mut rand = Rand::new(KEY);
    assert_eq!(rand.counter(), 0);
    assert_eq!(rand.next_u32(), 3352654702);
    assert_eq!(rand.counter(), 1);
    assert_eq!(rand.next_u32(), 4074910648);
    assert_eq!(rand.counter(), 2);
}

#[test]
fn default_is_new_with_the_default_key() {
    let mut by_default = Rand::default();
    let mut by_key = Rand::new(KEY);
    assert_eq!(by_default.counter(), 0);
    for _ in 0..100 {
        assert_eq!(by_default.next_u64(), by_key.next_u64());
    }
}

#[test]
fn with_counter_starts_at_the_given_counter() {
    let mut rand = Rand::with_counter(77, 12345);
    assert_eq!(rand.counter(), 77);
    assert_eq!(rand.next_u32(), rand32(77, 12345));
    assert_eq!(rand.next_u64(), rand64(78, 12345));
    assert_eq!(rand.counter(), 79);
}

#[test]
fn full_draws_report_the_consumed_counter() {
    let mut rand = Rand::with_counter(10, KEY);
    let narrow: RandRes<u32> = rand.next_full_u32();
    assert_eq!(narrow.counter, 10);
    assert_eq!(narrow.value, rand32(10, KEY));
    let wide: RandRes<u64> = rand.next_full_u64();
    assert_eq!(wide.counter, 11);
    assert_eq!(wide.value, rand64(11, KEY));
    assert_eq!(rand.counter(), 12);
}

#[test]
fn u64_draw_takes_one_counter_step() {
    let mut rand = Rand::new(KEY);
    let wide = rand.next_u64();
    assert_eq!(rand.counter(), 1);
    assert_eq!(wide, 14399542303155484263);
    let mut narrow = Rand::new(KEY);
    let first = narrow.next_u32();
    let second = narrow.next_u32();
    assert_eq!((wide >> 32) as u32, first);
    assert_ne!(wide as u32, second);
}

#[test]
fn set_counter_returns_previous_and_next_draw_consumes_new() {
    let mut rand = Rand::new(KEY);
    rand.next_u32();
    rand.next_u32();
    rand.next_u32();
    assert_eq!(rand.set_counter(1000), 3);
    assert_eq!(rand.counter(), 1000);
    let res = rand.next_full_u32();
    assert_eq!(res.counter, 1000);
    assert_eq!(res.value, rand32(1000, KEY));
    assert_eq!(rand.set_counter(0), 1001);
    let res = rand.next_full_u64();
    assert_eq!(res.counter, 0);
    assert_eq!(res.value, 14399542303155484263);
    assert_eq!(rand.set_counter(u64::MAX), 1);
    assert_eq!(rand.next_u32(), 3214814131);
}

#[test]
fn counter_wraps_after_the_last_value() {
    let mut rand = Rand::with_counter(u64::MAX, KEY);
    let res = rand.next_full_u64();
    assert_eq!(res.counter, u64::MAX);
    assert_eq!(res.value, 13807521558586635296);
    assert_eq!(rand.counter(), 0);
    assert_eq!(rand.next_u32(), 3352654702);
}

#[test]
fn bounded_u32_reference_values() {
    let mut rand = Rand::new(KEY);
    let drawn: Vec<u32> = (0..4).map(|_| rand.next_u32_up(500)).collect();
    assert_eq!(drawn, vec![390, 474, 253, 418]);
    assert_eq!(rand.counter(), 4);

    let mut rand = Rand::new(KEY);
    let drawn: Vec<u32> = (0..4).map(|_| rand.next_u32_up(u32::MAX)).collect();
    assert_eq!(drawn, vec![3352654701, 4074910647, 2177904446, 3591997783]);

    let mut rand = Rand::new(KEY);
    let drawn: Vec<u32> = (0..4).map(|_| rand.next_u32_up(3)).collect();
    assert_eq!(drawn, vec![2, 2, 1, 2]);
}

#[test]
fn bounded_u64_reference_values() {
    let mut rand = Rand::new(KEY);
    let drawn: Vec<u64> = (0..4).map(|_| rand.next_u64_up(500)).collect();
    assert_eq!(drawn, vec![390, 474, 253, 418]);
    assert_eq!(rand.counter(), 4);

    let mut rand = Rand::new(KEY);
    let drawn: Vec<u64> = (0..4).map(|_| rand.next_u64_up(u64::MAX)).collect();
    assert_eq!(
        drawn,
        vec![
            14399542303155484262,
            17501607969359464033,
            9354028374942533381,
            15427513012393281531
        ]
    );

    let mut rand = Rand::new(KEY);
    let drawn: Vec<u64> = (0..4).map(|_| rand.next_u64_up(1 << 63)).collect();
    assert_eq!(
        drawn,
        vec![
            7199771151577742131,
            8750803984679732017,
            4677014187471266691,
            7713756506196640766
        ]
    );
}

#[test]
fn bounded_draws_stay_below_the_bound() {
    let narrow: [u32; 9] = [1, 2, 3, 6, 10, 500, 1000, 0xC000_0000, u32::MAX];
    for to in narrow {
        let mut rand = Rand::new(KEY);
        for _ in 0..50000 {
            assert!(rand.next_u32_up(to) < to);
        }
    }
    let wide: [u64; 8] = [1, 2, 3, 6, 500, 0xC000_0000_0000_0000, 1 << 63, u64::MAX];
    for to in wide {
        let mut rand = Rand::new(KEY);
        for _ in 0..50000 {
            assert!(rand.next_u64_up(to) < to);
        }
    }
}

#[test]
fn power_of_two_bounds_never_retry() {
    for shift in 0..32u32 {
        let mut rand = Rand::new(KEY);
        for drawn in 1..=2000u64 {
            rand.next_u32_up(1 << shift);
            assert_eq!(rand.counter(), drawn);
        }
    }
    for shift in 0..64u32 {
        let mut rand = Rand::new(KEY);
        for drawn in 1..=2000u64 {
            rand.next_u64_up(1 << shift);
            assert_eq!(rand.counter(), drawn);
        }
    }
}

#[test]
fn rejected_draw_advances_counter_by_more_than_one() {
    // Under the bound 3 * 2^30 a raw value that is a multiple of four is
    // rejected; the draw at counter 1 is one, the draw at counter 2 is not.
    let mut rand = Rand::with_counter(1, KEY);
    assert_eq!(rand32(1, KEY) % 4, 0);
    assert_eq!(rand.next_u32_up(0xC000_0000), 1633428335);
    assert_eq!(rand.counter(), 3);

    let mut rand = Rand::with_counter(3, KEY);
    assert_eq!(rand.next_u64_up(0xC000_0000_0000_0000), 995914418530013360);
    assert_eq!(rand.counter(), 5);
}

#[test]
fn bounded_draws_spread_evenly() {
    let mut rand = Rand::new(KEY);
    let mut seen = [0u32; 6];
    for _ in 0..60000 {
        seen[rand.next_u32_up(6) as usize] += 1;
    }
    assert_eq!(seen, [10078, 10139, 9994, 9841, 9923, 10025]);
    for count in seen {
        assert!(9500 < count && count < 10500);
    }
}

#[test]
fn consecutive_draws_consume_distinct_counters() {
    let mut rand = Rand::with_counter(u64::MAX - 1500, KEY);
    let mut counters: Vec<u64> = Vec::new();
    for _ in 0..4 {
        for _ in 0..1000 {
            counters.push(rand.next_full_u32().counter);
            counters.push(rand.next_full_u64().counter);
        }
    }
    assert_eq!(counters.len(), 8000);
    let mut sorted = counters.clone();
    sorted.sort();
    sorted.dedup();
    assert_eq!(sorted.len(), 8000);
}

#[test]
fn budgeted_draw_matches_unbudgeted_draw() {
    let bounds: [u32; 5] = [3, 6, 500, 0xC000_0000, u32::MAX];
    for to in bounds {
        let mut plain = Rand::new(KEY);
        let mut budgeted = Rand::new(KEY);
        for _ in 0..2000 {
            assert_eq!(budgeted.next_u32_up_within(to, 64), Some(plain.next_u32_up(to)));
            assert_eq!(budgeted.counter(), plain.counter());
        }
    }
    let wide: [u64; 4] = [3, 500, 0xC000_0000_0000_0000, u64::MAX];
    for to in wide {
        let mut plain = Rand::new(KEY);
        let mut budgeted = Rand::new(KEY);
        for _ in 0..2000 {
            assert_eq!(budgeted.next_u64_up_within(to, 64), Some(plain.next_u64_up(to)));
            assert_eq!(budgeted.counter(), plain.counter());
        }
    }
}

#[test]
fn budgeted_draw_gives_up_after_its_budget() {
    // Under the key 0 every raw draw is 0, which 3 rejects.
    let mut stuck = Rand::new(0);
    assert_eq!(stuck.next_u32_up_within(3, 10), None);
    assert_eq!(stuck.counter(), 10);
    assert_eq!(stuck.next_u64_up_within(3, 7), None);
    assert_eq!(stuck.counter(), 17);
    assert_eq!(stuck.next_u32_up_within(4, 10), Some(0));
    assert_eq!(stuck.counter(), 18);

    // The draw at counter 1 is rejected under 3 * 2^30, the one at 2 is kept.
    let mut rand = Rand::with_counter(1, KEY);
    assert_eq!(rand.next_u32_up_within(0xC000_0000, 1), None);
    assert_eq!(rand.counter(), 2);
    let mut rand = Rand::with_counter(1, KEY);
    assert_eq!(rand.next_u32_up_within(0xC000_0000, 2), Some(1633428335));
    assert_eq!(rand.counter(), 3);
    let mut rand = Rand::with_counter(1, KEY);
    assert_eq!(rand.next_u32_up_within(0xC000_0000, 0), None);
    assert_eq!(rand.counter(), 1);
}

#[test]
fn zero_key_mixes_every_counter_to_zero() {
    let mut stuck = Rand::new(0);
    for _ in 0..100 {
        assert_eq!(stuck.next_u32(), 0);
        assert_eq!(stuck.next_u64(), 0);
    }
    assert_eq!(stuck.counter(), 200);
    assert_eq!(stuck.next_u32_up(1 << 20), 0);
    assert_eq!(stuck.next_u64_up(1 << 40), 0);
    assert_eq!(stuck.counter(), 202);
}
