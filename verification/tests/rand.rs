use squares_rnd::{Rand, KEY};

#[test]
fn should_work() {
    let mut rand = Rand::new(KEY);
    assert_eq!(rand.next_u32(), 3352654702);
    assert_eq!(rand.next_u32(), 4074910648);

    assert_eq!(rand.set_counter(0), 2);
    let result64 = rand.next_u64();

    assert_eq!((result64 >> 32) as u32, 3352654702);
    assert_eq!(result64 as u32, 3284858471);

    for _ in 0..50000 {
        assert!(rand.next_u32_up(500) < 500);
    }

    for _ in 0..50000 {
        assert!(rand.next_u64_up(500) < 500);
    }
}
