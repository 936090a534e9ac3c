use match3::random::Random;

#[test]
fn next_applies_one_xorshift() {
    let mut r = Random::new(1234);
    assert_eq!(r.next(), 1335200936027);
}

#[test]
fn golden_range_sequence_from_1234() {
    let mut r = Random::new(1234);
    let got: Vec<u64> = (0..5).map(|_| r.range(0, 7)).collect();
    assert_eq!(got, vec![0, 3, 5, 5, 2]);
}

#[test]
fn range_stays_in_bounds_with_offset() {
    let mut r = Random::new(99);
    for _ in 0..200 {
        let v = r.range(10, 13);
        assert!((10..13).contains(&v));
    }
}

#[test]
fn range_of_span_one_is_min() {
    let mut r = Random::new(7);
    assert_eq!(r.range(5, 6), 5);
}

#[test]
fn zero_seed_stays_zero() {
    let mut r = Random::new(0);
    assert_eq!(r.next(), 0);
    assert_eq!(r.range(3, 10), 3);
}
