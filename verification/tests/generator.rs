use ripc::rand::Rng;

#[test]
fn the_generator_is_deterministic_from_its_seed() {
    let mut a = Rng::new(12345);
    let mut b = Rng::new(12345);
    let first = a.next();
    assert_eq!(first, b.next());
    assert_eq!(a.next(), b.next());
    let mut c = Rng::new(54321);
    assert!(c.next() != first);
}

#[test]
fn the_generator_scrambles_by_xorshift() {
    let mut rng = Rng::new(1);
    // 1 ^ (1 >> 12) = 1; 1 ^ (1 << 25) = 0x2000001; unchanged by >> 27
    let scrambled: u64 = 0x2000001;
    assert_eq!(rng.next(), scrambled.wrapping_mul(0x2545_f491_4f6c_dd1d));
    assert_eq!(rng.state, scrambled);
}
