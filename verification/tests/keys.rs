use particle_sim::order::key_of_bits;

fn key(x: f32) -> i64 {
    key_of_bits(x.to_bits())
}

#[test]
fn key_of_zero_is_zero() {
    assert_eq!(key_of_bits(0), 0);
    assert_eq!(key_of_bits(0x8000_0000), 0);
    assert_eq!(key(0.0), 0);
    assert_eq!(key(-0.0), 0);
}

#[test]
fn key_of_given_patterns() {
    assert_eq!(key_of_bits(1), 1);
    assert_eq!(key_of_bits(0x8000_0001), -1);
    assert_eq!(key_of_bits(0x7fff_ffff), 2147483647);
    assert_eq!(key_of_bits(0xffff_ffff), -2147483647);
    assert_eq!(key_of_bits(0x3f80_0000), 1065353216);
    assert_eq!(key(1.0), 1065353216);
    assert_eq!(key(-1.0), -1065353216);
}

#[test]
fn keys_compare_as_the_numbers_do() {
    let numbers = [
        f32::NEG_INFINITY,
        f32::MIN,
        -250.0,
        -100.5,
        -1.0,
        -f32::MIN_POSITIVE,
        -1.0e-45,
        -0.0,
        0.0,
        1.0e-45,
        f32::MIN_POSITIVE,
        0.1,
        1.0,
        1.0000001,
        99.999,
        250.0,
        f32::MAX,
        f32::INFINITY,
    ];
    for &a in &numbers {
        for &b in &numbers {
            assert_eq!(a < b, key(a) < key(b), "{} < {}", a, b);
            assert_eq!(a == b, key(a) == key(b), "{} == {}", a, b);
        }
    }
}
