use ox_core::digest::Fnv1a;

#[test]
fn empty_input_yields_offset_basis() {
    assert_eq!(Fnv1a::new().finish(), 0xcbf2_9ce4_8422_2325);
}

#[test]
fn known_vector_matches_reference_fnv1a() {
    let mut h = Fnv1a::new();
    h.write(b"a");
    assert_eq!(h.finish(), 0xaf63_dc4c_8601_ec8c);
}

#[test]
fn i32_writes_are_its_little_endian_bytes() {
    let mut a = Fnv1a::new();
    a.write_i32(-7);
    let mut b = Fnv1a::new();
    b.write(&(-7i32).to_le_bytes());
    assert_eq!(a.finish(), b.finish());
    assert_eq!(a.finish(), 0xf463_7672_038f_242f);
}

#[test]
fn split_writes_hash_like_one_write() {
    let mut a = Fnv1a::new();
    a.write(b"he");
    a.write(b"llo");
    let mut b = Fnv1a::new();
    b.write(b"hello");
    assert_eq!(a.finish(), b.finish());
    assert_eq!(b.finish(), 0xa430_d846_80aa_bd0b);
}

#[test]
fn default_is_the_empty_digest() {
    assert_eq!(Fnv1a::default().finish(), Fnv1a::new().finish());
}
