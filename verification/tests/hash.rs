use frog_quest_battle::hash::{hash_bytes, hash_u64, to_le_bytes};

#[test]
fn fnv1a_of_known_texts() {
    assert_eq!(hash_bytes(&vec![]), 0xcbf2_9ce4_8422_2325);
    assert_eq!(hash_bytes(&b"a".to_vec()), 0xaf63_dc4c_8601_ec8c);
    assert_eq!(hash_bytes(&b"foobar".to_vec()), 0x8594_4171_f739_67e8);
}

#[test]
fn numbers_are_hashed_by_their_bytes_lowest_first() {
    assert_eq!(to_le_bytes(0x0102_0304_0506_0708), vec![8, 7, 6, 5, 4, 3, 2, 1]);
    assert_eq!(to_le_bytes(0), vec![0; 8]);
    assert_eq!(hash_u64(0x61), hash_bytes(&vec![0x61, 0, 0, 0, 0, 0, 0, 0]));
    assert_eq!(hash_u64(0), 0xa8c7f832281a39c5);
    assert_eq!(hash_u64(13), 0x5b84d4d48e81828);
    assert_ne!(hash_u64(0), hash_u64(1));
}
