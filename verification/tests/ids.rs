use relay_hub::ids::{hash_id, IdGenerator};

#[test]
fn monotonic_ids_start_at_one() {
    let mut gen = IdGenerator::new();
    assert_eq!(gen.next_id(), 1);
    assert_eq!(gen.next_id(), 2);
    assert_eq!(gen.next_id(), 3);
}

#[test]
fn monotonic_ids_pairwise_distinct() {
    let mut gen = IdGenerator::new();
    let mut seen: Vec<u32> = Vec::new();
    for _ in 0..16 {
        let id = gen.next_id();
        assert!(!seen.contains(&id));
        seen.push(id);
    }
}

#[test]
fn hash_id_is_deterministic() {
    let addr: Vec<u8> = vec![192, 168, 0, 17, 31, 64];
    let a = hash_id(&addr);
    let b = hash_id(&addr);
    assert_eq!(a, b);
}

#[test]
fn hash_id_known_values() {
    // FNV-1a, 32 bit: the offset basis for no bytes, and the published
    // value for the single byte 'a'.
    assert_eq!(hash_id(&Vec::new()), 2166136261);
    assert_eq!(hash_id(&vec![0x61]), 0xe40c292c);
}

#[test]
fn hash_id_differs_on_these_addresses() {
    let a = hash_id(&vec![10, 0, 0, 1]);
    let b = hash_id(&vec![10, 0, 0, 2]);
    assert_ne!(a, b);
}
