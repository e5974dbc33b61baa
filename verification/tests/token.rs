//! Deterministic tokens.

use ferrosa_cluster::controller::token::{
    deterministic_tokens_for_node, generate_deterministic_token,
};

#[test]
fn deterministic_token_generation_is_stable() {
    let node_id = 42u64;
    let t1 = generate_deterministic_token(node_id, 0);
    let t2 = generate_deterministic_token(node_id, 0);
    assert_eq!(t1, t2, "same inputs must produce same token");

    // Different indices produce different tokens
    let t3 = generate_deterministic_token(node_id, 1);
    assert_ne!(t1, t3, "different indices should produce different tokens");

    // Different node IDs produce different tokens
    let t4 = generate_deterministic_token(99u64, 0);
    assert_ne!(t1, t4, "different nodes should produce different tokens");
}

#[test]
fn join_generates_correct_token_count() {
    // Verify that generate_deterministic_token produces num_tokens unique tokens.
    let node_id = 12345u64;
    let num_tokens = 256;
    let tokens: Vec<i64> = (0..num_tokens)
        .map(|i| generate_deterministic_token(node_id, i))
        .collect();

    // All tokens should be unique.
    let unique: std::collections::HashSet<i64> = tokens.iter().copied().collect();
    assert_eq!(
        unique.len(),
        num_tokens,
        "all 256 tokens must be unique for a given node"
    );
}

/// The mixing formula, spelled out.
fn mixed(node_id: u64, index: u64) -> i64 {
    let mut h = node_id.wrapping_mul(0x517c_c1b7_2722_0a95);
    h ^= index.wrapping_mul(0x6c62_272e_07bb_0142);
    h = h.wrapping_mul(0x2545_F491_4F6C_DD1D);
    h ^= h >> 32;
    h as i64
}

#[test]
fn tokens_follow_the_mixing_formula() {
    assert_eq!(generate_deterministic_token(0, 0), 0);
    for (node, index) in [(1, 0), (0, 1), (42, 7), (u64::MAX, 255), (u64::MAX / 3, 1 << 40)] {
        assert_eq!(generate_deterministic_token(node, index), mixed(node, index as u64));
    }
}

#[test]
fn tokens_of_a_node_are_listed_by_index() {
    let tokens = deterministic_tokens_for_node(7, 4);
    let expected: Vec<i64> = (0..4).map(|i| mixed(7, i)).collect();
    assert_eq!(tokens, expected);
    assert!(deterministic_tokens_for_node(7, 0).is_empty());
}

/// The multiplier of the index is even, so indices far apart can collide.
#[test]
fn far_indices_can_collide() {
    assert_eq!(
        generate_deterministic_token(7, 0),
        generate_deterministic_token(7, 0x8000_0000_0000_0000)
    );
}

/// A node id is the number that the first eight bytes of the host id form.
#[test]
fn node_ids_are_the_first_eight_bytes() {
    let host = uuid::Uuid::from_bytes([1, 2, 3, 4, 5, 6, 7, 8, 9, 10, 11, 12, 13, 14, 15, 16]);
    assert_eq!(ferrosa_cluster::raft::node_id(host.as_u128()), 0x0102_0304_0506_0708);
    assert_eq!(ferrosa_cluster::raft::node_id(5), 0);
    assert_eq!(ferrosa_cluster::raft::node_id(u128::MAX), u64::MAX);
}
