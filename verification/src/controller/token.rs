//! Deterministic token assignment.

use vstd::prelude::*;

verus! {

/// Spreads the node id.
pub const NODE_MULTIPLIER: u64 = 0x517cc1b727220a95;

/// Spreads the token index.
pub const INDEX_MULTIPLIER: u64 = 0x6c62272e07bb0142;

/// Mixes the two.
pub const MIX_MULTIPLIER: u64 = 0x2545F4914F6CDD1D;

/// Low word of a product.
pub open spec fn low_word(x: u64, y: u64) -> u64 {
    ((x * y) % 0x1_0000_0000_0000_0000) as u64
}

/// The node's share and the index's share, before mixing.
pub open spec fn token_seed(node_id: u64, index: u64) -> u64 {
    low_word(node_id, NODE_MULTIPLIER) ^ low_word(index, INDEX_MULTIPLIER)
}

/// Folds the high half of a word into the low half.
pub open spec fn folded(h: u64) -> u64 {
    h ^ (h >> 32)
}

/// The token of a node at an index.
pub open spec fn token_of(node_id: u64, index: u64) -> i64 {
    folded(low_word(token_seed(node_id, index), MIX_MULTIPLIER)) as i64
}

/// The first `count` tokens of a node.
pub open spec fn tokens_of(node_id: u64, count: nat) -> Seq<i64> {
    Seq::new(count, |i: int| token_of(node_id, i as u64))
}

/// The token of a node at an index: the same on every node and at every start.
pub fn generate_deterministic_token(node_id: u64, index: usize) -> (token: i64)
    ensures
        token == token_of(node_id, index as u64),
{
    let mut h: u64 = node_id.wrapping_mul(NODE_MULTIPLIER);
    h = h ^ (index as u64).wrapping_mul(INDEX_MULTIPLIER);
    h = h.wrapping_mul(MIX_MULTIPLIER);
    h = h ^ (h >> 32);
    #[verifier::truncate]
    (h as i64)
}

/// All tokens of a node.
pub fn deterministic_tokens_for_node(node_id: u64, num_tokens: usize) -> (tokens: Vec<i64>)
    ensures
        tokens@ == tokens_of(node_id, num_tokens as nat),
{
    let mut tokens: Vec<i64> = Vec::new();
    let mut i: usize = 0;
    while i < num_tokens
        invariant
            i <= num_tokens,
            tokens@ == tokens_of(node_id, i as nat),
        decreases num_tokens - i,
    {
        tokens.push(generate_deterministic_token(node_id, i));
        i = i + 1;
        assert(tokens@ =~= tokens_of(node_id, i as nat));
    }
    tokens
}

/// Multiplying by a number that has an inverse loses nothing.
proof fn lemma_invertible_multiple(a: int, b: int, factor: int, inverse: int, turns: int, m: int)
    requires
        0 <= a < m,
        0 <= b < m,
        factor * inverse == 1 + turns * m,
        (a * factor) % m == (b * factor) % m,
    ensures
        a == b,
{
    let d = a - b;
    let qa = (a * factor) / m;
    let qb = (b * factor) / m;
    vstd::arithmetic::div_mod::lemma_fundamental_div_mod(a * factor, m);
    vstd::arithmetic::div_mod::lemma_fundamental_div_mod(b * factor, m);
    let k = qa - qb;
    assert(d * factor == k * m) by (nonlinear_arith)
        requires
            d == a - b,
            k == qa - qb,
            a * factor == m * qa + (a * factor) % m,
            b * factor == m * qb + (b * factor) % m,
            (a * factor) % m == (b * factor) % m,
    ;
    let t = k * inverse - turns * d;
    assert(d == t * m) by (nonlinear_arith)
        requires
            d * factor == k * m,
            factor * inverse == 1 + turns * m,
            t == k * inverse - turns * d,
    ;
    assert(t == 0) by (nonlinear_arith)
        requires
            d == t * m,
            -m < d < m,
            m > 0,
    ;
}

/// Folding and mixing lose nothing.
proof fn lemma_mixing_is_injective(x: u64, y: u64)
    requires
        folded(low_word(x, MIX_MULTIPLIER)) as i64 == folded(low_word(y, MIX_MULTIPLIER)) as i64,
    ensures
        x == y,
{
    let p = low_word(x, MIX_MULTIPLIER);
    let q = low_word(y, MIX_MULTIPLIER);
    assert((p ^ (p >> 32)) as i64 == (q ^ (q >> 32)) as i64 ==> p == q) by (bit_vector);
    lemma_invertible_multiple(
        x as int,
        y as int,
        0x2545F4914F6CDD1D,
        6415128727920758069,
        934034299265436267,
        0x1_0000_0000_0000_0000,
    );
}

/// Doubles that agree modulo 2^64 have halves that agree modulo 2^63.
proof fn lemma_halves(x: int, y: int)
    requires
        x >= 0,
        y >= 0,
        (2 * x) % 0x1_0000_0000_0000_0000 == (2 * y) % 0x1_0000_0000_0000_0000,
    ensures
        x % 0x8000_0000_0000_0000 == y % 0x8000_0000_0000_0000,
{
    vstd::arithmetic::div_mod::lemma_truncate_middle(x, 2, 0x8000_0000_0000_0000);
    vstd::arithmetic::div_mod::lemma_truncate_middle(y, 2, 0x8000_0000_0000_0000);
}

/// The tokens of one node differ from one another, for every count of tokens
/// below 2^63.
pub proof fn tokens_of_a_node_are_distinct(node_id: u64, i: u64, j: u64)
    requires
        i < 0x8000_0000_0000_0000,
        j < 0x8000_0000_0000_0000,
        i != j,
    ensures
        token_of(node_id, i) != token_of(node_id, j),
{
    if token_of(node_id, i) == token_of(node_id, j) {
        lemma_mixing_is_injective(token_seed(node_id, i), token_seed(node_id, j));
        let n = low_word(node_id, NODE_MULTIPLIER);
        let x = low_word(i, INDEX_MULTIPLIER);
        let y = low_word(j, INDEX_MULTIPLIER);
        assert(n ^ x == n ^ y ==> x == y) by (bit_vector);
        let half: int = 0x3631139703dd80a1;
        assert(i * INDEX_MULTIPLIER == 2 * (i * half)) by (nonlinear_arith)
            requires
                half == 0x3631139703dd80a1int,
                INDEX_MULTIPLIER == 0x6c62272e07bb0142u64,
        ;
        assert(j * INDEX_MULTIPLIER == 2 * (j * half)) by (nonlinear_arith)
            requires
                half == 0x3631139703dd80a1int,
                INDEX_MULTIPLIER == 0x6c62272e07bb0142u64,
        ;
        lemma_halves(i * half, j * half);
        lemma_invertible_multiple(
            i as int,
            j as int,
            half,
            7768279368640783201,
            3288877384449544045,
            0x8000_0000_0000_0000,
        );
    }
}

/// Two nodes differ in every token: no index gives both the same one.
pub proof fn nodes_differ_at_every_index(node_a: u64, node_b: u64, index: u64)
    requires
        node_a != node_b,
    ensures
        token_of(node_a, index) != token_of(node_b, index),
{
    if token_of(node_a, index) == token_of(node_b, index) {
        lemma_mixing_is_injective(token_seed(node_a, index), token_seed(node_b, index));
        let n = low_word(index, INDEX_MULTIPLIER);
        let x = low_word(node_a, NODE_MULTIPLIER);
        let y = low_word(node_b, NODE_MULTIPLIER);
        assert(x ^ n == y ^ n ==> x == y) by (bit_vector);
        lemma_invertible_multiple(
            node_a as int,
            node_b as int,
            0x517cc1b727220a95,
            2323857671730065597,
            739706870995725965,
            0x1_0000_0000_0000_0000,
        );
    }
}

/// A token is computed from the node id and the index alone: each is multiplied, the
/// products are combined, the result is multiplied again, and its high half is folded into
/// its low half.
pub proof fn tokens_follow_their_formula(node_id: u64, index: u64, a: u64, b: u64, h: u64)
    requires
        a == (node_id * 0x517cc1b727220a95) % 0x1_0000_0000_0000_0000,
        b == (index * 0x6c62272e07bb0142) % 0x1_0000_0000_0000_0000,
        h == ((a ^ b) * 0x2545F4914F6CDD1D) % 0x1_0000_0000_0000_0000,
    ensures
        token_of(node_id, index) == (h ^ (h >> 32)) as i64,
{
}

/// The tokens of a node are one per index, from zero on; asking for more adds to them and
/// changes none.
pub proof fn tokens_are_one_per_index(node_id: u64, count: nat, more: nat, i: int)
    requires
        0 <= i < count <= more <= u64::MAX,
    ensures
        tokens_of(node_id, count).len() == count,
        tokens_of(node_id, count)[i] == token_of(node_id, i as u64),
        tokens_of(node_id, more).take(count as int) == tokens_of(node_id, count),
{
    assert(tokens_of(node_id, more).take(count as int) =~= tokens_of(node_id, count));
}

} // verus!
