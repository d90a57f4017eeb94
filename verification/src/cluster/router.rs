//! Node information and highest-random-weight (rendezvous) node selection.
use sha2::{Digest, Sha256};
use vstd::prelude::*;

verus! {

/// A cluster node.
pub struct NodeInfo {
    pub node_id: String,
    pub weight: u32,
    pub is_alive: bool,
}

/// A node as plain values: `(id, weight, alive)`.
pub type NodeView = (Seq<char>, u32, bool);

impl View for NodeInfo {
    type V = NodeView;

    open spec fn view(&self) -> NodeView {
        (self.node_id@, self.weight, self.is_alive)
    }
}

impl NodeInfo {
    /// A copy of this node.
    pub fn duplicate(&self) -> (r: Self)
        ensures
            r@ == self@,
    {
        NodeInfo { node_id: self.node_id.clone(), weight: self.weight, is_alive: self.is_alive }
    }
}

/// The SHA-256 digest of the UTF-8 bytes of `a` followed by those of `b`.
pub uninterp spec fn sha256_of_concat(a: Seq<char>, b: Seq<char>) -> Seq<u8>;

/// Hashes `a` then `b` with `sha2::Sha256` (`new`, `update`, `update`,
/// `finalize`). The digest is named, not stated: it equals the name applied to
/// the two strings, and it has the 32 bytes of a SHA-256 output.
#[verifier::external_body]
fn sha256_pair(a: &str, b: &str) -> (d: Vec<u8>)
    ensures
        d@ == sha256_of_concat(a@, b@),
        d@.len() == 32,
{
    let mut hasher = Sha256::new();
    hasher.update(a.as_bytes());
    hasher.update(b.as_bytes());
    hasher.finalize().to_vec()
}

/// The unsigned number whose little-endian bytes are `s`.
pub open spec fn le_value(s: Seq<u8>) -> nat
    decreases s.len(),
{
    if s.len() == 0 {
        0
    } else {
        s[0] as nat + 256 * le_value(s.drop_first())
    }
}

/// `256^n`.
pub open spec fn pow256(n: nat) -> nat
    decreases n,
{
    if n == 0 {
        1
    } else {
        256 * pow256((n - 1) as nat)
    }
}

proof fn lemma_le_value_bound(s: Seq<u8>)
    ensures
        le_value(s) < pow256(s.len()),
    decreases s.len(),
{
    if s.len() > 0 {
        lemma_le_value_bound(s.drop_first());
    }
}

/// The little-endian value of the first 16 bytes of `d`
/// (`u128::from_le_bytes(d[0..16])`).
pub fn le_u128_prefix(d: &Vec<u8>) -> (v: u128)
    requires
        d@.len() >= 16,
    ensures
        v as nat == le_value(d@.take(16)),
{
    let mut acc: u128 = 0;
    let mut i: usize = 16;
    assert(d@.subrange(16, 16) =~= Seq::<u8>::empty());
    assert(pow256(16) == 0x1_0000_0000_0000_0000_0000_0000_0000_0000) by {
        reveal_with_fuel(pow256, 17);
    }
    while i > 0
        invariant
            i <= 16 <= d@.len(),
            acc as nat == le_value(d@.subrange(i as int, 16)),
            pow256(16) == 0x1_0000_0000_0000_0000_0000_0000_0000_0000,
        decreases i,
    {
        let ghost rest = d@.subrange(i as int, 16);
        proof {
            lemma_le_value_bound(rest);
            lemma_pow256_mono(rest.len(), 15);
        }
        i -= 1;
        let ghost sub = d@.subrange(i as int, 16);
        assert(sub.drop_first() =~= rest);
        assert(sub[0] == d@[i as int]);
        acc = (d[i] as u128) + 256 * acc;
    }
    assert(d@.subrange(0, 16) =~= d@.take(16));
    acc
}

proof fn lemma_pow256_mono(a: nat, b: nat)
    requires
        a <= b,
    ensures
        pow256(a) <= pow256(b),
    decreases b,
{
    if a < b {
        lemma_pow256_mono(a, (b - 1) as nat);
    }
}

/// The rendezvous score of a node for a digest: the digest's first 16 bytes as
/// a little-endian number, times the node's weight, wrapping at 2^128.
pub open spec fn score_of(digest: Seq<u8>, weight: u32) -> u128 {
    vstd::wrapping::u128_specs::wrapping_mul(le_value(digest.take(16)) as u128, weight as u128)
}

/// The rendezvous score of `node` for `key`.
pub open spec fn hrw_score_spec(key: Seq<char>, node: NodeView) -> u128 {
    score_of(sha256_of_concat(key, node.0), node.1)
}

/// The rendezvous score of `node` for `key`: SHA-256 of the key then the node
/// id, first 16 bytes little-endian, times the node's weight (wrapping).
pub fn hrw_score(key: &str, node: &NodeInfo) -> (s: u128)
    ensures
        s == hrw_score_spec(key@, node@),
{
    let d = sha256_pair(key, node.node_id.as_str());
    let base = le_u128_prefix(&d);
    assert(base == le_value(d@.take(16)) as u128);
    base.wrapping_mul(node.weight as u128)
}

/// The position chosen among the first `n` nodes: the first alive node whose
/// score is strictly greater than that of every alive node before it, and not
/// smaller than that of any alive node after it.
pub open spec fn hrw_pick(alive: Seq<bool>, scores: Seq<u128>, n: nat) -> Option<int>
    decreases n,
{
    if n == 0 {
        None
    } else {
        let prev = hrw_pick(alive, scores, (n - 1) as nat);
        let i = n - 1;
        if !alive[i] {
            prev
        } else {
            match prev {
                None => Some(i),
                Some(j) => if scores[i] > scores[j] {
                    Some(i)
                } else {
                    Some(j)
                },
            }
        }
    }
}

/// Nodes as plain values.
pub open spec fn nodes_view(nodes: Seq<NodeInfo>) -> Seq<NodeView> {
    nodes.map_values(|n: NodeInfo| n@)
}

/// Which nodes are alive.
pub open spec fn alive_flags(nodes: Seq<NodeView>) -> Seq<bool> {
    nodes.map_values(|n: NodeView| n.2)
}

/// The node chosen among `nodes` with the given scores.
pub open spec fn chosen_node(nodes: Seq<NodeView>, scores: Seq<u128>) -> Option<NodeView> {
    match hrw_pick(alive_flags(nodes), scores, nodes.len()) {
        Some(i) => Some(nodes[i]),
        None => None,
    }
}

/// The alive node with the highest score, the first of equals winning; none
/// when no node is alive.
pub fn select_by_scores(nodes: &Vec<NodeInfo>, scores: &Vec<u128>) -> (r: Option<NodeInfo>)
    requires
        scores@.len() == nodes@.len(),
    ensures
        match r {
            Some(n) => chosen_node(nodes_view(nodes@), scores@) == Some(n@),
            None => chosen_node(nodes_view(nodes@), scores@) is None,
        },
{
    let ghost alive = alive_flags(nodes_view(nodes@));
    let mut best: Option<usize> = None;
    let mut i: usize = 0;
    while i < nodes.len()
        invariant
            i <= nodes@.len(),
            scores@.len() == nodes@.len(),
            alive == alive_flags(nodes_view(nodes@)),
            match best {
                Some(j) => hrw_pick(alive, scores@, i as nat) == Some(j as int) && j < i,
                None => hrw_pick(alive, scores@, i as nat) is None,
            },
        decreases nodes.len() - i,
    {
        assert(alive[i as int] == nodes@[i as int].is_alive);
        if nodes[i].is_alive {
            match best {
                None => {
                    best = Some(i);
                },
                Some(j) => {
                    if scores[i] > scores[j] {
                        best = Some(i);
                    }
                },
            }
        }
        i += 1;
    }
    match best {
        Some(j) => Some(nodes[j].duplicate()),
        None => None,
    }
}

/// Scores of every node for `key`.
pub open spec fn node_scores(key: Seq<char>, nodes: Seq<NodeView>) -> Seq<u128> {
    nodes.map_values(|n: NodeView| hrw_score_spec(key, n))
}

/// Highest-random-weight choice of a node for `key` among the alive nodes.
pub fn hrw_select_node(key: &str, nodes: &Vec<NodeInfo>) -> (r: Option<NodeInfo>)
    ensures
        match r {
            Some(n) => chosen_node(nodes_view(nodes@), node_scores(key@, nodes_view(nodes@))) == Some(n@),
            None => chosen_node(nodes_view(nodes@), node_scores(key@, nodes_view(nodes@))) is None,
        },
{
    if nodes.len() == 0 {
        return None;
    }
    let mut scores: Vec<u128> = Vec::new();
    let mut i: usize = 0;
    while i < nodes.len()
        invariant
            i <= nodes@.len(),
            scores@.len() == i,
            forall|j: int| 0 <= j < i ==> nodes@[j].is_alive ==> #[trigger] scores@[j] == hrw_score_spec(key@, nodes@[j]@),
        decreases nodes.len() - i,
    {
        if nodes[i].is_alive {
            scores.push(hrw_score(key, &nodes[i]));
        } else {
            scores.push(0);
        }
        i += 1;
    }
    let r = select_by_scores(nodes, &scores);
    proof {
        lemma_pick_ignores_dead(alive_flags(nodes_view(nodes@)), scores@, node_scores(key@, nodes_view(nodes@)), nodes@.len());
    }
    r
}

proof fn lemma_pick_ignores_dead(alive: Seq<bool>, s1: Seq<u128>, s2: Seq<u128>, n: nat)
    requires
        n <= alive.len(),
        n <= s1.len(),
        n <= s2.len(),
        forall|j: int| 0 <= j < n && alive[j] ==> s1[j] == s2[j],
    ensures
        hrw_pick(alive, s1, n) == hrw_pick(alive, s2, n),
    decreases n,
{
    if n > 0 {
        lemma_pick_ignores_dead(alive, s1, s2, (n - 1) as nat);
        let p = hrw_pick(alive, s1, (n - 1) as nat);
        if let Some(j) = p {
            lemma_pick_alive(alive, s1, (n - 1) as nat);
        }
    }
}

proof fn lemma_pick_alive(alive: Seq<bool>, s: Seq<u128>, n: nat)
    ensures
        match hrw_pick(alive, s, n) {
            Some(j) => 0 <= j < n && alive[j],
            None => true,
        },
    decreases n,
{
    if n > 0 {
        lemma_pick_alive(alive, s, (n - 1) as nat);
    }
}

} // verus!
