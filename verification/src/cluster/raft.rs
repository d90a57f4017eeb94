//! Leader-based replication bookkeeping: who leads, the quorum a write needs,
//! and the number of committed writes per node.
use vstd::prelude::*;

use crate::cluster::directory::Directory;
use crate::cluster::router::NodeView;
use crate::collections::StrMap;
use crate::storage::{MessageRecord, MessageRecordView, RecordLog};
use crate::text::str_eq;

verus! {

/// Role of a node.
#[derive(Clone, Copy, Debug, PartialEq, Eq, Structural)]
pub enum Role {
    Leader,
    Follower,
}

/// Why a replicated write was refused.
#[derive(Clone, Copy, Debug, PartialEq, Eq, Structural)]
pub enum RaftError {
    NotLeader,
    ServerNotRegistered,
    QuorumNotMet,
    LeaderNotFound,
}

impl RaftError {
    /// The error's text.
    pub fn message(&self) -> (s: String)
        ensures
            s@ == match self {
                RaftError::NotLeader => "not leader"@,
                RaftError::ServerNotRegistered => "server not registered"@,
                RaftError::QuorumNotMet => "replication quorum not met"@,
                RaftError::LeaderNotFound => "leader not found"@,
            },
    {
        match self {
            RaftError::NotLeader => "not leader".to_string(),
            RaftError::ServerNotRegistered => "server not registered".to_string(),
            RaftError::QuorumNotMet => "replication quorum not met".to_string(),
            RaftError::LeaderNotFound => "leader not found".to_string(),
        }
    }
}

/// Acknowledgements a write needs among `total` nodes (at least one node is counted).
pub open spec fn quorum_of(total: nat) -> nat {
    (if total == 0 { 1nat } else { total }) / 2 + 1
}

/// Acknowledgements a write needs among `total_nodes` nodes.
pub fn quorum_size(total_nodes: usize) -> (q: usize)
    ensures
        q == quorum_of(total_nodes as nat),
{
    let total = if total_nodes == 0 { 1 } else { total_nodes };
    total / 2 + 1
}

/// A quorum is a strict majority of the nodes, and never more than there are
/// nodes (when there is at least one).
pub proof fn lemma_quorum_is_majority(total: nat)
    ensures
        total >= 1 ==> 2 * quorum_of(total) > total && quorum_of(total) <= total,
        total == 0 ==> quorum_of(total) == 1,
{
}

/// Two quorums of the same nodes always share a node.
pub proof fn lemma_quorums_intersect(total: nat, a: nat, b: nat)
    requires
        total >= 1,
        a >= quorum_of(total),
        b >= quorum_of(total),
    ensures
        a + b > total,
{
}

/// The leader of the cluster and the committed writes of each node.
pub struct RaftCluster {
    leader_id: String,
    commit_count: StrMap<u64>,
}

/// Committed writes of `node`.
pub open spec fn commits_of(commits: Map<Seq<char>, u64>, node: Seq<char>) -> u64 {
    if commits.contains_key(node) {
        commits[node]
    } else {
        0
    }
}

/// The nodes that store a write appended by `node`: `node` itself and every
/// known node, each only where it has a server.
pub open spec fn replica_ids<S>(nodes: Map<Seq<char>, NodeView>, servers: Map<Seq<char>, S>, node: Seq<char>) -> Set<Seq<char>> {
    Set::new(|k: Seq<char>| servers.contains_key(k) && (k == node || nodes.contains_key(k)))
}

/// `after` is `before` with `rec` appended to the log of each node in `ids`,
/// the other logs as they were.
pub open spec fn appended_to(
    before: Map<Seq<char>, RecordLog>,
    after: Map<Seq<char>, RecordLog>,
    ids: Set<Seq<char>>,
    rec: MessageRecordView,
) -> bool {
    &&& after.dom() == before.dom()
    &&& forall|k: Seq<char>|
        #[trigger] before.contains_key(k) ==> if ids.contains(k) {
            after[k]@ == before[k]@.push(rec)
        } else {
            after[k] == before[k]
        }
}

impl RaftCluster {
    /// The current leader.
    pub closed spec fn leader(&self) -> Seq<char> {
        self.leader_id@
    }

    /// Committed writes by node.
    pub closed spec fn commits(&self) -> Map<Seq<char>, u64> {
        self.commit_count@
    }

    /// A cluster led by `leader_id` with nothing committed.
    pub fn new(leader_id: String) -> (c: Self)
        ensures
            c.leader() == leader_id@,
            c.commits() == Map::<Seq<char>, u64>::empty(),
    {
        RaftCluster { leader_id, commit_count: StrMap::new() }
    }

    /// Makes `leader_id` the leader.
    pub fn set_leader(&mut self, leader_id: String)
        ensures
            final(self).leader() == leader_id@,
            final(self).commits() == old(self).commits(),
    {
        self.leader_id = leader_id;
    }

    /// The current leader.
    pub fn get_leader(&self) -> (l: String)
        ensures
            l@ == self.leader(),
    {
        self.leader_id.clone()
    }

    /// Only the leader may append: `NotLeader` for any other node.
    pub fn check_leader(&self, node_id: &str) -> (r: Result<(), RaftError>)
        ensures
            r == if node_id@ == self.leader() {
                Ok::<(), RaftError>(())
            } else {
                Err(RaftError::NotLeader)
            },
    {
        if str_eq(node_id, self.leader_id.as_str()) {
            Ok(())
        } else {
            Err(RaftError::NotLeader)
        }
    }

    /// Number of writes committed by `node_id`.
    pub fn commit_count(&self, node_id: &str) -> (n: u64)
        ensures
            n == commits_of(self.commits(), node_id@),
    {
        match self.commit_count.get(node_id) {
            Some(n) => *n,
            None => 0,
        }
    }

    /// Appends `rec` as `node_id`: only the leader may, and only once its own
    /// server is registered. The record then goes to the log of the leader's
    /// server and of every other known node that has a server; with a quorum
    /// of the known nodes among them the write commits and the leader's commit
    /// count goes up by one, else `QuorumNotMet` (the logs keep the record).
    pub fn append_entry_as(&mut self, node_id: &str, rec: &MessageRecord, directory: &mut Directory<RecordLog>) -> (r: Result<(), RaftError>)
        requires
            commits_of(old(self).commits(), node_id@) < u64::MAX,
        ensures
            final(self).leader() == old(self).leader(),
            final(directory).nodes() == old(directory).nodes(),
            final(directory).clients() == old(directory).clients(),
            node_id@ != old(self).leader() ==> r == Err::<(), RaftError>(RaftError::NotLeader)
                && final(self).commits() == old(self).commits()
                && final(directory).servers() == old(directory).servers(),
            node_id@ == old(self).leader() && !old(directory).servers().contains_key(node_id@) ==> r
                == Err::<(), RaftError>(RaftError::ServerNotRegistered) && final(self).commits()
                == old(self).commits() && final(directory).servers() == old(directory).servers(),
            node_id@ == old(self).leader() && old(directory).servers().contains_key(node_id@) ==> {
                let ids = replica_ids(old(directory).nodes(), old(directory).servers(), node_id@);
                &&& appended_to(old(directory).servers(), final(directory).servers(), ids, rec@)
                &&& ids.finite()
                &&& ids.len() >= quorum_of(old(directory).nodes().len()) ==> r == Ok::<(), RaftError>(())
                    && final(self).commits() == old(self).commits().insert(
                    node_id@,
                    (commits_of(old(self).commits(), node_id@) + 1) as u64,
                )
                &&& ids.len() < quorum_of(old(directory).nodes().len()) ==> r == Err::<(), RaftError>(
                    RaftError::QuorumNotMet,
                ) && final(self).commits() == old(self).commits()
            },
    {
        if let Err(e) = self.check_leader(node_id) {
            return Err(e);
        }
        let nodes = directory.list_nodes();
        let ghost old_servers = old(directory).servers();
        let ghost node = node_id@;
        if !directory.append_to_server(node_id, rec) {
            return Err(RaftError::ServerNotRegistered);
        }
        let mut others: usize = 0;
        let ghost mut done: Set<Seq<char>> = Set::empty();
        let mut i: usize = 0;
        while i < nodes.len()
            invariant
                i <= nodes@.len(),
                others <= i,
                done.finite(),
                done.len() == others,
                !done.contains(node),
                forall|k: Seq<char>|
                    #[trigger] done.contains(k) <==> (exists|j: int| 0 <= j < i && #[trigger] nodes@[j]@.0 == k)
                        && k != node && old_servers.contains_key(k),
                directory.nodes() == old(directory).nodes(),
                directory.clients() == old(directory).clients(),
                old_servers.contains_key(node),
                appended_to(old_servers, directory.servers(), done.insert(node), rec@),
                node == node_id@,
                forall|a: int, b: int|
                    0 <= a < nodes@.len() && 0 <= b < nodes@.len() && a != b ==> #[trigger] nodes@[a]@.0
                        != #[trigger] nodes@[b]@.0,
            decreases nodes.len() - i,
        {
            let n = &nodes[i];
            if !str_eq(n.node_id.as_str(), node_id) {
                let ghost before = directory.servers();
                let ghost k = n.node_id@;
                assert(!done.contains(k)) by {
                    if done.contains(k) {
                        let j = choose|j: int| 0 <= j < i && #[trigger] nodes@[j]@.0 == k;
                        assert(nodes@[j]@.0 != nodes@[i as int]@.0);
                    }
                }
                if directory.append_to_server(n.node_id.as_str(), rec) {
                    proof {
                        done = done.insert(k);
                    }
                    others += 1;
                }
            }
            proof {
                assert forall|k: Seq<char>|
                    #[trigger] done.contains(k) <==> (exists|j: int| 0 <= j < i + 1 && #[trigger] nodes@[j]@.0 == k)
                        && k != node && old_servers.contains_key(k) by {
                    if (exists|j: int| 0 <= j < i + 1 && #[trigger] nodes@[j]@.0 == k) && k != node
                        && old_servers.contains_key(k) {
                        let j = choose|j: int| 0 <= j < i + 1 && #[trigger] nodes@[j]@.0 == k;
                        if j < i {
                            assert(exists|j: int| 0 <= j < i && #[trigger] nodes@[j]@.0 == k);
                        }
                    }
                    if done.contains(k) && k != nodes@[i as int]@.0 {
                        let j = choose|j: int| 0 <= j < i && #[trigger] nodes@[j]@.0 == k;
                        assert(0 <= j < i + 1);
                    }
                }
            }
            i += 1;
        }
        let ghost ids = replica_ids(old(directory).nodes(), old_servers, node);
        proof {
            assert(ids =~= done.insert(node)) by {
                assert forall|k: Seq<char>| ids.contains(k) implies done.insert(node).contains(k) by {
                    if k != node {
                        assert(old(directory).nodes().contains_key(k));
                        let j = choose|j: int| 0 <= j < nodes@.len() && #[trigger] nodes@[j]@.0 == k;
                        assert(done.contains(k));
                    }
                }
                assert forall|k: Seq<char>| done.insert(node).contains(k) implies ids.contains(k) by {
                    if k != node {
                        assert(done.contains(k));
                        let j = choose|j: int| 0 <= j < nodes@.len() && #[trigger] nodes@[j]@.0 == k;
                        assert(old(directory).nodes().contains_key(nodes@[j]@.0));
                    }
                }
            }
            assert(ids.len() == others + 1);
        }
        let quorum = quorum_size(nodes.len());
        if others >= quorum - 1 {
            let cnt = self.commit_count(node_id);
            self.commit_count.insert(node_id.to_string(), cnt + 1);
            Ok(())
        } else {
            Err(RaftError::QuorumNotMet)
        }
    }
}

} // verus!
