//! An in-memory replicated log: per-node storages with a log index, a network
//! that lets only the leader write, and a cluster wrapper with snapshots.
use vstd::prelude::*;

use crate::cluster::raft::{quorum_of, quorum_size, RaftError};
use crate::collections::StrMap;
use crate::storage::{copy_records, records_view, MessageRecord, MessageRecordView, RecordLog};
use crate::text::{concat_str, str_eq};

verus! {

/// A node's storage and the index of its last appended entry.
pub struct MockRaftStorage {
    pub storage: RecordLog,
    pub last_index: u64,
}

/// A node's storage as plain values: `(records, last index)`.
pub type StorageView = (Seq<MessageRecordView>, u64);

impl View for MockRaftStorage {
    type V = StorageView;

    open spec fn view(&self) -> StorageView {
        (self.storage@, self.last_index)
    }
}

impl MockRaftStorage {
    /// Storage over `storage`, with no entry appended yet.
    pub fn new(storage: RecordLog) -> (s: Self)
        ensures
            s@ == (storage@, 0u64),
    {
        MockRaftStorage { storage, last_index: 0 }
    }

    /// Appends `rec` and returns the new last index.
    pub fn append(&mut self, rec: &MessageRecord) -> (r: Result<u64, RaftError>)
        requires
            old(self).last_index < u64::MAX,
        ensures
            final(self)@ == (old(self)@.0.push(rec@), (old(self).last_index + 1) as u64),
            r == Ok::<u64, RaftError>((old(self).last_index + 1) as u64),
    {
        self.storage.append(rec);
        self.last_index = self.last_index + 1;
        Ok(self.last_index)
    }
}

/// Every storage after `rec` is appended to it.
pub open spec fn all_appended(m: Map<Seq<char>, StorageView>, rec: MessageRecordView) -> Map<Seq<char>, StorageView> {
    Map::new(|k: Seq<char>| m.contains_key(k), |k: Seq<char>| (m[k].0.push(rec), (m[k].1 + 1) as u64))
}

/// The storages of the nodes and the current leader.
pub struct MockRaftNetwork {
    peers: StrMap<MockRaftStorage>,
    leader_id: String,
}

impl MockRaftNetwork {
    /// The storages, by node id.
    pub closed spec fn peers(&self) -> Map<Seq<char>, StorageView> {
        self.peers@.map_values(|s: MockRaftStorage| s@)
    }

    /// The leader.
    pub closed spec fn leader(&self) -> Seq<char> {
        self.leader_id@
    }

    /// A network with no nodes and an empty leader id.
    pub fn new() -> (n: Self)
        ensures
            n.peers() == Map::<Seq<char>, StorageView>::empty(),
            n.leader() == Seq::<char>::empty(),
    {
        let n = MockRaftNetwork { peers: StrMap::new(), leader_id: String::new() };
        assert(n.peers() =~= Map::<Seq<char>, StorageView>::empty());
        n
    }

    /// Adds (or replaces) the storage of `node_id`.
    pub fn register(&mut self, node_id: &str, storage: MockRaftStorage)
        ensures
            final(self).peers() == old(self).peers().insert(node_id@, storage@),
            final(self).leader() == old(self).leader(),
    {
        let ghost v = storage@;
        self.peers.insert(node_id.to_string(), storage);
        assert(self.peers() =~= old(self).peers().insert(node_id@, v));
    }

    /// Makes `node_id` the leader.
    pub fn elect(&mut self, node_id: &str)
        ensures
            final(self).leader() == node_id@,
            final(self).peers() == old(self).peers(),
    {
        self.leader_id = node_id.to_string();
    }

    /// The leader.
    pub fn leader_id(&self) -> (l: String)
        ensures
            l@ == self.leader(),
    {
        self.leader_id.clone()
    }

    /// A write by `from_node`: refused unless it is the leader; otherwise `rec`
    /// is appended to every node's storage, which succeeds when the nodes make
    /// a quorum (at least one node).
    pub fn client_write(&mut self, from_node: &str, rec: &MessageRecord) -> (r: Result<(), RaftError>)
        requires
            forall|k: Seq<char>| #[trigger] old(self).peers().contains_key(k) ==> old(self).peers()[k].1 < u64::MAX,
        ensures
            final(self).leader() == old(self).leader(),
            from_node@ != old(self).leader() ==> r == Err::<(), RaftError>(RaftError::NotLeader)
                && final(self).peers() == old(self).peers(),
            from_node@ == old(self).leader() ==> final(self).peers() == all_appended(old(self).peers(), rec@)
                && r == if old(self).peers().len() >= quorum_of(old(self).peers().len()) {
                    Ok::<(), RaftError>(())
                } else {
                    Err(RaftError::QuorumNotMet)
                },
    {
        if !str_eq(from_node, self.leader_id.as_str()) {
            return Err(RaftError::NotLeader);
        }
        let total = self.peers.len();
        let quorum = quorum_size(total);
        let ghost old_peers = self.peers@;
        let mut peers: StrMap<MockRaftStorage> = StrMap::new();
        std::mem::swap(&mut peers, &mut self.peers);
        let mut entries = peers.into_entries();
        let ghost old_entries = entries@;
        let mut acks: u64 = 0;
        let mut k: usize = 0;
        while k < entries.len()
            invariant
                k <= entries@.len(),
                entries@.len() == old_entries.len(),
                acks == k,
                old_entries.len() == old_peers.len(),
                forall|i: int| #![trigger entries@[i]] 0 <= i < entries@.len() ==> entries@[i].0 == old_entries[i].0,
                forall|i: int| #![trigger entries@[i]] 0 <= i < k ==> entries@[i].1@ == (old_entries[i].1@.0.push(rec@), (old_entries[i].1@.1 + 1) as u64),
                forall|i: int| #![trigger entries@[i]] k <= i < entries@.len() ==> entries@[i] == old_entries[i],
                forall|i: int| 0 <= i < old_entries.len() ==> #[trigger] old_peers.contains_key(old_entries[i].0@) && old_peers[old_entries[i].0@] == old_entries[i].1,
                forall|key: Seq<char>| #[trigger] old(self).peers().contains_key(key) ==> old(self).peers()[key].1 < u64::MAX,
                old(self).peers() == old_peers.map_values(|s: MockRaftStorage| s@),
            decreases entries.len() - k,
        {
            let (name, mut st) = entries.remove(k);
            proof {
                assert(old_peers.contains_key(old_entries[k as int].0@));
                assert(old(self).peers().contains_key(old_entries[k as int].0@));
            }
            let _ = st.append(rec);
            entries.insert(k, (name, st));
            acks = acks + 1;
            k += 1;
        }
        let new_peers = StrMap::from_entries(entries);
        self.peers = new_peers;
        proof {
            assert(self.peers() =~= all_appended(old(self).peers(), rec@)) by {
                assert forall|key: Seq<char>| #[trigger] self.peers().contains_key(key) == all_appended(old(self).peers(), rec@).contains_key(key) by {
                    if old_peers.contains_key(key) {
                        let i = choose|i: int| 0 <= i < old_entries.len() && #[trigger] old_entries[i].0@ == key;
                        assert(entries@[i].0@ == key);
                    }
                    if self.peers@.contains_key(key) {
                        let i = choose|i: int| 0 <= i < entries@.len() && #[trigger] entries@[i].0@ == key;
                        assert(old_peers.contains_key(old_entries[i].0@));
                    }
                }
                assert forall|key: Seq<char>| #[trigger] self.peers().contains_key(key) implies self.peers()[key] == all_appended(old(self).peers(), rec@)[key] by {
                    let i = choose|i: int| 0 <= i < entries@.len() && #[trigger] entries@[i].0@ == key;
                    assert(old_peers.contains_key(old_entries[i].0@));
                }
            }
            assert(old(self).peers().dom() =~= old_peers.dom());
            assert(acks == old(self).peers().len());
        }
        if acks >= quorum as u64 {
            Ok(())
        } else {
            Err(RaftError::QuorumNotMet)
        }
    }
}


/// The path of the snapshot file of `leader` under `prefix`.
pub open spec fn snapshot_path(prefix: Seq<char>, leader: Seq<char>) -> Seq<char> {
    prefix + "-"@ + leader + ".snap"@
}

/// Every storage but the leader's after taking the leader's records; log
/// indexes stay as they were.
pub open spec fn snapshot_installed(m: Map<Seq<char>, StorageView>, leader: Seq<char>) -> Map<Seq<char>, StorageView> {
    Map::new(
        |k: Seq<char>| m.contains_key(k),
        |k: Seq<char>| if k == leader { m[k] } else { (m[leader].0, m[k].1) },
    )
}

impl MockRaftNetwork {
    /// Copies the leader's records over every other node's records. Refused
    /// when the leader has no storage here.
    pub fn install_leader_snapshot(&mut self) -> (r: Result<(), RaftError>)
        ensures
            final(self).leader() == old(self).leader(),
            !old(self).peers().contains_key(old(self).leader()) ==> r == Err::<(), RaftError>(RaftError::LeaderNotFound)
                && final(self).peers() == old(self).peers(),
            old(self).peers().contains_key(old(self).leader()) ==> r == Ok::<(), RaftError>(())
                && final(self).peers() == snapshot_installed(old(self).peers(), old(self).leader()),
    {
        let snap = match self.peers.get(self.leader_id.as_str()) {
            Some(st) => st.storage.snapshot(),
            None => {
                return Err(RaftError::LeaderNotFound);
            },
        };
        let ghost leader = self.leader_id@;
        let ghost old_peers = self.peers@;
        let ghost leader_records = old(self).peers()[leader].0;
        assert(records_view(snap@) == leader_records);
        let mut peers: StrMap<MockRaftStorage> = StrMap::new();
        std::mem::swap(&mut peers, &mut self.peers);
        let mut entries = peers.into_entries();
        let ghost old_entries = entries@;
        let mut k: usize = 0;
        while k < entries.len()
            invariant
                k <= entries@.len(),
                entries@.len() == old_entries.len(),
                records_view(snap@) == leader_records,
                self.leader_id@ == leader,
                forall|i: int| #![trigger entries@[i]] 0 <= i < entries@.len() ==> entries@[i].0 == old_entries[i].0,
                forall|i: int| #![trigger entries@[i]] 0 <= i < k ==> entries@[i].1@ == (
                    if old_entries[i].0@ == leader { old_entries[i].1@ } else { (leader_records, old_entries[i].1@.1) }),
                forall|i: int| #![trigger entries@[i]] k <= i < entries@.len() ==> entries@[i] == old_entries[i],
            decreases entries.len() - k,
        {
            let (name, mut st) = entries.remove(k);
            if !str_eq(name.as_str(), self.leader_id.as_str()) {
                st.storage.restore(copy_records(&snap));
            }
            entries.insert(k, (name, st));
            k += 1;
        }
        self.peers = StrMap::from_entries(entries);
        proof {
            let target = snapshot_installed(old(self).peers(), leader);
            assert(old(self).peers() == old_peers.map_values(|s: MockRaftStorage| s@));
            assert forall|key: Seq<char>| #[trigger] self.peers().contains_key(key) == target.contains_key(key) by {
                if old_peers.contains_key(key) {
                    let i = choose|i: int| 0 <= i < old_entries.len() && #[trigger] old_entries[i].0@ == key;
                    assert(entries@[i].0@ == key);
                }
                if self.peers@.contains_key(key) {
                    let i = choose|i: int| 0 <= i < entries@.len() && #[trigger] entries@[i].0@ == key;
                    assert(old_peers.contains_key(old_entries[i].0@));
                }
            }
            assert forall|key: Seq<char>| #[trigger] self.peers().contains_key(key) implies self.peers()[key] == target[key] by {
                let i = choose|i: int| 0 <= i < entries@.len() && #[trigger] entries@[i].0@ == key;
                assert(old_peers.contains_key(old_entries[i].0@));
            }
            assert(self.peers() =~= target);
        }
        Ok(())
    }
}

/// A replicated log over several nodes, each with its own storage.
pub struct AsyncRaftCluster {
    pub net: MockRaftNetwork,
}

impl AsyncRaftCluster {
    /// A cluster with no nodes.
    pub fn new() -> (c: Self)
        ensures
            c.net.peers() == Map::<Seq<char>, StorageView>::empty(),
            c.net.leader() == Seq::<char>::empty(),
    {
        AsyncRaftCluster { net: MockRaftNetwork::new() }
    }

    /// Adds node `node_id` over `storage`, with no entry appended yet.
    pub fn add_node(&mut self, node_id: &str, storage: RecordLog)
        ensures
            final(self).net.peers() == old(self).net.peers().insert(node_id@, (storage@, 0u64)),
            final(self).net.leader() == old(self).net.leader(),
    {
        let s = MockRaftStorage::new(storage);
        self.net.register(node_id, s);
    }

    /// Makes `node_id` the leader.
    pub fn elect(&mut self, node_id: &str)
        ensures
            final(self).net.leader() == node_id@,
            final(self).net.peers() == old(self).net.peers(),
    {
        self.net.elect(node_id);
    }

    /// A write by `node_id`, as [`MockRaftNetwork::client_write`].
    pub fn write(&mut self, node_id: &str, rec: &MessageRecord) -> (r: Result<(), RaftError>)
        requires
            forall|k: Seq<char>| #[trigger] old(self).net.peers().contains_key(k) ==> old(self).net.peers()[k].1 < u64::MAX,
        ensures
            final(self).net.leader() == old(self).net.leader(),
            node_id@ != old(self).net.leader() ==> r == Err::<(), RaftError>(RaftError::NotLeader)
                && final(self).net.peers() == old(self).net.peers(),
            node_id@ == old(self).net.leader() ==> final(self).net.peers() == all_appended(old(self).net.peers(), rec@)
                && r == if old(self).net.peers().len() >= quorum_of(old(self).net.peers().len()) {
                    Ok::<(), RaftError>(())
                } else {
                    Err(RaftError::QuorumNotMet)
                },
    {
        self.net.client_write(node_id, rec)
    }

    /// Gives every follower the leader's records; refused when the leader is
    /// not a node of the cluster. On success the answer is the path of the
    /// leader's snapshot file, `<path_prefix>-<leader>.snap`, under which the
    /// caller keeps the leader's records (writing the file is I/O, done
    /// outside the library).
    pub fn install_snapshot_from_leader(&mut self, path_prefix: &str) -> (r: Result<String, RaftError>)
        ensures
            final(self).net.leader() == old(self).net.leader(),
            !old(self).net.peers().contains_key(old(self).net.leader()) ==> r == Err::<String, RaftError>(RaftError::LeaderNotFound)
                && final(self).net.peers() == old(self).net.peers(),
            old(self).net.peers().contains_key(old(self).net.leader()) ==> r is Ok
                && r->Ok_0@ == snapshot_path(path_prefix@, old(self).net.leader())
                && final(self).net.peers() == snapshot_installed(old(self).net.peers(), old(self).net.leader()),
    {
        let leader = self.net.leader_id();
        match self.net.install_leader_snapshot() {
            Ok(()) => {
                let head = concat_str(path_prefix, "-");
                let with_leader = concat_str(head.as_str(), leader.as_str());
                Ok(concat_str(with_leader.as_str(), ".snap"))
            },
            Err(e) => Err(e),
        }
    }
}

} // verus!

verus! {

/// A leader's write reaches every node: each log gains the record at its end
/// and its index grows by one (no node is added or lost).
pub proof fn lemma_write_reaches_every_node(m: Map<Seq<char>, StorageView>, rec: MessageRecordView)
    requires
        forall|k: Seq<char>| #[trigger] m.contains_key(k) ==> m[k].1 < u64::MAX,
    ensures
        all_appended(m, rec).dom() == m.dom(),
        forall|k: Seq<char>| #[trigger] m.contains_key(k) ==> all_appended(m, rec)[k].0 == m[k].0.push(rec)
            && all_appended(m, rec)[k].1 == m[k].1 + 1,
{
    assert(all_appended(m, rec).dom() =~= m.dom());
}

/// After a snapshot is installed every node holds the leader's records, and
/// every node keeps its own log index.
pub proof fn lemma_snapshot_makes_logs_agree(m: Map<Seq<char>, StorageView>, leader: Seq<char>)
    requires
        m.contains_key(leader),
    ensures
        snapshot_installed(m, leader).dom() == m.dom(),
        forall|k: Seq<char>| #[trigger] m.contains_key(k) ==> snapshot_installed(m, leader)[k].0 == m[leader].0
            && snapshot_installed(m, leader)[k].1 == m[k].1,
{
    assert(snapshot_installed(m, leader).dom() =~= m.dom());
}

} // verus!
