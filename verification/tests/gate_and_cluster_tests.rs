use sha2::{Digest, Sha256};
use v_connect_im::cluster::broker::ShardBroker;
use v_connect_im::cluster::directory::Directory;
use v_connect_im::cluster::raft::{quorum_size, RaftCluster, RaftError};
use v_connect_im::cluster::raft_async::{AsyncRaftCluster, MockRaftStorage};
use v_connect_im::cluster::router::{hrw_score, hrw_select_node, NodeInfo};
use v_connect_im::storage::{MessageRecord, RecordLog};
use v_connect_im::uid_gate::UidGate;

fn rec(id: &str) -> MessageRecord {
    MessageRecord {
        message_id: id.to_string(),
        from_client_id: "A".into(),
        to_client_id: "B".into(),
        content: "{\"text\":\"raft-async\"}".into(),
        timestamp: 1,
        msg_type: "private_message".into(),
        room_id: None,
    }
}

#[test]
fn blocked_uid_is_never_allowed() {
    let mut g = UidGate::new();
    g.set_blocked("u", true);
    assert!(g.is_blocked("u"));
    assert!(!g.allow_send_to_uid_at("u", 0));
    g.set_blocked("u", false);
    assert!(g.allow_send_to_uid_at("u", 0));
}

#[test]
fn rate_limit_allows_limit_per_window_then_resets() {
    let mut g = UidGate::new();
    g.set_rate_limit_at("u", 2, 1000);
    assert!(g.allow_send_to_uid_at("u", 1000));
    assert!(g.allow_send_to_uid_at("u", 1500));
    assert!(!g.allow_send_to_uid_at("u", 1999));
    assert!(g.allow_send_to_uid_at("u", 2000));
    assert_eq!(g.rate_window("u"), Some((2, 1, 2000)));
    g.set_rate_limit_at("u", 0, 3000);
    assert_eq!(g.rate_window("u"), None);
    assert!(g.allow_send_to_uid("other"));
    g.set_rate_limit("v", 3);
    assert_eq!(g.rate_window("v").map(|w| (w.0, w.1)), Some((3, 0)));
    g.set_rate_limit("v", 0);
    assert_eq!(g.rate_window("v"), None);
}

#[test]
fn broker_enqueues_each_id_once() {
    let mut b = ShardBroker::new();
    assert!(b.should_enqueue("m1"));
    assert!(!b.should_enqueue("m1"));
    assert!(b.should_enqueue("m2"));
}

#[test]
fn quorum_is_a_majority() {
    assert_eq!(quorum_size(0), 1);
    assert_eq!(quorum_size(1), 1);
    assert_eq!(quorum_size(2), 2);
    assert_eq!(quorum_size(3), 2);
    assert_eq!(quorum_size(4), 3);
}

#[test]
fn raft_cluster_refuses_non_leaders_and_counts_commits() {
    let mut c = RaftCluster::new("node-A".to_string());
    assert_eq!(c.check_leader("node-B"), Err(RaftError::NotLeader));
    assert_eq!(c.check_leader("node-A"), Ok(()));
    let mut dir: Directory<RecordLog> = Directory::new();
    for id in ["node-A", "node-B", "node-C"] {
        dir.register_node(NodeInfo { node_id: id.to_string(), weight: 1, is_alive: true });
    }
    assert_eq!(c.append_entry_as("node-B", &rec("m0"), &mut dir), Err(RaftError::NotLeader));
    assert_eq!(c.append_entry_as("node-A", &rec("m0"), &mut dir), Err(RaftError::ServerNotRegistered));
    dir.register_server("node-A", RecordLog::new());
    assert_eq!(c.append_entry_as("node-A", &rec("m1"), &mut dir), Err(RaftError::QuorumNotMet));
    assert_eq!(c.commit_count("node-A"), 0);
    assert_eq!(dir.get_server("node-A").map(|l| l.len()), Some(1));
    dir.register_server("node-C", RecordLog::new());
    assert_eq!(c.append_entry_as("node-A", &rec("m2"), &mut dir), Ok(()));
    assert_eq!(c.commit_count("node-A"), 1);
    assert_eq!(dir.get_server("node-A").map(|l| l.len()), Some(2));
    assert_eq!(dir.get_server("node-C").map(|l| l.len()), Some(1));
    c.set_leader("node-B".to_string());
    assert_eq!(c.get_leader(), "node-B");
    assert_eq!(RaftError::NotLeader.message(), "not leader");
    assert_eq!(RaftError::QuorumNotMet.message(), "replication quorum not met");
    assert_eq!(RaftError::ServerNotRegistered.message(), "server not registered");
    assert_eq!(RaftError::LeaderNotFound.message(), "leader not found");
}

#[test]
fn test_async_raft_three_nodes_election_and_replication() {
    let mut cluster = AsyncRaftCluster::new();
    cluster.add_node("node-1", RecordLog::new());
    cluster.add_node("node-2", RecordLog::new());
    cluster.add_node("node-3", RecordLog::new());
    cluster.elect("node-2");
    let r = rec("m1");
    let ok = cluster.write("node-2", &r);
    assert!(ok.is_ok());
    let err = cluster.write("node-1", &r);
    assert!(err.is_err());
    assert!(cluster.install_snapshot_from_leader("/tmp/vc_async_raft").is_ok());
}

#[test]
fn snapshot_needs_a_known_leader() {
    let mut cluster = AsyncRaftCluster::new();
    cluster.add_node("node-1", RecordLog::new());
    cluster.elect("node-9");
    assert_eq!(cluster.install_snapshot_from_leader("/tmp/vc_async_raft"), Err(RaftError::LeaderNotFound));
    let empty = AsyncRaftCluster::new();
    let mut empty = empty;
    empty.elect("x");
    assert_eq!(empty.write("x", &rec("m")), Err(RaftError::QuorumNotMet));
}

#[test]
fn mock_storage_counts_appends() {
    let mut s = MockRaftStorage::new(RecordLog::new());
    assert_eq!(s.append(&rec("a")), Ok(1));
    assert_eq!(s.append(&rec("b")), Ok(2));
    assert_eq!(s.storage.len(), 2);
    assert_eq!(s.last_index, 2);
}

#[test]
fn snapshot_copies_the_leader_log_to_followers() {
    let mut leader_log = RecordLog::new();
    leader_log.append(&rec("old-1"));
    leader_log.append(&rec("old-2"));
    let mut cluster = AsyncRaftCluster::new();
    cluster.add_node("L", leader_log);
    cluster.add_node("F", RecordLog::new());
    cluster.elect("L");
    assert_eq!(cluster.install_snapshot_from_leader("/tmp/vc_async_raft").unwrap(), "/tmp/vc_async_raft-L.snap");
    cluster.net.elect("F");
    cluster.write("F", &rec("new")).unwrap();
    cluster.install_snapshot_from_leader("/tmp/vc_async_raft").unwrap();
    // "L" now follows "F", whose log was the leader's two records plus "new".
    cluster.net.elect("L");
    assert!(cluster.install_snapshot_from_leader("/tmp/vc_async_raft").is_ok());
}

#[test]
fn directory_locates_registered_clients() {
    let mut d: Directory<u8> = Directory::new();
    d.register_node(NodeInfo { node_id: "n1".into(), weight: 1, is_alive: true });
    d.register_client_location("c1", "n1");
    d.register_server("n1", 7);
    assert_eq!(d.locate_client("c1"), Some("n1".to_string()));
    assert_eq!(d.locate_client("c2"), None);
    assert_eq!(d.get_server("n1"), Some(&7));
    d.mark_alive("n1", false);
    assert!(!d.list_nodes()[0].is_alive);
}

#[test]
fn hrw_score_is_the_sha256_prefix_times_weight() {
    let node = NodeInfo { node_id: "node-1".into(), weight: 3, is_alive: true };
    let mut h = Sha256::new();
    h.update(b"user-42");
    h.update(b"node-1");
    let d = h.finalize();
    let mut b = [0u8; 16];
    b.copy_from_slice(&d[0..16]);
    let expected = u128::from_le_bytes(b).wrapping_mul(3);
    assert_eq!(hrw_score("user-42", &node), expected);
}

#[test]
fn hrw_selects_the_best_alive_node() {
    let nodes = vec![
        NodeInfo { node_id: "a".into(), weight: 1, is_alive: true },
        NodeInfo { node_id: "b".into(), weight: 1, is_alive: false },
        NodeInfo { node_id: "c".into(), weight: 1, is_alive: true },
    ];
    let picked = hrw_select_node("key", &nodes).unwrap();
    assert!(picked.is_alive);
    let sa = hrw_score("key", &nodes[0]);
    let sc = hrw_score("key", &nodes[2]);
    let expected = if sc > sa { "c" } else { "a" };
    assert_eq!(picked.node_id, expected);
    assert!(hrw_select_node("key", &vec![]).is_none());
    let dead = vec![NodeInfo { node_id: "a".into(), weight: 1, is_alive: false }];
    assert!(hrw_select_node("key", &dead).is_none());
}
