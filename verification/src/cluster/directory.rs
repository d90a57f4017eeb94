//! Directory of cluster nodes, the node each client is connected to, and the
//! server handle of each node.
use vstd::prelude::*;

use crate::cluster::router::{NodeInfo, NodeView};
use crate::collections::StrMap;
use crate::storage::{MessageRecord, RecordLog};

verus! {

/// Nodes, client locations and server handles, each keyed by id.
pub struct Directory<S> {
    nodes: StrMap<NodeInfo>,
    clients: StrMap<String>,
    servers: StrMap<S>,
}

impl<S> Directory<S> {
    #[verifier::type_invariant]
    spec fn inv(self) -> bool {
        forall|k: Seq<char>| #[trigger] self.nodes@.contains_key(k) ==> self.nodes@[k].node_id@ == k
    }

    /// Stores `info` under its own id.
    fn put_node(&mut self, info: NodeInfo)
        ensures
            final(self).nodes@ == old(self).nodes@.insert(info.node_id@, info),
            final(self).clients@ == old(self).clients@,
            final(self).servers@ == old(self).servers@,
    {
        proof {
            use_type_invariant(&*self);
        }
        let mut m: StrMap<NodeInfo> = StrMap::new();
        std::mem::swap(&mut m, &mut self.nodes);
        let key = info.node_id.clone();
        m.insert(key, info);
        self.nodes = m;
    }

    /// The known nodes, by node id.
    pub closed spec fn nodes(&self) -> Map<Seq<char>, NodeView> {
        self.nodes@.map_values(|n: NodeInfo| n@)
    }

    /// The node of each client, by client id.
    pub closed spec fn clients(&self) -> Map<Seq<char>, Seq<char>> {
        self.clients@.map_values(|n: String| n@)
    }

    /// The server handle of each node, by node id.
    pub closed spec fn servers(&self) -> Map<Seq<char>, S> {
        self.servers@
    }

    /// An empty directory.
    pub fn new() -> (d: Self)
        ensures
            d.nodes() == Map::<Seq<char>, NodeView>::empty(),
            d.clients() == Map::<Seq<char>, Seq<char>>::empty(),
            d.servers() == Map::<Seq<char>, S>::empty(),
    {
        let d = Directory { nodes: StrMap::new(), clients: StrMap::new(), servers: StrMap::new() };
        assert(d.nodes() =~= Map::<Seq<char>, NodeView>::empty());
        assert(d.clients() =~= Map::<Seq<char>, Seq<char>>::empty());
        d
    }

    /// Records (or replaces) the node `info`.
    pub fn register_node(&mut self, info: NodeInfo)
        ensures
            final(self).nodes() == old(self).nodes().insert(info@.0, info@),
            final(self).clients() == old(self).clients(),
            final(self).servers() == old(self).servers(),
    {
        let ghost v = info@;
        self.put_node(info);
        assert(self.nodes() =~= old(self).nodes().insert(v.0, v));
    }

    /// Sets whether a known node is alive; unknown nodes are ignored.
    pub fn mark_alive(&mut self, node_id: &str, alive: bool)
        ensures
            final(self).nodes() == if old(self).nodes().contains_key(node_id@) {
                old(self).nodes().insert(
                    node_id@,
                    (old(self).nodes()[node_id@].0, old(self).nodes()[node_id@].1, alive),
                )
            } else {
                old(self).nodes()
            },
            final(self).clients() == old(self).clients(),
            final(self).servers() == old(self).servers(),
    {
        proof {
            use_type_invariant(&*self);
        }
        let updated = match self.nodes.get(node_id) {
            Some(n) => Some(NodeInfo { node_id: n.node_id.clone(), weight: n.weight, is_alive: alive }),
            None => None,
        };
        match updated {
            Some(n) => {
                let ghost v = n@;
                self.put_node(n);
                assert(self.nodes() =~= old(self).nodes().insert(node_id@, v));
            },
            None => {},
        }
    }

    /// Records the server handle of a node.
    pub fn register_server(&mut self, node_id: &str, server: S)
        ensures
            final(self).servers() == old(self).servers().insert(node_id@, server),
            final(self).nodes() == old(self).nodes(),
            final(self).clients() == old(self).clients(),
    {
        proof {
            use_type_invariant(&*self);
        }
        let mut m: StrMap<S> = StrMap::new();
        std::mem::swap(&mut m, &mut self.servers);
        m.insert(node_id.to_string(), server);
        self.servers = m;
    }

    /// Records that `client_id` is connected to `node_id`.
    pub fn register_client_location(&mut self, client_id: &str, node_id: &str)
        ensures
            final(self).clients() == old(self).clients().insert(client_id@, node_id@),
            final(self).nodes() == old(self).nodes(),
            final(self).servers() == old(self).servers(),
    {
        proof {
            use_type_invariant(&*self);
        }
        let mut m: StrMap<String> = StrMap::new();
        std::mem::swap(&mut m, &mut self.clients);
        m.insert(client_id.to_string(), node_id.to_string());
        self.clients = m;
        assert(self.clients() =~= old(self).clients().insert(client_id@, node_id@));
    }

    /// The node that `client_id` is connected to.
    pub fn locate_client(&self, client_id: &str) -> (r: Option<String>)
        ensures
            match r {
                Some(n) => self.clients().contains_key(client_id@) && self.clients()[client_id@] == n@,
                None => !self.clients().contains_key(client_id@),
            },
    {
        match self.clients.get(client_id) {
            Some(n) => Some(n.clone()),
            None => None,
        }
    }

    /// Copies of all known nodes, each once, in no promised order.
    pub fn list_nodes(&self) -> (r: Vec<NodeInfo>)
        ensures
            r@.len() == self.nodes().len(),
            forall|i: int|
                0 <= i < r@.len() ==> self.nodes().contains_key(#[trigger] r@[i]@.0)
                    && r@[i]@ == self.nodes()[r@[i]@.0],
            forall|k: Seq<char>|
                #[trigger] self.nodes().contains_key(k) ==> exists|i: int|
                    0 <= i < r@.len() && #[trigger] r@[i]@.0 == k,
            forall|i: int, j: int|
                0 <= i < r@.len() && 0 <= j < r@.len() && i != j ==> #[trigger] r@[i]@.0
                    != #[trigger] r@[j]@.0,
    {
        proof {
            use_type_invariant(self);
            assert(self.nodes().dom() =~= self.nodes@.dom());
        }
        let es = self.nodes.entries();
        let mut r: Vec<NodeInfo> = Vec::new();
        let mut k: usize = 0;
        while k < es.len()
            invariant
                k <= es@.len(),
                r@.len() == k,
                forall|j: int| 0 <= j < k ==> #[trigger] r@[j]@ == es@[j].1@,
            decreases es.len() - k,
        {
            let n = &es[k].1;
            r.push(NodeInfo { node_id: n.node_id.clone(), weight: n.weight, is_alive: n.is_alive });
            k += 1;
        }
        proof {
            assert forall|i: int|
                0 <= i < r@.len() implies self.nodes().contains_key(#[trigger] r@[i]@.0)
                    && r@[i]@ == self.nodes()[r@[i]@.0] by {
                assert(self.nodes@.contains_key(es@[i].0@));
            }
            assert forall|key: Seq<char>| #[trigger] self.nodes().contains_key(key) implies exists|i: int|
                0 <= i < r@.len() && #[trigger] r@[i]@.0 == key by {
                assert(self.nodes@.contains_key(key));
                let i = choose|i: int| 0 <= i < es@.len() && es@[i].0@ == key;
                assert(self.nodes@.contains_key(es@[i].0@));
                assert(r@[i]@.0 == key);
            }
            assert forall|i: int, j: int|
                0 <= i < r@.len() && 0 <= j < r@.len() && i != j implies #[trigger] r@[i]@.0
                    != #[trigger] r@[j]@.0 by {
                assert(self.nodes@.contains_key(es@[i].0@));
                assert(self.nodes@.contains_key(es@[j].0@));
                assert(es@[i].0@ != es@[j].0@);
            }
        }
        r
    }

    /// The server handle of `node_id`.
    pub fn get_server(&self, node_id: &str) -> (r: Option<&S>)
        ensures
            match r {
                Some(s) => self.servers().contains_key(node_id@) && self.servers()[node_id@] == *s,
                None => !self.servers().contains_key(node_id@),
            },
    {
        self.servers.get(node_id)
    }
}

impl Directory<RecordLog> {
    /// Appends `rec` to the log of `node_id`'s server; `false`, and nothing
    /// changed, when the node has no server.
    pub fn append_to_server(&mut self, node_id: &str, rec: &MessageRecord) -> (stored: bool)
        ensures
            stored == old(self).servers().contains_key(node_id@),
            final(self).nodes() == old(self).nodes(),
            final(self).clients() == old(self).clients(),
            final(self).servers().dom() == old(self).servers().dom(),
            forall|k: Seq<char>|
                #[trigger] old(self).servers().contains_key(k) && k != node_id@
                    ==> final(self).servers()[k] == old(self).servers()[k],
            stored ==> final(self).servers()[node_id@]@ == old(self).servers()[node_id@]@.push(rec@),
    {
        proof {
            use_type_invariant(&*self);
        }
        let mut m: StrMap<RecordLog> = StrMap::new();
        std::mem::swap(&mut m, &mut self.servers);
        let stored = match m.remove(node_id) {
            Some(mut log) => {
                log.append(rec);
                m.insert(node_id.to_string(), log);
                true
            },
            None => false,
        };
        self.servers = m;
        assert(self.servers().dom() =~= old(self).servers().dom());
        stored
    }
}

} // verus!
