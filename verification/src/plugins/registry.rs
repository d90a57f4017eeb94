//! Flow control of in-process plugins, the context they are called with, and
//! the registry that keeps them in execution order.
use vstd::prelude::*;

use crate::plugin_host::routing::LoopStep;

verus! {

/// What a plugin hook asks of the message it saw.
#[derive(Clone, Copy, Debug, PartialEq, Eq, Structural)]
pub enum PluginFlow {
    /// Let the next plugins and the server handle it.
    Continue,
    /// Stop here: later plugins and the server do not see it.
    Stop,
}

/// The next step of a loop over the message hooks after one hook returned
/// `flow` (`None` when the hook failed): `Continue` goes on to the next hook,
/// `Stop` ends the loop with `Stop`, a failure ends it with the error.
pub fn hook_step(flow: Option<PluginFlow>) -> (s: LoopStep)
    ensures
        s == match flow {
            Some(PluginFlow::Continue) => LoopStep::Next,
            Some(PluginFlow::Stop) => LoopStep::Finish,
            None => LoopStep::Abort,
        },
{
    match flow {
        Some(PluginFlow::Continue) => LoopStep::Next,
        Some(PluginFlow::Stop) => LoopStep::Finish,
        None => LoopStep::Abort,
    }
}

/// The context a plugin hook is called with: the server, when the call comes
/// from one, and the client the message belongs to.
pub struct PluginContext<'a, S> {
    pub server: Option<&'a S>,
    pub client_id: &'a str,
}

impl<'a, S> PluginContext<'a, S> {
    /// A context for a message of `client_id` on `server`.
    pub fn new(server: &'a S, client_id: &'a str) -> (c: Self)
        ensures
            c.server == Some(server),
            c.client_id@ == client_id@,
    {
        PluginContext { server: Some(server), client_id }
    }

    /// A context for a call that comes from no server (system events).
    pub fn system(client_id: &'a str) -> (c: Self)
        ensures
            c.server is None,
            c.client_id@ == client_id@,
    {
        PluginContext { server: None, client_id }
    }
}

/// The priority a plugin runs with when it names none (lower runs first).
pub const DEFAULT_PLUGIN_PRIORITY: u8 = 100;

/// The priorities of a list of registered plugins.
pub open spec fn prios_of<P>(s: Seq<(u8, P)>) -> Seq<u8> {
    s.map_values(|e: (u8, P)| e.0)
}

/// Priorities in non-decreasing order.
pub open spec fn ascending(s: Seq<u8>) -> bool {
    forall|a: int, b: int| 0 <= a <= b < s.len() ==> s[a] <= s[b]
}

/// Where a plugin of priority `p` goes among `s`: after every plugin of
/// priority at most `p`, before the others.
pub open spec fn slot_for<P>(s: Seq<(u8, P)>, p: u8, k: int) -> bool {
    &&& 0 <= k <= s.len()
    &&& forall|j: int| 0 <= j < k ==> #[trigger] s[j].0 <= p
    &&& forall|j: int| k <= j < s.len() ==> #[trigger] s[j].0 > p
}

/// The plugins of a server, kept in execution order: by ascending priority,
/// and in registration order among equal priorities.
pub struct PluginRegistry<P> {
    plugins: Vec<(u8, P)>,
}

impl<P> PluginRegistry<P> {
    #[verifier::type_invariant]
    spec fn inv(self) -> bool {
        ascending(prios_of(self.plugins@))
    }

    /// The plugins with their priorities, in execution order.
    pub closed spec fn plugins(&self) -> Seq<(u8, P)> {
        self.plugins@
    }

    /// An empty registry.
    pub fn new() -> (r: Self)
        ensures
            r.plugins() == Seq::<(u8, P)>::empty(),
    {
        PluginRegistry { plugins: Vec::new() }
    }

    /// Registers `plugin` with `priority`: it runs after every plugin of
    /// priority at most `priority` and before the others.
    pub fn register(&mut self, plugin: P, priority: u8)
        ensures
            exists|k: int| slot_for(old(self).plugins(), priority, k)
                && final(self).plugins() == old(self).plugins().insert(k, (priority, plugin)),
            ascending(prios_of(final(self).plugins())),
    {
        proof {
            use_type_invariant(&*self);
        }
        let mut list: Vec<(u8, P)> = Vec::new();
        std::mem::swap(&mut list, &mut self.plugins);
        let mut k: usize = 0;
        while k < list.len() && list[k].0 <= priority
            invariant
                k <= list@.len(),
                list@ == old(self).plugins(),
                ascending(prios_of(list@)),
                forall|j: int| 0 <= j < k ==> #[trigger] list@[j].0 <= priority,
            decreases list.len() - k,
        {
            k += 1;
        }
        proof {
            assert forall|j: int| k <= j < list@.len() implies #[trigger] list@[j].0 > priority by {
                assert(prios_of(list@)[k as int] <= prios_of(list@)[j]);
            }
        }
        let ghost before = list@;
        list.insert(k, (priority, plugin));
        proof {
            assert(slot_for(before, priority, k as int));
            let ps = prios_of(list@);
            assert forall|a: int, b: int| 0 <= a <= b < ps.len() implies ps[a] <= ps[b] by {
                let pb = prios_of(before);
                if a < k && b < k {
                    assert(ps[a] == pb[a] && ps[b] == pb[b]);
                } else if a < k && b == k {
                    assert(ps[a] == pb[a]);
                } else if a < k {
                    assert(ps[a] == pb[a] && ps[b] == pb[b - 1]);
                } else if a == k && b > k {
                    assert(ps[b] == pb[b - 1]);
                    assert(before[b - 1].0 > priority);
                } else if a > k {
                    assert(ps[a] == pb[a - 1] && ps[b] == pb[b - 1]);
                }
            }
        }
        self.plugins = list;
    }

    /// The plugins with their priorities, in execution order.
    pub fn snapshot(&self) -> (r: &Vec<(u8, P)>)
        ensures
            r@ == self.plugins(),
            ascending(prios_of(r@)),
    {
        proof {
            use_type_invariant(self);
        }
        &self.plugins
    }
}

} // verus!
