//! De-duplication of recently seen message ids.
use vstd::prelude::*;

use crate::collections::StrSet;

verus! {

/// Remembers the ids it has seen, so each is enqueued only once.
pub struct ShardBroker {
    recent_ids: StrSet,
}

impl ShardBroker {
    /// The ids seen so far.
    pub closed spec fn seen(&self) -> Set<Seq<char>> {
        self.recent_ids@
    }

    /// A broker that has seen nothing.
    pub fn new() -> (b: Self)
        ensures
            b.seen() == Set::<Seq<char>>::empty(),
    {
        ShardBroker { recent_ids: StrSet::new() }
    }

    /// Whether `id` should be enqueued: true the first time it is seen, false after.
    pub fn should_enqueue(&mut self, id: &str) -> (r: bool)
        ensures
            (r, final(self).seen()) == enqueue_step(old(self).seen(), id@),
    {
        if self.recent_ids.contains(id) {
            assert(old(self).seen().insert(id@) =~= old(self).seen());
            return false;
        }
        self.recent_ids.insert(id.to_string());
        true
    }
}

/// One de-duplication step: whether `id` is new, and the ids seen afterwards.
pub open spec fn enqueue_step(seen: Set<Seq<char>>, id: Seq<char>) -> (bool, Set<Seq<char>>) {
    (!seen.contains(id), seen.insert(id))
}

/// An id is enqueued at most once: whatever was seen before, a second call
/// for the same id answers false and changes nothing.
pub proof fn lemma_enqueue_once(seen: Set<Seq<char>>, id: Seq<char>)
    ensures
        ({
            let (_, after) = enqueue_step(seen, id);
            enqueue_step(after, id) == (false, after)
        }),
{
    assert(seen.insert(id).insert(id) =~= seen.insert(id));
}

} // verus!
