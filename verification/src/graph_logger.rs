//! A simpler thread-lock graph that follows lock attempts, acquisitions and
//! releases only.
use vstd::prelude::*;
use fxhash::{FxHashMap, FxHashSet};
use crate::fx;
use crate::logger::graph_logger::{GraphLink, GraphState, links_view, map_links, rel_links};
use crate::relation::{Relation, pairs, finite_keys, rel_insert, rel_remove_keep};
use crate::types::{LockEvent, LockId, ThreadId};

verus! {

/// The current owners and attempts of locks.
pub struct GraphLogger {
    /// The owner of each held lock.
    pub lock_owners: FxHashMap<LockId, ThreadId>,
    /// For each thread, the locks it is attempting to acquire.
    pub thread_attempts: Relation,
    /// Every thread seen.
    pub threads: FxHashSet<ThreadId>,
    /// Every lock seen.
    pub locks: FxHashSet<LockId>,
}

impl GraphLogger {
    /// The attempt relation has finitely many keys.
    pub open spec fn wf(&self) -> bool {
        finite_keys(self.thread_attempts)
    }

    /// Creates an empty graph.
    pub fn new() -> (r: GraphLogger)
        ensures
            r.wf(),
            r.lock_owners@.dom() == Set::<LockId>::empty(),
            pairs(r.thread_attempts) == Set::<(ThreadId, LockId)>::empty(),
            r.threads@ == Set::<ThreadId>::empty(),
            r.locks@ == Set::<LockId>::empty(),
    {
        let r = GraphLogger {
            lock_owners: fx::map_new(),
            thread_attempts: fx::map_new(),
            threads: fx::set_new(),
            locks: fx::set_new(),
        };
        assert(pairs(r.thread_attempts) =~= Set::<(ThreadId, LockId)>::empty());
        r
    }

    /// Updates the graph for `event` of `thread_id` on `lock_id`: both are
    /// seen; an attempt is recorded; an acquisition makes the thread the owner
    /// and ends its attempt; a release by the owner ends the ownership.
    pub fn update(&mut self, thread_id: ThreadId, lock_id: LockId, event: LockEvent)
        requires
            old(self).wf(),
        ensures
            final(self).wf(),
            final(self).threads@ == old(self).threads@.insert(thread_id),
            final(self).locks@ == old(self).locks@.insert(lock_id),
            pairs(final(self).thread_attempts) == (match event {
                LockEvent::Attempt => pairs(old(self).thread_attempts).insert((thread_id, lock_id)),
                LockEvent::Acquired => pairs(old(self).thread_attempts).remove((thread_id, lock_id)),
                LockEvent::Released => pairs(old(self).thread_attempts),
            }),
            final(self).lock_owners@ == (match event {
                LockEvent::Attempt => old(self).lock_owners@,
                LockEvent::Acquired => old(self).lock_owners@.insert(lock_id, thread_id),
                LockEvent::Released => if old(self).lock_owners@.contains_key(lock_id)
                    && old(self).lock_owners@[lock_id] == thread_id {
                    old(self).lock_owners@.remove(lock_id)
                } else {
                    old(self).lock_owners@
                },
            }),
    {
        fx::set_insert(&mut self.threads, thread_id);
        fx::set_insert(&mut self.locks, lock_id);
        match event {
            LockEvent::Attempt => {
                rel_insert(&mut self.thread_attempts, thread_id, lock_id);
            },
            LockEvent::Acquired => {
                fx::map_insert(&mut self.lock_owners, lock_id, thread_id);
                rel_remove_keep(&mut self.thread_attempts, thread_id, lock_id);
            },
            LockEvent::Released => {
                let is_owner = match fx::map_get(&self.lock_owners, lock_id) {
                    Some(o) => *o == thread_id,
                    None => false,
                };
                if is_owner {
                    fx::map_remove(&mut self.lock_owners, lock_id);
                }
            },
        }
    }

    /// A snapshot of the graph: every thread and lock seen, each once, and
    /// the links: first the ownerships, then the attempts.
    pub fn get_current_state(&self) -> (r: GraphState)
        ensures
            r.threads@.to_set() == self.threads@,
            r.threads@.no_duplicates(),
            r.locks@.to_set() == self.locks@,
            r.locks@.no_duplicates(),
            exists|a: Seq<GraphLink>, b: Seq<GraphLink>| {
                &&& r.links@ == a + b
                &&& #[trigger] links_view(a).to_set() == map_links(self.lock_owners@, "Acquired"@, true)
                &&& #[trigger] links_view(b).to_set() == rel_links(pairs(self.thread_attempts), "Attempt"@, false)
                &&& links_view(a).no_duplicates() && links_view(b).no_duplicates()
            },
    {
        let mut links = crate::logger::graph_logger::links_of_map(&self.lock_owners, "Acquired", true);
        let ghost a = links@;
        let mut attempts = crate::logger::graph_logger::links_of_relation(&self.thread_attempts, "Attempt", false);
        let ghost b = attempts@;
        links.append(&mut attempts);
        assert(links@ == a + b);
        GraphState {
            threads: fx::set_to_vec(&self.threads),
            locks: fx::set_to_vec(&self.locks),
            links,
        }
    }
}

/// Updates the graph `logger` with an event (see [`GraphLogger::update`]).
pub fn update_graph(logger: &mut GraphLogger, thread_id: ThreadId, lock_id: LockId, event: LockEvent)
    requires
        old(logger).wf(),
    ensures
        final(logger).wf(),
        final(logger).threads@ == old(logger).threads@.insert(thread_id),
        final(logger).locks@ == old(logger).locks@.insert(lock_id),
        pairs(final(logger).thread_attempts) == (match event {
            LockEvent::Attempt => pairs(old(logger).thread_attempts).insert((thread_id, lock_id)),
            LockEvent::Acquired => pairs(old(logger).thread_attempts).remove((thread_id, lock_id)),
            LockEvent::Released => pairs(old(logger).thread_attempts),
        }),
        final(logger).lock_owners@ == (match event {
            LockEvent::Attempt => old(logger).lock_owners@,
            LockEvent::Acquired => old(logger).lock_owners@.insert(lock_id, thread_id),
            LockEvent::Released => if old(logger).lock_owners@.contains_key(lock_id)
                && old(logger).lock_owners@[lock_id] == thread_id {
                old(logger).lock_owners@.remove(lock_id)
            } else {
                old(logger).lock_owners@
            },
        }),
{
    logger.update(thread_id, lock_id, event);
}

/// A snapshot of the graph `logger` (see [`GraphLogger::get_current_state`]).
pub fn get_current_graph_state(logger: &GraphLogger) -> (r: GraphState)
    ensures
        r.threads@.to_set() == logger.threads@,
        r.threads@.no_duplicates(),
        r.locks@.to_set() == logger.locks@,
        r.locks@.no_duplicates(),
        exists|a: Seq<GraphLink>, b: Seq<GraphLink>| {
            &&& r.links@ == a + b
            &&& #[trigger] links_view(a).to_set() == map_links(logger.lock_owners@, "Acquired"@, true)
            &&& #[trigger] links_view(b).to_set() == rel_links(pairs(logger.thread_attempts), "Attempt"@, false)
            &&& links_view(a).no_duplicates() && links_view(b).no_duplicates()
        },
{
    logger.get_current_state()
}

} // verus!
