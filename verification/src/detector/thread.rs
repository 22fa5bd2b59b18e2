//! Thread lifecycle tracking.
use vstd::prelude::*;
use crate::detector::Detector;
use crate::fx;
use crate::paths::drop_node;
use crate::types::{EventRecord, Events, ThreadId};

verus! {

broadcast use crate::relation::lemma_pairs_image;

impl Detector {
    /// Records that `thread_id` was spawned by `parent_id` (when known); the
    /// thread gets a node in the wait-for graph.
    pub fn on_thread_spawn(&mut self, thread_id: ThreadId, parent_id: Option<ThreadId>)
        requires
            old(self).wf(),
        ensures
            final(self).wf(),
            final(self).events@ == old(self).events@.push(EventRecord::make(thread_id, 0, Events::ThreadSpawn, parent_id, None)),
            final(self).wait_for_graph@ == old(self).wait_for_graph@,
            final(self).wait_for_graph.edges@.contains_key(thread_id),
            final(self).thread_waits_for == old(self).thread_waits_for,
            final(self).lock_waiters == old(self).lock_waiters,
            final(self).lock_order_graph == old(self).lock_order_graph,
            final(self).same_owners(old(self)),
            final(self).same_condvars(old(self)),
    {
        self.record(EventRecord::new(thread_id, 0, Events::ThreadSpawn, parent_id, None));
        self.wait_for_graph.add_node(thread_id);
    }

    /// Records that `thread_id` exits: its edges leave the wait-for graph and
    /// it holds no lock any more.
    pub fn on_thread_exit(&mut self, thread_id: ThreadId)
        requires
            old(self).wf(),
        ensures
            final(self).wf(),
            final(self).events@ == old(self).events@.push(EventRecord::make(thread_id, 0, Events::ThreadExit, None, None)),
            final(self).wait_for_graph@ == drop_node(old(self).wait_for_graph@, thread_id),
            final(self).thread_holds@ == old(self).thread_holds@.remove(thread_id),
            final(self).thread_waits_for == old(self).thread_waits_for,
            final(self).lock_waiters == old(self).lock_waiters,
            final(self).lock_order_graph == old(self).lock_order_graph,
            final(self).mutex_owners == old(self).mutex_owners,
            final(self).rwlock_readers == old(self).rwlock_readers,
            final(self).rwlock_writer == old(self).rwlock_writer,
            final(self).same_condvars(old(self)),
    {
        self.record(EventRecord::new(thread_id, 0, Events::ThreadExit, None, None));
        self.wait_for_graph.remove_thread(thread_id);
        fx::map_remove(&mut self.thread_holds, thread_id);
    }
}

/// Records a thread spawn (see [`Detector::on_thread_spawn`]).
pub fn on_thread_spawn(detector: &mut Detector, thread_id: ThreadId, parent_id: Option<ThreadId>)
    requires
        old(detector).wf(),
    ensures
        final(detector).wf(),
        final(detector).events@ == old(detector).events@.push(EventRecord::make(thread_id, 0, Events::ThreadSpawn, parent_id, None)),
        final(detector).wait_for_graph@ == old(detector).wait_for_graph@,
        final(detector).wait_for_graph.edges@.contains_key(thread_id),
        final(detector).thread_waits_for == old(detector).thread_waits_for,
        final(detector).lock_waiters == old(detector).lock_waiters,
        final(detector).lock_order_graph == old(detector).lock_order_graph,
        final(detector).same_owners(old(detector)),
        final(detector).same_condvars(old(detector)),
{
    detector.on_thread_spawn(thread_id, parent_id)
}

/// Records a thread exit (see [`Detector::on_thread_exit`]).
pub fn on_thread_exit(detector: &mut Detector, thread_id: ThreadId)
    requires
        old(detector).wf(),
    ensures
        final(detector).wf(),
        final(detector).events@ == old(detector).events@.push(EventRecord::make(thread_id, 0, Events::ThreadExit, None, None)),
        final(detector).wait_for_graph@ == drop_node(old(detector).wait_for_graph@, thread_id),
        final(detector).thread_holds@ == old(detector).thread_holds@.remove(thread_id),
        final(detector).thread_waits_for == old(detector).thread_waits_for,
        final(detector).lock_waiters == old(detector).lock_waiters,
        final(detector).lock_order_graph == old(detector).lock_order_graph,
        final(detector).mutex_owners == old(detector).mutex_owners,
        final(detector).rwlock_readers == old(detector).rwlock_readers,
        final(detector).rwlock_writer == old(detector).rwlock_writer,
        final(detector).same_condvars(old(detector)),
{
    detector.on_thread_exit(thread_id)
}

} // verus!
