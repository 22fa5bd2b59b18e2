//! The thread-lock graph: which threads and locks exist, who holds, reads,
//! writes, attempts and waits on what, as shown in visualizations.
use vstd::prelude::*;
use fxhash::{FxHashMap, FxHashSet};
use crate::fx;
use crate::relation::{Relation, pairs, image, finite_keys, rel_insert, rel_remove, rel_remove_keep, rel_image};
use crate::paths::{drop_first, drop_second, drop_seconds, drop_sources};
use crate::types::{Events, LockId, ThreadId};

verus! {

broadcast use crate::relation::lemma_pairs_image;

/// A link between a thread and a lock.
#[derive(Debug, Clone)]
pub struct GraphLink {
    /// Thread ID (source).
    pub source: ThreadId,
    /// Lock ID (target).
    pub target: LockId,
    /// Kind of relationship: "Acquired", "Read", "Write", "Attempt" or "Wait".
    pub link_type: String,
}

/// A snapshot of all threads, locks and their links.
#[derive(Debug, Clone)]
pub struct GraphState {
    /// All thread IDs in the system.
    pub threads: Vec<ThreadId>,
    /// All lock IDs in the system.
    pub locks: Vec<LockId>,
    /// Links between threads and locks.
    pub links: Vec<GraphLink>,
}

/// A link as a plain value: source, target and kind.
pub open spec fn link_view(k: GraphLink) -> (ThreadId, LockId, Seq<char>) {
    (k.source, k.target, k.link_type@)
}

/// The links of a list, as plain values.
pub open spec fn links_view(ks: Seq<GraphLink>) -> Seq<(ThreadId, LockId, Seq<char>)> {
    ks.map_values(|k: GraphLink| link_view(k))
}

/// The links `(m[k], k)` (when `value_first`) or `(k, m[k])` of kind `kind` for the keys `k` of `m`.
pub open spec fn map_links(m: Map<usize, usize>, kind: Seq<char>, value_first: bool) -> Set<(ThreadId, LockId, Seq<char>)> {
    Set::new(|e: (ThreadId, LockId, Seq<char>)| e.2 == kind && if value_first {
        m.contains_key(e.1) && m[e.1] == e.0
    } else {
        m.contains_key(e.0) && m[e.0] == e.1
    })
}

/// The links `(b, a)` (when `value_first`) or `(a, b)` of kind `kind` for the pairs `(a, b)` of `r`.
pub open spec fn rel_links(r: Set<(usize, usize)>, kind: Seq<char>, value_first: bool) -> Set<(ThreadId, LockId, Seq<char>)> {
    Set::new(|e: (ThreadId, LockId, Seq<char>)| e.2 == kind && if value_first {
        r.contains((e.1, e.0))
    } else {
        r.contains((e.0, e.1))
    })
}

/// The key side of a link: its target (when `value_first`) or its source.
pub open spec fn key_of(k: GraphLink, value_first: bool) -> usize {
    if value_first { k.target } else { k.source }
}

/// The links of `m` (see [`map_links`]), each once, in the map's own order.
pub fn links_of_map(m: &FxHashMap<usize, usize>, kind: &str, value_first: bool) -> (r: Vec<GraphLink>)
    ensures
        links_view(r@).to_set() == map_links(m@, kind@, value_first),
        links_view(r@).no_duplicates(),
{
    let keys = fx::map_keys(m);
    let mut out: Vec<GraphLink> = Vec::new();
    let mut i: usize = 0;
    while i < keys.len()
        invariant
            0 <= i <= keys.len(),
            keys@.to_set() == m@.dom(),
            keys@.no_duplicates(),
            out@.len() == i,
            forall|j: int| 0 <= j < i ==> #[trigger] link_view(out@[j]) == (if value_first {
                (m@[keys@[j]], keys@[j], kind@)
            } else {
                (keys@[j], m@[keys@[j]], kind@)
            }),
        decreases keys.len() - i,
    {
        let k = keys[i];
        proof {
            assert(keys@.to_set().contains(k)) by { assert(keys@.contains(k)); }
        }
        let v = *fx::map_get(m, k).unwrap();
        let link = if value_first {
            GraphLink { source: v, target: k, link_type: kind.to_owned() }
        } else {
            GraphLink { source: k, target: v, link_type: kind.to_owned() }
        };
        out.push(link);
        i = i + 1;
    }
    proof {
        let lv = links_view(out@);
        assert forall|e: (ThreadId, LockId, Seq<char>)| lv.to_set().contains(e) == map_links(m@, kind@, value_first).contains(e) by {
            if lv.contains(e) {
                let j = choose|j: int| 0 <= j < lv.len() && lv[j] == e;
                assert(link_view(out@[j]) == e);
                assert(keys@.to_set().contains(keys@[j]));
            }
            if map_links(m@, kind@, value_first).contains(e) {
                let key = if value_first { e.1 } else { e.0 };
                assert(keys@.to_set().contains(key));
                let j = choose|j: int| 0 <= j < keys@.len() && keys@[j] == key;
                assert(link_view(out@[j]) == e);
                assert(lv[j] == e);
            }
        }
        assert(lv.to_set() =~= map_links(m@, kind@, value_first));
        assert forall|a: int, b: int| 0 <= a < b < lv.len() implies lv[a] != lv[b] by {
            assert(link_view(out@[a]) == lv[a]);
            assert(link_view(out@[b]) == lv[b]);
        }
    }
    out
}

/// The links of `r` (see [`rel_links`]), each once, in the relation's own order.
pub fn links_of_relation(r: &Relation, kind: &str, value_first: bool) -> (out: Vec<GraphLink>)
    ensures
        links_view(out@).to_set() == rel_links(pairs(*r), kind@, value_first),
        links_view(out@).no_duplicates(),
{
    let keys = fx::map_keys(r);
    let mut out: Vec<GraphLink> = Vec::new();
    let mut i: usize = 0;
    while i < keys.len()
        invariant
            0 <= i <= keys.len(),
            keys@.to_set() == r@.dom(),
            keys@.no_duplicates(),
            links_view(out@).to_set() == rel_links(pairs(*r), kind@, value_first).filter(
                |e: (ThreadId, LockId, Seq<char>)| keys@.take(i as int).contains(if value_first { e.1 } else { e.0 })),
            links_view(out@).no_duplicates(),
            forall|j: int| 0 <= j < out@.len() ==> keys@.take(i as int).contains(#[trigger] key_of(out@[j], value_first)),
        decreases keys.len() - i,
    {
        let k = keys[i];
        proof {
            assert(keys@.to_set().contains(k)) by { assert(keys@.contains(k)); }
            assert(keys@.take(i + 1) == keys@.take(i as int).push(k));
            crate::paths::lemma_push_contains(keys@.take(i as int), k);
            assert(!keys@.take(i as int).contains(k)) by {
                if keys@.take(i as int).contains(k) {
                    let m = choose|m: int| 0 <= m < i && keys@.take(i as int)[m] == k;
                    assert(keys@[m] == keys@[i as int]);
                }
            }
        }
        let members = rel_image(r, k);
        let ghost before = out@;
        let mut j: usize = 0;
        while j < members.len()
            invariant
                0 <= j <= members.len(),
                members@.to_set() == image(*r, k),
                members@.no_duplicates(),
                out@.len() == before.len() + j,
                out@.take(before.len() as int) == before,
                forall|m: int| 0 <= m < j ==> #[trigger] link_view(out@[before.len() + m]) == (if value_first {
                    (members@[m], k, kind@)
                } else {
                    (k, members@[m], kind@)
                }),
            decreases members.len() - j,
        {
            let x = members[j];
            let link = if value_first {
                GraphLink { source: x, target: k, link_type: kind.to_owned() }
            } else {
                GraphLink { source: k, target: x, link_type: kind.to_owned() }
            };
            let ghost o0 = out@;
            out.push(link);
            proof {
                assert(out@.take(before.len() as int) =~= o0.take(before.len() as int));
            }
            j = j + 1;
        }
        proof {
            assert(out@.take(before.len() as int) =~= before);
            let lv = links_view(out@);
            let lb = links_view(before);
            assert forall|m: int| 0 <= m < before.len() implies #[trigger] lv[m] == lb[m] by {
                assert(out@[m] == before[m]);
            }
            let target_set = rel_links(pairs(*r), kind@, value_first).filter(
                |e: (ThreadId, LockId, Seq<char>)| keys@.take(i + 1).contains(if value_first { e.1 } else { e.0 }));
            assert forall|e: (ThreadId, LockId, Seq<char>)| lv.to_set().contains(e) == target_set.contains(e) by {
                if lv.contains(e) {
                    let a = choose|a: int| 0 <= a < lv.len() && lv[a] == e;
                    if a < before.len() {
                        assert(lb[a] == e);
                        assert(lb.to_set().contains(e));
                    } else {
                        let m = a - before.len();
                        assert(link_view(out@[before.len() + m]) == e);
                        assert(members@.to_set().contains(members@[m]));
                    }
                }
                if target_set.contains(e) {
                    let key = if value_first { e.1 } else { e.0 };
                    if key == k {
                        let x = if value_first { e.0 } else { e.1 };
                        assert(image(*r, k).contains(x));
                        assert(members@.to_set().contains(x));
                        let m = choose|m: int| 0 <= m < members@.len() && members@[m] == x;
                        assert(link_view(out@[before.len() + m]) == e);
                        assert(lv[before.len() + m] == e);
                    } else {
                        assert(keys@.take(i as int).contains(key));
                        assert(lb.to_set().contains(e));
                        let a = choose|a: int| 0 <= a < lb.len() && lb[a] == e;
                        assert(lv[a] == e);
                    }
                }
            }
            assert(lv.to_set() =~= target_set);
            assert forall|a: int, b: int| 0 <= a < b < lv.len() implies lv[a] != lv[b] by {
                if b < before.len() {
                    assert(lb[a] != lb[b]);
                } else if a < before.len() {
                    let kb = key_of(out@[b], value_first);
                    let ka = key_of(out@[a], value_first);
                    assert(out@[a] == before[a]);
                    assert(keys@.take(i as int).contains(ka));
                    assert(link_view(out@[before.len() + (b - before.len())]) == lv[b]);
                    assert(kb == k);
                } else {
                    assert(link_view(out@[before.len() + (a - before.len())]) == lv[a]);
                    assert(link_view(out@[before.len() + (b - before.len())]) == lv[b]);
                }
            }
            assert forall|m: int| 0 <= m < out@.len() implies keys@.take(i + 1).contains(#[trigger] key_of(out@[m], value_first)) by {
                if m < before.len() {
                    assert(out@[m] == before[m]);
                } else {
                    assert(link_view(out@[before.len() + (m - before.len())]) == lv[m]);
                }
            }
        }
        i = i + 1;
    }
    proof {
        assert(keys@.take(keys@.len() as int) =~= keys@);
        assert(links_view(out@).to_set() =~= rel_links(pairs(*r), kind@, value_first)) by {
            assert forall|e: (ThreadId, LockId, Seq<char>)| rel_links(pairs(*r), kind@, value_first).contains(e)
                implies keys@.contains(if value_first { e.1 } else { e.0 }) by {
                let key = if value_first { e.1 } else { e.0 };
                assert(r@.dom().contains(key));
                assert(keys@.to_set().contains(key));
            }
        }
    }
    out
}

/// The current thread-lock relationships, kept for visualization.
pub struct GraphLogger {
    /// The owner of each held mutex.
    pub mutex_owners: FxHashMap<LockId, ThreadId>,
    /// For each reader-writer lock, the threads that read it.
    pub rwlock_readers: Relation,
    /// The writer of each write-locked reader-writer lock.
    pub rwlock_writer: FxHashMap<LockId, ThreadId>,
    /// For each thread, the locks it is attempting to acquire.
    pub thread_attempts: Relation,
    /// For each thread, the condition variable it waits on.
    pub condvar_waiters: FxHashMap<ThreadId, LockId>,
    /// The thread that created each lock.
    pub lock_creators: FxHashMap<LockId, ThreadId>,
    /// The parent of each thread, when known.
    pub thread_parents: FxHashMap<ThreadId, ThreadId>,
    /// Every thread seen.
    pub threads: FxHashSet<ThreadId>,
    /// Every lock seen.
    pub locks: FxHashSet<LockId>,
}

/// The keys of `ks` that `m` maps to `v`.
pub open spec fn keys_mapping_to(m: Map<usize, usize>, ks: Set<usize>, v: usize) -> Set<usize> {
    ks.filter(|k: usize| m[k] == v)
}

/// The entries of `m` whose key is not in `ks` and whose value is not `v`.
pub open spec fn drop_entries(m: Map<usize, usize>, ks: Set<usize>, v: usize) -> Map<usize, usize> {
    m.restrict(m.dom().filter(|k: usize| !ks.contains(k) && m[k] != v))
}

/// The entries of `m` whose value is not in `vs`.
pub open spec fn drop_values_in(m: Map<usize, usize>, vs: Set<usize>) -> Map<usize, usize> {
    m.restrict(m.dom().filter(|k: usize| !vs.contains(m[k])))
}

impl GraphLogger {
    /// The relations have finitely many keys.
    pub open spec fn wf(&self) -> bool {
        &&& finite_keys(self.rwlock_readers)
        &&& finite_keys(self.thread_attempts)
    }

    /// The locks created by `thread_id`.
    pub open spec fn created_by(&self, thread_id: ThreadId) -> Set<LockId> {
        self.lock_creators@.dom().filter(|l: LockId| self.lock_creators@[l] == thread_id)
    }

    /// No link leaves `thread_id`: it owns, reads, writes, attempts and
    /// waits on nothing.
    pub open spec fn no_links_from(&self, thread_id: ThreadId) -> bool {
        &&& forall|l: LockId| !(#[trigger] self.mutex_owners@.contains_key(l) && self.mutex_owners@[l] == thread_id)
        &&& forall|l: LockId| !#[trigger] pairs(self.rwlock_readers).contains((l, thread_id))
        &&& forall|l: LockId| !(#[trigger] self.rwlock_writer@.contains_key(l) && self.rwlock_writer@[l] == thread_id)
        &&& forall|l: LockId| !#[trigger] pairs(self.thread_attempts).contains((thread_id, l))
        &&& !self.condvar_waiters@.contains_key(thread_id)
    }

    /// No link reaches `lock_id`: nobody owns, reads, writes, attempts or
    /// waits on it.
    pub open spec fn no_links_to(&self, lock_id: LockId) -> bool {
        &&& !self.mutex_owners@.contains_key(lock_id)
        &&& forall|t: ThreadId| !#[trigger] pairs(self.rwlock_readers).contains((lock_id, t))
        &&& !self.rwlock_writer@.contains_key(lock_id)
        &&& forall|t: ThreadId| !#[trigger] pairs(self.thread_attempts).contains((t, lock_id))
        &&& forall|t: ThreadId| !(#[trigger] self.condvar_waiters@.contains_key(t) && self.condvar_waiters@[t] == lock_id)
    }

    /// Creates an empty graph.
    pub fn new() -> (r: GraphLogger)
        ensures
            r.wf(),
            r.mutex_owners@.dom() == Set::<LockId>::empty(),
            pairs(r.rwlock_readers) == Set::<(LockId, ThreadId)>::empty(),
            r.rwlock_writer@.dom() == Set::<LockId>::empty(),
            pairs(r.thread_attempts) == Set::<(ThreadId, LockId)>::empty(),
            r.condvar_waiters@.dom() == Set::<ThreadId>::empty(),
            r.lock_creators@.dom() == Set::<LockId>::empty(),
            r.thread_parents@.dom() == Set::<ThreadId>::empty(),
            r.threads@ == Set::<ThreadId>::empty(),
            r.locks@ == Set::<LockId>::empty(),
    {
        let r = GraphLogger {
            mutex_owners: fx::map_new(),
            rwlock_readers: fx::map_new(),
            rwlock_writer: fx::map_new(),
            thread_attempts: fx::map_new(),
            condvar_waiters: fx::map_new(),
            lock_creators: fx::map_new(),
            thread_parents: fx::map_new(),
            threads: fx::set_new(),
            locks: fx::set_new(),
        };
        assert(pairs(r.rwlock_readers) =~= Set::<(LockId, ThreadId)>::empty());
        assert(pairs(r.thread_attempts) =~= Set::<(ThreadId, LockId)>::empty());
        r
    }

    /// Records a spawned thread and, when known, its parent.
    pub fn update_thread_spawn(&mut self, thread_id: ThreadId, parent_thread_id: Option<ThreadId>)
        requires
            old(self).wf(),
        ensures
            final(self).wf(),
            final(self).threads@ == old(self).threads@.insert(thread_id),
            final(self).thread_parents@ == (match parent_thread_id {
                Some(p) => old(self).thread_parents@.insert(thread_id, p),
                None => old(self).thread_parents@,
            }),
            final(self).mutex_owners == old(self).mutex_owners,
            final(self).rwlock_readers == old(self).rwlock_readers,
            final(self).rwlock_writer == old(self).rwlock_writer,
            final(self).thread_attempts == old(self).thread_attempts,
            final(self).condvar_waiters == old(self).condvar_waiters,
            final(self).lock_creators == old(self).lock_creators,
            final(self).locks == old(self).locks,
    {
        fx::set_insert(&mut self.threads, thread_id);
        match parent_thread_id {
            Some(parent_id) => {
                fx::map_insert(&mut self.thread_parents, thread_id, parent_id);
            },
            None => {},
        }
    }

    /// Removes `lock_id` from the attempts of every thread (a thread left with
    /// no attempt keeps an empty entry).
    fn forget_attempts_on(&mut self, lock_id: LockId)
        requires
            old(self).wf(),
        ensures
            final(self).wf(),
            pairs(final(self).thread_attempts) == drop_second(pairs(old(self).thread_attempts), lock_id),
            final(self).thread_attempts@.dom() == old(self).thread_attempts@.dom(),
            final(self).mutex_owners == old(self).mutex_owners,
            final(self).rwlock_readers == old(self).rwlock_readers,
            final(self).rwlock_writer == old(self).rwlock_writer,
            final(self).condvar_waiters == old(self).condvar_waiters,
            final(self).lock_creators == old(self).lock_creators,
            final(self).thread_parents == old(self).thread_parents,
            final(self).threads == old(self).threads,
            final(self).locks == old(self).locks,
    {
        let threads = fx::map_keys(&self.thread_attempts);
        let ghost p0 = pairs(self.thread_attempts);
        let mut i: usize = 0;
        while i < threads.len()
            invariant
                0 <= i <= threads.len(),
                finite_keys(self.thread_attempts),
                finite_keys(self.rwlock_readers),
                threads@.to_set() == old(self).thread_attempts@.dom(),
                self.thread_attempts@.dom() == old(self).thread_attempts@.dom(),
                p0 == pairs(old(self).thread_attempts),
                pairs(self.thread_attempts) == p0.filter(|e: (ThreadId, LockId)| !(threads@.take(i as int).contains(e.0) && e.1 == lock_id)),
                self.mutex_owners == old(self).mutex_owners,
                self.rwlock_readers == old(self).rwlock_readers,
                self.rwlock_writer == old(self).rwlock_writer,
                self.condvar_waiters == old(self).condvar_waiters,
                self.lock_creators == old(self).lock_creators,
                self.thread_parents == old(self).thread_parents,
                self.threads == old(self).threads,
                self.locks == old(self).locks,
            decreases threads.len() - i,
        {
            let t = threads[i];
            rel_remove_keep(&mut self.thread_attempts, t, lock_id);
            proof {
                assert(threads@.take(i + 1) == threads@.take(i as int).push(t));
                crate::paths::lemma_push_contains(threads@.take(i as int), t);
                assert(pairs(self.thread_attempts) =~= p0.filter(|e: (ThreadId, LockId)| !(threads@.take(i + 1).contains(e.0) && e.1 == lock_id)));
            }
            i = i + 1;
        }
        proof {
            assert(threads@.take(threads@.len() as int) =~= threads@);
            assert forall|e: (ThreadId, LockId)| p0.contains(e) implies threads@.contains(e.0) by {
                assert(threads@.to_set().contains(e.0));
            }
            assert(pairs(self.thread_attempts) =~= drop_second(pairs(old(self).thread_attempts), lock_id));
        }
    }

    /// Removes the reads, the write and the condition variable waits of
    /// `lock_id`.
    fn forget_lock_links(&mut self, lock_id: LockId)
        requires
            old(self).wf(),
        ensures
            final(self).wf(),
            pairs(final(self).rwlock_readers) == drop_first(pairs(old(self).rwlock_readers), lock_id),
            final(self).rwlock_writer@ == old(self).rwlock_writer@.remove(lock_id),
            final(self).condvar_waiters@ == drop_values_in(old(self).condvar_waiters@, set![lock_id]),
            final(self).mutex_owners == old(self).mutex_owners,
            final(self).thread_attempts == old(self).thread_attempts,
            final(self).lock_creators == old(self).lock_creators,
            final(self).thread_parents == old(self).thread_parents,
            final(self).threads == old(self).threads,
            final(self).locks == old(self).locks,
    {
        fx::map_remove(&mut self.rwlock_readers, lock_id);
        assert(pairs(self.rwlock_readers) =~= drop_first(pairs(old(self).rwlock_readers), lock_id));
        fx::map_remove(&mut self.rwlock_writer, lock_id);
        let ghost c0 = self.condvar_waiters@;
        let waiters = fx::map_keys(&self.condvar_waiters);
        let mut j: usize = 0;
        while j < waiters.len()
            invariant
                0 <= j <= waiters.len(),
                waiters@.to_set() == c0.dom(),
                waiters@.no_duplicates(),
                c0 == old(self).condvar_waiters@,
                self.condvar_waiters@ == c0.restrict(c0.dom().filter(|t: ThreadId| !waiters@.take(j as int).contains(t) || c0[t] != lock_id)),
                finite_keys(self.rwlock_readers),
                finite_keys(self.thread_attempts),
                pairs(self.rwlock_readers) == drop_first(pairs(old(self).rwlock_readers), lock_id),
                self.rwlock_writer@ == old(self).rwlock_writer@.remove(lock_id),
                self.mutex_owners == old(self).mutex_owners,
                self.thread_attempts == old(self).thread_attempts,
                self.lock_creators == old(self).lock_creators,
                self.thread_parents == old(self).thread_parents,
                self.threads == old(self).threads,
                self.locks == old(self).locks,
            decreases waiters.len() - j,
        {
            let t = waiters[j];
            proof {
                assert(waiters@.to_set().contains(t)) by { assert(waiters@.contains(t)); }
                assert(waiters@.take(j + 1) == waiters@.take(j as int).push(t));
                crate::paths::lemma_push_contains(waiters@.take(j as int), t);
                assert(!waiters@.take(j as int).contains(t)) by {
                    if waiters@.take(j as int).contains(t) {
                        let m = choose|m: int| 0 <= m < j && waiters@.take(j as int)[m] == t;
                        assert(waiters@[m] == waiters@[j as int]);
                    }
                }
            }
            let cv = *fx::map_get(&self.condvar_waiters, t).unwrap();
            if cv == lock_id {
                fx::map_remove(&mut self.condvar_waiters, t);
            }
            proof {
                assert(self.condvar_waiters@ =~= c0.restrict(c0.dom().filter(|x: ThreadId| !waiters@.take(j + 1).contains(x) || c0[x] != lock_id)));
            }
            j = j + 1;
        }
        proof {
            assert(waiters@.take(waiters@.len() as int) =~= waiters@);
            assert(self.condvar_waiters@ =~= drop_values_in(old(self).condvar_waiters@, set![lock_id]));
        }
    }

    /// Removes the reads, the writes and the condition variable wait of
    /// `thread_id`.
    fn forget_thread_links(&mut self, thread_id: ThreadId)
        requires
            old(self).wf(),
        ensures
            final(self).wf(),
            pairs(final(self).rwlock_readers) == drop_second(pairs(old(self).rwlock_readers), thread_id),
            final(self).rwlock_writer@ == drop_entries(old(self).rwlock_writer@, Set::<LockId>::empty(), thread_id),
            final(self).condvar_waiters@ == old(self).condvar_waiters@.remove(thread_id),
            final(self).mutex_owners == old(self).mutex_owners,
            final(self).thread_attempts == old(self).thread_attempts,
            final(self).lock_creators == old(self).lock_creators,
            final(self).thread_parents == old(self).thread_parents,
            final(self).threads == old(self).threads,
            final(self).locks == old(self).locks,
    {
        fx::map_remove(&mut self.condvar_waiters, thread_id);
        let locks = fx::map_keys(&self.rwlock_readers);
        let ghost p0 = pairs(self.rwlock_readers);
        let mut i: usize = 0;
        while i < locks.len()
            invariant
                0 <= i <= locks.len(),
                finite_keys(self.rwlock_readers),
                finite_keys(self.thread_attempts),
                locks@.to_set() == old(self).rwlock_readers@.dom(),
                p0 == pairs(old(self).rwlock_readers),
                forall|l: LockId| #[trigger] self.rwlock_readers@.contains_key(l) ==> old(self).rwlock_readers@.contains_key(l),
                pairs(self.rwlock_readers) == p0.filter(|e: (LockId, ThreadId)| !(locks@.take(i as int).contains(e.0) && e.1 == thread_id)),
                self.condvar_waiters@ == old(self).condvar_waiters@.remove(thread_id),
                self.rwlock_writer == old(self).rwlock_writer,
                self.mutex_owners == old(self).mutex_owners,
                self.thread_attempts == old(self).thread_attempts,
                self.lock_creators == old(self).lock_creators,
                self.thread_parents == old(self).thread_parents,
                self.threads == old(self).threads,
                self.locks == old(self).locks,
            decreases locks.len() - i,
        {
            let l = locks[i];
            rel_remove(&mut self.rwlock_readers, l, thread_id);
            proof {
                assert(locks@.take(i + 1) == locks@.take(i as int).push(l));
                crate::paths::lemma_push_contains(locks@.take(i as int), l);
                assert(pairs(self.rwlock_readers) =~= p0.filter(|e: (LockId, ThreadId)| !(locks@.take(i + 1).contains(e.0) && e.1 == thread_id)));
            }
            i = i + 1;
        }
        proof {
            assert(locks@.take(locks@.len() as int) =~= locks@);
            assert forall|e: (LockId, ThreadId)| p0.contains(e) implies locks@.contains(e.0) by {
                assert(locks@.to_set().contains(e.0));
            }
            assert(pairs(self.rwlock_readers) =~= drop_second(pairs(old(self).rwlock_readers), thread_id));
        }
        let ghost w0 = self.rwlock_writer@;
        let written = fx::map_keys(&self.rwlock_writer);
        let mut j: usize = 0;
        while j < written.len()
            invariant
                0 <= j <= written.len(),
                written@.to_set() == w0.dom(),
                written@.no_duplicates(),
                w0 == old(self).rwlock_writer@,
                self.rwlock_writer@ == w0.restrict(w0.dom().filter(|l: LockId| !written@.take(j as int).contains(l) || w0[l] != thread_id)),
                finite_keys(self.rwlock_readers),
                finite_keys(self.thread_attempts),
                pairs(self.rwlock_readers) == drop_second(pairs(old(self).rwlock_readers), thread_id),
                self.condvar_waiters@ == old(self).condvar_waiters@.remove(thread_id),
                self.mutex_owners == old(self).mutex_owners,
                self.thread_attempts == old(self).thread_attempts,
                self.lock_creators == old(self).lock_creators,
                self.thread_parents == old(self).thread_parents,
                self.threads == old(self).threads,
                self.locks == old(self).locks,
            decreases written.len() - j,
        {
            let l = written[j];
            proof {
                assert(written@.to_set().contains(l)) by { assert(written@.contains(l)); }
                assert(written@.take(j + 1) == written@.take(j as int).push(l));
                crate::paths::lemma_push_contains(written@.take(j as int), l);
                assert(!written@.take(j as int).contains(l)) by {
                    if written@.take(j as int).contains(l) {
                        let m = choose|m: int| 0 <= m < j && written@.take(j as int)[m] == l;
                        assert(written@[m] == written@[j as int]);
                    }
                }
            }
            let w = *fx::map_get(&self.rwlock_writer, l).unwrap();
            if w == thread_id {
                fx::map_remove(&mut self.rwlock_writer, l);
            }
            proof {
                assert(self.rwlock_writer@ =~= w0.restrict(w0.dom().filter(|x: LockId| !written@.take(j + 1).contains(x) || w0[x] != thread_id)));
            }
            j = j + 1;
        }
        proof {
            assert(written@.take(written@.len() as int) =~= written@);
            assert(self.rwlock_writer@ =~= drop_entries(old(self).rwlock_writer@, Set::<LockId>::empty(), thread_id));
        }
    }

    /// Records a created lock and its creator.
    pub fn update_lock_create(&mut self, lock_id: LockId, creator_thread_id: ThreadId)
        requires
            old(self).wf(),
        ensures
            final(self).wf(),
            final(self).locks@ == old(self).locks@.insert(lock_id),
            final(self).lock_creators@ == old(self).lock_creators@.insert(lock_id, creator_thread_id),
            final(self).mutex_owners == old(self).mutex_owners,
            final(self).rwlock_readers == old(self).rwlock_readers,
            final(self).rwlock_writer == old(self).rwlock_writer,
            final(self).thread_attempts == old(self).thread_attempts,
            final(self).condvar_waiters == old(self).condvar_waiters,
            final(self).thread_parents == old(self).thread_parents,
            final(self).threads == old(self).threads,
    {
        fx::set_insert(&mut self.locks, lock_id);
        fx::map_insert(&mut self.lock_creators, lock_id, creator_thread_id);
    }

    /// Forgets a destroyed lock, and every reference to it: it is no longer
    /// seen, created, owned, read, written, attempted or waited on.
    pub fn update_lock_destroy(&mut self, lock_id: LockId)
        requires
            old(self).wf(),
        ensures
            final(self).wf(),
            final(self).locks@ == old(self).locks@.remove(lock_id),
            final(self).mutex_owners@ == old(self).mutex_owners@.remove(lock_id),
            final(self).lock_creators@ == old(self).lock_creators@.remove(lock_id),
            pairs(final(self).thread_attempts) == drop_second(pairs(old(self).thread_attempts), lock_id),
            pairs(final(self).rwlock_readers) == drop_first(pairs(old(self).rwlock_readers), lock_id),
            final(self).rwlock_writer@ == old(self).rwlock_writer@.remove(lock_id),
            final(self).condvar_waiters@ == drop_values_in(old(self).condvar_waiters@, set![lock_id]),
            final(self).thread_parents == old(self).thread_parents,
            final(self).threads == old(self).threads,
            final(self).no_links_to(lock_id),
    {
        fx::set_remove(&mut self.locks, lock_id);
        fx::map_remove(&mut self.mutex_owners, lock_id);
        fx::map_remove(&mut self.lock_creators, lock_id);
        self.forget_attempts_on(lock_id);
        self.forget_lock_links(lock_id);
    }

    /// Records that `thread_id` exited: it is no longer seen; the locks it
    /// created are destroyed, with every reference to them; the locks it
    /// owned, read or wrote are released; its attempts, its condition variable
    /// wait and its parent entry go, and so do the parent entries of its
    /// children. No link is left from the thread, nor to a lock it created.
    pub fn update_thread_exit(&mut self, thread_id: ThreadId)
        requires
            old(self).wf(),
        ensures
            final(self).wf(),
            final(self).threads@ == old(self).threads@.remove(thread_id),
            final(self).locks@ == old(self).locks@.difference(old(self).created_by(thread_id)),
            final(self).lock_creators@ == old(self).lock_creators@.remove_keys(old(self).created_by(thread_id)),
            final(self).mutex_owners@ == drop_entries(old(self).mutex_owners@, old(self).created_by(thread_id), thread_id),
            pairs(final(self).thread_attempts)
                == drop_first(drop_seconds(pairs(old(self).thread_attempts), old(self).created_by(thread_id)), thread_id),
            final(self).thread_parents@ == drop_entries(old(self).thread_parents@, set![thread_id], thread_id),
            pairs(final(self).rwlock_readers)
                == drop_second(drop_sources(pairs(old(self).rwlock_readers), old(self).created_by(thread_id)), thread_id),
            final(self).rwlock_writer@ == drop_entries(old(self).rwlock_writer@, old(self).created_by(thread_id), thread_id),
            final(self).condvar_waiters@
                == drop_values_in(old(self).condvar_waiters@, old(self).created_by(thread_id)).remove(thread_id),
            final(self).no_links_from(thread_id),
            forall|l: LockId| old(self).created_by(thread_id).contains(l) ==> #[trigger] final(self).no_links_to(l),
    {
        let ghost created = old(self).created_by(thread_id);
        fx::set_remove(&mut self.threads, thread_id);
        let creators = fx::map_keys(&self.lock_creators);
        let mut locks_to_destroy: Vec<LockId> = Vec::new();
        let mut i: usize = 0;
        while i < creators.len()
            invariant
                0 <= i <= creators.len(),
                creators@.to_set() == self.lock_creators@.dom(),
                self.lock_creators == old(self).lock_creators,
                self.threads@ == old(self).threads@.remove(thread_id),
                self.locks == old(self).locks,
                self.mutex_owners == old(self).mutex_owners,
                self.thread_attempts == old(self).thread_attempts,
                self.rwlock_readers == old(self).rwlock_readers,
                self.rwlock_writer == old(self).rwlock_writer,
                self.condvar_waiters == old(self).condvar_waiters,
                self.thread_parents == old(self).thread_parents,
                locks_to_destroy@.to_set() == keys_mapping_to(self.lock_creators@, creators@.take(i as int).to_set(), thread_id),
            decreases creators.len() - i,
        {
            let l = creators[i];
            proof {
                assert(creators@.to_set().contains(l)) by { assert(creators@.contains(l)); }
                assert(creators@.take(i + 1) == creators@.take(i as int).push(l));
                crate::paths::lemma_push_contains(creators@.take(i as int), l);
            }
            let creator = *fx::map_get(&self.lock_creators, l).unwrap();
            let ghost before = locks_to_destroy@;
            if creator == thread_id {
                locks_to_destroy.push(l);
                proof { crate::paths::lemma_push_contains(before, l); }
            }
            proof {
                assert forall|x: LockId| #[trigger] locks_to_destroy@.to_set().contains(x)
                    == keys_mapping_to(self.lock_creators@, creators@.take(i + 1).to_set(), thread_id).contains(x) by {
                    assert(before.to_set().contains(x) == keys_mapping_to(self.lock_creators@, creators@.take(i as int).to_set(), thread_id).contains(x));
                    assert(creators@.take(i + 1).contains(x) == (creators@.take(i as int).contains(x) || x == l));
                }
                assert(locks_to_destroy@.to_set() =~= keys_mapping_to(self.lock_creators@, creators@.take(i + 1).to_set(), thread_id));
            }
            i = i + 1;
        }
        proof {
            assert(creators@.take(creators@.len() as int) =~= creators@);
            assert(locks_to_destroy@.to_set() =~= created);
        }
        let mut k: usize = 0;
        while k < locks_to_destroy.len()
            invariant
                self.wf(),
                0 <= k <= locks_to_destroy.len(),
                locks_to_destroy@.to_set() == created,
                created == old(self).created_by(thread_id),
                self.threads@ == old(self).threads@.remove(thread_id),
                self.locks@ == old(self).locks@.difference(locks_to_destroy@.take(k as int).to_set()),
                self.lock_creators@ == old(self).lock_creators@.remove_keys(locks_to_destroy@.take(k as int).to_set()),
                self.mutex_owners@ == old(self).mutex_owners@.remove_keys(locks_to_destroy@.take(k as int).to_set()),
                pairs(self.thread_attempts) == drop_seconds(pairs(old(self).thread_attempts), locks_to_destroy@.take(k as int).to_set()),
                pairs(self.rwlock_readers) == drop_sources(pairs(old(self).rwlock_readers), locks_to_destroy@.take(k as int).to_set()),
                self.rwlock_writer@ == old(self).rwlock_writer@.remove_keys(locks_to_destroy@.take(k as int).to_set()),
                self.condvar_waiters@ == drop_values_in(old(self).condvar_waiters@, locks_to_destroy@.take(k as int).to_set()),
                self.thread_parents == old(self).thread_parents,
            decreases locks_to_destroy.len() - k,
        {
            let l = locks_to_destroy[k];
            fx::map_remove(&mut self.lock_creators, l);
            fx::map_remove(&mut self.mutex_owners, l);
            fx::set_remove(&mut self.locks, l);
            self.forget_attempts_on(l);
            self.forget_lock_links(l);
            proof {
                assert(locks_to_destroy@.take(k + 1) == locks_to_destroy@.take(k as int).push(l));
                crate::paths::lemma_push_contains(locks_to_destroy@.take(k as int), l);
                let done = locks_to_destroy@.take(k + 1).to_set();
                assert(pairs(self.rwlock_readers) =~= drop_sources(pairs(old(self).rwlock_readers), done));
                assert(self.rwlock_writer@ =~= old(self).rwlock_writer@.remove_keys(done));
                assert(self.condvar_waiters@ =~= drop_values_in(old(self).condvar_waiters@, done));
                assert(self.locks@ =~= old(self).locks@.difference(done));
                assert(self.lock_creators@ =~= old(self).lock_creators@.remove_keys(done));
                assert(self.mutex_owners@ =~= old(self).mutex_owners@.remove_keys(done));
                assert(pairs(self.thread_attempts) =~= drop_seconds(pairs(old(self).thread_attempts), done));
            }
            k = k + 1;
        }
        proof {
            assert(locks_to_destroy@.take(locks_to_destroy@.len() as int) =~= locks_to_destroy@);
        }
        let ghost r1 = self.rwlock_readers;
        let ghost w1 = self.rwlock_writer;
        let ghost c1 = self.condvar_waiters;
        let ghost m1 = self.mutex_owners@;
        let owned = fx::map_keys(&self.mutex_owners);
        let mut j: usize = 0;
        while j < owned.len()
            invariant
                0 <= j <= owned.len(),
                owned@.to_set() == m1.dom(),
                owned@.no_duplicates(),
                m1 == old(self).mutex_owners@.remove_keys(created),
                self.mutex_owners@ == m1.restrict(m1.dom().filter(|l: LockId| !owned@.take(j as int).contains(l) || m1[l] != thread_id)),
                finite_keys(self.thread_attempts),
                finite_keys(self.rwlock_readers),
                self.threads@ == old(self).threads@.remove(thread_id),
                self.locks@ == old(self).locks@.difference(created),
                self.lock_creators@ == old(self).lock_creators@.remove_keys(created),
                pairs(self.thread_attempts) == drop_seconds(pairs(old(self).thread_attempts), created),
                self.rwlock_readers == r1,
                self.rwlock_writer == w1,
                self.condvar_waiters == c1,
                self.thread_parents == old(self).thread_parents,
            decreases owned.len() - j,
        {
            let l = owned[j];
            proof {
                assert(owned@.to_set().contains(l)) by { assert(owned@.contains(l)); }
                assert(owned@.take(j + 1) == owned@.take(j as int).push(l));
                crate::paths::lemma_push_contains(owned@.take(j as int), l);
                assert(!owned@.take(j as int).contains(l)) by {
                    if owned@.take(j as int).contains(l) {
                        let m = choose|m: int| 0 <= m < j && owned@.take(j as int)[m] == l;
                        assert(owned@[m] == owned@[j as int]);
                    }
                }
            }
            let owner = *fx::map_get(&self.mutex_owners, l).unwrap();
            if owner == thread_id {
                fx::map_remove(&mut self.mutex_owners, l);
            }
            proof {
                assert(self.mutex_owners@ =~= m1.restrict(m1.dom().filter(|x: LockId| !owned@.take(j + 1).contains(x) || m1[x] != thread_id)));
            }
            j = j + 1;
        }
        proof {
            assert(owned@.take(owned@.len() as int) =~= owned@);
            assert(self.mutex_owners@ =~= drop_entries(old(self).mutex_owners@, created, thread_id));
        }
        let ghost a1 = pairs(self.thread_attempts);
        fx::map_remove(&mut self.thread_attempts, thread_id);
        proof {
            assert(pairs(self.thread_attempts) =~= drop_first(a1, thread_id));
        }
        fx::map_remove(&mut self.thread_parents, thread_id);
        let ghost p1 = self.thread_parents@;
        let children = fx::map_keys(&self.thread_parents);
        let mut orphans: Vec<ThreadId> = Vec::new();
        let mut c: usize = 0;
        while c < children.len()
            invariant
                0 <= c <= children.len(),
                children@.to_set() == p1.dom(),
                self.thread_parents@ == p1,
                finite_keys(self.thread_attempts),
                finite_keys(self.rwlock_readers),
                a1 == drop_seconds(pairs(old(self).thread_attempts), created),
                pairs(self.thread_attempts) == drop_first(a1, thread_id),
                self.threads@ == old(self).threads@.remove(thread_id),
                self.locks@ == old(self).locks@.difference(created),
                self.lock_creators@ == old(self).lock_creators@.remove_keys(created),
                self.mutex_owners@ == drop_entries(old(self).mutex_owners@, created, thread_id),
                self.rwlock_readers == r1,
                self.rwlock_writer == w1,
                self.condvar_waiters == c1,
                orphans@.to_set() == keys_mapping_to(p1, children@.take(c as int).to_set(), thread_id),
            decreases children.len() - c,
        {
            let t = children[c];
            proof {
                assert(children@.to_set().contains(t)) by { assert(children@.contains(t)); }
                assert(children@.take(c + 1) == children@.take(c as int).push(t));
                crate::paths::lemma_push_contains(children@.take(c as int), t);
            }
            let p = *fx::map_get(&self.thread_parents, t).unwrap();
            let ghost before = orphans@;
            if p == thread_id {
                orphans.push(t);
                proof { crate::paths::lemma_push_contains(before, t); }
            }
            proof {
                assert forall|x: ThreadId| #[trigger] orphans@.to_set().contains(x)
                    == keys_mapping_to(p1, children@.take(c + 1).to_set(), thread_id).contains(x) by {
                    assert(before.to_set().contains(x) == keys_mapping_to(p1, children@.take(c as int).to_set(), thread_id).contains(x));
                    assert(children@.take(c + 1).contains(x) == (children@.take(c as int).contains(x) || x == t));
                }
                assert(orphans@.to_set() =~= keys_mapping_to(p1, children@.take(c + 1).to_set(), thread_id));
            }
            c = c + 1;
        }
        proof {
            assert(children@.take(children@.len() as int) =~= children@);
            assert(children@.to_set() == p1.dom());
        }
        let mut o: usize = 0;
        while o < orphans.len()
            invariant
                0 <= o <= orphans.len(),
                orphans@.to_set() == keys_mapping_to(p1, p1.dom(), thread_id),
                finite_keys(self.thread_attempts),
                finite_keys(self.rwlock_readers),
                a1 == drop_seconds(pairs(old(self).thread_attempts), created),
                pairs(self.thread_attempts) == drop_first(a1, thread_id),
                self.threads@ == old(self).threads@.remove(thread_id),
                self.locks@ == old(self).locks@.difference(created),
                self.lock_creators@ == old(self).lock_creators@.remove_keys(created),
                self.mutex_owners@ == drop_entries(old(self).mutex_owners@, created, thread_id),
                self.rwlock_readers == r1,
                self.rwlock_writer == w1,
                self.condvar_waiters == c1,
                self.thread_parents@ == p1.remove_keys(orphans@.take(o as int).to_set()),
            decreases orphans.len() - o,
        {
            let t = orphans[o];
            fx::map_remove(&mut self.thread_parents, t);
            proof {
                assert(orphans@.take(o + 1) == orphans@.take(o as int).push(t));
                crate::paths::lemma_push_contains(orphans@.take(o as int), t);
                assert(self.thread_parents@ =~= p1.remove_keys(orphans@.take(o + 1).to_set()));
            }
            o = o + 1;
        }
        proof {
            assert(orphans@.take(orphans@.len() as int) =~= orphans@);
            assert forall|t: ThreadId| #[trigger] self.thread_parents@.contains_key(t)
                == drop_entries(old(self).thread_parents@, set![thread_id], thread_id).contains_key(t) by {
                if t != thread_id && old(self).thread_parents@.contains_key(t) {
                    assert(p1.contains_key(t));
                    if p1[t] == thread_id {
                        assert(keys_mapping_to(p1, p1.dom(), thread_id).contains(t));
                    }
                }
            }
            assert(self.thread_parents@ =~= drop_entries(old(self).thread_parents@, set![thread_id], thread_id));
            assert(pairs(self.thread_attempts) == drop_first(drop_seconds(pairs(old(self).thread_attempts), created), thread_id));
        }
        self.forget_thread_links(thread_id);
        proof {
            assert(self.rwlock_writer@ =~= drop_entries(old(self).rwlock_writer@, created, thread_id));
            assert(self.condvar_waiters@ =~= drop_values_in(old(self).condvar_waiters@, created).remove(thread_id));
            assert(pairs(self.rwlock_readers)
                =~= drop_second(drop_sources(pairs(old(self).rwlock_readers), created), thread_id));
        }
    }
}

/// An attempt to take a lock, of any kind.
pub open spec fn is_attempt(event: Events) -> bool {
    event == Events::MutexAttempt || event == Events::RwReadAttempt || event == Events::RwWriteAttempt
}

/// A successful acquisition of a lock, of any kind.
pub open spec fn is_acquisition(event: Events) -> bool {
    event == Events::MutexAcquired || event == Events::RwReadAcquired || event == Events::RwWriteAcquired
}

/// `m` after `owner` gives up the entry of `k` (nothing changes when another thread has it).
pub open spec fn release_entry(m: Map<usize, usize>, k: usize, owner: usize) -> Map<usize, usize> {
    if m.contains_key(k) && m[k] == owner { m.remove(k) } else { m }
}

impl GraphLogger {
    /// What an event of `thread_id` on `lock_id` does to the graph (see
    /// [`GraphLogger::update_lock_event`]): `after` is the graph afterwards.
    pub open spec fn lock_event_update(&self, thread_id: ThreadId, lock_id: LockId, event: Events, after: GraphLogger) -> bool {
        &&& after.threads@ == self.threads@.insert(thread_id)
        &&& after.locks@ == self.locks@.insert(lock_id)
        &&& pairs(after.thread_attempts) == (if is_attempt(event) {
            pairs(self.thread_attempts).insert((thread_id, lock_id))
        } else if is_acquisition(event) {
            pairs(self.thread_attempts).remove((thread_id, lock_id))
        } else {
            pairs(self.thread_attempts)
        })
        &&& after.mutex_owners@ == (match event {
            Events::MutexAcquired => self.mutex_owners@.insert(lock_id, thread_id),
            Events::MutexReleased => release_entry(self.mutex_owners@, lock_id, thread_id),
            _ => self.mutex_owners@,
        })
        &&& pairs(after.rwlock_readers) == (match event {
            Events::RwReadAcquired => pairs(self.rwlock_readers).insert((lock_id, thread_id)),
            Events::RwReadReleased => pairs(self.rwlock_readers).remove((lock_id, thread_id)),
            _ => pairs(self.rwlock_readers),
        })
        &&& after.rwlock_writer@ == (match event {
            Events::RwWriteAcquired => self.rwlock_writer@.insert(lock_id, thread_id),
            Events::RwWriteReleased => release_entry(self.rwlock_writer@, lock_id, thread_id),
            _ => self.rwlock_writer@,
        })
        &&& after.condvar_waiters@ == (match event {
            Events::CondvarWaitBegin => self.condvar_waiters@.insert(thread_id, lock_id),
            Events::CondvarWaitEnd => self.condvar_waiters@.remove(thread_id),
            _ => self.condvar_waiters@,
        })
        &&& after.lock_creators == self.lock_creators
        &&& after.thread_parents == self.thread_parents
    }

    /// Updates the graph for an event of `thread_id` on `lock_id`. The thread
    /// and the lock are seen from then on. An attempt is recorded; an
    /// acquisition replaces the attempt by the ownership, read or write hold;
    /// a release ends the hold of the releasing thread; a condition variable
    /// wait begins or ends; other events change nothing else.
    pub fn update_lock_event(&mut self, thread_id: ThreadId, lock_id: LockId, event: Events)
        requires
            old(self).wf(),
        ensures
            final(self).wf(),
            old(self).lock_event_update(thread_id, lock_id, event, *final(self)),
            event == Events::MutexAttempt || event == Events::RwReadAttempt || event == Events::RwWriteAttempt
                ==> pairs(final(self).thread_attempts).contains((thread_id, lock_id)),
            event == Events::MutexAcquired || event == Events::RwReadAcquired || event == Events::RwWriteAcquired
                ==> !pairs(final(self).thread_attempts).contains((thread_id, lock_id)),
            event == Events::MutexAcquired ==> final(self).mutex_owners@.contains_key(lock_id)
                && final(self).mutex_owners@[lock_id] == thread_id,
            event == Events::RwReadAcquired ==> pairs(final(self).rwlock_readers).contains((lock_id, thread_id)),
            event == Events::RwWriteAcquired ==> final(self).rwlock_writer@.contains_key(lock_id)
                && final(self).rwlock_writer@[lock_id] == thread_id,
            event == Events::MutexReleased ==> !(final(self).mutex_owners@.contains_key(lock_id)
                && final(self).mutex_owners@[lock_id] == thread_id),
            event == Events::RwReadReleased ==> !pairs(final(self).rwlock_readers).contains((lock_id, thread_id)),
            event == Events::RwWriteReleased ==> !(final(self).rwlock_writer@.contains_key(lock_id)
                && final(self).rwlock_writer@[lock_id] == thread_id),
            event == Events::CondvarWaitBegin ==> final(self).condvar_waiters@.contains_key(thread_id)
                && final(self).condvar_waiters@[thread_id] == lock_id,
            event == Events::CondvarWaitEnd ==> !final(self).condvar_waiters@.contains_key(thread_id),
            final(self).threads@.contains(thread_id) && final(self).locks@.contains(lock_id),
    {
        fx::set_insert(&mut self.threads, thread_id);
        if !fx::set_contains(&self.locks, lock_id) {
            fx::set_insert(&mut self.locks, lock_id);
        } else {
            assert(self.locks@ =~= old(self).locks@.insert(lock_id));
        }
        match event {
            Events::MutexAttempt | Events::RwReadAttempt | Events::RwWriteAttempt => {
                rel_insert(&mut self.thread_attempts, thread_id, lock_id);
            },
            Events::MutexAcquired | Events::RwReadAcquired | Events::RwWriteAcquired => {
                rel_remove(&mut self.thread_attempts, thread_id, lock_id);
                match event {
                    Events::MutexAcquired => {
                        fx::map_insert(&mut self.mutex_owners, lock_id, thread_id);
                    },
                    Events::RwReadAcquired => {
                        rel_insert(&mut self.rwlock_readers, lock_id, thread_id);
                    },
                    _ => {
                        fx::map_insert(&mut self.rwlock_writer, lock_id, thread_id);
                    },
                }
            },
            Events::MutexReleased => {
                let is_owner = match fx::map_get(&self.mutex_owners, lock_id) {
                    Some(o) => *o == thread_id,
                    None => false,
                };
                if is_owner {
                    fx::map_remove(&mut self.mutex_owners, lock_id);
                }
            },
            Events::RwReadReleased => {
                rel_remove(&mut self.rwlock_readers, lock_id, thread_id);
            },
            Events::RwWriteReleased => {
                let is_writer = match fx::map_get(&self.rwlock_writer, lock_id) {
                    Some(w) => *w == thread_id,
                    None => false,
                };
                if is_writer {
                    fx::map_remove(&mut self.rwlock_writer, lock_id);
                }
            },
            Events::CondvarWaitBegin => {
                fx::map_insert(&mut self.condvar_waiters, thread_id, lock_id);
            },
            Events::CondvarWaitEnd => {
                fx::map_remove(&mut self.condvar_waiters, thread_id);
            },
            _ => {},
        }
    }

    /// A snapshot of the graph: every thread and lock seen, each once, and
    /// the links: first the mutex ownerships, then the reads, the writes, the
    /// attempts and the condition variable waits, each group in its map's order.
    pub fn get_current_state(&self) -> (r: GraphState)
        ensures
            r.threads@.to_set() == self.threads@,
            r.threads@.no_duplicates(),
            r.locks@.to_set() == self.locks@,
            r.locks@.no_duplicates(),
            exists|a: Seq<GraphLink>, b: Seq<GraphLink>, c: Seq<GraphLink>, d: Seq<GraphLink>, e: Seq<GraphLink>| {
                &&& r.links@ == a + b + c + d + e
                &&& #[trigger] links_view(a).to_set() == map_links(self.mutex_owners@, "Acquired"@, true)
                &&& #[trigger] links_view(b).to_set() == rel_links(pairs(self.rwlock_readers), "Read"@, true)
                &&& #[trigger] links_view(c).to_set() == map_links(self.rwlock_writer@, "Write"@, true)
                &&& #[trigger] links_view(d).to_set() == rel_links(pairs(self.thread_attempts), "Attempt"@, false)
                &&& #[trigger] links_view(e).to_set() == map_links(self.condvar_waiters@, "Wait"@, false)
                &&& links_view(a).no_duplicates() && links_view(b).no_duplicates() && links_view(c).no_duplicates()
                &&& links_view(d).no_duplicates() && links_view(e).no_duplicates()
            },
    {
        let mut links = links_of_map(&self.mutex_owners, "Acquired", true);
        let ghost a = links@;
        let mut reads = links_of_relation(&self.rwlock_readers, "Read", true);
        let ghost b = reads@;
        links.append(&mut reads);
        let mut writes = links_of_map(&self.rwlock_writer, "Write", true);
        let ghost c = writes@;
        links.append(&mut writes);
        let mut attempts = links_of_relation(&self.thread_attempts, "Attempt", false);
        let ghost d = attempts@;
        links.append(&mut attempts);
        let mut waits = links_of_map(&self.condvar_waiters, "Wait", false);
        let ghost e = waits@;
        links.append(&mut waits);
        assert(links@ == a + b + c + d + e);
        GraphState {
            threads: fx::set_to_vec(&self.threads),
            locks: fx::set_to_vec(&self.locks),
            links,
        }
    }

    /// Whether `thread_id` created `lock_id`.
    pub fn was_lock_created_by(&self, lock_id: LockId, thread_id: ThreadId) -> (r: bool)
        ensures
            r == (self.lock_creators@.contains_key(lock_id) && self.lock_creators@[lock_id] == thread_id),
    {
        match fx::map_get(&self.lock_creators, lock_id) {
            Some(c) => *c == thread_id,
            None => false,
        }
    }

    /// The parent of `thread_id`, if one is known.
    pub fn get_thread_parent(&self, thread_id: ThreadId) -> (r: Option<ThreadId>)
        ensures
            r == (if self.thread_parents@.contains_key(thread_id) { Some(self.thread_parents@[thread_id]) } else { None }),
    {
        match fx::map_get(&self.thread_parents, thread_id) {
            Some(p) => Some(*p),
            None => None,
        }
    }
}

} // verus!

verus! {

/// Law: in the thread-lock graph, when a thread attempts a mutex, acquires
/// it and releases it, the mutex ends with no owner and the thread with no
/// attempt on it, whatever the graph held for them before; nothing else of
/// the ownerships and attempts changes.
pub proof fn law_attempt_acquire_release_leaves_no_trace(g0: GraphLogger, g1: GraphLogger, g2: GraphLogger,
    g3: GraphLogger, thread_id: ThreadId, lock_id: LockId)
    requires
        g0.lock_event_update(thread_id, lock_id, Events::MutexAttempt, g1),
        g1.lock_event_update(thread_id, lock_id, Events::MutexAcquired, g2),
        g2.lock_event_update(thread_id, lock_id, Events::MutexReleased, g3),
    ensures
        g3.mutex_owners@ == g0.mutex_owners@.remove(lock_id),
        pairs(g3.thread_attempts) == pairs(g0.thread_attempts).remove((thread_id, lock_id)),
{
    assert(g3.mutex_owners@ =~= g0.mutex_owners@.remove(lock_id));
    assert(pairs(g3.thread_attempts) =~= pairs(g0.thread_attempts).remove((thread_id, lock_id)));
}

/// Law: in the thread-lock graph, when a thread attempts a lock and then
/// acquires it, whether as a mutex, for reading or for writing, the attempt
/// is gone: the attempts are those from before but for that thread and lock,
/// and the thread holds the lock in the way it acquired it.
pub proof fn law_attempt_then_acquire_replaces_attempt(g0: GraphLogger, g1: GraphLogger, g2: GraphLogger,
    thread_id: ThreadId, lock_id: LockId, attempt: Events, acquired: Events)
    requires
        (attempt == Events::MutexAttempt && acquired == Events::MutexAcquired)
            || (attempt == Events::RwReadAttempt && acquired == Events::RwReadAcquired)
            || (attempt == Events::RwWriteAttempt && acquired == Events::RwWriteAcquired),
        g0.lock_event_update(thread_id, lock_id, attempt, g1),
        g1.lock_event_update(thread_id, lock_id, acquired, g2),
    ensures
        pairs(g2.thread_attempts) == pairs(g0.thread_attempts).remove((thread_id, lock_id)),
        acquired == Events::MutexAcquired ==> g2.mutex_owners@ == g0.mutex_owners@.insert(lock_id, thread_id),
        acquired == Events::RwReadAcquired ==> pairs(g2.rwlock_readers) == pairs(g0.rwlock_readers).insert((lock_id, thread_id)),
        acquired == Events::RwWriteAcquired ==> g2.rwlock_writer@ == g0.rwlock_writer@.insert(lock_id, thread_id),
{
    assert(pairs(g2.thread_attempts) =~= pairs(g0.thread_attempts).remove((thread_id, lock_id)));
}

} // verus!
