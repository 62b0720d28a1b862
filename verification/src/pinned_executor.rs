//! Which plugin runs on which execution thread.
//!
//! Plugins are pinned to threads: a plugin's jobs always run on the thread it
//! was given when it was registered. The pool starts with one thread, grows
//! when every thread is busy (up to a maximum), and drops the threads that
//! no plugin uses any more (thread 0 always stays). The threads themselves,
//! their job channels and their busy counters belong to the caller; this
//! module keeps the assignments and decides where a plugin goes and which
//! threads are shut down.

use std::collections::HashMap;
use std::collections::HashSet;
use vstd::prelude::*;

verus! {

broadcast use vstd::std_specs::hash::group_hash_axioms;

/// The assignment of plugins to execution threads.
pub struct PinnedExecutor {
    /// One slot per thread index ever used: `true` while the thread runs.
    pub execution_threads: Vec<bool>,
    /// The thread each registered plugin is pinned to.
    pub plugin_assignments: HashMap<u32, usize>,
    /// The plugins pinned to each thread.
    pub thread_plugins: HashMap<usize, HashSet<u32>>,
    /// The index the next spawned thread gets.
    pub next_thread_idx: usize,
    /// The most threads the pool may have.
    pub max_threads: usize,
}

/// Whether thread `i` was reported busy (a missing entry is not busy).
pub open spec fn is_busy(busy: Seq<bool>, i: int) -> bool {
    0 <= i < busy.len() && busy[i]
}

impl PinnedExecutor {
    /// Whether the thread with index `i` is running.
    pub open spec fn alive(&self, i: int) -> bool {
        0 <= i < self.execution_threads@.len() && self.execution_threads@[i]
    }

    /// The plugins pinned to thread `i`.
    pub open spec fn plugins_on(&self, i: usize) -> Set<u32> {
        if self.thread_plugins@.contains_key(i) {
            self.thread_plugins@[i]@
        } else {
            Set::empty()
        }
    }

    /// How many plugins are pinned to thread `i`.
    pub open spec fn load(&self, i: usize) -> nat {
        self.plugins_on(i).len()
    }

    /// The thread a plugin is pinned to, if it is registered.
    pub open spec fn assignment(&self, plugin_id: u32) -> Option<usize> {
        if self.plugin_assignments@.contains_key(plugin_id) {
            Some(self.plugin_assignments@[plugin_id])
        } else {
            None
        }
    }

    /// How many threads run.
    pub open spec fn spec_thread_count(&self) -> nat {
        self.execution_threads@.filter(|a: bool| a).len()
    }

    /// Thread 0 runs, every thread index was handed out in order and within
    /// the limit, and the two maps agree: a plugin is pinned to exactly the
    /// thread whose set holds it, and that thread runs.
    pub open spec fn wf(&self) -> bool {
        &&& self.max_threads >= 1
        &&& self.execution_threads@.len() >= 1
        &&& self.execution_threads@[0]
        &&& self.execution_threads@.len() == self.next_thread_idx
        &&& self.next_thread_idx <= self.max_threads
        &&& forall|p: u32| #[trigger]
            self.plugin_assignments@.contains_key(p) ==> self.alive(
                self.plugin_assignments@[p] as int,
            ) && self.plugins_on(self.plugin_assignments@[p]).contains(p)
        &&& forall|i: usize, p: u32| #[trigger]
            self.plugins_on(i).contains(p) ==> self.plugin_assignments@.contains_key(p)
                && self.plugin_assignments@[p] == i
        &&& forall|i: usize| #[trigger]
            self.thread_plugins@.contains_key(i) ==> self.thread_plugins@[i]@.finite()
    }

    /// A pool with thread 0 running and no plugin registered; a maximum of
    /// zero counts as one.
    pub fn new(max_threads: usize) -> (e: Self)
        ensures
            e.wf(),
            e.max_threads == if max_threads == 0 { 1 } else { max_threads },
            e.execution_threads@ == seq![true],
            e.plugin_assignments@ == Map::<u32, usize>::empty(),
            e.thread_plugins@ == Map::<usize, HashSet<u32>>::empty(),
    {
        let max_threads = if max_threads == 0 { 1 } else { max_threads };
        let mut threads: Vec<bool> = Vec::new();
        threads.push(true);
        PinnedExecutor {
            execution_threads: threads,
            plugin_assignments: HashMap::new(),
            thread_plugins: HashMap::new(),
            next_thread_idx: 1,
            max_threads,
        }
    }

    /// How many threads run.
    pub fn thread_count(&self) -> (n: usize)
        ensures
            n == self.spec_thread_count(),
    {
        let mut n: usize = 0;
        let mut i: usize = 0;
        while i < self.execution_threads.len()
            invariant
                0 <= i <= self.execution_threads@.len(),
                n == self.execution_threads@.take(i as int).filter(|a: bool| a).len(),
                n <= i,
            decreases self.execution_threads@.len() - i,
        {
            proof {
                let s = self.execution_threads@;
                assert(s.take(i + 1).drop_last() =~= s.take(i as int));
                reveal_with_fuel(Seq::<bool>::filter, 1);
            }
            if self.execution_threads[i] {
                n = n + 1;
            }
            i = i + 1;
        }
        proof {
            assert(self.execution_threads@.take(i as int) =~= self.execution_threads@);
        }
        n
    }

    /// The thread that runs a plugin's jobs: `None` when the plugin is not
    /// registered.
    pub fn thread_for_plugin(&self, plugin_id: u32) -> (t: Option<usize>)
        requires
            self.wf(),
        ensures
            t == self.assignment(plugin_id),
            t matches Some(i) ==> self.alive(i as int),
    {
        match self.plugin_assignments.get(&plugin_id) {
            Some(i) => Some(*i),
            None => None,
        }
    }

    /// Thread `i` runs and was not reported busy.
    pub open spec fn idle(&self, busy: Seq<bool>, i: int) -> bool {
        self.alive(i) && !is_busy(busy, i)
    }

    /// `i` is the first of the idle threads with the fewest plugins.
    pub open spec fn is_first_least_loaded(&self, busy: Seq<bool>, i: int) -> bool {
        &&& self.idle(busy, i)
        &&& forall|j: int| #[trigger] self.idle(busy, j) ==> self.load(i as usize) <= self.load(j as usize)
        &&& forall|j: int| 0 <= j < i && #[trigger] self.idle(busy, j) ==> self.load(j as usize) > self.load(i as usize)
    }

    /// `new` is `old` with plugin `p` pinned to thread `t` and the threads
    /// (and the limit) as `threads` says.
    pub open spec fn pinned(old: Self, new: Self, p: u32, t: usize, threads: Seq<bool>) -> bool {
        &&& new.execution_threads@ == threads
        &&& new.max_threads == old.max_threads
        &&& new.plugin_assignments@ == old.plugin_assignments@.insert(p, t)
        &&& forall|i: usize| #[trigger] new.plugins_on(i) == if i == t {
            old.plugins_on(i).insert(p)
        } else {
            old.plugins_on(i)
        }
    }

    /// How many plugins are pinned to thread `idx`.
    fn load_of(&self, idx: usize) -> (n: usize)
        requires
            self.wf(),
        ensures
            n == self.load(idx),
    {
        match self.thread_plugins.get(&idx) {
            Some(s) => s.len(),
            None => 0,
        }
    }

    /// The first of the idle threads with the fewest plugins, if any thread
    /// is idle.
    fn first_least_loaded(&self, busy: &Vec<bool>) -> (r: Option<usize>)
        requires
            self.wf(),
        ensures
            match r {
                Some(i) => self.is_first_least_loaded(busy@, i as int),
                None => forall|j: int| !#[trigger] self.idle(busy@, j),
            },
    {
        let mut best: Option<(usize, usize)> = None;
        let mut i: usize = 0;
        while i < self.execution_threads.len()
            invariant
                self.wf(),
                0 <= i <= self.execution_threads@.len(),
                match best {
                    None => forall|j: int| 0 <= j < i ==> !#[trigger] self.idle(busy@, j),
                    Some((b, l)) => {
                        &&& b < i
                        &&& l == self.load(b)
                        &&& self.idle(busy@, b as int)
                        &&& forall|j: int| 0 <= j < i && #[trigger] self.idle(busy@, j) ==> self.load(b) <= self.load(j as usize)
                        &&& forall|j: int| 0 <= j < b && #[trigger] self.idle(busy@, j) ==> self.load(j as usize) > self.load(b)
                    },
                },
            decreases self.execution_threads@.len() - i,
        {
            let is_busy = i < busy.len() && busy[i];
            if self.execution_threads[i] && !is_busy {
                let load = self.load_of(i);
                match best {
                    None => {
                        best = Some((i, load));
                    },
                    Some((_, bl)) => {
                        if load < bl {
                            best = Some((i, load));
                        }
                    },
                }
            }
            i = i + 1;
        }
        match best {
            Some((b, _)) => Some(b),
            None => None,
        }
    }

    /// Pins a plugin that is not registered to a running thread.
    fn assign(&mut self, plugin_id: u32, thread_idx: usize)
        requires
            old(self).wf(),
            !old(self).plugin_assignments@.contains_key(plugin_id),
            old(self).alive(thread_idx as int),
        ensures
            final(self).wf(),
            Self::pinned(*old(self), *final(self), plugin_id, thread_idx, old(self).execution_threads@),
            final(self).next_thread_idx == old(self).next_thread_idx,
    {
        self.plugin_assignments.insert(plugin_id, thread_idx);
        let mut set = match self.thread_plugins.remove(&thread_idx) {
            Some(s) => s,
            None => HashSet::new(),
        };
        set.insert(plugin_id);
        self.thread_plugins.insert(thread_idx, set);
        proof {
            assert forall|i: usize| #[trigger] self.plugins_on(i) == if i == thread_idx {
                old(self).plugins_on(i).insert(plugin_id)
            } else {
                old(self).plugins_on(i)
            } by {}
            assert forall|q: u32| #[trigger] self.plugin_assignments@.contains_key(q) implies self.alive(
                self.plugin_assignments@[q] as int,
            ) && self.plugins_on(self.plugin_assignments@[q]).contains(q) by {
                if q != plugin_id {
                    assert(old(self).plugin_assignments@.contains_key(q));
                    assert(old(self).plugins_on(old(self).plugin_assignments@[q]).contains(q));
                }
            }
            assert forall|i: usize, q: u32| #[trigger] self.plugins_on(i).contains(q) implies self.plugin_assignments@.contains_key(q)
                && self.plugin_assignments@[q] == i by {
                if !(i == thread_idx && q == plugin_id) {
                    assert(old(self).plugins_on(i).contains(q));
                }
            }
        }
    }

    /// Grows the thread table so that thread `thread_idx` runs.
    fn add_thread(&mut self, thread_idx: usize)
        requires
            thread_idx >= old(self).execution_threads@.len(),
        ensures
            final(self).execution_threads@.len() == thread_idx + 1,
            final(self).execution_threads@[thread_idx as int],
            forall|j: int| 0 <= j < old(self).execution_threads@.len() ==> final(self).execution_threads@[j] == old(self).execution_threads@[j],
            forall|j: int| old(self).execution_threads@.len() <= j < thread_idx ==> !final(self).execution_threads@[j],
            final(self).plugin_assignments == old(self).plugin_assignments,
            final(self).thread_plugins == old(self).thread_plugins,
            final(self).next_thread_idx == old(self).next_thread_idx,
            final(self).max_threads == old(self).max_threads,
    {
        while self.execution_threads.len() <= thread_idx
            invariant
                old(self).execution_threads@.len() <= self.execution_threads@.len() <= thread_idx + 1,
                forall|j: int| 0 <= j < old(self).execution_threads@.len() ==> self.execution_threads@[j] == old(self).execution_threads@[j],
                forall|j: int| old(self).execution_threads@.len() <= j < self.execution_threads@.len() ==> !self.execution_threads@[j],
                self.plugin_assignments == old(self).plugin_assignments,
                self.thread_plugins == old(self).thread_plugins,
                self.next_thread_idx == old(self).next_thread_idx,
                self.max_threads == old(self).max_threads,
            decreases thread_idx + 1 - self.execution_threads@.len(),
        {
            self.execution_threads.push(false);
        }
        self.execution_threads.set(thread_idx, true);
    }

    /// Pins a plugin to a thread and returns the thread's index. A plugin
    /// that is registered keeps its thread. Otherwise it goes to the first
    /// of the idle threads (running, not reported in `busy`) with the fewest
    /// plugins; when every thread is busy, to a new thread while the pool is
    /// below its limit, else to the first running thread with the fewest
    /// plugins. `busy` holds, per thread index, whether the thread has jobs
    /// in flight.
    pub fn register_plugin(&mut self, plugin_id: u32, busy: &Vec<bool>) -> (thread_idx: usize)
        requires
            old(self).wf(),
        ensures
            final(self).wf(),
            match old(self).assignment(plugin_id) {
                Some(t) => thread_idx == t && final(self).execution_threads@ == old(self).execution_threads@
                    && final(self).plugin_assignments@ == old(self).plugin_assignments@
                    && final(self).thread_plugins@ == old(self).thread_plugins@
                    && final(self).next_thread_idx == old(self).next_thread_idx
                    && final(self).max_threads == old(self).max_threads,
                None => if exists|j: int| #[trigger] old(self).idle(busy@, j) {
                    old(self).is_first_least_loaded(busy@, thread_idx as int)
                        && Self::pinned(*old(self), *final(self), plugin_id, thread_idx, old(self).execution_threads@)
                } else if old(self).execution_threads@.len() < old(self).max_threads {
                    thread_idx == old(self).execution_threads@.len()
                        && Self::pinned(*old(self), *final(self), plugin_id, thread_idx, old(self).execution_threads@.push(true))
                } else {
                    old(self).is_first_least_loaded(Seq::empty(), thread_idx as int)
                        && Self::pinned(*old(self), *final(self), plugin_id, thread_idx, old(self).execution_threads@)
                },
            },
    {
        match self.plugin_assignments.get(&plugin_id) {
            Some(t) => {
                return *t;
            },
            None => {},
        }
        let thread_idx = match self.first_least_loaded(busy) {
            Some(i) => i,
            None => {
                if self.execution_threads.len() < self.max_threads {
                    let new_idx = self.next_thread_idx;
                    self.next_thread_idx = new_idx + 1;
                    self.add_thread(new_idx);
                    proof {
                        assert(self.execution_threads@ =~= old(self).execution_threads@.push(true));
                        assert(self.execution_threads@[0]);
                        assert(self.execution_threads@.len() == self.next_thread_idx);
                        assert(self.next_thread_idx <= self.max_threads);
                        assert(forall|i: usize| #[trigger] self.plugins_on(i) == old(self).plugins_on(i));
                        assert forall|p: u32| #[trigger] self.plugin_assignments@.contains_key(p) implies self.alive(
                            self.plugin_assignments@[p] as int,
                        ) && self.plugins_on(self.plugin_assignments@[p]).contains(p) by {
                            assert(old(self).alive(old(self).plugin_assignments@[p] as int));
                        }
                    }
                    new_idx
                } else {
                    let all_idle: Vec<bool> = Vec::new();
                    match self.first_least_loaded(&all_idle) {
                        Some(i) => i,
                        None => {
                            proof {
                                assert(self.idle(all_idle@, 0));
                            }
                            0
                        },
                    }
                }
            },
        };
        self.assign(plugin_id, thread_idx);
        thread_idx
    }

    /// Thread `j` runs, is not thread 0 and has no plugin pinned to it.
    pub open spec fn removable(&self, j: int) -> bool {
        j > 0 && self.alive(j) && self.plugins_on(j as usize).is_empty()
    }

    /// The threads a shrink stops, in ascending order.
    pub open spec fn removable_threads(&self) -> Seq<usize> {
        Seq::new(self.execution_threads@.len(), |j: int| j as usize).filter(|j: usize| self.removable(j as int))
    }

    /// Stops the threads other than thread 0 that have no plugin, and
    /// returns their indices in ascending order (the caller shuts them
    /// down).
    pub fn try_shrink_pool(&mut self) -> (removed: Vec<usize>)
        requires
            old(self).wf(),
        ensures
            final(self).wf(),
            removed@ == old(self).removable_threads(),
            final(self).execution_threads@.len() == old(self).execution_threads@.len(),
            forall|j: int| 0 <= j < final(self).execution_threads@.len() ==> #[trigger] final(self).execution_threads@[j]
                == (old(self).execution_threads@[j] && !old(self).removable(j)),
            final(self).plugin_assignments@ == old(self).plugin_assignments@,
            final(self).thread_plugins@ == old(self).thread_plugins@,
            final(self).next_thread_idx == old(self).next_thread_idx,
            final(self).max_threads == old(self).max_threads,
    {
        let ghost g = *old(self);
        let ghost idx = Seq::new(g.execution_threads@.len(), |j: int| j as usize);
        let ghost pred = |j: usize| g.removable(j as int);
        let mut removed: Vec<usize> = Vec::new();
        let n = self.execution_threads.len();
        let mut i: usize = 1;
        proof {
            reveal_with_fuel(Seq::<usize>::filter, 2);
            assert(idx.take(1).drop_last() =~= idx.take(0));
            assert(idx.take(0) =~= Seq::<usize>::empty());
            assert(!g.removable(0));
        }
        while i < n
            invariant
                g.wf(),
                n == g.execution_threads@.len(),
                1 <= i <= n,
                idx == Seq::new(g.execution_threads@.len(), |j: int| j as usize),
                pred == (|j: usize| g.removable(j as int)),
                removed@ == idx.take(i as int).filter(pred),
                self.execution_threads@.len() == n,
                forall|j: int| 0 <= j < i ==> #[trigger] self.execution_threads@[j] == (g.execution_threads@[j] && !g.removable(j)),
                forall|j: int| i <= j < n ==> #[trigger] self.execution_threads@[j] == g.execution_threads@[j],
                self.plugin_assignments == g.plugin_assignments,
                self.thread_plugins == g.thread_plugins,
                self.next_thread_idx == g.next_thread_idx,
                self.max_threads == g.max_threads,
            decreases n - i,
        {
            let has_plugins = match self.thread_plugins.get(&i) {
                Some(s) => !s.is_empty(),
                None => false,
            };
            proof {
                assert(idx.take(i + 1).drop_last() =~= idx.take(i as int));
                reveal_with_fuel(Seq::<usize>::filter, 1);
                assert(idx.take(i + 1).last() == i);
                assert(has_plugins == !g.plugins_on(i).is_empty());
            }
            if self.execution_threads[i] && !has_plugins {
                removed.push(i);
                self.execution_threads.set(i, false);
            }
            i = i + 1;
        }
        proof {
            assert(idx.take(n as int) =~= idx);
            assert forall|p: u32| #[trigger] self.plugin_assignments@.contains_key(p) implies self.alive(
                self.plugin_assignments@[p] as int,
            ) && self.plugins_on(self.plugin_assignments@[p]).contains(p) by {
                let t = g.plugin_assignments@[p];
                assert(g.plugins_on(t).contains(p));
                assert(!g.plugins_on(t).is_empty());
                assert(self.execution_threads@[t as int] == (g.execution_threads@[t as int] && !g.removable(t as int)));
            }
            assert(self.execution_threads@[0] == (g.execution_threads@[0] && !g.removable(0)));
            assert(self.execution_threads@[0]);
            assert(self.execution_threads@.len() == self.next_thread_idx);
            assert(forall|j: usize| #[trigger] self.plugins_on(j) == g.plugins_on(j));
            assert forall|j: usize, q: u32| #[trigger] self.plugins_on(j).contains(q) implies self.plugin_assignments@.contains_key(q)
                && self.plugin_assignments@[q] == j by {
                assert(g.plugins_on(j).contains(q));
            }
        }
        removed
    }

    /// Forgets a plugin and then shrinks the pool; returns the threads that
    /// were stopped, in ascending order. A plugin that is not registered
    /// changes nothing but the shrink.
    pub fn unregister_plugin(&mut self, plugin_id: u32) -> (removed: Vec<usize>)
        requires
            old(self).wf(),
        ensures
            final(self).wf(),
            final(self).plugin_assignments@ == old(self).plugin_assignments@.remove(plugin_id),
            forall|i: usize| #[trigger] final(self).plugins_on(i) == old(self).plugins_on(i).remove(plugin_id),
            removed@ == Seq::new(old(self).execution_threads@.len(), |j: int| j as usize).filter(
                |j: usize| j > 0 && old(self).alive(j as int) && final(self).plugins_on(j).is_empty(),
            ),
            final(self).execution_threads@.len() == old(self).execution_threads@.len(),
            forall|j: int| 0 <= j < final(self).execution_threads@.len() ==> #[trigger] final(self).execution_threads@[j]
                == (old(self).execution_threads@[j] && !(j > 0 && final(self).plugins_on(j as usize).is_empty())),
            final(self).next_thread_idx == old(self).next_thread_idx,
            final(self).max_threads == old(self).max_threads,
    {
        self.unpin(plugin_id);
        let ghost mid = *self;
        let removed = self.try_shrink_pool();
        proof {
            assert(forall|j: usize| #[trigger] self.plugins_on(j) == mid.plugins_on(j));
            let f1 = |j: usize| mid.removable(j as int);
            let f2 = |j: usize| j > 0 && old(self).alive(j as int) && self.plugins_on(j).is_empty();
            assert(f1 =~= f2);
        }
        removed
    }

    /// Forgets a plugin's pin, leaving the threads as they are.
    fn unpin(&mut self, plugin_id: u32)
        requires
            old(self).wf(),
        ensures
            final(self).wf(),
            final(self).plugin_assignments@ == old(self).plugin_assignments@.remove(plugin_id),
            forall|i: usize| #[trigger] final(self).plugins_on(i) == old(self).plugins_on(i).remove(plugin_id),
            final(self).execution_threads@ == old(self).execution_threads@,
            final(self).next_thread_idx == old(self).next_thread_idx,
            final(self).max_threads == old(self).max_threads,
    {
        match self.plugin_assignments.remove(&plugin_id) {
            Some(idx) => {
                match self.thread_plugins.remove(&idx) {
                    Some(set) => {
                        let mut set = set;
                        set.remove(&plugin_id);
                        self.thread_plugins.insert(idx, set);
                    },
                    None => {},
                }
                proof {
                    assert forall|i: usize| #[trigger] self.plugins_on(i) == old(self).plugins_on(i).remove(plugin_id) by {
                        if i != idx {
                            if old(self).plugins_on(i).contains(plugin_id) {
                                assert(old(self).plugin_assignments@[plugin_id] == i);
                            }
                            assert(old(self).plugins_on(i).remove(plugin_id) =~= old(self).plugins_on(i));
                        } else if !old(self).thread_plugins@.contains_key(idx) {
                            assert(old(self).plugins_on(i).remove(plugin_id) =~= Set::<u32>::empty());
                        }
                    }
                }
            },
            None => {
                proof {
                    assert forall|i: usize| #[trigger] self.plugins_on(i) == old(self).plugins_on(i).remove(plugin_id) by {
                        assert(!old(self).plugins_on(i).contains(plugin_id));
                        assert(old(self).plugins_on(i).remove(plugin_id) =~= old(self).plugins_on(i));
                    }
                    assert(self.plugin_assignments@ =~= old(self).plugin_assignments@.remove(plugin_id));
                }
            },
        }
        proof {
            assert forall|q: u32| #[trigger] self.plugin_assignments@.contains_key(q) implies self.alive(
                self.plugin_assignments@[q] as int,
            ) && self.plugins_on(self.plugin_assignments@[q]).contains(q) by {
                assert(old(self).plugin_assignments@.contains_key(q));
                assert(old(self).plugins_on(old(self).plugin_assignments@[q]).contains(q));
            }
            assert forall|i: usize, q: u32| #[trigger] self.plugins_on(i).contains(q) implies self.plugin_assignments@.contains_key(q)
                && self.plugin_assignments@[q] == i by {
                assert(old(self).plugins_on(i).contains(q));
            }
        }
    }
}

proof fn lemma_count_true_bounds(s: Seq<bool>)
    requires
        s.len() >= 1,
        s[0],
    ensures
        1 <= s.filter(|a: bool| a).len() <= s.len(),
    decreases s.len(),
{
    reveal_with_fuel(Seq::<bool>::filter, 1);
    if s.len() == 1 {
        assert(s.drop_last() =~= Seq::<bool>::empty());
    } else {
        lemma_count_true_bounds(s.drop_last());
    }
}

/// The pool always runs at least one thread (thread 0) and never more than
/// its limit.
pub proof fn lemma_thread_count_within_limit(e: PinnedExecutor)
    requires
        e.wf(),
    ensures
        1 <= e.spec_thread_count() <= e.max_threads,
        e.alive(0),
{
    lemma_count_true_bounds(e.execution_threads@);
}

/// A plugin that was just pinned to a thread is found on that thread, and
/// the other plugins keep their threads.
pub proof fn lemma_pinned_plugin_is_found(old: PinnedExecutor, new: PinnedExecutor, p: u32, t: usize, threads: Seq<bool>)
    requires
        PinnedExecutor::pinned(old, new, p, t, threads),
    ensures
        new.assignment(p) == Some(t),
        forall|q: u32| q != p ==> #[trigger] new.assignment(q) == old.assignment(q),
{
}

/// Registering a plugin that was not registered and then unregistering it
/// gives back the assignments and the per-thread plugin sets from before.
pub proof fn lemma_register_then_unregister_restores(
    before: PinnedExecutor,
    registered: PinnedExecutor,
    after: PinnedExecutor,
    p: u32,
    t: usize,
    threads: Seq<bool>,
)
    requires
        before.wf(),
        !before.plugin_assignments@.contains_key(p),
        PinnedExecutor::pinned(before, registered, p, t, threads),
        after.plugin_assignments@ == registered.plugin_assignments@.remove(p),
        forall|i: usize| #[trigger] after.plugins_on(i) == registered.plugins_on(i).remove(p),
    ensures
        after.plugin_assignments@ == before.plugin_assignments@,
        forall|i: usize| #[trigger] after.plugins_on(i) == before.plugins_on(i),
{
    assert(after.plugin_assignments@ =~= before.plugin_assignments@);
    assert forall|i: usize| #[trigger] after.plugins_on(i) == before.plugins_on(i) by {
        assert(!before.plugins_on(i).contains(p));
        assert(after.plugins_on(i) =~= before.plugins_on(i));
    }
}

} // verus!
