//! The pool of workers: a binary heap ordered by the load of each worker.
//!
//! The least loaded worker sits at the root. A map from uid to position in
//! the heap makes looking a worker up by its uid constant time; every move in
//! the heap keeps that map in step.

use vstd::prelude::*;

use vstd::hash_map::HashMapWithView;

use std::sync::mpsc::Sender;

use crate::job::Job;
use crate::message::Message;
use crate::worker::{notice_delivered, Worker, WorkerError};

verus! {

/// `<[T]>::swap` exchanges the two entries at positions `a` and `b` of the
/// slice; with `a == b` nothing changes. It panics when either position is out
/// of bounds, which `requires` leaves out.
pub assume_specification<Elem>[ <[Elem]>::swap ](s: &mut [Elem], a: usize, b: usize)
    requires
        a < old(s)@.len(),
        b < old(s)@.len(),
    ensures
        final(s)@ == old(s)@.update(a as int, old(s)@[b as int]).update(b as int, old(s)@[a as int]),
;

/// `c` is a child of `p` in a heap laid out in a sequence.
pub open spec fn is_child(p: int, c: int) -> bool {
    c == 2 * p + 1 || c == 2 * p + 2
}

/// The position of the parent of node `c > 0`.
pub open spec fn parent(c: int) -> int {
    (c - 1) / 2
}

/// No worker in the sequence has a smaller load than its parent.
pub open spec fn heap_ordered<Req, Res>(s: Seq<Worker<Req, Res>>) -> bool {
    forall|p: int, c: int|
        0 <= p && c < s.len() && is_child(p, c) ==> #[trigger] s[p].load() <= #[trigger] s[c].load()
}

/// The heap order holds for every edge but the one from `i` to its parent;
/// and the parent of `i` is no heavier than the children of `i`.
pub open spec fn heap_ordered_except_up<Req, Res>(s: Seq<Worker<Req, Res>>, i: int) -> bool {
    &&& forall|p: int, c: int|
        0 <= p && c < s.len() && is_child(p, c) && c != i ==> #[trigger] s[p].load()
            <= #[trigger] s[c].load()
    &&& i > 0 ==> forall|c: int|
        c < s.len() && is_child(i, c) ==> s[parent(i)].load() <= #[trigger] s[c].load()
}

/// The heap order holds for every edge but those from `i` to its children;
/// and the parent of `i` is no heavier than the children of `i`.
pub open spec fn heap_ordered_except_down<Req, Res>(s: Seq<Worker<Req, Res>>, i: int) -> bool {
    &&& forall|p: int, c: int|
        0 <= p && c < s.len() && is_child(p, c) && p != i ==> #[trigger] s[p].load()
            <= #[trigger] s[c].load()
    &&& i > 0 ==> forall|c: int|
        c < s.len() && is_child(i, c) ==> s[parent(i)].load() <= #[trigger] s[c].load()
}

/// The heap order holds for every edge that does not touch node `i`; and the
/// parent of `i` is no heavier than the children of `i`. This is what is left
/// of the order after the load at `i` changed.
pub open spec fn heap_ordered_except_at<Req, Res>(s: Seq<Worker<Req, Res>>, i: int) -> bool {
    &&& forall|p: int, c: int|
        0 <= p && c < s.len() && is_child(p, c) && p != i && c != i ==> #[trigger] s[p].load()
            <= #[trigger] s[c].load()
    &&& i > 0 ==> forall|c: int|
        c < s.len() && is_child(i, c) ==> s[parent(i)].load() <= #[trigger] s[c].load()
}

/// `s` with the entries at `a` and `b` exchanged.
pub open spec fn swapped<A>(s: Seq<A>, a: int, b: int) -> Seq<A> {
    s.update(a, s[b]).update(b, s[a])
}

/// In a heap, the root is no heavier than any other node.
pub proof fn lemma_root_is_least<Req, Res>(s: Seq<Worker<Req, Res>>, k: int)
    requires
        heap_ordered(s),
        0 <= k < s.len(),
    ensures
        s[0].load() <= s[k].load(),
    decreases k,
{
    if k > 0 {
        let p = parent(k);
        lemma_root_is_least(s, p);
        assert(is_child(p, k));
        assert(s[p].load() <= s[k].load());
    }
}

proof fn lemma_sift_up_step<Req, Res>(s: Seq<Worker<Req, Res>>, k: int)
    requires
        0 < k < s.len(),
        heap_ordered_except_up(s, k),
        s[parent(k)].load() > s[k].load(),
    ensures
        heap_ordered_except_up(swapped(s, parent(k), k), parent(k)),
{
    let p = parent(k);
    let t = swapped(s, p, k);
    assert forall|a: int, c: int|
        0 <= a && c < t.len() && is_child(a, c) && c != p implies #[trigger] t[a].load()
        <= #[trigger] t[c].load() by {
        if a == p {
            if c != k {
                assert(is_child(p, c));
                assert(s[p].load() <= s[c].load());
            }
        } else if a == k {
            assert(s[p].load() <= s[c].load());
        } else if c == k {
            assert(false);
        } else {
            assert(s[a].load() <= s[c].load());
        }
    }
    if p > 0 {
        assert forall|c: int| c < t.len() && is_child(p, c) implies t[parent(p)].load()
            <= #[trigger] t[c].load() by {
            assert(is_child(parent(p), p));
            assert(s[parent(p)].load() <= s[p].load());
            if c != k {
                assert(s[p].load() <= s[c].load());
            }
        }
    }
}

proof fn lemma_sift_down_step<Req, Res>(s: Seq<Worker<Req, Res>>, k: int, m: int)
    requires
        0 <= k,
        m < s.len(),
        is_child(k, m),
        heap_ordered_except_down(s, k),
        forall|c: int| c < s.len() && is_child(k, c) ==> s[m].load() <= #[trigger] s[c].load(),
        s[m].load() < s[k].load(),
    ensures
        heap_ordered_except_down(swapped(s, k, m), m),
{
    let t = swapped(s, k, m);
    assert forall|a: int, c: int|
        0 <= a && c < t.len() && is_child(a, c) && a != m implies #[trigger] t[a].load()
        <= #[trigger] t[c].load() by {
        if a == k {
        } else if c == k {
            assert(s[a].load() <= s[m].load());
        } else if c == m {
            assert(false);
        } else {
            assert(s[a].load() <= s[c].load());
        }
    }
    assert forall|c: int| c < t.len() && is_child(m, c) implies t[parent(m)].load()
        <= #[trigger] t[c].load() by {
        assert(parent(m) == k);
        assert(s[m].load() <= s[c].load());
    }
}

/// `after` is `before` with at most worker `u` changed, and that one
/// keeping its uid and its channel: the same uids and the same other workers.
pub open spec fn only_changed<Req, Res>(
    before: Map<u64, Worker<Req, Res>>,
    after: Map<u64, Worker<Req, Res>>,
    u: u64,
) -> bool {
    &&& before.contains_key(u)
    &&& after.dom() == before.dom()
    &&& after[u].id() == before[u].id()
    &&& after[u].channel() == before[u].channel()
    &&& forall|v: u64| #[trigger] after.contains_key(v) && v != u ==> after[v] == before[v]
}

/// `after` is `before` with the load of worker `u` set to `load` and nothing
/// else changed.
pub open spec fn load_set<Req, Res>(
    before: Map<u64, Worker<Req, Res>>,
    after: Map<u64, Worker<Req, Res>>,
    u: u64,
    load: nat,
) -> bool {
    &&& only_changed(before, after, u)
    &&& after[u].load() == load
    &&& after[u].sent() == before[u].sent()
    &&& after[u].notified() == before[u].notified()
}

/// `after` is `before` with `msg` delivered to worker `u` and nothing else
/// changed.
pub open spec fn message_added<Req, Res>(
    before: Map<u64, Worker<Req, Res>>,
    after: Map<u64, Worker<Req, Res>>,
    u: u64,
    msg: Message<Req, Res>,
) -> bool {
    &&& only_changed(before, after, u)
    &&& after[u].load() == before[u].load()
    &&& after[u].sent() == before[u].sent().push(msg)
    &&& after[u].notified() == before[u].notified()
}

/// No worker of the map has a smaller load than worker `u`.
pub open spec fn least_loaded<Req, Res>(m: Map<u64, Worker<Req, Res>>, u: u64) -> bool {
    &&& m.contains_key(u)
    &&& forall|v: u64| #[trigger] m.contains_key(v) ==> m[u].load() <= m[v].load()
}

/// The pool of workers, kept as a heap with the least loaded worker on top.
#[verifier::reject_recursive_types(Req)]
#[verifier::reject_recursive_types(Res)]
pub struct WorkerPool<Req, Res> {
    buffer: Vec<Worker<Req, Res>>,
    index: HashMapWithView<u64, usize>,
    /// The messages the pool handed to its workers to send, each with the
    /// uid of the worker, oldest first, whether or not they were delivered.
    handed: Ghost<Seq<(u64, Message<Req, Res>)>>,
}

impl<Req, Res> View for WorkerPool<Req, Res> {
    type V = Map<u64, Worker<Req, Res>>;

    /// Each worker of the pool, by its uid.
    closed spec fn view(&self) -> Map<u64, Worker<Req, Res>> {
        Map::new(
            |u: u64| self.index@.contains_key(u),
            |u: u64| self.buffer@[self.index@[u] as int],
        )
    }
}

impl<Req, Res> WorkerPool<Req, Res> {
    /// The messages the pool handed to its workers to send, each with the
    /// uid of the worker, oldest first, whether or not they were delivered.
    pub closed spec fn tries(&self) -> Seq<(u64, Message<Req, Res>)> {
        self.handed@
    }

    /// The workers in heap order.
    pub closed spec fn heap(&self) -> Seq<Worker<Req, Res>> {
        self.buffer@
    }

    /// The uid map is exactly the position of each worker in the heap.
    closed spec fn index_ok(&self) -> bool {
        &&& forall|i: int|
            0 <= i < self.buffer@.len() ==> #[trigger] self.index@.contains_key(
                self.buffer@[i].id(),
            ) && self.index@[self.buffer@[i].id()] == i
        &&& forall|u: u64| #[trigger]
            self.index@.contains_key(u) ==> self.index@[u] < self.buffer@.len()
                && self.buffer@[self.index@[u] as int].id() == u
    }

    /// The pool is a heap by load and its uid map is in step with it.
    pub closed spec fn wf(&self) -> bool {
        &&& self.index_ok()
        &&& heap_ordered(self.buffer@)
    }

    /// An empty pool.
    pub fn new() -> (pool: Self)
        ensures
            pool.wf(),
            pool@ == Map::<u64, Worker<Req, Res>>::empty(),
            pool.tries() == Seq::<(u64, Message<Req, Res>)>::empty(),
    {
        broadcast use vstd::std_specs::hash::group_hash_axioms;

        let pool = WorkerPool {
            buffer: Vec::new(),
            index: HashMapWithView::new(),
            handed: Ghost(Seq::empty()),
        };
        assert(pool@ =~= Map::<u64, Worker<Req, Res>>::empty());
        pool
    }

    fn swap_entries(&mut self, i: usize, j: usize)
        requires
            old(self).index_ok(),
            i < old(self).buffer@.len(),
            j < old(self).buffer@.len(),
        ensures
            final(self).handed == old(self).handed,
            final(self).index_ok(),
            final(self).buffer@ == swapped(old(self).buffer@, i as int, j as int),
            final(self)@ == old(self)@,
    {
        self.buffer.as_mut_slice().swap(i, j);
        let ui = self.buffer[i].uid();
        self.index.insert(ui, i);
        let uj = self.buffer[j].uid();
        self.index.insert(uj, j);
        proof {
            let s0 = old(self).buffer@;
            let s1 = self.buffer@;
            assert(old(self).index@.contains_key(s0[i as int].id()));
            assert(old(self).index@.contains_key(s0[j as int].id()));
            assert forall|k: int| 0 <= k < s1.len() implies #[trigger] self.index@.contains_key(
                s1[k].id(),
            ) && self.index@[s1[k].id()] == k by {
                if k != i && k != j {
                    assert(old(self).index@.contains_key(s0[k].id()));
                }
            }
            assert forall|u: u64| #[trigger] self.index@.contains_key(u) implies self.index@[u]
                < s1.len() && s1[self.index@[u] as int].id() == u by {
                if u != ui && u != uj {
                    let k = old(self).index@[u] as int;
                    assert(s0[k].id() == u);
                    assert(k != i && k != j);
                }
            }
            assert(self@ =~= old(self)@);
        }
    }

    fn sift_up(&mut self, i: usize)
        requires
            old(self).index_ok(),
            i < old(self).buffer@.len(),
            heap_ordered_except_up(old(self).buffer@, i as int),
        ensures
            final(self).handed == old(self).handed,
            final(self).wf(),
            final(self)@ == old(self)@,
            final(self).buffer@.len() == old(self).buffer@.len(),
    {
        let mut k = i;
        while k > 0 && self.buffer[(k - 1) / 2].pending() > self.buffer[k].pending()
            invariant
                self.index_ok(),
                k < self.buffer@.len(),
                self.buffer@.len() == old(self).buffer@.len(),
                heap_ordered_except_up(self.buffer@, k as int),
                self@ == old(self)@,
                self.handed == old(self).handed,
            decreases k,
        {
            let p = (k - 1) / 2;
            proof {
                lemma_sift_up_step(self.buffer@, k as int);
            }
            self.swap_entries(p, k);
            k = p;
        }
        proof {
            let s = self.buffer@;
            assert forall|a: int, c: int|
                0 <= a && c < s.len() && is_child(a, c) implies #[trigger] s[a].load()
                <= #[trigger] s[c].load() by {
                if c == k {
                    assert(a == parent(k as int));
                }
            }
        }
    }

    fn sift_down(&mut self, i: usize)
        requires
            old(self).index_ok(),
            i < old(self).buffer@.len(),
            heap_ordered_except_down(old(self).buffer@, i as int),
        ensures
            final(self).handed == old(self).handed,
            final(self).wf(),
            final(self)@ == old(self)@,
            final(self).buffer@.len() == old(self).buffer@.len(),
    {
        let n = self.buffer.len();
        let mut k = i;
        loop
            invariant
                self.index_ok(),
                k < n,
                n == self.buffer@.len(),
                n == old(self).buffer@.len(),
                heap_ordered_except_down(self.buffer@, k as int),
                self@ == old(self)@,
                self.handed == old(self).handed,
            ensures
                heap_ordered(self.buffer@),
            decreases n - k,
        {
            if k >= n / 2 {
                proof {
                    let s = self.buffer@;
                    assert forall|a: int, c: int|
                        0 <= a && c < s.len() && is_child(a, c) implies #[trigger] s[a].load()
                        <= #[trigger] s[c].load() by {
                        if a == k {
                            assert(false);
                        }
                    }
                }
                break;
            }
            let l = 2 * k + 1;
            let m = if l + 1 < n && self.buffer[l + 1].pending() < self.buffer[l].pending() {
                l + 1
            } else {
                l
            };
            if self.buffer[k].pending() <= self.buffer[m].pending() {
                proof {
                    let s = self.buffer@;
                    assert forall|a: int, c: int|
                        0 <= a && c < s.len() && is_child(a, c) implies #[trigger] s[a].load()
                        <= #[trigger] s[c].load() by {
                        if a == k {
                            assert(s[m as int].load() <= s[c].load());
                        }
                    }
                }
                break;
            }
            proof {
                lemma_sift_down_step(self.buffer@, k as int, m as int);
            }
            self.swap_entries(k, m);
            k = m;
        }
    }

    /// The pool holds as many workers as its heap has entries.
    pub proof fn lemma_size(&self)
        requires
            self.wf(),
        ensures
            self@.dom().finite(),
            self@.len() == self.heap().len(),
            self@.len() == 0 ==> self@ == Map::<u64, Worker<Req, Res>>::empty(),
    {
        self.lemma_view_len();
        assert(self@.len() == 0 ==> self@ =~= Map::<u64, Worker<Req, Res>>::empty());
    }

    proof fn lemma_view_len(&self)
        requires
            self.index_ok(),
        ensures
            self@.dom().finite(),
            self@.len() == self.buffer@.len(),
    {
        let ids = self.buffer@.map_values(|w: Worker<Req, Res>| w.id());
        assert forall|a: int, b: int|
            0 <= a < ids.len() && 0 <= b < ids.len() && a != b implies ids[a] != ids[b] by {
            assert(self.index@.contains_key(self.buffer@[a].id()));
            assert(self.index@.contains_key(self.buffer@[b].id()));
        }
        assert(ids.no_duplicates());
        ids.unique_seq_to_set();
        assert forall|u: u64| self@.dom().contains(u) <==> ids.to_set().contains(u) by {
            if self@.dom().contains(u) {
                let k = self.index@[u] as int;
                assert(ids[k] == u);
            }
            if ids.to_set().contains(u) {
                let k = choose|k: int| 0 <= k < ids.len() && ids[k] == u;
                assert(self.index@.contains_key(self.buffer@[k].id()));
            }
        }
        assert(self@.dom() =~= ids.to_set());
    }

    /// Every worker is kept under its own uid.
    pub proof fn lemma_keys_are_uids(&self)
        requires
            self.wf(),
        ensures
            forall|u: u64| #[trigger] self@.contains_key(u) ==> self@[u].id() == u,
    {
    }

    /// The number of workers in the pool.
    pub fn len(&self) -> (n: usize)
        requires
            self.wf(),
        ensures
            n == self@.len(),
    {
        proof {
            self.lemma_view_len();
        }
        self.buffer.len()
    }

    /// Whether the pool has no worker.
    pub fn is_empty(&self) -> (b: bool)
        requires
            self.wf(),
        ensures
            b == (self@.len() == 0),
    {
        proof {
            self.lemma_view_len();
        }
        self.buffer.len() == 0
    }

    /// The position in the heap of the worker with the given uid.
    pub fn index_in_heap_from_uid(&self, uid: u64) -> (r: Option<usize>)
        requires
            self.wf(),
        ensures
            r is None <==> !self@.contains_key(uid),
            r matches Some(i) ==> i < self.heap().len() && self.heap()[i as int] == self@[uid],
    {
        match self.index.get(&uid) {
            Some(i) => Some(*i),
            None => None,
        }
    }

    /// The worker at the given position of the heap, if there is one.
    pub fn get(&self, i: usize) -> (r: Option<&Worker<Req, Res>>)
        requires
            self.wf(),
        ensures
            r is None <==> i >= self.heap().len(),
            r matches Some(w) ==> *w == self.heap()[i as int] && self@.contains_key(w.id())
                && self@[w.id()] == *w,
    {
        if i < self.buffer.len() {
            proof {
                assert(self.index@.contains_key(self.buffer@[i as int].id()));
            }
            Some(&self.buffer[i])
        } else {
            None
        }
    }

    /// The least loaded worker, if the pool has any.
    pub fn peek(&self) -> (r: Option<&Worker<Req, Res>>)
        requires
            self.wf(),
        ensures
            r is None <==> self@.len() == 0,
            r matches Some(w) ==> least_loaded(self@, w.id()) && self@[w.id()] == *w
                && *w == self.heap()[0],
    {
        proof {
            self.lemma_view_len();
        }
        if self.buffer.len() == 0 {
            None
        } else {
            proof {
                self.lemma_root_is_least_loaded();
            }
            Some(&self.buffer[0])
        }
    }

    /// The worker at the root of a non-empty pool is a least loaded one.
    pub proof fn lemma_root_least_loaded(&self)
        requires
            self.wf(),
            self.heap().len() > 0,
        ensures
            least_loaded(self@, self.heap()[0].id()),
            self@[self.heap()[0].id()] == self.heap()[0],
    {
        self.lemma_root_is_least_loaded();
    }

    proof fn lemma_root_is_least_loaded(&self)
        requires
            self.wf(),
            self.buffer@.len() > 0,
        ensures
            least_loaded(self@, self.buffer@[0].id()),
            self@[self.buffer@[0].id()] == self.buffer@[0],
    {
        assert(self.index@.contains_key(self.buffer@[0].id()));
        assert forall|v: u64| #[trigger] self@.contains_key(v) implies self@[self.buffer@[0].id()].load()
            <= self@[v].load() by {
            lemma_root_is_least(self.buffer@, self.index@[v] as int);
        }
    }

    fn restore_heap_property(&mut self, i: usize)
        requires
            old(self).index_ok(),
            i < old(self).buffer@.len(),
            heap_ordered_except_at(old(self).buffer@, i as int),
        ensures
            final(self).handed == old(self).handed,
            final(self).wf(),
            final(self)@ == old(self)@,
            final(self).buffer@.len() == old(self).buffer@.len(),
    {
        if i > 0 && self.buffer[(i - 1) / 2].pending() > self.buffer[i].pending() {
            proof {
                let s = self.buffer@;
                assert forall|a: int, c: int|
                    0 <= a && c < s.len() && is_child(a, c) && c != i implies #[trigger] s[a].load()
                    <= #[trigger] s[c].load() by {
                    if a == i {
                        assert(s[parent(i as int)].load() <= s[c].load());
                    }
                }
            }
            self.sift_up(i);
        } else {
            proof {
                let s = self.buffer@;
                assert forall|a: int, c: int|
                    0 <= a && c < s.len() && is_child(a, c) && a != i implies #[trigger] s[a].load()
                    <= #[trigger] s[c].load() by {
                    if c == i {
                        assert(a == parent(i as int));
                    }
                }
            }
            self.sift_down(i);
        }
    }

    proof fn lemma_changed_at(&self, i: int, after: Seq<Worker<Req, Res>>)
        requires
            self.wf(),
            0 <= i < self.buffer@.len(),
            after.len() == self.buffer@.len(),
            forall|k: int| 0 <= k < after.len() && k != i ==> after[k] == self.buffer@[k],
        ensures
            heap_ordered_except_at(after, i),
    {
        let s = self.buffer@;
        assert forall|a: int, c: int|
            0 <= a && c < after.len() && is_child(a, c) && a != i && c != i implies #[trigger] after[a].load()
            <= #[trigger] after[c].load() by {
            assert(s[a].load() <= s[c].load());
        }
        if i > 0 {
            assert forall|c: int| c < after.len() && is_child(i, c) implies after[parent(i)].load()
                <= #[trigger] after[c].load() by {
                assert(is_child(parent(i), i));
                assert(s[parent(i)].load() <= s[i].load());
                assert(s[i].load() <= s[c].load());
            }
        }
    }

    /// Raises the load of the worker at position `i` of the heap by one and
    /// restores the heap order.
    pub fn inc_load_at(&mut self, i: usize)
        requires
            old(self).wf(),
            i < old(self).heap().len(),
            old(self).heap()[i as int].load() < usize::MAX,
        ensures
            final(self).tries() == old(self).tries(),
            final(self).wf(),
            load_set(
                old(self)@,
                final(self)@,
                old(self).heap()[i as int].id(),
                old(self).heap()[i as int].load() + 1,
            ),
    {
        let ghost before = *self;
        self.buffer[i].inc_load();
        proof {
            before.lemma_changed_at(i as int, self.buffer@);
            self.lemma_one_replaced(before, i as int);
        }
        self.restore_heap_property(i);
    }

    /// Lowers the load of the worker at position `i` of the heap by one and
    /// restores the heap order.
    pub fn dec_load_at(&mut self, i: usize)
        requires
            old(self).wf(),
            i < old(self).heap().len(),
            old(self).heap()[i as int].load() > 0,
        ensures
            final(self).tries() == old(self).tries(),
            final(self).wf(),
            load_set(
                old(self)@,
                final(self)@,
                old(self).heap()[i as int].id(),
                (old(self).heap()[i as int].load() - 1) as nat,
            ),
    {
        let ghost before = *self;
        self.buffer[i].dec_load();
        proof {
            before.lemma_changed_at(i as int, self.buffer@);
            self.lemma_one_replaced(before, i as int);
        }
        self.restore_heap_property(i);
    }

    proof fn lemma_one_replaced(&self, before: Self, i: int)
        requires
            before.wf(),
            0 <= i < before.buffer@.len(),
            self.index == before.index,
            self.buffer@ == before.buffer@.update(i, self.buffer@[i]),
            self.buffer@[i].id() == before.buffer@[i].id(),
            self.buffer@[i].channel() == before.buffer@[i].channel(),
        ensures
            self.index_ok(),
            only_changed(before@, self@, before.buffer@[i].id()),
            before@[before.buffer@[i].id()] == before.buffer@[i],
            self@[before.buffer@[i].id()] == self.buffer@[i],
    {
        let u = before.buffer@[i].id();
        assert(before.index@.contains_key(u));
        assert forall|k: int| 0 <= k < self.buffer@.len() implies #[trigger] self.index@.contains_key(
            self.buffer@[k].id(),
        ) && self.index@[self.buffer@[k].id()] == k by {
            assert(before.index@.contains_key(before.buffer@[k].id()));
        }
        assert forall|v: u64| #[trigger] self@.contains_key(v) && v != u implies self@[v]
            == before@[v] by {
            assert(before.buffer@[before.index@[v] as int].id() == v);
        }
        assert(self@.dom() =~= before@.dom());
    }

    /// Sends the job as a request to the worker at position `i` of the heap.
    /// No load changes, so the heap stays as it is.
    ///
    /// When the request is delivered, it is the one message added to what
    /// that worker was sent. When its thread no longer receives, the result is
    /// `DispatchFailed` and the pool is left as it is.
    pub fn dispatch_at(&mut self, i: usize, job: Job<Req, Res>) -> (r: Result<(), WorkerError>)
        requires
            old(self).wf(),
            i < old(self).heap().len(),
        ensures
            final(self).tries() == old(self).tries().push((old(self).heap()[i as int].id(), Message::Request(job))),
            final(self).wf(),
            final(self).heap().len() == old(self).heap().len(),
            final(self).heap()[i as int].id() == old(self).heap()[i as int].id(),
            final(self).heap()[i as int].load() == old(self).heap()[i as int].load(),
            old(self)@[old(self).heap()[i as int].id()] == old(self).heap()[i as int],
            r is Ok ==> message_added(
                old(self)@,
                final(self)@,
                old(self).heap()[i as int].id(),
                Message::Request(job),
            ),
            r is Err ==> r == Err::<(), WorkerError>(WorkerError::DispatchFailed) && final(self)@
                == old(self)@ && final(self).heap() == old(self).heap(),
    {
        let ghost before = *self;
        let ghost offered = Message::Request(job);
        let r = self.buffer[i].dispatch(job);
        self.handed = Ghost(self.handed@.push((before.buffer@[i as int].id(), offered)));
        proof {
            self.lemma_one_replaced(before, i as int);
            let s = self.buffer@;
            assert forall|p: int, c: int|
                0 <= p && c < s.len() && is_child(p, c) implies #[trigger] s[p].load()
                <= #[trigger] s[c].load() by {
                assert(before.buffer@[p].load() <= before.buffer@[c].load());
            }
            if r is Err {
                assert(self.buffer@ =~= before.buffer@);
            }
        }
        r
    }

    /// Adds a worker to the pool.
    pub fn push(&mut self, w: Worker<Req, Res>)
        requires
            old(self).wf(),
            !old(self)@.contains_key(w.id()),
            old(self)@.len() < usize::MAX,
        ensures
            final(self).tries() == old(self).tries(),
            final(self).wf(),
            final(self)@ == old(self)@.insert(w.id(), w),
    {
        proof {
            self.lemma_view_len();
        }
        let ghost before = *self;
        let n = self.buffer.len();
        let u = w.uid();
        self.buffer.push(w);
        self.index.insert(u, n);
        proof {
            let s = self.buffer@;
            assert forall|k: int| 0 <= k < s.len() implies #[trigger] self.index@.contains_key(
                s[k].id(),
            ) && self.index@[s[k].id()] == k by {
                if k < n {
                    assert(before.index@.contains_key(before.buffer@[k].id()));
                }
            }
            assert forall|a: int, c: int|
                0 <= a && c < s.len() && is_child(a, c) && c != n implies #[trigger] s[a].load()
                <= #[trigger] s[c].load() by {
                assert(before.buffer@[a].load() <= before.buffer@[c].load());
            }
            assert(self@ =~= before@.insert(u, w));
        }
        self.sift_up(n);
    }

    /// Takes the least loaded worker out of the pool.
    pub fn pop(&mut self) -> (r: Option<Worker<Req, Res>>)
        requires
            old(self).wf(),
        ensures
            final(self).tries() == old(self).tries(),
            final(self).wf(),
            r is None <==> old(self)@.len() == 0,
            r is None ==> final(self)@ == old(self)@,
            r matches Some(w) ==> least_loaded(old(self)@, w.id()) && old(self)@[w.id()] == w
                && final(self)@ == old(self)@.remove(w.id()),
    {
        proof {
            self.lemma_view_len();
        }
        let n = self.buffer.len();
        if n == 0 {
            return None;
        }
        proof {
            self.lemma_root_is_least_loaded();
        }
        let ghost before = *self;
        let last = n - 1;
        self.swap_entries(0, last);
        let ghost swapped_pool = *self;
        let w = self.buffer.pop().unwrap();
        let u = w.uid();
        self.index.remove(&u);
        proof {
            let s = self.buffer@;
            let t = swapped_pool.buffer@;
            assert(s =~= t.drop_last());
            assert(swapped_pool.index@.contains_key(t[last as int].id()));
            assert forall|k: int| 0 <= k < s.len() implies #[trigger] self.index@.contains_key(
                s[k].id(),
            ) && self.index@[s[k].id()] == k by {
                assert(swapped_pool.index@.contains_key(t[k].id()));
            }
            assert forall|v: u64| #[trigger] self.index@.contains_key(v) implies self.index@[v]
                < s.len() && s[self.index@[v] as int].id() == v by {
                assert(swapped_pool.index@.contains_key(v));
            }
            assert(self@ =~= swapped_pool@.remove(u));
            assert forall|a: int, c: int|
                0 <= a && c < s.len() && is_child(a, c) && a != 0 implies #[trigger] s[a].load()
                <= #[trigger] s[c].load() by {
                assert(before.buffer@[a].load() <= before.buffer@[c].load());
            }
        }
        if last > 0 {
            self.sift_down(0);
        }
        Some(w)
    }

    /// Builds a pool from the given workers, whose uids must be distinct.
    pub fn from_vec(workers: Vec<Worker<Req, Res>>) -> (pool: Self)
        requires
            forall|i: int, j: int|
                0 <= i < workers@.len() && 0 <= j < workers@.len() && i != j
                    ==> #[trigger] workers@[i].id() != #[trigger] workers@[j].id(),
        ensures
            pool.tries() == Seq::<(u64, Message<Req, Res>)>::empty(),
            pool.wf(),
            forall|u: u64| #[trigger]
                pool@.contains_key(u) <==> exists|i: int|
                    0 <= i < workers@.len() && #[trigger] workers@[i].id() == u,
            forall|i: int|
                0 <= i < workers@.len() ==> #[trigger] pool@[workers@[i].id()] == workers@[i],
    {
        let ghost all = workers@;
        let mut rest = workers;
        let mut pool = WorkerPool::new();
        let total = rest.len();
        assert(all.len() == total);
        while rest.len() > 0
            invariant
                pool.wf(),
                pool.tries() == Seq::<(u64, Message<Req, Res>)>::empty(),
                rest@ == all.take(rest@.len() as int),
                rest@.len() <= all.len(),
                all.len() <= usize::MAX,
                forall|i: int, j: int|
                    0 <= i < all.len() && 0 <= j < all.len() && i != j
                        ==> #[trigger] all[i].id() != #[trigger] all[j].id(),
                forall|u: u64| #[trigger]
                    pool@.contains_key(u) <==> exists|i: int|
                        rest@.len() <= i < all.len() && #[trigger] all[i].id() == u,
                forall|i: int|
                    rest@.len() <= i < all.len() ==> #[trigger] pool@[all[i].id()] == all[i],
            decreases rest@.len(),
        {
            let ghost k = rest@.len() - 1;
            let w = rest.pop().unwrap();
            proof {
                pool.lemma_size();
                assert(w == all[k]);
                assert(!pool@.contains_key(w.id())) by {
                    if pool@.contains_key(w.id()) {
                        let i = choose|i: int| rest@.len() + 1 <= i < all.len() && #[trigger] all[i].id() == w.id();
                        assert(all[i].id() == all[k].id());
                    }
                }
                assert(pool@.dom().subset_of(all.subrange(k + 1, all.len() as int).map_values(|x: Worker<Req, Res>| x.id()).to_set())) by {
                    assert forall|u: u64| pool@.dom().contains(u) implies all.subrange(k + 1, all.len() as int).map_values(|x: Worker<Req, Res>| x.id()).to_set().contains(u) by {
                        let i = choose|i: int| k + 1 <= i < all.len() && #[trigger] all[i].id() == u;
                        assert(all.subrange(k + 1, all.len() as int).map_values(|x: Worker<Req, Res>| x.id())[i - (k + 1)] == u);
                    }
                }
                all.subrange(k + 1, all.len() as int).map_values(|x: Worker<Req, Res>| x.id()).lemma_cardinality_of_set();
                vstd::set_lib::lemma_len_subset(pool@.dom(), all.subrange(k + 1, all.len() as int).map_values(|x: Worker<Req, Res>| x.id()).to_set());
            }
            pool.push(w);
            proof {
                assert forall|u: u64| #[trigger] pool@.contains_key(u) <==> exists|i: int|
                    rest@.len() <= i < all.len() && #[trigger] all[i].id() == u by {
                    if pool@.contains_key(u) && u != w.id() {
                        let i = choose|i: int| rest@.len() + 1 <= i < all.len() && #[trigger] all[i].id() == u;
                        assert(rest@.len() <= i < all.len() && all[i].id() == u);
                    }
                    if u == w.id() {
                        assert(all[k].id() == u);
                    }
                }
                assert forall|i: int| rest@.len() <= i < all.len() implies #[trigger] pool@[all[i].id()] == all[i] by {
                    if i != k {
                        assert(all[i].id() != all[k].id());
                    }
                }
            }
        }
        proof {
            assert forall|u: u64| #[trigger] pool@.contains_key(u) <==> exists|i: int|
                0 <= i < all.len() && #[trigger] all[i].id() == u by {
            }
        }
        pool
    }

    /// Builds the pool of fresh workers for the given channel ends: the
    /// worker for `queues[j]` has uid `j`, no pending task, nothing sent and
    /// no terminate notice.
    pub fn for_queues(queues: Vec<Sender<Message<Req, Res>>>) -> (pool: Self)
        ensures
            pool.tries() == Seq::<(u64, Message<Req, Res>)>::empty(),
            pool.wf(),
            forall|u: u64| #[trigger] pool@.contains_key(u) <==> u < queues@.len(),
            forall|u: u64|
                #![trigger pool@[u]]
                u < queues@.len() ==> pool@[u].id() == u && pool@[u].channel() == queues@[u as int]
                    && pool@[u].load() == 0 && !pool@[u].notified() && pool@[u].sent()
                    == Seq::<Message<Req, Res>>::empty(),
    {
        let ghost all = queues@;
        let n = queues.len();
        let mut rest = queues;
        let mut pool = WorkerPool::new();
        while rest.len() > 0
            invariant
                pool.wf(),
                pool.tries() == Seq::<(u64, Message<Req, Res>)>::empty(),
                n == all.len(),
                rest@ == all.take(rest@.len() as int),
                rest@.len() <= n,
                pool@.dom().finite(),
                pool@.len() == n - rest@.len(),
                forall|u: u64| #[trigger] pool@.contains_key(u) <==> rest@.len() <= u < n,
                forall|u: u64|
                    #![trigger pool@[u]]
                    rest@.len() <= u < n ==> pool@[u].id() == u && pool@[u].channel() == all[u as int]
                        && pool@[u].load() == 0 && !pool@[u].notified() && pool@[u].sent()
                        == Seq::<Message<Req, Res>>::empty(),
            decreases rest@.len(),
        {
            let q = rest.pop().unwrap();
            let uid = rest.len() as u64;
            let w = Worker::new(q, uid);
            let ghost old_dom = pool@.dom();
            pool.push(w);
            proof {
                assert(pool@.dom() =~= old_dom.insert(uid));
            }
        }
        proof {
            assert(rest@.len() == 0);
        }
        pool
    }

    /// Takes the least loaded worker out of the pool and hands it its
    /// terminate notice to send. The worker comes back with the outcome of
    /// `Worker::terminate`.
    pub fn retire_least_loaded(&mut self) -> (r: Option<(Worker<Req, Res>, Result<(), WorkerError>)>)
        requires
            old(self).wf(),
        ensures
            final(self).wf(),
            r is None <==> old(self)@.len() == 0,
            r is None ==> final(self)@ == old(self)@ && final(self).tries() == old(self).tries(),
            r matches Some(out) ==> {
                let u = out.0.id();
                &&& least_loaded(old(self)@, u)
                &&& final(self)@ == old(self)@.remove(u)
                &&& final(self).tries() == old(self).tries().push((u, Message::Terminate))
                &&& out.1 is Ok ==> notice_delivered(old(self)@[u], out.0)
                &&& out.1 is Err ==> out.1 == Err::<(), WorkerError>(WorkerError::TermNoticeFailed)
                    && out.0 == old(self)@[u]
            },
    {
        match self.pop() {
            None => None,
            Some(worker) => {
                let mut worker = worker;
                let u = worker.uid();
                let outcome = worker.terminate();
                self.handed = Ghost(self.handed@.push((u, Message::Terminate)));
                Some((worker, outcome))
            },
        }
    }
}

} // verus!
