//! Topology storage: nodes, directed edges and the cycle-detecting
//! topological sort that schedules the audio graph.

use vstd::prelude::*;
use indexmap::IndexSet;
use std::collections::hash_map::RandomState;
use std::collections::VecDeque;
use crate::iset::{iset_elems, iset_with_capacity, iset_len, iset_insert, iset_get, iset_pop};

verus! {

broadcast use vstd::seq_lib::group_seq_properties, vstd::std_specs::vec::group_vec_axioms;

/// Errors raised by graph construction and sorting.
#[derive(Clone, Copy, PartialEq, Eq, Structural, Debug)]
pub enum GraphError {
    /// More nodes were added than the graph can accept.
    MaximumCapacity,
    /// The topology contains a directed cycle, so no schedule exists.
    CycleDetected,
}

/// `s` is a well-formed adjacency list for a graph of `n` nodes, belonging
/// to node `me`: distinct neighbours, all in range, and no self-loop.
pub open spec fn adj_ok(s: Seq<usize>, n: int, me: int) -> bool {
    &&& s.no_duplicates()
    &&& forall|k: int| 0 <= k < s.len() ==> (#[trigger] s[k]) < n && s[k] != me
}

/// Appends `v` to `s` unless it is already present.
pub open spec fn push_absent(s: Seq<usize>, v: usize) -> Seq<usize> {
    if s.contains(v) {
        s
    } else {
        s.push(v)
    }
}

/// The outgoing adjacency model after inserting every pair of `ps` in turn.
pub open spec fn out_after(m: Seq<Seq<usize>>, ps: Seq<(usize, usize)>) -> Seq<Seq<usize>>
    decreases ps.len(),
{
    if ps.len() == 0 {
        m
    } else {
        let prev = out_after(m, ps.drop_last());
        let p = ps.last();
        if p.0 == p.1 {
            prev
        } else {
            prev.update(p.0 as int, push_absent(prev[p.0 as int], p.1))
        }
    }
}

/// The incoming adjacency model after inserting every pair of `ps` in turn.
pub open spec fn in_after(m: Seq<Seq<usize>>, ps: Seq<(usize, usize)>) -> Seq<Seq<usize>>
    decreases ps.len(),
{
    if ps.len() == 0 {
        m
    } else {
        let prev = in_after(m, ps.drop_last());
        let p = ps.last();
        if p.0 == p.1 {
            prev
        } else {
            prev.update(p.1 as int, push_absent(prev[p.1 as int], p.0))
        }
    }
}

/// A growable directed graph over dense integer node ids.
///
/// Edges are kept twice — outgoing and incoming adjacency — in insertion
/// order, which fixes the gathering order of the scheduler and the
/// tie-breaking of the sort.
pub struct DynamicGraph<N> {
    /// The stored nodes; a node's id is its index here.
    pub nodes: Vec<N>,
    /// For each node, the ids with an edge into it, in insertion order.
    pub incoming: Vec<IndexSet<usize, RandomState>>,
    /// For each node, the ids it has an edge to, in insertion order.
    pub outgoing: Vec<IndexSet<usize, RandomState>>,
}

impl<N> DynamicGraph<N> {
    /// The number of nodes.
    pub open spec fn n(self) -> int {
        self.nodes@.len() as int
    }

    /// The outgoing neighbours of `u`, in insertion order.
    pub open spec fn out_seq(self, u: int) -> Seq<usize>
        recommends
            0 <= u < self.n(),
    {
        iset_elems(self.outgoing@[u])
    }

    /// The incoming neighbours of `v`, in insertion order.
    pub open spec fn in_seq(self, v: int) -> Seq<usize>
        recommends
            0 <= v < self.n(),
    {
        iset_elems(self.incoming@[v])
    }

    /// The whole outgoing adjacency, indexed by node id.
    pub open spec fn out_model(self) -> Seq<Seq<usize>> {
        Seq::new(self.nodes@.len() as nat, |u: int| self.out_seq(u))
    }

    /// The whole incoming adjacency, indexed by node id.
    pub open spec fn in_model(self) -> Seq<Seq<usize>> {
        Seq::new(self.nodes@.len() as nat, |v: int| self.in_seq(v))
    }

    /// There is an edge from `u` to `v`.
    pub open spec fn has_edge(self, u: int, v: int) -> bool {
        &&& 0 <= u < self.n()
        &&& 0 <= v < self.n()
        &&& self.out_seq(u).contains(v as usize)
    }

    /// The mirrored statement of [`Self::has_edge`] over the incoming lists.
    pub open spec fn rev_edge(self, u: int, v: int) -> bool {
        &&& 0 <= u < self.n()
        &&& 0 <= v < self.n()
        &&& self.in_seq(v).contains(u as usize)
    }

    /// Structural invariant: both adjacency tables cover every node, hold
    /// well-formed lists, and mirror each other.
    pub open spec fn wf(self) -> bool {
        &&& self.outgoing@.len() == self.nodes@.len()
        &&& self.incoming@.len() == self.nodes@.len()
        &&& forall|u: int| 0 <= u < self.n() ==> adj_ok(#[trigger] self.out_seq(u), self.n(), u)
        &&& forall|v: int| 0 <= v < self.n() ==> adj_ok(#[trigger] self.in_seq(v), self.n(), v)
        &&& forall|u: int, v: int|
            #![trigger self.has_edge(u, v)]
            self.has_edge(u, v) <==> self.rev_edge(u, v)
    }

    /// A valid schedule: a duplicate-free arrangement of all node ids in
    /// which the source of every edge precedes its target.
    pub open spec fn valid_topo_order(self, o: Seq<usize>) -> bool {
        &&& o.len() == self.n()
        &&& o.no_duplicates()
        &&& forall|k: int| 0 <= k < o.len() ==> (#[trigger] o[k]) < self.n()
        &&& forall|k1: int, k2: int|
            0 <= k1 < o.len() && 0 <= k2 < o.len() && #[trigger] self.has_edge(
                o[k1] as int,
                o[k2] as int,
            ) ==> k1 < k2
    }

    /// Every value emitted in `o` had all of its incoming neighbours
    /// emitted earlier.
    pub open spec fn sorted_closed(self, o: Seq<usize>) -> bool {
        forall|k: int, w: usize|
            0 <= k < o.len() && #[trigger] self.in_seq(o[k] as int).contains(w)
                ==> emitted_before(o, k, w)
    }

    /// An empty graph with storage reserved for `capacity` nodes.
    pub fn with_capacity(capacity: usize) -> (g: Self)
        ensures
            g.wf(),
            g.n() == 0,
    {
        DynamicGraph {
            nodes: Vec::with_capacity(capacity),
            incoming: Vec::with_capacity(capacity),
            outgoing: Vec::with_capacity(capacity),
        }
    }

    /// A mutable borrow of the node with the given id.
    pub fn get_node_mut(&mut self, index: usize) -> (r: &mut N)
        requires
            index < old(self).n(),
        ensures
            *r == old(self).nodes@[index as int],
            final(self).nodes@ == old(self).nodes@.update(index as int, *final(r)),
            final(self).incoming@ == old(self).incoming@,
            final(self).outgoing@ == old(self).outgoing@,
    {
        &mut self.nodes[index]
    }

    /// The incoming adjacency list of the node with the given id.
    pub fn get_incoming(&self, index: usize) -> (r: &IndexSet<usize, RandomState>)
        requires
            self.wf(),
            index < self.n(),
        ensures
            iset_elems(*r) == self.in_seq(index as int),
    {
        &self.incoming[index]
    }

    /// Appends `node` and returns its freshly assigned id.
    pub fn add_node(&mut self, node: N) -> (id: usize)
        requires
            old(self).wf(),
        ensures
            final(self).wf(),
            id == old(self).n(),
            final(self).n() == old(self).n() + 1,
            final(self).nodes@ == old(self).nodes@.push(node),
            forall|u: int|
                0 <= u < old(self).n() ==> #[trigger] final(self).out_seq(u) == old(
                    self,
                ).out_seq(u),
            forall|v: int|
                0 <= v < old(self).n() ==> #[trigger] final(self).in_seq(v) == old(
                    self,
                ).in_seq(v),
            final(self).out_seq(id as int) == Seq::<usize>::empty(),
            final(self).in_seq(id as int) == Seq::<usize>::empty(),
            forall|u: int, v: int|
                final(self).has_edge(u, v) <==> old(self).has_edge(u, v),
    {
        let id = self.nodes.len();
        self.nodes.push(node);
        self.incoming.push(iset_with_capacity(0));
        self.outgoing.push(iset_with_capacity(0));
        proof {
            let oldg = *old(self);
            let newg = *self;
            assert forall|u: int| 0 <= u < newg.n() implies adj_ok(
                #[trigger] newg.out_seq(u),
                newg.n(),
                u,
            ) by {
                if u < oldg.n() {
                    assert(newg.out_seq(u) == oldg.out_seq(u));
                }
            }
            assert forall|v: int| 0 <= v < newg.n() implies adj_ok(
                #[trigger] newg.in_seq(v),
                newg.n(),
                v,
            ) by {
                if v < oldg.n() {
                    assert(newg.in_seq(v) == oldg.in_seq(v));
                }
            }
            assert forall|u: int, v: int| #![trigger newg.rev_edge(u, v)] newg.rev_edge(u, v)
                <==> oldg.rev_edge(u, v) by {
                if 0 <= u < newg.n() && 0 <= v < newg.n() {
                    if v == id {
                        assert(newg.in_seq(v) == Seq::<usize>::empty());
                        assert(!newg.in_seq(v).contains(u as usize));
                    } else {
                        assert(newg.in_seq(v) == oldg.in_seq(v));
                        if u == id && newg.in_seq(v).contains(u as usize) {
                            let k = choose|k: int|
                                0 <= k < oldg.in_seq(v).len() && oldg.in_seq(v)[k] == (
                                u as usize);
                            assert(adj_ok(oldg.in_seq(v), oldg.n(), v));
                            assert(oldg.in_seq(v)[k] < oldg.n());
                            assert(false);
                        }
                    }
                }
            }
            assert forall|u: int, v: int| #![trigger newg.has_edge(u, v)] newg.has_edge(u, v)
                <==> oldg.has_edge(u, v) by {
                if 0 <= u < newg.n() && 0 <= v < newg.n() {
                    if u == id {
                        assert(newg.out_seq(u) == Seq::<usize>::empty());
                        assert(!newg.out_seq(u).contains(v as usize));
                    } else {
                        assert(newg.out_seq(u) == oldg.out_seq(u));
                        if v == id && newg.out_seq(u).contains(v as usize) {
                            let k = choose|k: int|
                                0 <= k < oldg.out_seq(u).len() && oldg.out_seq(u)[k] == (
                                v as usize);
                            assert(adj_ok(oldg.out_seq(u), oldg.n(), u));
                            assert(oldg.out_seq(u)[k] < oldg.n());
                            assert(false);
                        }
                    }
                }
            }
            assert forall|u: int, v: int| #![trigger newg.has_edge(u, v)] newg.has_edge(u, v)
                <==> newg.rev_edge(u, v) by {
                assert(newg.rev_edge(u, v) <==> oldg.rev_edge(u, v));
                assert(oldg.has_edge(u, v) <==> oldg.rev_edge(u, v));
            }
        }
        id
    }

    /// Inserts the edge `from -> to` into both adjacency lists.
    ///
    /// A self-loop is silently ignored, and an edge already present leaves
    /// the graph untouched; this method does not re-check acyclicity.
    pub fn add_edge(&mut self, from: usize, to: usize)
        requires
            old(self).wf(),
            from < old(self).n(),
            to < old(self).n(),
        ensures
            final(self).wf(),
            final(self).n() == old(self).n(),
            final(self).nodes@ == old(self).nodes@,
            final(self).out_model() == out_after(
                old(self).out_model(),
                seq![(from, to)],
            ),
            final(self).in_model() == in_after(old(self).in_model(), seq![(from, to)]),
            forall|u: int, v: int|
                final(self).has_edge(u, v) <==> (old(self).has_edge(u, v) || (u == from && v
                    == to && from != to)),
    {
        proof {
            assert(seq![(from, to)].drop_last() =~= Seq::<(usize, usize)>::empty());
        }
        if from == to {
            proof {
                assert(out_after(old(self).out_model(), Seq::<(usize, usize)>::empty())
                    == old(self).out_model());
                assert(in_after(old(self).in_model(), Seq::<(usize, usize)>::empty()) == old(
                    self,
                ).in_model());
                assert(out_after(old(self).out_model(), seq![(from, to)]) == old(
                    self,
                ).out_model());
                assert(in_after(old(self).in_model(), seq![(from, to)]) == old(
                    self,
                ).in_model());
            }
            return ;
        }
        let oset: &mut IndexSet<usize, RandomState> = &mut self.outgoing[from];
        iset_insert(oset, to);
        let iset: &mut IndexSet<usize, RandomState> = &mut self.incoming[to];
        iset_insert(iset, from);
        proof {
            let oldg = *old(self);
            let newg = *self;
            let n = oldg.n();
            assert(newg.out_seq(from as int) == push_absent(oldg.out_seq(from as int), to));
            assert(newg.in_seq(to as int) == push_absent(oldg.in_seq(to as int), from));
            assert(forall|u: int|
                0 <= u < n && u != from ==> #[trigger] newg.out_seq(u) == oldg.out_seq(u));
            assert(forall|v: int|
                0 <= v < n && v != to ==> #[trigger] newg.in_seq(v) == oldg.in_seq(v));
            // the mirror invariant: containment changed for exactly (from, to)
            assert(oldg.has_edge(from as int, to as int) <==> oldg.rev_edge(
                from as int,
                to as int,
            ));
            assert forall|u: int, v: int| #![trigger newg.has_edge(u, v)] newg.has_edge(u, v)
                <==> (oldg.has_edge(u, v) || (u == from && v == to)) by {
                if 0 <= u < n && 0 <= v < n {
                    assert(oldg.nodes.len() as int == n);
                    assert(v as usize == to <==> v == to);
                    if u == from {
                        if oldg.out_seq(u).contains(to) {
                            assert(newg.out_seq(u) == oldg.out_seq(u));
                            if v == to {
                                assert(oldg.out_seq(u).contains(v as usize));
                            }
                        } else {
                            assert(newg.out_seq(u) == oldg.out_seq(u).push(to));
                            vstd::seq_lib::lemma_seq_contains_after_push(
                                oldg.out_seq(u),
                                to,
                                v as usize,
                            );
                        }
                    } else {
                        assert(newg.out_seq(u) == oldg.out_seq(u));
                    }
                }
            }
            assert forall|u: int, v: int| #![trigger newg.rev_edge(u, v)] newg.rev_edge(u, v)
                <==> (oldg.rev_edge(u, v) || (u == from && v == to)) by {
                if 0 <= u < n && 0 <= v < n {
                    assert(oldg.nodes.len() as int == n);
                    assert(u as usize == from <==> u == from);
                    if v == to {
                        if oldg.in_seq(v).contains(from) {
                            assert(newg.in_seq(v) == oldg.in_seq(v));
                            if u == from {
                                assert(oldg.in_seq(v).contains(u as usize));
                            }
                        } else {
                            assert(newg.in_seq(v) == oldg.in_seq(v).push(from));
                            vstd::seq_lib::lemma_seq_contains_after_push(
                                oldg.in_seq(v),
                                from,
                                u as usize,
                            );
                        }
                    } else {
                        assert(newg.in_seq(v) == oldg.in_seq(v));
                    }
                }
            }
            assert forall|u: int, v: int| #![trigger newg.has_edge(u, v)] newg.has_edge(u, v)
                <==> newg.rev_edge(u, v) by {
                if 0 <= u < n && 0 <= v < n {
                    assert(oldg.has_edge(u, v) <==> oldg.rev_edge(u, v));
                }
            }
            assert forall|u: int| 0 <= u < n implies adj_ok(
                #[trigger] newg.out_seq(u),
                n,
                u,
            ) by {
                if u == from && !oldg.out_seq(u).contains(to) {
                    lemma_no_dup_push(oldg.out_seq(u), to);
                }
            }
            assert forall|v: int| 0 <= v < n implies adj_ok(#[trigger] newg.in_seq(v), n, v) by {
                if v == to && !oldg.in_seq(v).contains(from) {
                    lemma_no_dup_push(oldg.in_seq(v), from);
                }
            }
            let out_target = oldg.out_model().update(
                from as int,
                push_absent(oldg.out_seq(from as int), to),
            );
            assert(oldg.out_model()[from as int] == oldg.out_seq(from as int));
            assert(out_after(oldg.out_model(), Seq::<(usize, usize)>::empty())
                == oldg.out_model());
            assert(out_after(oldg.out_model(), seq![(from, to)]) == out_target);
            assert forall|w: int| 0 <= w < n implies newg.out_model()[w] == out_target[w] by {
                if w != from {
                    assert(newg.out_seq(w) == oldg.out_seq(w));
                }
            }
            assert(newg.out_model() =~= out_target);
            let in_target = oldg.in_model().update(
                to as int,
                push_absent(oldg.in_seq(to as int), from),
            );
            assert(oldg.in_model()[to as int] == oldg.in_seq(to as int));
            assert(in_after(oldg.in_model(), Seq::<(usize, usize)>::empty()) == oldg.in_model());
            assert(in_after(oldg.in_model(), seq![(from, to)]) == in_target);
            assert forall|w: int| 0 <= w < n implies newg.in_model()[w] == in_target[w] by {
                if w != to {
                    assert(newg.in_seq(w) == oldg.in_seq(w));
                }
            }
            assert(newg.in_model() =~= in_target);
        }
    }

    /// The indegree of every node at the start of a sort.
    pub open spec fn kahn_indegrees(self) -> Seq<int> {
        Seq::new(self.nodes@.len() as nat, |v: int| self.in_seq(v).len() as int)
    }

    /// The roots seeded below id `v`, in ascending id order: every node
    /// without incoming edges.
    pub open spec fn kahn_seeds(self, v: int) -> Seq<usize>
        decreases v,
    {
        if v <= 0 {
            Seq::<usize>::empty()
        } else {
            let p = self.kahn_seeds(v - 1);
            if self.in_seq(v - 1).len() == 0 {
                p.push((v - 1) as usize)
            } else {
                p
            }
        }
    }

    /// The main loop of the sort as a function: pop the queue head, emit
    /// it, relax its children in edge insertion order.
    pub open spec fn kahn_loop(self, indeg: Seq<int>, queue: Seq<usize>, acc: Seq<usize>) -> Seq<
        usize,
    >
        decreases self.n() - acc.len(),
    {
        if queue.len() == 0 || acc.len() >= self.n() {
            acc
        } else {
            let u = queue[0];
            let rel = kahn_relax(indeg, queue.drop_first(), self.out_seq(u as int));
            self.kahn_loop(rel.0, rel.1, acc.push(u))
        }
    }

    /// The schedule Kahn's algorithm produces: a pure function of the
    /// topology, so equal graphs always sort identically.
    pub open spec fn kahn_spec(self) -> Seq<usize> {
        self.kahn_loop(self.kahn_indegrees(), self.kahn_seeds(self.n()), Seq::<usize>::empty())
    }

    /// Kahn's algorithm: a deterministic topological sort.
    ///
    /// Nodes of indegree zero are seeded in ascending id order and children
    /// are visited in edge insertion order, so the schedule is reproducible.
    /// `Ok` carries a valid schedule; `Err(CycleDetected)` is returned
    /// exactly when no valid schedule exists at all.
    #[verifier::loop_isolation(false)]
    #[verifier::rlimit(60)]
    pub fn topo_sort(&self) -> (r: Result<Vec<usize>, GraphError>)
        requires
            self.wf(),
        ensures
            match r {
                Ok(o) => self.valid_topo_order(o@) && o@ == self.kahn_spec(),
                Err(e) => {
                    &&& e == GraphError::CycleDetected
                    &&& forall|o: Seq<usize>| !self.valid_topo_order(o)
                },
            },
    {
        let n = self.nodes.len();
        let mut indegree: Vec<usize> = Vec::with_capacity(n);
        let mut v0: usize = 0;
        while v0 < n
            invariant
                v0 <= n,
                indegree@.len() == v0,
                forall|v: int| 0 <= v < v0 ==> #[trigger] indegree@[v] == self.in_seq(v).len(),
            decreases n - v0,
        {
            indegree.push(iset_len(&self.incoming[v0]));
            v0 += 1;
        }
        let mut queue: VecDeque<usize> = VecDeque::new();
        let mut v1: usize = 0;
        while v1 < n
            invariant
                v1 <= n,
                indegree@.len() == n,
                forall|v: int| 0 <= v < n ==> #[trigger] indegree@[v] == self.in_seq(v).len(),
                queue@.no_duplicates(),
                forall|i: int| 0 <= i < queue@.len() ==> (#[trigger] queue@[i]) < v1,
                forall|i: int|
                    0 <= i < queue@.len() ==> self.in_seq((#[trigger] queue@[i]) as int).len()
                        == 0,
                forall|v: usize|
                    v < v1 && self.in_seq(v as int).len() == 0 ==> #[trigger] queue@.contains(v),
                queue@ == self.kahn_seeds(v1 as int),
            decreases n - v1,
        {
            if indegree[v1] == 0 {
                proof {
                    if queue@.contains(v1) {
                        let i = choose|i: int| 0 <= i < queue@.len() && queue@[i] == v1;
                        assert(queue@[i] < v1);
                    }
                    lemma_no_dup_push(queue@, v1);
                }
                queue.push_back(v1);
            }
            v1 += 1;
        }
        let mut sorted: Vec<usize> = Vec::with_capacity(n);
        proof {
            assert(indegree@.map_values(|x: usize| x as int) =~= self.kahn_indegrees());
            assert(self.kahn_loop(
                indegree@.map_values(|x: usize| x as int),
                queue@,
                sorted@,
            ) == self.kahn_spec());
            assert forall|v: int| 0 <= v < n && !sorted@.contains(v as usize) implies
                indegree@[v] as int == count_absent(self.in_seq(v), sorted@) as int by {
                lemma_count_absent_empty_done(self.in_seq(v));
            }
            assert forall|i: int| 0 <= i < queue@.len() implies count_absent(
                self.in_seq((#[trigger] queue@[i]) as int),
                sorted@,
            ) == 0 by {
                lemma_count_absent_empty_done(self.in_seq(queue@[i] as int));
            }
            assert forall|v: int|
                0 <= v < n && !sorted@.contains(v as usize) && count_absent(
                    self.in_seq(v),
                    sorted@,
                ) == 0 implies queue@.contains(v as usize) by {
                lemma_count_absent_empty_done(self.in_seq(v));
            }
        }
        while queue.len() > 0
            invariant
                indegree@.len() == n,
                sorted@.no_duplicates(),
                sorted@.len() <= n,
                forall|k: int| 0 <= k < sorted@.len() ==> (#[trigger] sorted@[k]) < n,
                self.sorted_closed(sorted@),
                queue@.no_duplicates(),
                forall|i: int|
                    0 <= i < queue@.len() ==> (#[trigger] queue@[i]) < n && !sorted@.contains(
                        queue@[i],
                    ),
                forall|i: int|
                    0 <= i < queue@.len() ==> count_absent(
                        self.in_seq((#[trigger] queue@[i]) as int),
                        sorted@,
                    ) == 0,
                forall|v: int|
                    0 <= v < n && !sorted@.contains(v as usize) ==> #[trigger] indegree@[v] as int
                        == count_absent(self.in_seq(v), sorted@) as int,
                forall|v: int|
                    0 <= v < n && !sorted@.contains(v as usize) && #[trigger] count_absent(
                        self.in_seq(v),
                        sorted@,
                    ) == 0 ==> queue@.contains(v as usize),
                self.kahn_loop(
                    indegree@.map_values(|x: usize| x as int),
                    queue@,
                    sorted@,
                ) == self.kahn_spec(),
            decreases n - sorted@.len(),
        {
            let ghost d_iter = indegree@.map_values(|x: usize| x as int);
            let ghost q_iter = queue@;
            let u = queue.pop_front().unwrap();
            let ghost prev_sorted = sorted@;
            proof {
                if sorted@.len() == n {
                    lemma_pigeonhole(sorted@, n as int);
                    assert(sorted@.contains(u));
                    assert(false);
                }
            }
            sorted.push(u);
            proof {
                // the appended node has all incoming neighbours emitted
                assert forall|k: int, w: usize|
                    0 <= k < sorted@.len() && #[trigger] self.in_seq(
                        sorted@[k] as int,
                    ).contains(w) implies emitted_before(sorted@, k, w) by {
                    if k < prev_sorted.len() {
                        assert(prev_sorted[k] == sorted@[k]);
                        assert(emitted_before(prev_sorted, k, w));
                        let j = choose|j: int| 0 <= j < k && prev_sorted[j] == w;
                        assert(sorted@[j] == w);
                    } else {
                        assert(sorted@[k] == u);
                        if !prev_sorted.contains(w) {
                            lemma_count_absent_ge_one(self.in_seq(u as int), prev_sorted, w);
                            assert(false);
                        }
                        let j = choose|j: int|
                            0 <= j < prev_sorted.len() && prev_sorted[j] == w;
                        assert(sorted@[j] == w);
                    }
                }
            }
            let m = iset_len(&self.outgoing[u]);
            let ghost d_start = indegree@.map_values(|x: usize| x as int);
            let ghost q_start = queue@;
            let mut k: usize = 0;
            proof {
                assert(d_start == d_iter);
                assert(q_start =~= q_iter.drop_first());
                assert(self.out_seq(u as int).take(0) =~= Seq::<usize>::empty());
                assert forall|v: int| 0 <= v < n && !sorted@.contains(v as usize) implies
                    #[trigger] indegree@[v] as int == count_absent(self.in_seq(v), prev_sorted)
                        as int - (if self.out_seq(u as int).take(0).contains(v as usize) {
                        1int
                    } else {
                        0int
                    }) by {
                    assert(!prev_sorted.contains(v as usize));
                }
                assert forall|i: int| 0 <= i < queue@.len() implies count_absent(
                    self.in_seq((#[trigger] queue@[i]) as int),
                    prev_sorted,
                ) as int == (if self.out_seq(u as int).take(0).contains(queue@[i]) {
                    1int
                } else {
                    0int
                }) by {
                    assert(!prev_sorted.contains(queue@[i]));
                }
            }
            while k < m
                invariant
                    k <= m,
                    m == self.out_seq(u as int).len(),
                    indegree@.len() == n,
                    indegree@.map_values(|x: usize| x as int) == kahn_relax(
                        d_start,
                        q_start,
                        self.out_seq(u as int).take(k as int),
                    ).0,
                    queue@ == kahn_relax(
                        d_start,
                        q_start,
                        self.out_seq(u as int).take(k as int),
                    ).1,
                    queue@.no_duplicates(),
                    forall|i: int|
                        0 <= i < queue@.len() ==> (#[trigger] queue@[i]) < n && !sorted@.contains(
                            queue@[i],
                        ),
                    forall|i: int|
                        0 <= i < queue@.len() ==> count_absent(
                            self.in_seq((#[trigger] queue@[i]) as int),
                            prev_sorted,
                        ) as int == (if self.out_seq(u as int).take(k as int).contains(
                            queue@[i],
                        ) {
                            1int
                        } else {
                            0int
                        }),
                    forall|v: int|
                        0 <= v < n && !sorted@.contains(v as usize) ==> #[trigger] indegree@[v]
                            as int == count_absent(self.in_seq(v), prev_sorted) as int - (
                        if self.out_seq(u as int).take(k as int).contains(v as usize) {
                            1int
                        } else {
                            0int
                        }),
                    forall|v: int|
                        0 <= v < n && !sorted@.contains(v as usize) && #[trigger] count_absent(
                            self.in_seq(v),
                            prev_sorted,
                        ) as int == (if self.out_seq(u as int).take(k as int).contains(
                            v as usize,
                        ) {
                            1int
                        } else {
                            0int
                        }) ==> queue@.contains(v as usize),
                decreases m - k,
            {
                let v = iset_get(&self.outgoing[u], k);
                proof {
                    assert(self.out_seq(u as int)[k as int] == v);
                    assert(self.out_seq(u as int).contains(v));
                    assert(adj_ok(self.out_seq(u as int), n as int, u as int));
                    assert(v < n && v != u);
                    assert(self.has_edge(u as int, v as int));
                    assert(self.rev_edge(u as int, v as int));
                    assert(self.in_seq(v as int).contains(u));
                    // v cannot have been emitted: u, one of its incoming
                    // neighbours, was emitted after every earlier node
                    if sorted@.contains(v) {
                        let j = choose|j: int| 0 <= j < sorted@.len() && sorted@[j] == v;
                        if j == sorted@.len() - 1 {
                            assert(v == u);
                        } else {
                            assert(emitted_before(sorted@, j, u));
                            let j2 = choose|j2: int| 0 <= j2 < j && sorted@[j2] == u;
                            assert(sorted@[sorted@.len() - 1] == u);
                            assert(j2 != sorted@.len() - 1);
                            assert(false);
                        }
                        assert(false);
                    }
                    // the processed prefix cannot contain v yet
                    if self.out_seq(u as int).take(k as int).contains(v) {
                        let j = choose|j: int|
                            0 <= j < k && self.out_seq(u as int).take(k as int)[j] == v;
                        assert(self.out_seq(u as int)[j] == v);
                        assert(j != k as int);
                        assert(false);
                    }
                    assert(!prev_sorted.contains(u));
                    lemma_count_absent_ge_one(self.in_seq(v as int), prev_sorted, u);
                    assert(indegree@[v as int] >= 1);
                }
                let dv = indegree[v];
                indegree[v] = dv - 1;
                let ghost take_next = self.out_seq(u as int).take(k as int + 1);
                proof {
                    self.out_seq(u as int).lemma_take_succ_push(k as int);
                    assert(take_next =~= self.out_seq(u as int).take(k as int).push(v));
                    let prevrel = kahn_relax(
                        d_start,
                        q_start,
                        self.out_seq(u as int).take(k as int),
                    );
                    assert(take_next.drop_last() =~= self.out_seq(u as int).take(k as int));
                    assert(take_next.last() == v);
                    assert(indegree@.map_values(|x: usize| x as int) =~= prevrel.0.update(
                        v as int,
                        prevrel.0[v as int] - 1,
                    ));
                }
                if dv - 1 == 0 {
                    proof {
                        if queue@.contains(v) {
                            let i = choose|i: int| 0 <= i < queue@.len() && queue@[i] == v;
                            assert(count_absent(self.in_seq(v as int), prev_sorted) as int == (
                            if self.out_seq(u as int).take(k as int).contains(v) {
                                1int
                            } else {
                                0int
                            }));
                            assert(false);
                        }
                        lemma_no_dup_push(queue@, v);
                    }
                    queue.push_back(v);
                }
                k += 1;
            }
            proof {
                assert(self.out_seq(u as int).take(m as int) =~= self.out_seq(u as int));
                assert(sorted@ == prev_sorted.push(u));
                assert(!prev_sorted.contains(u));
                // this iteration performed exactly one step of the spec loop
                assert(self.kahn_loop(d_iter, q_iter, prev_sorted) == self.kahn_loop(
                    indegree@.map_values(|x: usize| x as int),
                    queue@,
                    sorted@,
                )) by {
                    assert(q_iter.len() > 0);
                    assert(prev_sorted.len() < n);
                    assert(q_iter[0] == u);
                }
                assert forall|v: int| 0 <= v < n && !sorted@.contains(v as usize) implies
                    #[trigger] indegree@[v] as int == count_absent(self.in_seq(v), sorted@)
                        as int by {
                    lemma_count_absent_push_done(self.in_seq(v), prev_sorted, u);
                    assert(self.has_edge(u as int, v) <==> self.rev_edge(u as int, v));
                    assert(self.in_seq(v).contains(u) <==> self.out_seq(u as int).contains(
                        v as usize,
                    ));
                }
                assert forall|i: int| 0 <= i < queue@.len() implies count_absent(
                    self.in_seq((#[trigger] queue@[i]) as int),
                    sorted@,
                ) == 0 by {
                    let v = queue@[i];
                    lemma_count_absent_push_done(self.in_seq(v as int), prev_sorted, u);
                    assert(self.has_edge(u as int, v as int) <==> self.rev_edge(
                        u as int,
                        v as int,
                    ));
                }
                assert forall|v: int|
                    0 <= v < n && !sorted@.contains(v as usize) && #[trigger] count_absent(
                        self.in_seq(v),
                        sorted@,
                    ) == 0 implies queue@.contains(v as usize) by {
                    lemma_count_absent_push_done(self.in_seq(v), prev_sorted, u);
                    assert(self.has_edge(u as int, v) <==> self.rev_edge(u as int, v));
                }
            }
        }
        if sorted.len() == n {
            proof {
                assert(sorted@ == self.kahn_spec()) by {
                    assert(queue@.len() == 0);
                }
                assert forall|k1: int, k2: int|
                    0 <= k1 < sorted@.len() && 0 <= k2 < sorted@.len() && #[trigger] self.has_edge(
                        sorted@[k1] as int,
                        sorted@[k2] as int,
                    ) implies k1 < k2 by {
                    let uu = sorted@[k1];
                    let vv = sorted@[k2];
                    assert(self.rev_edge(uu as int, vv as int));
                    assert(self.in_seq(vv as int).contains(uu));
                    assert(emitted_before(sorted@, k2, uu));
                    let j = choose|j: int| 0 <= j < k2 && sorted@[j] == uu;
                    if j != k1 {
                        assert(sorted@[j] != sorted@[k1]);
                        assert(false);
                    }
                }
            }
            Ok(sorted)
        } else {
            proof {
                assert(queue@.len() == 0);
                lemma_pigeonhole(sorted@, n as int);
                assert forall|o: Seq<usize>| !self.valid_topo_order(o) by {
                    if self.valid_topo_order(o) {
                        let miss = choose|v: usize| v < n && !sorted@.contains(v);
                        lemma_pigeonhole(o, n as int);
                        assert(o.contains(miss));
                        let mi = choose|j: int| 0 <= j < o.len() && o[j] == miss;
                        let kk = lemma_first_outside(o, sorted@, 0);
                        let vk = o[kk];
                        assert(vk < n);
                        if count_absent(self.in_seq(vk as int), sorted@) == 0 {
                            assert(queue@.contains(vk));
                            assert(false);
                        }
                        lemma_count_absent_witness(self.in_seq(vk as int), sorted@);
                        let w = choose|w: usize|
                            self.in_seq(vk as int).contains(w) && !sorted@.contains(w);
                        assert(adj_ok(self.in_seq(vk as int), n as int, vk as int));
                        let t = choose|t: int|
                            0 <= t < self.in_seq(vk as int).len() && self.in_seq(
                                vk as int,
                            )[t] == w;
                        assert(w < n && w != vk);
                        assert(self.rev_edge(w as int, vk as int));
                        assert(self.has_edge(w as int, vk as int));
                        assert(o.contains(w));
                        let j = choose|j: int| 0 <= j < o.len() && o[j] == w;
                        assert(j >= kk);
                        assert(j != kk);
                        assert(self.has_edge(o[j] as int, o[kk] as int));
                        assert(j < kk);
                        assert(false);
                    }
                }
            }
            Err(GraphError::CycleDetected)
        }
    }

    /// Consecutive entries of `p` are joined by edges.
    pub open spec fn is_path(self, p: Seq<usize>) -> bool {
        forall|i: int|
            0 <= i < p.len() - 1 ==> #[trigger] self.has_edge(p[i] as int, p[i + 1] as int)
    }

    /// A directed cycle: an edge path of at least one edge returning to its
    /// starting node.
    pub open spec fn is_cycle(self, c: Seq<usize>) -> bool {
        &&& c.len() >= 2
        &&& self.is_path(c)
        &&& c[0] == c[c.len() - 1]
    }

    /// Along an edge path, positions in a valid schedule strictly increase.
    proof fn lemma_path_pos_increases(self, o: Seq<usize>, p: Seq<usize>, i: int, j: int)
        requires
            self.valid_topo_order(o),
            self.is_path(p),
            0 <= i < j < p.len(),
        ensures
            o.contains(p[i]),
            o.contains(p[j]),
            pos_of(o, p[i]) < pos_of(o, p[j]),
        decreases j - i,
    {
        lemma_no_dup_usize_len(o);
        lemma_pigeonhole(o, self.n());
        let i0 = j - 1;
        assert(self.has_edge(p[i0] as int, p[i0 + 1] as int));
        assert(self.has_edge(p[j - 1] as int, p[j] as int));
        assert(o.contains(p[j - 1]) && o.contains(p[j]));
        let k1 = pos_of(o, p[j - 1]);
        let k2 = pos_of(o, p[j]);
        lemma_pos_of(o, p[j - 1]);
        lemma_pos_of(o, p[j]);
        assert(self.has_edge(o[k1] as int, o[k2] as int));
        assert(k1 < k2);
        if i < j - 1 {
            self.lemma_path_pos_increases(o, p, i, j - 1);
        }
    }

    /// A graph that contains a cycle admits no topological order at all:
    /// every edge would force its source strictly earlier, and following the
    /// cycle once would place its starting node strictly before itself.
    pub proof fn lemma_cycle_no_topo_order(self, c: Seq<usize>)
        requires
            self.wf(),
            self.is_cycle(c),
        ensures
            forall|o: Seq<usize>| !self.valid_topo_order(o),
    {
        assert forall|o: Seq<usize>| !self.valid_topo_order(o) by {
            if self.valid_topo_order(o) {
                self.lemma_path_pos_increases(o, c, 0, c.len() - 1);
                assert(pos_of(o, c[0]) < pos_of(o, c[c.len() - 1]));
                assert(c[0] == c[c.len() - 1]);
                assert(false);
            }
        }
    }

    /// Inserts every pair of `edges` in turn, each exactly as
    /// [`Self::add_edge`] would.
    #[verifier::loop_isolation(false)]
    pub fn add_edges(&mut self, edges: &[(usize, usize)])
        requires
            old(self).wf(),
            forall|i: int|
                0 <= i < edges@.len() ==> (#[trigger] edges@[i]).0 < old(self).n()
                    && edges@[i].1 < old(self).n(),
        ensures
            final(self).wf(),
            final(self).n() == old(self).n(),
            final(self).nodes@ == old(self).nodes@,
            final(self).out_model() == out_after(old(self).out_model(), edges@),
            final(self).in_model() == in_after(old(self).in_model(), edges@),
    {
        let m = edges.len();
        let mut i: usize = 0;
        proof {
            assert(edges@.take(0) =~= Seq::<(usize, usize)>::empty());
        }
        while i < m
            invariant
                i <= m,
                self.wf(),
                self.n() == old(self).n(),
                self.nodes@ == old(self).nodes@,
                self.out_model() == out_after(old(self).out_model(), edges@.take(i as int)),
                self.in_model() == in_after(old(self).in_model(), edges@.take(i as int)),
            decreases m - i,
        {
            let ghost pre = *self;
            let (from, to) = edges[i];
            self.add_edge(from, to);
            proof {
                let ps = edges@.take(i as int + 1);
                assert(ps.drop_last() =~= edges@.take(i as int));
                assert(ps.last() == edges@[i as int]);
                lemma_single_edge_fold(pre.out_model(), pre.in_model(), from, to);
                assert(self.out_model() =~= out_after(
                    old(self).out_model(),
                    edges@.take(i as int + 1),
                ));
                assert(self.in_model() =~= in_after(
                    old(self).in_model(),
                    edges@.take(i as int + 1),
                ));
            }
            i += 1;
        }
        proof {
            assert(edges@.take(m as int) =~= edges@);
        }
    }
}

/// Relaxing one emitted node's children, in insertion order: each child's
/// indegree drops by one, and a child reaching zero joins the queue.
pub open spec fn kahn_relax(indeg: Seq<int>, queue: Seq<usize>, children: Seq<usize>) -> (
    Seq<int>,
    Seq<usize>,
)
    decreases children.len(),
{
    if children.len() == 0 {
        (indeg, queue)
    } else {
        let prev = kahn_relax(indeg, queue, children.drop_last());
        let w = children.last() as int;
        let d2 = prev.0.update(w, prev.0[w] - 1);
        if d2[w] == 0 {
            (d2, prev.1.push(children.last()))
        } else {
            (d2, prev.1)
        }
    }
}

/// The position of `x` in `o`, meaningful when `o` contains `x`.
pub open spec fn pos_of(o: Seq<usize>, x: usize) -> int {
    choose|k: int| 0 <= k < o.len() && o[k] == x
}

/// When `o` contains `x`, `pos_of` is a real position holding `x`.
proof fn lemma_pos_of(o: Seq<usize>, x: usize)
    requires
        o.contains(x),
    ensures
        0 <= pos_of(o, x) < o.len(),
        o[pos_of(o, x)] == x,
{
    let k = choose|k: int| 0 <= k < o.len() && o[k] == x;
    assert(o[k] == x);
}

/// `w` occurs in `o` strictly before position `k`.
pub open spec fn emitted_before(o: Seq<usize>, k: int, w: usize) -> bool {
    exists|j: int| 0 <= j < k && o[j] == w
}

/// How many values of `s` are missing from `done`.
pub open spec fn count_absent(s: Seq<usize>, done: Seq<usize>) -> nat
    decreases s.len(),
{
    if s.len() == 0 {
        0
    } else {
        count_absent(s.drop_last(), done) + if done.contains(s.last()) {
            0nat
        } else {
            1nat
        }
    }
}

proof fn lemma_count_absent_empty_done(s: Seq<usize>)
    ensures
        count_absent(s, Seq::<usize>::empty()) == s.len(),
    decreases s.len(),
{
    if s.len() > 0 {
        lemma_count_absent_empty_done(s.drop_last());
    }
}

proof fn lemma_count_absent_push_done(s: Seq<usize>, d: Seq<usize>, u: usize)
    requires
        s.no_duplicates(),
    ensures
        count_absent(s, d.push(u)) as int == count_absent(s, d) as int - (if s.contains(u)
            && !d.contains(u) {
            1int
        } else {
            0int
        }),
    decreases s.len(),
{
    if s.len() == 0 {
        assert(!s.contains(u));
    } else {
        let s2 = s.drop_last();
        assert(s2.no_duplicates());
        lemma_count_absent_push_done(s2, d, u);
        assert(s2.push(s.last()) =~= s);
        if s.last() == u {
            if s2.contains(u) {
                let i = choose|i: int| 0 <= i < s2.len() && s2[i] == u;
                assert(s[i] == u && s[s.len() - 1] == u && i != s.len() - 1);
                assert(false);
            }
        }
    }
}

proof fn lemma_count_absent_ge_one(s: Seq<usize>, d: Seq<usize>, w: usize)
    requires
        s.contains(w),
        !d.contains(w),
    ensures
        count_absent(s, d) >= 1,
    decreases s.len(),
{
    if s.last() == w {
    } else {
        let i = choose|i: int| 0 <= i < s.len() && s[i] == w;
        assert(s.drop_last()[i] == w);
        assert(s.drop_last().contains(w));
        lemma_count_absent_ge_one(s.drop_last(), d, w);
    }
}

proof fn lemma_count_absent_witness(s: Seq<usize>, d: Seq<usize>)
    requires
        count_absent(s, d) >= 1,
    ensures
        exists|w: usize| s.contains(w) && !d.contains(w),
    decreases s.len(),
{
    if !d.contains(s.last()) {
        assert(s.contains(s.last()));
    } else {
        lemma_count_absent_witness(s.drop_last(), d);
        let w = choose|w: usize| s.drop_last().contains(w) && !d.contains(w);
        let i = choose|i: int| 0 <= i < s.drop_last().len() && s.drop_last()[i] == w;
        assert(s[i] == w);
        assert(s.contains(w));
    }
}

/// A duplicate-free sequence of values below `n` has at most `n` entries;
/// with exactly `n` entries it holds every value below `n`, and with fewer
/// it misses one.
pub(crate) proof fn lemma_pigeonhole(s: Seq<usize>, n: int)
    requires
        s.no_duplicates(),
        forall|k: int| 0 <= k < s.len() ==> (#[trigger] s[k]) < n,
        0 <= n <= usize::MAX as int + 1,
    ensures
        s.len() <= n,
        s.len() == n ==> forall|v: usize| v < n ==> s.contains(v),
        s.len() < n ==> exists|v: usize| v < n && !s.contains(v),
{
    let t = s.map_values(|x: usize| x as int);
    assert forall|i: int, j: int|
        0 <= i < t.len() && 0 <= j < t.len() && i != j implies t[i] != t[j] by {
        assert(s[i] != s[j]);
    }
    t.unique_seq_to_set();
    let range = vstd::set_lib::set_int_range(0, n);
    vstd::set_lib::lemma_int_range(0, n);
    assert forall|e: int| t.to_set().contains(e) implies range.contains(e) by {
        let i = choose|i: int| 0 <= i < t.len() && t[i] == e;
        assert(s[i] < n);
    }
    assert(t.to_set().subset_of(range));
    vstd::set_lib::lemma_len_subset(t.to_set(), range);
    if s.len() == n {
        assert forall|v: usize| v < n implies s.contains(v) by {
            if !s.contains(v) {
                assert(!t.to_set().contains(v as int)) by {
                    if t.to_set().contains(v as int) {
                        let i = choose|i: int| 0 <= i < t.len() && t[i] == v as int;
                        assert(s[i] == v);
                    }
                }
                t.to_set().lemma_subset_not_in_lt(range, v as int);
                assert(false);
            }
        }
    }
    if s.len() < n {
        assert(exists|v: usize| v < n && !s.contains(v)) by {
            if forall|v: usize| v < n ==> #[trigger] s.contains(v) {
                assert forall|e: int| range.contains(e) implies t.to_set().contains(e) by {
                    assert(s.contains(e as usize));
                    let i = choose|i: int| 0 <= i < s.len() && s[i] == e as usize;
                    assert(t[i] == e);
                }
                vstd::set_lib::lemma_len_subset(range, t.to_set());
                assert(false);
            }
        }
    }
}

/// No duplicate-free sequence can exceed the number of distinct `usize`
/// values.
proof fn lemma_no_dup_usize_len(s: Seq<usize>)
    requires
        s.no_duplicates(),
    ensures
        s.len() <= usize::MAX as int + 1,
{
    let t = s.map_values(|x: usize| x as int);
    assert forall|i: int, j: int|
        0 <= i < t.len() && 0 <= j < t.len() && i != j implies t[i] != t[j] by {
        assert(s[i] != s[j]);
    }
    t.unique_seq_to_set();
    let range = vstd::set_lib::set_int_range(0, usize::MAX as int + 1);
    vstd::set_lib::lemma_int_range(0, usize::MAX as int + 1);
    assert forall|e: int| t.to_set().contains(e) implies range.contains(e) by {
        let i = choose|i: int| 0 <= i < t.len() && t[i] == e;
        assert(t[i] == s[i] as int);
    }
    assert(t.to_set().subset_of(range));
    vstd::set_lib::lemma_len_subset(t.to_set(), range);
}

/// The first position at or after `i` whose value is missing from `d`.
proof fn lemma_first_outside(o: Seq<usize>, d: Seq<usize>, i: int) -> (k: int)
    requires
        0 <= i <= o.len(),
        exists|j: int| i <= j < o.len() && !d.contains(o[j]),
    ensures
        i <= k < o.len(),
        !d.contains(o[k]),
        forall|j: int| i <= j < k ==> d.contains(#[trigger] o[j]),
    decreases o.len() - i,
{
    let j0 = choose|j: int| i <= j < o.len() && !d.contains(o[j]);
    if !d.contains(o[i]) {
        i
    } else {
        assert(i + 1 <= j0);
        lemma_first_outside(o, d, i + 1)
    }
}

/// Folding a single pair equals one insertion step.
pub proof fn lemma_single_edge_fold(
    om: Seq<Seq<usize>>,
    im: Seq<Seq<usize>>,
    from: usize,
    to: usize,
)
    ensures
        out_after(om, seq![(from, to)]) == if from == to {
            om
        } else {
            om.update(from as int, push_absent(om[from as int], to))
        },
        in_after(im, seq![(from, to)]) == if from == to {
            im
        } else {
            im.update(to as int, push_absent(im[to as int], from))
        },
{
    assert(seq![(from, to)].drop_last() =~= Seq::<(usize, usize)>::empty());
    assert(out_after(om, Seq::<(usize, usize)>::empty()) == om);
    assert(in_after(im, Seq::<(usize, usize)>::empty()) == im);
}

/// Appending a value not yet present keeps a sequence duplicate-free.
pub proof fn lemma_no_dup_push(s: Seq<usize>, x: usize)
    requires
        s.no_duplicates(),
        !s.contains(x),
    ensures
        s.push(x).no_duplicates(),
{
    let t = s.push(x);
    assert forall|i: int, j: int|
        0 <= i < t.len() && 0 <= j < t.len() && i != j implies t[i] != t[j] by {
        if i < s.len() && j < s.len() {
        } else if i == s.len() as int {
            if j < s.len() && t[j] == x {
                assert(s[j] == x);
                assert(s.contains(x));
            }
        } else {
            if i < s.len() && t[i] == x {
                assert(s[i] == x);
                assert(s.contains(x));
            }
        }
    }
}

} // verus!
