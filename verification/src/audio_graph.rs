//! The per-block scheduler: drives every node in topological order.
//!
//! Each block, every node first sees its gathered control events and then
//! its gathered audio inputs, writing one persistent output frame. Feedback
//! is carried by stateful nodes, never by graph cycles: a mutation that
//! would close a cycle is rejected and the previous schedule is kept.

use vstd::prelude::*;
use crate::bang::Bang;
use crate::buffer::{Frame, frame_dims, frames_view};
use crate::graph::{DynamicGraph, GraphError};
use crate::iset::{iset_len, iset_get};
use crate::node::{
    AnyNode,
    NodeModel,
    audio_step_model,
    bang_step_model,
    MAX_BANG_INPUTS,
};

verus! {

broadcast use vstd::seq_lib::group_seq_properties;

/// The control events a node sees: its incoming neighbours' outputs in
/// insertion order, clipped to the scratch capacity, padded with `Empty`.
pub open spec fn gather_bangs(bangs: Seq<Bang>, inc: Seq<usize>) -> Seq<Bang> {
    Seq::new(
        MAX_BANG_INPUTS as nat,
        |k: int|
            if k < inc.len() {
                bangs[inc[k] as int]
            } else {
                Bang::Empty
            },
    )
}

/// The audio frames a node sees: its incoming neighbours' output frames in
/// insertion order.
pub open spec fn gather_audio(audios: Seq<Seq<Seq<i64>>>, inc: Seq<usize>) -> Seq<Seq<Seq<i64>>> {
    Seq::new(inc.len(), |k: int| audios[inc[k] as int])
}

/// A snapshot of everything one block of scheduling changes: node states,
/// control outputs, audio outputs.
pub struct RenderState {
    /// The model of every node, by id.
    pub models: Seq<NodeModel>,
    /// Every node's persistent control output.
    pub bangs: Seq<Bang>,
    /// Every node's persistent audio output frame.
    pub audios: Seq<Seq<Seq<i64>>>,
}

/// Visiting node `i`: control gather and step first, then audio gather and
/// step, both against the same incoming list.
pub open spec fn render_step(s: RenderState, inc: Seq<usize>, i: int) -> RenderState {
    let bres = bang_step_model(s.models[i], gather_bangs(s.bangs, inc));
    let ares = audio_step_model(bres.0, gather_audio(s.audios, inc), s.audios[i]);
    RenderState {
        models: s.models.update(i, ares.0),
        bangs: s.bangs.update(i, bres.1),
        audios: s.audios.update(i, ares.1),
    }
}

/// The state after visiting the first `j` scheduled nodes.
pub open spec fn render_fold(
    g: DynamicGraph<AnyNode>,
    order: Seq<usize>,
    s: RenderState,
    j: int,
) -> RenderState
    decreases j,
{
    if j <= 0 {
        s
    } else {
        let prev = render_fold(g, order, s, j - 1);
        render_step(prev, g.in_seq(order[j - 1] as int), order[j - 1] as int)
    }
}

/// The audio graph: topology, per-node persistent outputs, reusable
/// scratch, and the cached schedule.
pub struct DynamicAudioGraph {
    graph: DynamicGraph<AnyNode>,
    audio_inputs: Vec<Frame>,
    gather_pool: Vec<Frame>,
    out_scratch: Frame,
    audio_outputs: Vec<Frame>,
    bang_inputs: Vec<Bang>,
    bang_outputs: Vec<Bang>,
    sort_order: Vec<usize>,
    sink_index: usize,
    block_size: usize,
    channels: usize,
}

impl DynamicAudioGraph {
    /// The underlying topology.
    pub closed spec fn graph_spec(self) -> DynamicGraph<AnyNode> {
        self.graph
    }

    /// The number of nodes.
    pub open spec fn n(self) -> int {
        self.graph_spec().n()
    }

    /// The model of every node, by id.
    pub open spec fn models(self) -> Seq<NodeModel> {
        self.graph_spec().nodes@.map_values(|nd: AnyNode| nd.model())
    }

    /// Every node's persistent control output.
    pub closed spec fn bangs(self) -> Seq<Bang> {
        self.bang_outputs@
    }

    /// The contents of every node's persistent audio output frame.
    pub closed spec fn audios(self) -> Seq<Seq<Seq<i64>>> {
        self.audio_outputs@.map_values(|f: Frame| f@)
    }

    /// The cached schedule.
    pub closed spec fn order(self) -> Seq<usize> {
        self.sort_order@
    }

    /// The node whose output frame feeds the host.
    pub closed spec fn sink_spec(self) -> int {
        self.sink_index as int
    }

    /// Samples per channel per block.
    pub closed spec fn block_spec(self) -> int {
        self.block_size as int
    }

    /// Channels per frame.
    pub closed spec fn channels_spec(self) -> int {
        self.channels as int
    }

    /// The control scratch holds exactly one slot per possible input.
    pub closed spec fn scratch_ok(self) -> bool {
        self.bang_inputs@.len() == MAX_BANG_INPUTS
    }

    /// The audio scratch is preallocated: an idle gather buffer, a pool of
    /// one correctly sized spare frame per node to gather into, and one
    /// spare output frame — so rendering never allocates.
    pub closed spec fn pool_ok(self) -> bool {
        &&& self.audio_inputs@.len() == 0
        &&& self.gather_pool@.len() == self.n()
        &&& forall|t: int|
            0 <= t < self.gather_pool@.len() ==> frame_dims(
                (#[trigger] self.gather_pool@[t])@,
                self.channels_spec(),
                self.block_spec(),
            )
        &&& frame_dims(self.out_scratch@, self.channels_spec(), self.block_spec())
    }

    /// Structural invariant of the whole engine.
    pub open spec fn wf(self) -> bool {
        &&& self.graph_spec().wf()
        &&& self.channels_spec() >= 1
        &&& self.audios().len() == self.n()
        &&& self.bangs().len() == self.n()
        &&& forall|i: int|
            0 <= i < self.n() ==> frame_dims(
                #[trigger] self.audios()[i],
                self.channels_spec(),
                self.block_spec(),
            )
        &&& self.scratch_ok()
        &&& self.pool_ok()
        &&& self.graph_spec().valid_topo_order(self.order())
        &&& self.sink_spec() == 0 || (0 <= self.sink_spec() < self.n())
        &&& forall|i: int|
            0 <= i < self.n() ==> (#[trigger] self.graph_spec().nodes@[i]).wf(
                self.channels_spec(),
            )
    }

    /// An empty engine for frames of `channels >= 1` channels of
    /// `block_size` samples, with storage reserved for `capacity` nodes.
    #[verifier::loop_isolation(false)]
    pub fn with_capacity(capacity: usize, block_size: usize, channels: usize) -> (r: Self)
        requires
            channels >= 1,
        ensures
            r.wf(),
            r.n() == 0,
            r.block_spec() == block_size,
            r.channels_spec() == channels,
            r.order() == Seq::<usize>::empty(),
    {
        let mut bang_inputs: Vec<Bang> = Vec::with_capacity(MAX_BANG_INPUTS);
        let mut k: usize = 0;
        while k < MAX_BANG_INPUTS
            invariant
                k <= MAX_BANG_INPUTS,
                bang_inputs@.len() == k,
            decreases MAX_BANG_INPUTS - k,
        {
            bang_inputs.push(Bang::Empty);
            k += 1;
        }
        let r = DynamicAudioGraph {
            graph: DynamicGraph::with_capacity(capacity),
            audio_inputs: Vec::with_capacity(capacity),
            gather_pool: Vec::with_capacity(capacity),
            out_scratch: Frame::silent(channels, block_size),
            audio_outputs: Vec::with_capacity(capacity),
            bang_inputs,
            bang_outputs: Vec::with_capacity(capacity),
            sort_order: Vec::with_capacity(capacity),
            sink_index: 0,
            block_size,
            channels,
        };
        proof {
            assert(r.models() =~= Seq::<NodeModel>::empty());
        }
        r
    }

    /// Moves `node` into the graph and returns its id; the schedule is
    /// recomputed, which always succeeds because a fresh node has no edges.
    pub fn add_node(&mut self, node: AnyNode) -> (id: usize)
        requires
            old(self).wf(),
            node.wf(old(self).channels_spec()),
        ensures
            final(self).wf(),
            id == old(self).n(),
            final(self).n() == old(self).n() + 1,
            final(self).models() == old(self).models().push(node.model()),
            final(self).bangs() == old(self).bangs().push(Bang::Empty),
            final(self).audios().len() == old(self).audios().len() + 1,
            forall|i: int|
                0 <= i < old(self).n() ==> #[trigger] final(self).audios()[i] == old(
                    self,
                ).audios()[i],
            forall|c: int, nn: int|
                0 <= c < old(self).channels_spec() && 0 <= nn < old(self).block_spec()
                    ==> #[trigger] final(self).audios()[id as int][c][nn] == 0,
            forall|u: int, v: int|
                final(self).graph_spec().has_edge(u, v) <==> old(self).graph_spec().has_edge(
                    u,
                    v,
                ),
            final(self).sink_spec() == old(self).sink_spec(),
            final(self).block_spec() == old(self).block_spec(),
            final(self).channels_spec() == old(self).channels_spec(),
    {
        let ghost pre = *self;
        let id = self.graph.add_node(node);
        self.audio_outputs.push(Frame::silent(self.channels, self.block_size));
        self.gather_pool.push(Frame::silent(self.channels, self.block_size));
        // grow the gather buffer's backing storage now, from the controller
        // side, so rendering never has to
        self.audio_inputs.reserve(self.gather_pool.len());
        self.bang_outputs.push(Bang::Empty);
        proof {
            assert(self.models() =~= pre.models().push(node.model()));
            assert(self.audios() =~= pre.audios().push(
                self.audio_outputs@.last()@,
            ));
            // the old schedule extended with the new id is a valid schedule
            let o2 = pre.order().push(id);
            let g2 = self.graph;
            assert(o2.len() == g2.n());
            assert forall|k: int| 0 <= k < o2.len() implies (#[trigger] o2[k]) < g2.n() by {
                if k < pre.order().len() {
                    assert(pre.order()[k] < pre.n());
                }
            }
            assert(!pre.order().contains(id)) by {
                if pre.order().contains(id) {
                    let k = choose|k: int|
                        0 <= k < pre.order().len() && pre.order()[k] == id;
                    assert(pre.order()[k] < pre.n());
                }
            }
            crate::graph::lemma_no_dup_push(pre.order(), id);
            assert forall|k1: int, k2: int|
                0 <= k1 < o2.len() && 0 <= k2 < o2.len() && #[trigger] g2.has_edge(
                    o2[k1] as int,
                    o2[k2] as int,
                ) implies k1 < k2 by {
                assert(pre.graph_spec().has_edge(o2[k1] as int, o2[k2] as int));
                assert(k1 < pre.order().len() && k2 < pre.order().len());
                assert(pre.graph_spec().valid_topo_order(pre.order()));
            }
            assert(g2.valid_topo_order(o2));
        }
        match self.graph.topo_sort() {
            Ok(o) => {
                self.sort_order = o;
            },
            Err(_) => {
                proof {
                    assert(false);
                }
            },
        }
        proof {
            assert forall|i: int| 0 <= i < self.n() implies (
            #[trigger] self.graph.nodes@[i]).wf(self.channels_spec()) by {
                if i < pre.n() {
                    assert(pre.graph_spec().nodes@[i].wf(pre.channels_spec()));
                    assert(self.graph.nodes@[i] == pre.graph_spec().nodes@[i]);
                }
            }
            assert forall|i: int| 0 <= i < self.n() implies frame_dims(
                #[trigger] self.audios()[i],
                self.channels_spec(),
                self.block_spec(),
            ) by {
                if i < pre.n() {
                    assert(self.audios()[i] == pre.audios()[i]);
                    assert(frame_dims(pre.audios()[i], pre.channels_spec(), pre.block_spec()));
                } else {
                    assert(self.audios()[i] == self.audio_outputs@[i]@);
                }
            }
        }
        id
    }

    /// `o` is a valid schedule for the edges of `g` plus one extra edge.
    pub open spec fn order_with_extra_edge(
        g: DynamicGraph<AnyNode>,
        from: int,
        to: int,
        o: Seq<usize>,
    ) -> bool {
        &&& o.len() == g.n()
        &&& o.no_duplicates()
        &&& forall|k: int| 0 <= k < o.len() ==> (#[trigger] o[k]) < g.n()
        &&& forall|k1: int, k2: int|
            0 <= k1 < o.len() && 0 <= k2 < o.len() && #[trigger] edge_or_extra(
                g,
                from,
                to,
                o[k1] as int,
                o[k2] as int,
            ) ==> k1 < k2
    }

    /// Connects `from -> to` and recomputes the schedule; a connection that
    /// would close a cycle is rejected, leaving edges and schedule exactly
    /// as they were.
    pub fn add_edge(&mut self, from: usize, to: usize) -> (r: Result<(), GraphError>)
        requires
            old(self).wf(),
            from < old(self).n(),
            to < old(self).n(),
        ensures
            final(self).wf(),
            final(self).n() == old(self).n(),
            final(self).models() == old(self).models(),
            final(self).bangs() == old(self).bangs(),
            final(self).audios() == old(self).audios(),
            final(self).sink_spec() == old(self).sink_spec(),
            final(self).block_spec() == old(self).block_spec(),
            final(self).channels_spec() == old(self).channels_spec(),
            match r {
                Ok(()) => forall|u: int, v: int|
                    final(self).graph_spec().has_edge(u, v) <==> (old(
                        self,
                    ).graph_spec().has_edge(u, v) || (u == from && v == to && from != to)),
                Err(e) => {
                    &&& e == GraphError::CycleDetected
                    &&& from != to
                    &&& forall|u: int, v: int|
                        final(self).graph_spec().has_edge(u, v) <==> old(
                            self,
                        ).graph_spec().has_edge(u, v)
                    &&& final(self).order() == old(self).order()
                    &&& forall|o: Seq<usize>|
                        !Self::order_with_extra_edge(
                            old(self).graph_spec(),
                            from as int,
                            to as int,
                            o,
                        )
                },
            },
    {
        let ghost pre = *self;
        if from == to {
            return Ok(());
        }
        self.graph.add_edge(from, to);
        let ghost mid = self.graph;
        match self.graph.topo_sort() {
            Ok(o) => {
                self.sort_order = o;
                proof {
                    assert(self.models() =~= pre.models());
                    assert(self.audios() =~= pre.audios());
                }
                Ok(())
            },
            Err(_) => {
                proof {
                    // the edge must have been new: otherwise the graph was
                    // unchanged and the old valid schedule refutes the sort
                    crate::graph::lemma_single_edge_fold(
                        pre.graph_spec().out_model(),
                        pre.graph_spec().in_model(),
                        from,
                        to,
                    );
                    if pre.graph_spec().out_seq(from as int).contains(to) {
                        assert(pre.graph_spec().has_edge(from as int, to as int));
                        assert forall|u: int, v: int|
                            #![trigger mid.has_edge(u, v)]
                            mid.has_edge(u, v) <==> pre.graph_spec().has_edge(u, v) by {
                            assert(mid.has_edge(u, v) <==> (pre.graph_spec().has_edge(u, v)
                                || (u == from && v == to && from != to)));
                        }
                        assert forall|k1: int, k2: int|
                            0 <= k1 < pre.order().len() && 0 <= k2 < pre.order().len()
                                && #[trigger] mid.has_edge(
                                pre.order()[k1] as int,
                                pre.order()[k2] as int,
                            ) implies k1 < k2 by {
                            assert(pre.graph_spec().has_edge(
                                pre.order()[k1] as int,
                                pre.order()[k2] as int,
                            ));
                        }
                        assert(mid.valid_topo_order(pre.order()));
                        assert(false);
                    }
                }
                let oset: &mut indexmap::IndexSet<
                    usize,
                    std::collections::hash_map::RandomState,
                > = &mut self.graph.outgoing[from];
                crate::iset::iset_pop(oset);
                let iset2: &mut indexmap::IndexSet<
                    usize,
                    std::collections::hash_map::RandomState,
                > = &mut self.graph.incoming[to];
                crate::iset::iset_pop(iset2);
                proof {
                    let cur = self.graph;
                    let preg = pre.graph_spec();
                    assert(!preg.out_seq(from as int).contains(to));
                    crate::graph::lemma_single_edge_fold(
                        preg.out_model(),
                        preg.in_model(),
                        from,
                        to,
                    );
                    assert(preg.has_edge(from as int, to as int) <==> preg.rev_edge(
                        from as int,
                        to as int,
                    ));
                    assert(!preg.in_seq(to as int).contains(from));
                    assert(preg.out_model()[from as int] == preg.out_seq(from as int));
                    assert(preg.in_model()[to as int] == preg.in_seq(to as int));
                    assert(mid.out_model()[from as int] == mid.out_seq(from as int));
                    assert(mid.in_model()[to as int] == mid.in_seq(to as int));
                    assert(mid.out_seq(from as int) == preg.out_seq(from as int).push(to));
                    assert(mid.in_seq(to as int) == preg.in_seq(to as int).push(from));
                    assert(cur.out_seq(from as int) =~= preg.out_seq(from as int));
                    assert(cur.in_seq(to as int) =~= preg.in_seq(to as int));
                    assert forall|u: int|
                        0 <= u < preg.n() && u != from implies #[trigger] cur.out_seq(u)
                            == preg.out_seq(u) by {
                        assert(mid.out_model()[u] == mid.out_seq(u));
                        assert(preg.out_model()[u] == preg.out_seq(u));
                    }
                    assert forall|v: int|
                        0 <= v < preg.n() && v != to implies #[trigger] cur.in_seq(v)
                            == preg.in_seq(v) by {
                        assert(mid.in_model()[v] == mid.in_seq(v));
                        assert(preg.in_model()[v] == preg.in_seq(v));
                    }
                    assert forall|u: int| 0 <= u < preg.n() implies crate::graph::adj_ok(
                        #[trigger] cur.out_seq(u),
                        preg.n(),
                        u,
                    ) by {
                        assert(cur.out_seq(u) == preg.out_seq(u));
                    }
                    assert forall|v: int| 0 <= v < preg.n() implies crate::graph::adj_ok(
                        #[trigger] cur.in_seq(v),
                        preg.n(),
                        v,
                    ) by {
                        assert(cur.in_seq(v) == preg.in_seq(v));
                    }
                    assert forall|u: int, v: int| #![trigger cur.has_edge(u, v)] cur.has_edge(
                        u,
                        v,
                    ) <==> cur.rev_edge(u, v) by {
                        if 0 <= u < preg.n() && 0 <= v < preg.n() {
                            assert(cur.out_seq(u) == preg.out_seq(u));
                            assert(cur.in_seq(v) == preg.in_seq(v));
                            assert(preg.has_edge(u, v) <==> preg.rev_edge(u, v));
                        }
                    }
                    assert forall|u: int, v: int|
                        #![trigger cur.has_edge(u, v)]
                        cur.has_edge(u, v) <==> preg.has_edge(u, v) by {
                        if 0 <= u < preg.n() && 0 <= v < preg.n() {
                            assert(cur.out_seq(u) == preg.out_seq(u));
                        }
                    }
                    assert(cur.wf());
                    assert forall|k1: int, k2: int|
                        0 <= k1 < pre.order().len() && 0 <= k2 < pre.order().len()
                            && #[trigger] cur.has_edge(
                            pre.order()[k1] as int,
                            pre.order()[k2] as int,
                        ) implies k1 < k2 by {
                        assert(preg.has_edge(pre.order()[k1] as int, pre.order()[k2] as int));
                    }
                    assert(cur.valid_topo_order(pre.order()));
                    assert(self.models() =~= pre.models());
                    assert(self.audios() =~= pre.audios());
                    // no schedule tolerates the extra edge: any such schedule
                    // would have been a valid schedule of the augmented graph
                    assert forall|o: Seq<usize>|
                        !Self::order_with_extra_edge(preg, from as int, to as int, o) by {
                        if Self::order_with_extra_edge(preg, from as int, to as int, o) {
                            assert forall|k1: int, k2: int|
                                0 <= k1 < o.len() && 0 <= k2 < o.len() && #[trigger] mid.has_edge(
                                    o[k1] as int,
                                    o[k2] as int,
                                ) implies k1 < k2 by {
                                assert(mid.has_edge(o[k1] as int, o[k2] as int) ==> (
                                preg.has_edge(o[k1] as int, o[k2] as int) || (o[k1] == from
                                    && o[k2] == to)));
                                assert(edge_or_extra(
                                    preg,
                                    from as int,
                                    to as int,
                                    o[k1] as int,
                                    o[k2] as int,
                                ));
                            }
                            assert(mid.valid_topo_order(o));
                            assert(false);
                        }
                    }
                }
                Err(GraphError::CycleDetected)
            },
        }
    }

    /// Connects every pair of `edges` in turn, stopping at the first
    /// connection that would close a cycle.
    #[verifier::loop_isolation(false)]
    pub fn add_edges(&mut self, edges: &[(usize, usize)]) -> (r: Result<(), GraphError>)
        requires
            old(self).wf(),
            forall|i: int|
                0 <= i < edges@.len() ==> (#[trigger] edges@[i]).0 < old(self).n()
                    && edges@[i].1 < old(self).n(),
        ensures
            final(self).wf(),
            final(self).n() == old(self).n(),
            final(self).models() == old(self).models(),
            final(self).bangs() == old(self).bangs(),
            final(self).audios() == old(self).audios(),
            final(self).sink_spec() == old(self).sink_spec(),
            final(self).block_spec() == old(self).block_spec(),
            final(self).channels_spec() == old(self).channels_spec(),
            match r {
                Ok(_) => forall|i: int|
                    (0 <= i && i < edges@.len() && (#[trigger] edges@[i]).0 != edges@[i].1)
                        ==> final(self).graph_spec().has_edge(
                        edges@[i].0 as int,
                        edges@[i].1 as int,
                    ),
                Err(e) => e == GraphError::CycleDetected,
            },
            forall|u: int, v: int|
                final(self).graph_spec().has_edge(u, v) ==> (old(self).graph_spec().has_edge(
                    u,
                    v,
                ) || exists|i: int|
                    0 <= i < edges@.len() && (#[trigger] edges@[i]) == (u as usize, v as usize)),
    {
        let m = edges.len();
        let mut i: usize = 0;
        while i < m
            invariant
                i <= m,
                self.wf(),
                self.n() == old(self).n(),
                self.models() == old(self).models(),
                self.bangs() == old(self).bangs(),
                self.audios() == old(self).audios(),
                self.sink_spec() == old(self).sink_spec(),
                self.block_spec() == old(self).block_spec(),
                self.channels_spec() == old(self).channels_spec(),
                forall|j: int|
                    0 <= j < i && (#[trigger] edges@[j]).0 != edges@[j].1
                        ==> self.graph_spec().has_edge(edges@[j].0 as int, edges@[j].1 as int),
                forall|u: int, v: int|
                    self.graph_spec().has_edge(u, v) ==> (old(self).graph_spec().has_edge(u, v)
                        || exists|j: int|
                        0 <= j < i && (#[trigger] edges@[j]) == (u as usize, v as usize)),
            decreases m - i,
        {
            let (from, to) = edges[i];
            let res = self.add_edge(from, to);
            match res {
                Ok(()) => {},
                Err(e) => {
                    return Err(e);
                },
            }
            i += 1;
        }
        Ok(())
    }

    /// One block of rendering: every node, in schedule order, first sees
    /// its gathered control events and then its gathered audio inputs,
    /// writing its persistent outputs. The whole effect is exactly
    /// [`render_fold`] over the schedule.
    #[verifier::loop_isolation(false)]
    #[verifier::rlimit(100)]
    pub fn render_block(&mut self)
        requires
            old(self).wf(),
            old(self).n() > 0,
        ensures
            final(self).wf(),
            final(self).n() == old(self).n(),
            final(self).order() == old(self).order(),
            final(self).sink_spec() == old(self).sink_spec(),
            final(self).block_spec() == old(self).block_spec(),
            final(self).channels_spec() == old(self).channels_spec(),
            forall|u: int, v: int|
                final(self).graph_spec().has_edge(u, v) <==> old(self).graph_spec().has_edge(
                    u,
                    v,
                ),
            ({
                let end = render_fold(
                    old(self).graph_spec(),
                    old(self).order(),
                    RenderState {
                        models: old(self).models(),
                        bangs: old(self).bangs(),
                        audios: old(self).audios(),
                    },
                    old(self).order().len() as int,
                );
                &&& final(self).models() == end.models
                &&& final(self).bangs() == end.bangs
                &&& final(self).audios() == end.audios
            }),
    {
        let count = self.sort_order.len();
        let ghost oldg = old(self).graph_spec();
        let ghost order0 = old(self).order();
        let ghost s0 = RenderState {
            models: old(self).models(),
            bangs: old(self).bangs(),
            audios: old(self).audios(),
        };
        let mut j: usize = 0;
        while j < count
            invariant
                j <= count,
                count == order0.len(),
                self.graph.nodes@.len() == oldg.nodes@.len(),
                self.graph.incoming@ == oldg.incoming@,
                self.graph.outgoing@ == oldg.outgoing@,
                self.sort_order@ == order0,
                self.sink_spec() == old(self).sink_spec(),
                self.block_spec() == old(self).block_spec(),
                self.channels_spec() == old(self).channels_spec(),
                self.scratch_ok(),
                self.pool_ok(),
                self.graph_spec().wf(),
                self.graph_spec().valid_topo_order(self.order()),
                self.bangs().len() == self.n(),
                self.audios().len() == self.n(),
                forall|t: int|
                    0 <= t < self.n() ==> frame_dims(
                        #[trigger] self.audios()[t],
                        self.channels_spec(),
                        self.block_spec(),
                    ),
                forall|t: int|
                    0 <= t < self.n() ==> (#[trigger] self.graph.nodes@[t]).wf(
                        self.channels_spec(),
                    ),
                self.models() == render_fold(oldg, order0, s0, j as int).models,
                self.bangs() == render_fold(oldg, order0, s0, j as int).bangs,
                self.audios() == render_fold(oldg, order0, s0, j as int).audios,
            decreases count - j,
        {
            let i = self.sort_order[j];
            proof {
                assert(self.order()[j as int] == i);
                assert(i < self.n());
                assert(crate::graph::adj_ok(
                    self.graph_spec().in_seq(i as int),
                    self.n(),
                    i as int,
                ));
            }
            let ghost s_pre = RenderState {
                models: self.models(),
                bangs: self.bangs(),
                audios: self.audios(),
            };
            let ghost inc = self.graph_spec().in_seq(i as int);
            // control gather: incoming outputs in insertion order, clipped
            // to the scratch, padded with no-events
            let inc_len = iset_len(&self.graph.incoming[i]);
            let ghost snap = *self;
            let mut k: usize = 0;
            while k < MAX_BANG_INPUTS
                invariant
                    k <= MAX_BANG_INPUTS,
                    inc_len == inc.len(),
                    (*self == DynamicAudioGraph { bang_inputs: self.bang_inputs, ..snap }),
                    self.bang_inputs@.len() == MAX_BANG_INPUTS,
                    forall|t: int|
                        0 <= t < k ==> #[trigger] self.bang_inputs@[t] == gather_bangs(
                            s_pre.bangs,
                            inc,
                        )[t],
                decreases MAX_BANG_INPUTS - k,
            {
                let v: Bang = if k < inc_len {
                    let src = iset_get(&self.graph.incoming[i], k);
                    proof {
                        assert(inc[k as int] == src);
                        assert(inc[k as int] < self.n());
                    }
                    self.bang_outputs[src]
                } else {
                    Bang::Empty
                };
                self.bang_inputs[k] = v;
                k += 1;
            }
            proof {
                assert(self.bang_inputs@ =~= gather_bangs(s_pre.bangs, inc));
            }
            // control step
            let mut bout: Bang = self.bang_outputs[i];
            let ghost ch = self.channels_spec();
            let node_ref: &mut AnyNode = &mut self.graph.nodes[i];
            proof {
                assert(node_ref.wf(ch));
            }
            node_ref.handle_bang(&self.bang_inputs, &mut bout);
            self.bang_outputs[i] = bout;
            let ghost bres = bang_step_model(
                s_pre.models[i as int],
                gather_bangs(s_pre.bangs, inc),
            );
            proof {
                assert(self.models() =~= s_pre.models.update(i as int, bres.0));
                assert(self.bangs() =~= s_pre.bangs.update(i as int, bres.1));
            }
            // audio gather: incoming output frames copied, in insertion
            // order, into frames taken from the preallocated pool
            proof {
                crate::graph::lemma_pigeonhole(inc, self.n());
                assert(self.gather_pool@.len() == self.n());
            }
            let ghost snap2 = *self;
            let mut k2: usize = 0;
            while k2 < inc_len
                invariant
                    k2 <= inc_len,
                    inc_len == inc.len(),
                    inc.len() <= self.n(),
                    (*self == DynamicAudioGraph {
                        audio_inputs: self.audio_inputs,
                        gather_pool: self.gather_pool,
                        ..snap2
                    }),
                    self.audio_inputs@.len() == k2,
                    self.gather_pool@.len() == snap2.gather_pool@.len() - k2,
                    forall|t: int|
                        0 <= t < self.gather_pool@.len() ==> frame_dims(
                            (#[trigger] self.gather_pool@[t])@,
                            self.channels_spec(),
                            self.block_spec(),
                        ),
                    forall|t: int|
                        0 <= t < k2 ==> (#[trigger] self.audio_inputs@[t])@ == gather_audio(
                            s_pre.audios,
                            inc,
                        )[t],
                decreases inc_len - k2,
            {
                let src = iset_get(&self.graph.incoming[i], k2);
                proof {
                    assert(inc[k2 as int] == src);
                    assert(inc[k2 as int] < self.n());
                }
                proof {
                    assert(frame_dims(
                        (self.gather_pool@[self.gather_pool@.len() - 1])@,
                        self.channels_spec(),
                        self.block_spec(),
                    ));
                    assert(self.audios() == snap2.audios());
                    assert(self.audios()[src as int] == self.audio_outputs@[src as int]@);
                    assert(frame_dims(
                        self.audio_outputs@[src as int]@,
                        self.channels_spec(),
                        self.block_spec(),
                    ));
                }
                let mut f = match self.gather_pool.pop() {
                    Option::Some(f) => f,
                    Option::None => {
                        proof {
                            assert(false);
                        }
                        Frame::silent(0, 0)
                    },
                };
                f.copy_from(&self.audio_outputs[src]);
                self.audio_inputs.push(f);
                k2 += 1;
            }
            proof {
                assert(frames_view(self.audio_inputs@) =~= gather_audio(s_pre.audios, inc));
            }
            // audio step: the node writes its persistent frame, reached by
            // swapping it against the spare
            std::mem::swap(&mut self.out_scratch, &mut self.audio_outputs[i]);
            proof {
                assert(self.out_scratch@ == s_pre.audios[i as int]);
                assert(frame_dims(
                    self.out_scratch@,
                    self.channels_spec(),
                    self.block_spec(),
                ));
                assert forall|t: int|
                    0 <= t < frames_view(self.audio_inputs@).len() implies
                    crate::buffer::same_dims(
                        #[trigger] frames_view(self.audio_inputs@)[t],
                        self.out_scratch@,
                    ) by {
                    assert(gather_audio(s_pre.audios, inc)[t] == s_pre.audios[inc[t] as int]);
                    assert(frame_dims(
                        s_pre.audios[inc[t] as int],
                        self.channels_spec(),
                        self.block_spec(),
                    ));
                }
            }
            let ghost ch2 = self.channels_spec();
            let node_ref2: &mut AnyNode = &mut self.graph.nodes[i];
            proof {
                assert(node_ref2.wf(ch2));
                assert(node_ref2.model() == bres.0);
            }
            node_ref2.process(&self.audio_inputs, &mut self.out_scratch);
            let ghost outv = self.out_scratch@;
            std::mem::swap(&mut self.out_scratch, &mut self.audio_outputs[i]);
            proof {
                assert forall|t: int| 0 <= t < self.audio_inputs@.len() implies frame_dims(
                    (#[trigger] self.audio_inputs@[t])@,
                    self.channels_spec(),
                    self.block_spec(),
                ) by {
                    assert(self.audio_inputs@[t]@ == gather_audio(s_pre.audios, inc)[t]);
                    assert(gather_audio(s_pre.audios, inc)[t] == s_pre.audios[inc[t] as int]);
                }
            }
            // the gathered frames go back to the pool
            let ghost snap3 = *self;
            while self.audio_inputs.len() > 0
                invariant
                    (*self == DynamicAudioGraph {
                        audio_inputs: self.audio_inputs,
                        gather_pool: self.gather_pool,
                        ..snap3
                    }),
                    self.gather_pool@.len() == snap3.gather_pool@.len() + (
                    snap3.audio_inputs@.len() - self.audio_inputs@.len()),
                    forall|t: int|
                        0 <= t < self.audio_inputs@.len() ==> frame_dims(
                            (#[trigger] self.audio_inputs@[t])@,
                            self.channels_spec(),
                            self.block_spec(),
                        ),
                    forall|t: int|
                        0 <= t < self.gather_pool@.len() ==> frame_dims(
                            (#[trigger] self.gather_pool@[t])@,
                            self.channels_spec(),
                            self.block_spec(),
                        ),
                decreases self.audio_inputs@.len(),
            {
                let f = match self.audio_inputs.pop() {
                    Option::Some(f) => f,
                    Option::None => {
                        proof {
                            assert(false);
                        }
                        Frame::silent(0, 0)
                    },
                };
                self.gather_pool.push(f);
            }
            let ghost ares = audio_step_model(
                bres.0,
                gather_audio(s_pre.audios, inc),
                s_pre.audios[i as int],
            );
            proof {
                assert(self.models() =~= s_pre.models.update(i as int, bres.0).update(
                    i as int,
                    ares.0,
                ));
                assert(self.audios() =~= s_pre.audios.update(i as int, ares.1));
                assert(s_pre.models.update(i as int, bres.0).update(i as int, ares.0)
                    =~= s_pre.models.update(i as int, ares.0));
                // this iteration performed exactly one fold step
                assert(s_pre == render_fold(oldg, order0, s0, j as int));
                assert(inc == oldg.in_seq(order0[j as int] as int));
                let s_next = render_fold(oldg, order0, s0, j as int + 1);
                assert(s_next == render_step(s_pre, inc, i as int));
                assert(self.models() == s_next.models);
                assert(self.bangs() == s_next.bangs);
                assert(self.audios() == s_next.audios);
                // well-formedness is preserved node by node
                assert forall|t: int|
                    0 <= t < self.n() implies (#[trigger] self.graph.nodes@[t]).wf(
                        self.channels_spec(),
                    ) by {
                }
                assert forall|t: int|
                    0 <= t < self.n() implies frame_dims(
                        #[trigger] self.audios()[t],
                        self.channels_spec(),
                        self.block_spec(),
                    ) by {
                    if t == i as int {
                        assert(self.audios()[t] == outv);
                    } else {
                        assert(self.audios()[t] == s_pre.audios[t]);
                    }
                }
                // topology facts survive node-state updates
                let g2 = self.graph_spec();
                assert forall|u: int| 0 <= u < g2.n() implies crate::graph::adj_ok(
                    #[trigger] g2.out_seq(u),
                    g2.n(),
                    u,
                ) by {
                    assert(g2.out_seq(u) == oldg.out_seq(u));
                    assert(crate::graph::adj_ok(oldg.out_seq(u), oldg.n(), u));
                }
                assert forall|u: int| 0 <= u < g2.n() implies crate::graph::adj_ok(
                    #[trigger] g2.in_seq(u),
                    g2.n(),
                    u,
                ) by {
                    assert(g2.in_seq(u) == oldg.in_seq(u));
                    assert(crate::graph::adj_ok(oldg.in_seq(u), oldg.n(), u));
                }
                assert forall|u: int, v: int|
                    #![trigger g2.has_edge(u, v)]
                    g2.has_edge(u, v) <==> g2.rev_edge(u, v) by {
                    if 0 <= u < g2.n() && 0 <= v < g2.n() {
                        assert(g2.out_seq(u) == oldg.out_seq(u));
                        assert(g2.in_seq(v) == oldg.in_seq(v));
                        assert(oldg.has_edge(u, v) <==> oldg.rev_edge(u, v));
                    }
                }
                assert(g2.wf());
                assert forall|k1: int, k2: int|
                    0 <= k1 < order0.len() && 0 <= k2 < order0.len() && #[trigger] g2.has_edge(
                        order0[k1] as int,
                        order0[k2] as int,
                    ) implies k1 < k2 by {
                    assert(g2.out_seq(order0[k1] as int) == oldg.out_seq(order0[k1] as int));
                    assert(oldg.has_edge(order0[k1] as int, order0[k2] as int));
                }
                assert(g2.valid_topo_order(order0));
            }
            j += 1;
        }
    }

    /// The cached schedule, for inspection.
    pub fn schedule(&self) -> (r: &Vec<usize>)
        ensures
            r@ == self.order(),
    {
        &self.sort_order
    }

    /// Node `i`'s persistent control output, for inspection.
    pub fn bang_output(&self, i: usize) -> (r: Bang)
        requires
            i < self.bangs().len(),
        ensures
            r == self.bangs()[i as int],
    {
        self.bang_outputs[i]
    }

    /// The sink node's output frame, ready for the host.
    pub fn sink_frame(&self) -> (r: &Frame)
        requires
            self.wf(),
            self.n() > 0,
        ensures
            r@ == self.audios()[self.sink_spec()],
    {
        &self.audio_outputs[self.sink_index]
    }

    /// Selects the node whose output frame the host consumes.
    pub fn set_sink_index(&mut self, sink: usize)
        requires
            old(self).wf(),
            sink < old(self).n(),
        ensures
            final(self).wf(),
            final(self).sink_spec() == sink,
            final(self).n() == old(self).n(),
            final(self).models() == old(self).models(),
            final(self).bangs() == old(self).bangs(),
            final(self).audios() == old(self).audios(),
            final(self).order() == old(self).order(),
            final(self).graph_spec() == old(self).graph_spec(),
            final(self).block_spec() == old(self).block_spec(),
            final(self).channels_spec() == old(self).channels_spec(),
    {
        self.sink_index = sink;
    }
}

/// Either a real edge of `g` or the one extra pair under consideration.
pub open spec fn edge_or_extra(
    g: DynamicGraph<AnyNode>,
    from: int,
    to: int,
    u: int,
    v: int,
) -> bool {
    g.has_edge(u, v) || (u == from && v == to)
}

} // verus!
