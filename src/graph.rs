use vstd::prelude::*;
use petgraph::stable_graph::{StableGraph, NodeIndex, EdgeIndex};
use petgraph::Directed;
use crate::node::{NoteView, notes_view, strings_view};
use crate::store::{NoteStore, EngineError, ids_distinct, has_id, cascade, links_to, survives, lemma_cascade};

verus! {

#[verifier::external_type_specification]
#[verifier::external_body]
#[verifier::reject_recursive_types(N)]
#[verifier::reject_recursive_types(E)]
#[verifier::reject_recursive_types(Ty)]
#[verifier::reject_recursive_types(Ix)]
pub struct ExStableGraph<N, E, Ty, Ix>(StableGraph<N, E, Ty, Ix>);

#[verifier::external_type_specification]
#[verifier::external_body]
pub struct ExDirected(Directed);

/// The directed graph of notes: vertices weighted by title, unit edges.
pub type NoteGraph = StableGraph<String, (), Directed, u32>;

/// The node slots of a graph in index order: the weight of each, or `None`
/// for a slot left vacant by a removal.
pub uninterp spec fn graph_nodes(g: NoteGraph) -> Seq<Option<Seq<char>>>;

/// The edge slots of a graph in index order: the (source, target) node
/// indices of each, or `None` for a slot left vacant by a removal.
pub uninterp spec fn graph_edges(g: NoteGraph) -> Seq<Option<(int, int)>>;

/// Relies on petgraph's `StableGraph::new`: a graph with no node and no edge.
#[verifier::external_body]
fn empty_graph() -> (g: NoteGraph)
    ensures
        graph_nodes(g) == Seq::<Option<Seq<char>>>::empty(),
        graph_edges(g) == Seq::<Option<(int, int)>>::empty(),
{
    StableGraph::new()
}

/// Relies on petgraph's `StableGraph::add_node`: with no vacant slot the node
/// is appended and its index is the former number of slots; it panics when
/// that index is `u32::MAX`.
#[verifier::external_body]
fn add_vertex(g: &mut NoteGraph, label: String) -> (r: usize)
    requires
        forall|i: int| 0 <= i < graph_nodes(*old(g)).len() ==> (#[trigger] graph_nodes(*old(g))[i]) is Some,
        graph_nodes(*old(g)).len() < 0xFFFF_FFFF,
    ensures
        graph_nodes(*final(g)) == graph_nodes(*old(g)).push(Some(label@)),
        graph_edges(*final(g)) == graph_edges(*old(g)),
        r == graph_nodes(*old(g)).len(),
{
    g.add_node(label).index()
}

/// Relies on petgraph's `StableGraph::add_edge`: with no vacant edge slot the
/// edge is appended; it panics when an endpoint is not a node or when the
/// new edge index is `u32::MAX`.
#[verifier::external_body]
fn add_arc(g: &mut NoteGraph, a: usize, b: usize)
    requires
        a < graph_nodes(*old(g)).len(),
        b < graph_nodes(*old(g)).len(),
        graph_nodes(*old(g))[a as int] is Some,
        graph_nodes(*old(g))[b as int] is Some,
        graph_nodes(*old(g)).len() < 0xFFFF_FFFF,
        forall|i: int| 0 <= i < graph_edges(*old(g)).len() ==> (#[trigger] graph_edges(*old(g))[i]) is Some,
        graph_edges(*old(g)).len() < 0xFFFF_FFFF,
    ensures
        graph_nodes(*final(g)) == graph_nodes(*old(g)),
        graph_edges(*final(g)) == graph_edges(*old(g)).push(Some((a as int, b as int))),
{
    g.add_edge(NodeIndex::new(a), NodeIndex::new(b), ());
}

/// Relies on petgraph's `StableGraph::node_weight`: the weight in slot `i`.
#[verifier::external_body]
fn vertex_weight(g: &NoteGraph, i: usize) -> (r: String)
    requires
        i < graph_nodes(*g).len(),
        graph_nodes(*g)[i as int] is Some,
        graph_nodes(*g).len() < 0xFFFF_FFFF,
    ensures
        Some(r@) == graph_nodes(*g)[i as int],
{
    g.node_weight(NodeIndex::new(i)).unwrap().clone()
}

/// Relies on petgraph's `StableGraph::edge_endpoints`: the source and target
/// of the edge in slot `e`.
#[verifier::external_body]
fn arc_endpoints(g: &NoteGraph, e: usize) -> (r: (usize, usize))
    requires
        e < graph_edges(*g).len(),
        graph_edges(*g)[e as int] is Some,
        graph_edges(*g).len() < 0xFFFF_FFFF,
    ensures
        Some((r.0 as int, r.1 as int)) == graph_edges(*g)[e as int],
{
    let (a, b) = g.edge_endpoints(EdgeIndex::new(e)).unwrap();
    (a.index(), b.index())
}

/// The position of the note `id` in `ns`, the first one if several.
pub open spec fn position_of(ns: Seq<NoteView>, id: Seq<char>) -> Option<int>
    decreases ns.len(),
{
    if ns.len() == 0 {
        None
    } else {
        match position_of(ns.drop_last(), id) {
            Some(k) => Some(k),
            None => if ns.last().id == id {
                Some(ns.len() - 1)
            } else {
                None
            },
        }
    }
}

/// The edges from note `src` for the links `links`, in order, a link to an
/// identity absent from `ns` giving none.
pub open spec fn link_edges(ns: Seq<NoteView>, src: int, links: Seq<Seq<char>>) -> Seq<(int, int)>
    decreases links.len(),
{
    if links.len() == 0 {
        Seq::empty()
    } else {
        let r = link_edges(ns, src, links.drop_last());
        match position_of(ns, links.last()) {
            Some(k) => r.push((src, k)),
            None => r,
        }
    }
}

/// The edges of the first `upto` notes of `ns`, note by note.
pub open spec fn edges_upto(ns: Seq<NoteView>, upto: int) -> Seq<(int, int)>
    decreases upto,
{
    if upto <= 0 {
        Seq::empty()
    } else {
        edges_upto(ns, upto - 1) + link_edges(ns, upto - 1, ns[upto - 1].links)
    }
}

/// The edges of the graph of `ns`: one per link whose target is stored, from
/// the note that holds it to its target, in store order and link order.
pub open spec fn note_edges(ns: Seq<NoteView>) -> Seq<(int, int)> {
    edges_upto(ns, ns.len() as int)
}

/// The graph of `ns` fits petgraph's `u32` indices.
pub open spec fn graph_fits(ns: Seq<NoteView>) -> bool {
    ns.len() < 0xFFFF_FFFF && note_edges(ns).len() < 0xFFFF_FFFF
}

/// What a graph shows: a label and an identity per vertex, and its edges.
pub struct GraphModel {
    pub labels: Seq<Seq<char>>,
    pub ids: Seq<Seq<char>>,
    pub edges: Seq<(int, int)>,
}

/// The identities of `ns`, in order.
pub open spec fn note_ids(ns: Seq<NoteView>) -> Seq<Seq<char>> {
    ns.map_values(|n: NoteView| n.id)
}

/// The graph of corpus `ns`: vertex `i` is note `i`, labelled with its title.
pub open spec fn graph_of(ns: Seq<NoteView>) -> GraphModel {
    GraphModel {
        labels: ns.map_values(|n: NoteView| n.title),
        ids: note_ids(ns),
        edges: note_edges(ns),
    }
}

pub proof fn lemma_position(ns: Seq<NoteView>, id: Seq<char>)
    ensures
        match position_of(ns, id) {
            Some(k) => 0 <= k < ns.len() && ns[k].id == id,
            None => !has_id(ns, id),
        },
        ids_distinct(ns) ==> forall|k: int| 0 <= k < ns.len() && ns[k].id == id ==> position_of(ns, id) == Some(k),
    decreases ns.len(),
{
    if ns.len() > 0 {
        let d = ns.drop_last();
        lemma_position(d, id);
        assert forall|k: int| 0 <= k < d.len() implies d[k] == ns[k] by {}
        if position_of(ns, id) is None {
            assert(!has_id(ns, id)) by {
                if has_id(ns, id) {
                    let k = choose|k: int| 0 <= k < ns.len() && ns[k].id == id;
                    if k < d.len() {
                        assert(d[k].id == id);
                    }
                }
            }
        }
        if ids_distinct(ns) {
            assert(ids_distinct(d));
        }
    }
}

pub proof fn lemma_edges_in_range(ns: Seq<NoteView>, upto: int)
    requires
        0 <= upto <= ns.len(),
    ensures
        forall|e: int| 0 <= e < edges_upto(ns, upto).len() ==> {
            let p = #[trigger] edges_upto(ns, upto)[e];
            0 <= p.0 < upto && 0 <= p.1 < ns.len()
        },
    decreases upto,
{
    if upto > 0 {
        lemma_edges_in_range(ns, upto - 1);
        lemma_link_edges_in_range(ns, upto - 1, ns[upto - 1].links);
        let a = edges_upto(ns, upto - 1);
        let b = link_edges(ns, upto - 1, ns[upto - 1].links);
        assert forall|e: int| 0 <= e < (a + b).len() implies {
            let p = #[trigger] (a + b)[e];
            0 <= p.0 < upto && 0 <= p.1 < ns.len()
        } by {
            if e >= a.len() {
                assert((a + b)[e] == b[e - a.len()]);
            }
        }
    }
}

proof fn lemma_link_edges_in_range(ns: Seq<NoteView>, src: int, links: Seq<Seq<char>>)
    ensures
        forall|e: int| 0 <= e < link_edges(ns, src, links).len() ==> {
            let p = #[trigger] link_edges(ns, src, links)[e];
            p.0 == src && 0 <= p.1 < ns.len()
        },
    decreases links.len(),
{
    if links.len() > 0 {
        lemma_link_edges_in_range(ns, src, links.drop_last());
        lemma_position(ns, links.last());
        let r = link_edges(ns, src, links.drop_last());
        let c = link_edges(ns, src, links);
        assert forall|e: int| 0 <= e < c.len() implies {
            let p = #[trigger] c[e];
            p.0 == src && 0 <= p.1 < ns.len()
        } by {
            if e < r.len() {
                assert(c[e] == r[e]);
            }
        }
    }
}

/// The integer values of a list of index pairs.
pub open spec fn pairs_view(v: Seq<(usize, usize)>) -> Seq<(int, int)> {
    v.map_values(|p: (usize, usize)| (p.0 as int, p.1 as int))
}

/// The edges of the graph of the corpus in `store`, as (source, target)
/// positions of notes in store order.
pub fn note_edge_list(store: &NoteStore) -> (r: Vec<(usize, usize)>)
    requires
        store.wf(),
    ensures
        pairs_view(r@) == note_edges(store@),
{
    let notes = store.notes();
    let ghost ns = store@;
    let mut out: Vec<(usize, usize)> = Vec::new();
    let mut i: usize = 0;
    while i < notes.len()
        invariant
            i <= notes.len(),
            ns == store@,
            ns == notes_view(notes@),
            ids_distinct(ns),
            pairs_view(out@) == edges_upto(ns, i as int),
        decreases notes.len() - i,
    {
        let links = &notes[i].links;
        let ghost lv = ns[i as int].links;
        assert(lv == links@.map_values(|s: String| s@));
        let mut j: usize = 0;
        while j < links.len()
            invariant
                i < notes.len(),
                j <= links.len(),
                ns == store@,
                ns == notes_view(notes@),
                ids_distinct(ns),
                links == notes@[i as int].links,
                lv == ns[i as int].links,
                lv == links@.map_values(|s: String| s@),
                pairs_view(out@) == edges_upto(ns, i as int) + link_edges(ns, i as int, lv.take(j as int)),
            decreases links.len() - j,
        {
            let ghost prev = out@;
            let ghost t = lv.take(j as int + 1);
            assert(t.drop_last() =~= lv.take(j as int));
            assert(t.last() == links@[j as int]@);
            proof {
                lemma_position(ns, t.last());
            }
            match store.find(links[j].as_str()) {
                Some(k) => {
                    out.push((i, k));
                    assert(pairs_view(out@) =~= pairs_view(prev).push((i as int, k as int)));
                },
                None => {},
            }
            j += 1;
        }
        assert(lv.take(j as int) =~= lv);
        i += 1;
    }
    out
}

/// The graph of the corpus, rebuilt whole from a snapshot of the store.
pub struct MyGraph {
    graph: NoteGraph,
    ids: Vec<String>,
    n_edges: usize,
}

impl View for MyGraph {
    type V = GraphModel;

    closed spec fn view(&self) -> GraphModel {
        GraphModel {
            labels: graph_nodes(self.graph).map_values(|o: Option<Seq<char>>| o->0),
            ids: strings_view(self.ids@),
            edges: graph_edges(self.graph).map_values(|o: Option<(int, int)>| o->0),
        }
    }
}

impl MyGraph {
    /// Every slot of the graph is taken, the indices fit, every edge joins
    /// two vertices, and there is one identity per vertex.
    pub closed spec fn wf(&self) -> bool {
        let nodes = graph_nodes(self.graph);
        let edges = graph_edges(self.graph);
        &&& nodes.len() < 0xFFFF_FFFF
        &&& edges.len() < 0xFFFF_FFFF
        &&& nodes.len() == self.ids@.len()
        &&& edges.len() == self.n_edges
        &&& forall|i: int| 0 <= i < nodes.len() ==> (#[trigger] nodes[i]) is Some
        &&& forall|e: int| 0 <= e < edges.len() ==> {
            &&& (#[trigger] edges[e]) is Some
            &&& 0 <= (edges[e]->0).0 < nodes.len()
            &&& 0 <= (edges[e]->0).1 < nodes.len()
        }
    }

    /// Builds the graph of the corpus in `store` in two passes: one vertex
    /// per note, labelled with its title, then one edge per link whose
    /// target is stored. Fails only when the graph would not fit its indices.
    pub fn new(store: &NoteStore) -> (r: Result<MyGraph, EngineError>)
        requires
            store.wf(),
        ensures
            match r {
                Ok(g) => g.wf() && g@ == graph_of(store@),
                Err(e) => e == EngineError::TooLarge && !graph_fits(store@),
            },
    {
        let edges = note_edge_list(store);
        let notes = store.notes();
        let ghost ns = store@;
        if notes.len() >= 0xFFFF_FFFF || edges.len() >= 0xFFFF_FFFF {
            return Err(EngineError::TooLarge);
        }
        proof {
            lemma_edges_in_range(ns, ns.len() as int);
        }
        let mut g = empty_graph();
        let mut ids: Vec<String> = Vec::new();
        let mut i: usize = 0;
        while i < notes.len()
            invariant
                i <= notes.len(),
                notes.len() < 0xFFFF_FFFF,
                ns == notes_view(notes@),
                graph_nodes(g) == ns.take(i as int).map_values(|n: NoteView| Some(n.title)),
                graph_edges(g) == Seq::<Option<(int, int)>>::empty(),
                strings_view(ids@) == note_ids(ns.take(i as int)),
                ids@.len() == i,
                ns.len() == notes.len(),
            decreases notes.len() - i,
        {
            let ghost pi = ids@;
            assert(ns[i as int] == notes@[i as int]@);
            add_vertex(&mut g, notes[i].title.clone());
            ids.push(notes[i].id.clone());
            assert(ids@ =~= pi.push(notes@[i as int].id));
            assert(graph_nodes(g) =~= ns.take(i as int + 1).map_values(|n: NoteView| Some(n.title)));
            assert forall|x: int| 0 <= x <= i implies #[trigger] strings_view(ids@)[x] == note_ids(
                ns.take(i as int + 1),
            )[x] by {
                assert(ns.take(i as int + 1)[x] == ns[x]);
                if x < i {
                    assert(ids@[x] == pi[x]);
                    assert(ns.take(i as int)[x] == ns[x]);
                    assert(strings_view(pi)[x] == note_ids(ns.take(i as int))[x]);
                } else {
                    assert(ids@[x] == notes@[i as int].id);
                }
            }
            assert(strings_view(ids@) =~= note_ids(ns.take(i as int + 1)));
            i += 1;
        }
        assert(ns.take(i as int) =~= ns);
        let ghost ev = pairs_view(edges@);
        let mut e: usize = 0;
        while e < edges.len()
            invariant
                e <= edges.len(),
                edges.len() < 0xFFFF_FFFF,
                ns.len() < 0xFFFF_FFFF,
                ev == pairs_view(edges@),
                ev == note_edges(ns),
                graph_nodes(g) == ns.map_values(|n: NoteView| Some(n.title)),
                forall|x: int| 0 <= x < ev.len() ==> {
                    let p = #[trigger] ev[x];
                    0 <= p.0 < ns.len() && 0 <= p.1 < ns.len()
                },
                graph_edges(g) == ev.take(e as int).map_values(|p: (int, int)| Some(p)),
            decreases edges.len() - e,
        {
            let (a, b) = edges[e];
            assert(ev[e as int] == (a as int, b as int));
            add_arc(&mut g, a, b);
            assert(graph_edges(g) =~= ev.take(e as int + 1).map_values(|p: (int, int)| Some(p)));
            e += 1;
        }
        assert(ev.take(e as int) =~= ev);
        let r = MyGraph { graph: g, ids, n_edges: edges.len() };
        assert(r@.labels =~= graph_of(ns).labels);
        assert(r@.ids =~= graph_of(ns).ids);
        assert(r@.edges =~= graph_of(ns).edges);
        Ok(r)
    }

    /// Replaces this graph with the graph of the corpus in `store`; left as
    /// it was when that graph would not fit its indices.
    pub fn update(&mut self, store: &NoteStore) -> (r: Result<(), EngineError>)
        requires
            store.wf(),
        ensures
            match r {
                Ok(()) => final(self).wf() && final(self)@ == graph_of(store@),
                Err(e) => e == EngineError::TooLarge && !graph_fits(store@) && *final(self) == *old(self),
            },
    {
        match MyGraph::new(store) {
            Ok(g) => {
                *self = g;
                Ok(())
            },
            Err(e) => Err(e),
        }
    }

    /// The number of vertices.
    pub fn vertex_count(&self) -> (r: usize)
        requires
            self.wf(),
        ensures
            r == self@.ids.len(),
            r == self@.labels.len(),
    {
        self.ids.len()
    }

    /// The number of edges.
    pub fn edge_count(&self) -> (r: usize)
        requires
            self.wf(),
        ensures
            r == self@.edges.len(),
    {
        self.n_edges
    }

    /// The identity of the note that vertex `i` stands for.
    pub fn vertex_id(&self, i: usize) -> (r: String)
        requires
            self.wf(),
            i < self@.ids.len(),
        ensures
            r@ == self@.ids[i as int],
    {
        self.ids[i].clone()
    }

    /// The label of vertex `i`.
    pub fn vertex_label(&self, i: usize) -> (r: String)
        requires
            self.wf(),
            i < self@.labels.len(),
        ensures
            r@ == self@.labels[i as int],
    {
        vertex_weight(&self.graph, i)
    }

    /// The (source, target) vertices of edge `e`.
    pub fn edge(&self, e: usize) -> (r: (usize, usize))
        requires
            self.wf(),
            e < self@.edges.len(),
        ensures
            (r.0 as int, r.1 as int) == self@.edges[e as int],
    {
        arc_endpoints(&self.graph, e)
    }

    /// The underlying petgraph graph, for display.
    pub fn graph(&self) -> (r: &NoteGraph)
        ensures
            graph_nodes(*r).map_values(|o: Option<Seq<char>>| o->0) == self@.labels,
            graph_edges(*r).map_values(|o: Option<(int, int)>| o->0) == self@.edges,
    {
        &self.graph
    }
}


/// After deleting `id`, no note left holds `id` or links to it, and the
/// graph rebuilt from what is left has no edge at a vertex of `id`.
pub proof fn deletion_leaves_no_reference(before: Seq<NoteView>, id: Seq<char>)
    ensures
        forall|k: int| 0 <= k < cascade(before, id).len() ==> {
            &&& (#[trigger] cascade(before, id)[k]).id != id
            &&& !links_to(cascade(before, id)[k].links, id)
        },
        forall|e: int| 0 <= e < graph_of(cascade(before, id)).edges.len() ==> {
            let p = #[trigger] graph_of(cascade(before, id)).edges[e];
            let g = graph_of(cascade(before, id));
            &&& 0 <= p.0 < g.ids.len()
            &&& 0 <= p.1 < g.ids.len()
            &&& g.ids[p.0] != id
            &&& g.ids[p.1] != id
        },
{
    let ns = cascade(before, id);
    lemma_cascade(before, id);
    lemma_edges_in_range(ns, ns.len() as int);
    assert forall|k: int| 0 <= k < ns.len() implies {
        &&& (#[trigger] ns[k]).id != id
        &&& !links_to(ns[k].links, id)
    } by {
        assert(survives(before, id, ns[k]));
    }
    assert forall|e: int| 0 <= e < graph_of(ns).edges.len() implies {
        let p = #[trigger] graph_of(ns).edges[e];
        let g = graph_of(ns);
        &&& 0 <= p.0 < g.ids.len()
        &&& 0 <= p.1 < g.ids.len()
        &&& g.ids[p.0] != id
        &&& g.ids[p.1] != id
    } by {
        let p = graph_of(ns).edges[e];
        assert(note_edges(ns)[e] == p);
        assert(survives(before, id, ns[p.0]));
        assert(survives(before, id, ns[p.1]));
    }
}

/// Two rebuilds of the graph from an unchanged corpus give the same
/// vertices, labels and edges.
pub proof fn graph_rebuild_stable(ns: Seq<NoteView>, a: MyGraph, b: MyGraph)
    requires
        a@ == graph_of(ns),
        b@ == graph_of(ns),
    ensures
        a@.ids == b@.ids,
        a@.labels == b@.labels,
        a@.edges == b@.edges,
        a@.ids == note_ids(ns),
{
}

} // verus!
