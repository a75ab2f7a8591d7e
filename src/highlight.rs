use vstd::prelude::*;

use crate::mapping::{position_of, sorted_unique, strictly_increasing};
use crate::selection::{other_end, SelectedIdentifier};
use crate::store::{
    holds_identifier, Connection, GraphStore, Highlight, Identifier, SCALE_HALF, SCALE_ONE,
};

verus! {

broadcast use vstd::seq_lib::group_seq_properties;

/// Whether `v` is the far end of some connection that touches `id`.
pub open spec fn is_neighbour(edges: Seq<Connection>, id: u64, v: u64) -> bool {
    exists|k: int| 0 <= k < edges.len() && edges[k].touches(id) && other_end(edges[k], id) == v
}

/// How an identifier is drawn under the selection `sel`: with nothing
/// selected every identifier is normal at full size; otherwise the selected
/// one is at full size, the far ends of its connections are connected at
/// full size, and every other identifier is dimmed at half size.
pub open spec fn projected_identifier(
    n: Identifier,
    sel: Option<u64>,
    edges: Seq<Connection>,
) -> Identifier {
    match sel {
        None => Identifier { scale: SCALE_ONE, highlight: Highlight::Normal, ..n },
        Some(id) => if n.id == id {
            Identifier { scale: SCALE_ONE, highlight: Highlight::Selected, ..n }
        } else if is_neighbour(edges, id, n.id) {
            Identifier { scale: SCALE_ONE, highlight: Highlight::Connected, ..n }
        } else {
            Identifier { scale: SCALE_HALF, highlight: Highlight::Dimmed, ..n }
        },
    }
}

/// Whether a connection is shown under the selection `sel`: all are shown
/// with nothing selected, otherwise only those that touch the selection.
pub open spec fn projected_connection(c: Connection, sel: Option<u64>) -> Connection {
    match sel {
        None => Connection { visible: true, ..c },
        Some(id) => Connection { visible: c.touches(id), ..c },
    }
}

pub open spec fn projected_nodes(
    nodes: Seq<Identifier>,
    sel: Option<u64>,
    edges: Seq<Connection>,
) -> Seq<Identifier> {
    nodes.map_values(|n: Identifier| projected_identifier(n, sel, edges))
}

pub open spec fn projected_edges(edges: Seq<Connection>, sel: Option<u64>) -> Seq<Connection> {
    edges.map_values(|c: Connection| projected_connection(c, sel))
}

/// The far ends of the connections that touch `id`, sorted, without repeats.
fn neighbours(edges: &Vec<Connection>, id: u64) -> (r: Vec<u64>)
    ensures
        strictly_increasing(r@),
        forall|v: u64| r@.contains(v) <==> is_neighbour(edges@, id, v),
{
    let mut ends: Vec<u64> = Vec::new();
    for k in 0..edges.len()
        invariant
            forall|v: u64|
                ends@.contains(v) <==> exists|t: int|
                    0 <= t < k && edges@[t].touches(id) && other_end(edges@[t], id) == v,
    {
        let c = edges[k];
        let ghost before = ends@;
        if c.from == id || c.to == id {
            let v = if c.from == id {
                c.to
            } else {
                c.from
            };
            ends.push(v);
            assert forall|w: u64| ends@.contains(w) implies exists|t: int|
                0 <= t < k + 1 && edges@[t].touches(id) && other_end(edges@[t], id) == w by {
                if w != v {
                    assert(before.contains(w));
                }
            }
            assert forall|w: u64|
                (exists|t: int|
                    0 <= t < k + 1 && edges@[t].touches(id) && other_end(edges@[t], id)
                        == w) implies ends@.contains(w) by {
                let t = choose|t: int|
                    0 <= t < k + 1 && edges@[t].touches(id) && other_end(edges@[t], id) == w;
                if t < k {
                    assert(before.contains(w));
                    let i = choose|i: int| 0 <= i < before.len() && before[i] == w;
                    assert(ends@[i] == w);
                } else {
                    assert(ends@[before.len() as int] == w);
                }
            }
        } else {
            assert forall|w: u64|
                (exists|t: int|
                    0 <= t < k + 1 && edges@[t].touches(id) && other_end(edges@[t], id)
                        == w) implies ends@.contains(w) by {
                let t = choose|t: int|
                    0 <= t < k + 1 && edges@[t].touches(id) && other_end(edges@[t], id) == w;
                assert(t < k);
            }
        }
    }
    let r = sorted_unique(&ends);
    assert forall|v: u64| r@.contains(v) <==> is_neighbour(edges@, id, v) by {
        assert(r@.to_set().contains(v) == ends@.to_set().contains(v));
    }
    r
}

impl GraphStore {
    /// Restyles every identifier and connection for the selection `sel`.
    pub fn project_selection(&mut self, sel: Option<u64>)
        requires
            old(self).wf(),
        ensures
            final(self).wf(),
            final(self).nodes() == projected_nodes(old(self).nodes(), sel, old(self).edges()),
            final(self).edges() == projected_edges(old(self).edges(), sel),
            final(self).next_id() == old(self).next_id(),
    {
        let ghost nodes0 = self.nodes();
        let ghost edges0 = self.edges();
        let nb: Vec<u64> = match sel {
            Some(id) => neighbours(self.connections(), id),
            None => Vec::new(),
        };
        let n = self.identifier_count();
        for k in 0..n
            invariant
                n == nodes0.len(),
                self.wf(),
                self.edges() == edges0,
                self.next_id() == old(self).next_id(),
                self.nodes().len() == n,
                strictly_increasing(nb@),
                sel matches Some(id) ==> forall|v: u64| nb@.contains(v) <==> is_neighbour(edges0, id, v),
                forall|j: int| 0 <= j < k ==> self.nodes()[j] == projected_identifier(nodes0[j], sel, edges0),
                forall|j: int| k <= j < n ==> self.nodes()[j] == nodes0[j],
        {
            let node = self.identifiers()[k];
            match sel {
                None => {
                    self.set_identifier(k, node.position, SCALE_ONE, Highlight::Normal);
                },
                Some(id) => {
                    if node.id == id {
                        self.set_identifier(k, node.position, SCALE_ONE, Highlight::Selected);
                    } else if position_of(&nb, node.id).is_some() {
                        self.set_identifier(k, node.position, SCALE_ONE, Highlight::Connected);
                    } else {
                        self.set_identifier(k, node.position, SCALE_HALF, Highlight::Dimmed);
                    }
                },
            }
        }
        assert(self.nodes() =~= projected_nodes(nodes0, sel, edges0));
        let m = self.connection_count();
        for k in 0..m
            invariant
                m == edges0.len(),
                self.wf(),
                self.nodes() == projected_nodes(nodes0, sel, edges0),
                self.next_id() == old(self).next_id(),
                self.edges().len() == m,
                forall|j: int| 0 <= j < k ==> self.edges()[j] == projected_connection(edges0[j], sel),
                forall|j: int| k <= j < m ==> self.edges()[j] == edges0[j],
        {
            let c = self.connections()[k];
            let visible = match sel {
                None => true,
                Some(id) => c.from == id || c.to == id,
            };
            self.set_connection_visible(k, visible);
        }
        assert(self.edges() =~= projected_edges(edges0, sel));
    }
}

/// Re-applies the highlight only when the selection has changed since the
/// last time it was applied.
pub struct HighlightProjector {
    pub shown: Option<SelectedIdentifier>,
}

impl HighlightProjector {
    pub fn new() -> (p: HighlightProjector)
        ensures
            p.shown is None,
    {
        HighlightProjector { shown: None }
    }

    /// Restyles the store for `selection` if it differs from the selection
    /// applied last; tells whether it did.
    pub fn refresh(&mut self, store: &mut GraphStore, selection: &SelectedIdentifier) -> (changed:
        bool)
        requires
            old(store).wf(),
        ensures
            changed == (old(self).shown != Some(*selection)),
            final(self).shown == Some(*selection),
            final(store).wf(),
            changed ==> final(store).nodes() == projected_nodes(
                old(store).nodes(),
                selection.0,
                old(store).edges(),
            ) && final(store).edges() == projected_edges(old(store).edges(), selection.0),
            !changed ==> final(store).nodes() == old(store).nodes() && final(store).edges()
                == old(store).edges(),
    {
        let same = match self.shown {
            None => false,
            Some(s) => match (s.0, selection.0) {
                (None, None) => true,
                (Some(a), Some(b)) => a == b,
                _ => false,
            },
        };
        self.shown = Some(*selection);
        if !same {
            store.project_selection(selection.0);
        }
        !same
    }
}

/// After a selection is applied, the selected identifier, when present, is
/// the only one marked selected, and with nothing selected (or a selection
/// that is absent from the store) no identifier is marked selected. Each
/// identifier carries exactly one highlight.
pub proof fn lemma_one_selected(store: GraphStore, sel: Option<u64>)
    requires
        store.wf(),
    ensures
        ({
            let p = projected_nodes(store.nodes(), sel, store.edges());
            &&& sel is Some && holds_identifier(store.nodes(), sel->Some_0) ==> exists|k: int|
                0 <= k < p.len() && p[k].highlight == Highlight::Selected && p[k].id == sel->Some_0
                    && forall|j: int|
                    0 <= j < p.len() && #[trigger] p[j].highlight == Highlight::Selected ==> j == k
            &&& !(sel is Some && holds_identifier(store.nodes(), sel->Some_0)) ==> forall|j: int|
                0 <= j < p.len() ==> #[trigger] p[j].highlight != Highlight::Selected
        }),
{
    let nodes = store.nodes();
    let p = projected_nodes(nodes, sel, store.edges());
    if sel is Some && holds_identifier(nodes, sel->Some_0) {
        let id = sel->Some_0;
        let k = choose|k: int| 0 <= k < nodes.len() && nodes[k].id == id;
        assert forall|j: int|
            0 <= j < p.len() && #[trigger] p[j].highlight == Highlight::Selected implies j == k by {
            if j < k {
                assert(nodes[j].id < nodes[k].id);
            } else if j > k {
                assert(nodes[k].id < nodes[j].id);
            }
        }
        assert(p[k].highlight == Highlight::Selected);
    } else {
        assert forall|j: int| 0 <= j < p.len() implies #[trigger] p[j].highlight
            != Highlight::Selected by {
            if sel is Some && nodes[j].id == sel->Some_0 {
                assert(holds_identifier(nodes, sel->Some_0));
            }
        }
    }
}

} // verus!
