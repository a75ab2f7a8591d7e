use vstd::prelude::*;

use crate::mapping::{strictly_increasing, IndexMapping};
use crate::point::Point;
use crate::ranking::{normalize, normalized, rank_scale, rank_scale_of};
use crate::store::{holds_identifier, Connection, GraphStore, Identifier};

verus! {

broadcast use vstd::seq_lib::group_seq_properties;

/// The connections as `(from, to)` pairs, in store order.
pub open spec fn pairs_of(edges: Seq<Connection>) -> Seq<(u64, u64)> {
    edges.map_values(|c: Connection| (c.from, c.to))
}

/// The dense index that a mapping gives to `id`.
pub open spec fn dense_index(ids: Seq<u64>, id: u64) -> int {
    choose|i: int| 0 <= i < ids.len() && ids[i] == id
}

/// Whether `id` has a dense index for which `len` results exist.
pub open spec fn has_result(ids: Seq<u64>, id: u64, len: nat) -> bool {
    ids.contains(id) && dense_index(ids, id) < len
}

/// The position of the identifier with identity `id`, or the origin when
/// there is none.
pub open spec fn position_of_identity(nodes: Seq<Identifier>, id: u64) -> Point {
    if holds_identifier(nodes, id) {
        nodes[choose|k: int| 0 <= k < nodes.len() && nodes[k].id == id].position
    } else {
        Point { x: 0, y: 0, z: 0 }
    }
}

/// The starting positions handed to a layout computation: one per dense
/// index, the current position of the identifier it stands for.
pub open spec fn seeds_of(nodes: Seq<Identifier>, ids: Seq<u64>) -> Seq<Point> {
    ids.map_values(|id: u64| position_of_identity(nodes, id))
}

/// The identifier moved to `p`, all else kept.
pub open spec fn relocated(n: Identifier, p: Point) -> Identifier {
    Identifier { position: p, ..n }
}

/// An identifier moved to the position computed for its dense index, or left
/// as it is when it has none (it touches no connection, or no result was
/// produced for it). Its scale and highlight are kept.
pub open spec fn placed_identifier(n: Identifier, ids: Seq<u64>, positions: Seq<Point>) -> Identifier {
    if has_result(ids, n.id, positions.len()) {
        Identifier { position: positions[dense_index(ids, n.id)], ..n }
    } else {
        n
    }
}

pub open spec fn placed_nodes(nodes: Seq<Identifier>, ids: Seq<u64>, positions: Seq<Point>) -> Seq<
    Identifier,
> {
    nodes.map_values(|n: Identifier| placed_identifier(n, ids, positions))
}

/// An identifier resized for the normalised score of its dense index, or left
/// as it is when it has none. Its position and highlight are kept.
pub open spec fn ranked_identifier(n: Identifier, ids: Seq<u64>, scores: Seq<u64>) -> Identifier {
    if has_result(ids, n.id, scores.len()) {
        Identifier { scale: rank_scale_of(normalized(scores)[dense_index(ids, n.id)]) as u64, ..n }
    } else {
        n
    }
}

pub open spec fn ranked_nodes(nodes: Seq<Identifier>, ids: Seq<u64>, scores: Seq<u64>) -> Seq<
    Identifier,
> {
    nodes.map_values(|n: Identifier| ranked_identifier(n, ids, scores))
}

proof fn lemma_dense_index(ids: Seq<u64>, i: int)
    requires
        strictly_increasing(ids),
        0 <= i < ids.len(),
    ensures
        dense_index(ids, ids[i]) == i,
{
    let j = dense_index(ids, ids[i]);
    assert(0 <= j < ids.len() && ids[j] == ids[i]);
    if j < i {
        assert(ids[j] < ids[i]);
    } else if j > i {
        assert(ids[i] < ids[j]);
    }
}

impl GraphStore {
    /// Every connection as a `(from, to)` pair of identities, in store order.
    pub fn connection_pairs(&self) -> (r: Vec<(u64, u64)>)
        ensures
            r@ == pairs_of(self.edges()),
    {
        let cs = self.connections();
        let mut r: Vec<(u64, u64)> = Vec::new();
        for k in 0..cs.len()
            invariant
                cs@ == self.edges(),
                r.len() == k,
                forall|i: int| 0 <= i < k ==> #[trigger] r@[i] == (cs@[i].from, cs@[i].to),
        {
            r.push((cs[k].from, cs[k].to));
        }
        assert(r@ =~= pairs_of(self.edges()));
        r
    }

    /// The dense renumbering of the identifiers that the connections reference.
    pub fn index_mapping(&self) -> (m: IndexMapping)
        ensures
            m.renumbers(pairs_of(self.edges())),
    {
        let pairs = self.connection_pairs();
        IndexMapping::from_edges(&pairs)
    }

    /// The current position of the identifier behind each dense index, to
    /// start a layout computation from.
    pub fn layout_seeds(&self, m: &IndexMapping) -> (r: Vec<Point>)
        requires
            self.wf(),
        ensures
            r@ == seeds_of(self.nodes(), m.ids@),
    {
        let mut r: Vec<Point> = Vec::new();
        for i in 0..m.ids.len()
            invariant
                self.wf(),
                r.len() == i,
                forall|j: int|
                    0 <= j < i ==> #[trigger] r@[j] == position_of_identity(self.nodes(), m.ids@[j]),
        {
            let id = m.ids[i];
            match self.find_identifier(id) {
                Some(k) => {
                    proof {
                        let c = choose|c: int| 0 <= c < self.nodes().len() && self.nodes()[c].id == id;
                        if c < k {
                            assert(self.nodes()[c].id < self.nodes()[k as int].id);
                        } else if c > k {
                            assert(self.nodes()[k as int].id < self.nodes()[c].id);
                        }
                    }
                    r.push(self.identifiers()[k].position);
                },
                None => {
                    r.push(Point::origin());
                },
            }
        }
        assert(r@ =~= seeds_of(self.nodes(), m.ids@));
        r
    }

    /// Moves each identifier to the position computed for its dense index,
    /// keeping its scale; identifiers without a result are left untouched.
    pub fn apply_layout(&mut self, m: &IndexMapping, positions: &Vec<Point>)
        requires
            old(self).wf(),
            m.wf(),
        ensures
            final(self).wf(),
            final(self).nodes() == placed_nodes(old(self).nodes(), m.ids@, positions@),
            final(self).edges() == old(self).edges(),
            final(self).next_id() == old(self).next_id(),
    {
        let ghost nodes0 = self.nodes();
        let n = self.identifier_count();
        for k in 0..n
            invariant
                n == nodes0.len(),
                m.wf(),
                self.wf(),
                self.edges() == old(self).edges(),
                self.next_id() == old(self).next_id(),
                self.nodes().len() == n,
                forall|j: int|
                    0 <= j < k ==> self.nodes()[j] == placed_identifier(nodes0[j], m.ids@, positions@),
                forall|j: int| k <= j < n ==> self.nodes()[j] == nodes0[j],
        {
            let node = self.identifiers()[k];
            match m.index_of(node.id) {
                Some(i) => {
                    proof {
                        lemma_dense_index(m.ids@, i as int);
                    }
                    if i < positions.len() {
                        self.set_identifier(k, positions[i], node.scale, node.highlight);
                    }
                },
                None => {},
            }
        }
        assert(self.nodes() =~= placed_nodes(nodes0, m.ids@, positions@));
    }

    /// Resizes each identifier for the normalised score of its dense index,
    /// keeping its position; identifiers without a score are left untouched.
    pub fn apply_ranking(&mut self, m: &IndexMapping, scores: &Vec<u64>)
        requires
            old(self).wf(),
            m.wf(),
        ensures
            final(self).wf(),
            final(self).nodes() == ranked_nodes(old(self).nodes(), m.ids@, scores@),
            final(self).edges() == old(self).edges(),
            final(self).next_id() == old(self).next_id(),
    {
        let norm = normalize(scores);
        let ghost nodes0 = self.nodes();
        let n = self.identifier_count();
        for k in 0..n
            invariant
                n == nodes0.len(),
                m.wf(),
                norm@ == normalized(scores@),
                self.wf(),
                self.edges() == old(self).edges(),
                self.next_id() == old(self).next_id(),
                self.nodes().len() == n,
                forall|j: int|
                    0 <= j < k ==> self.nodes()[j] == ranked_identifier(nodes0[j], m.ids@, scores@),
                forall|j: int| k <= j < n ==> self.nodes()[j] == nodes0[j],
        {
            let node = self.identifiers()[k];
            match m.index_of(node.id) {
                Some(i) => {
                    proof {
                        lemma_dense_index(m.ids@, i as int);
                    }
                    if i < norm.len() {
                        let scale = rank_scale(norm[i]);
                        self.set_identifier(k, node.position, scale, node.highlight);
                    }
                },
                None => {},
            }
        }
        assert(self.nodes() =~= ranked_nodes(nodes0, m.ids@, scores@));
    }

    /// Moves the identifier at each index `k` below `points.len()` to
    /// `points[k]`, keeping its scale and highlight.
    pub fn move_identifiers(&mut self, points: &Vec<Point>)
        requires
            old(self).wf(),
        ensures
            final(self).wf(),
            final(self).nodes().len() == old(self).nodes().len(),
            forall|k: int|
                0 <= k < old(self).nodes().len() ==> #[trigger] final(self).nodes()[k] == if k
                    < points.len() {
                    relocated(old(self).nodes()[k], points@[k])
                } else {
                    old(self).nodes()[k]
                },
            final(self).edges() == old(self).edges(),
            final(self).next_id() == old(self).next_id(),
    {
        let n = self.identifier_count();
        let limit = if points.len() < n {
            points.len()
        } else {
            n
        };
        for k in 0..limit
            invariant
                limit <= n,
                limit <= points.len(),
                n == old(self).nodes().len(),
                self.wf(),
                self.edges() == old(self).edges(),
                self.next_id() == old(self).next_id(),
                self.nodes().len() == n,
                forall|j: int|
                    0 <= j < k ==> self.nodes()[j] == relocated(old(self).nodes()[j], points@[j]),
                forall|j: int| k <= j < n ==> self.nodes()[j] == old(self).nodes()[j],
        {
            let node = self.identifiers()[k];
            self.set_identifier(k, points[k], node.scale, node.highlight);
        }
    }

    /// The positions of both ends of the connection at index `k`, from which
    /// its drawn segment is derived; none when either end is missing.
    pub fn connection_endpoints(&self, k: usize) -> (r: Option<(Point, Point)>)
        requires
            self.wf(),
        ensures
            k < self.edges().len() ==> r == Some(
                (
                    position_of_identity(self.nodes(), self.edges()[k as int].from),
                    position_of_identity(self.nodes(), self.edges()[k as int].to),
                ),
            ),
            k >= self.edges().len() ==> r is None,
    {
        if k >= self.connection_count() {
            return None;
        }
        let c = self.connections()[k];
        proof {
            assert(crate::store::links_within(self.nodes(), self.edges()[k as int]));
        }
        let a = self.find_identifier(c.from).unwrap();
        let b = self.find_identifier(c.to).unwrap();
        proof {
            lemma_unique_position(self, a as int);
            lemma_unique_position(self, b as int);
        }
        Some((self.identifiers()[a].position, self.identifiers()[b].position))
    }
}

proof fn lemma_unique_position(store: &GraphStore, k: int)
    requires
        store.wf(),
        0 <= k < store.nodes().len(),
    ensures
        position_of_identity(store.nodes(), store.nodes()[k].id) == store.nodes()[k].position,
{
    let nodes = store.nodes();
    let id = nodes[k].id;
    assert(holds_identifier(nodes, id));
    let c = choose|c: int| 0 <= c < nodes.len() && nodes[c].id == id;
    if c < k {
        assert(nodes[c].id < nodes[k].id);
    } else if c > k {
        assert(nodes[k].id < nodes[c].id);
    }
}

/// Running a layout that hands back its starting positions unchanged (as one
/// of zero iterations does) leaves every identifier exactly as it was.
pub proof fn lemma_layout_round_trip(store: GraphStore, m: IndexMapping)
    requires
        store.wf(),
        m.wf(),
    ensures
        placed_nodes(store.nodes(), m.ids@, seeds_of(store.nodes(), m.ids@)) == store.nodes(),
{
    let nodes = store.nodes();
    let seeds = seeds_of(nodes, m.ids@);
    assert forall|k: int| 0 <= k < nodes.len() implies #[trigger] placed_identifier(
        nodes[k],
        m.ids@,
        seeds,
    ) == nodes[k] by {
        if has_result(m.ids@, nodes[k].id, seeds.len()) {
            let i = dense_index(m.ids@, nodes[k].id);
            lemma_unique_position(&store, k);
            assert(seeds[i] == position_of_identity(nodes, m.ids@[i]));
        }
    }
    assert(placed_nodes(nodes, m.ids@, seeds) =~= nodes);
}

} // verus!
