use vstd::prelude::*;

use crate::point::Point;

verus! {

broadcast use vstd::seq_lib::group_seq_properties;

/// Scale of an identifier drawn at full size, in thousandths.
pub const SCALE_ONE: u64 = 1000;

/// Scale of an identifier drawn at half size, in thousandths.
pub const SCALE_HALF: u64 = 500;

/// Steady scale that a freshly spawned identifier grows to, in thousandths.
pub const SPAWN_SCALE: u64 = 500;

/// Size of the space that identifiers are spawned in, and how long visual
/// transitions last.
#[derive(Clone, Copy, Debug, PartialEq, Eq, Structural)]
pub struct Configuration {
    /// Radius of the ball around the origin that new identifiers are placed
    /// in, in thousandths of a world unit.
    pub container_size: u64,
    /// Duration of an animated transition, in seconds.
    pub animation_duration: u64,
}

impl Default for Configuration {
    fn default() -> (c: Configuration)
        ensures
            c.container_size == 4000,
            c.animation_duration == 2,
    {
        Configuration { container_size: 4000, animation_duration: 2 }
    }
}

/// How an identifier is emphasised with respect to the current selection.
#[derive(Clone, Copy, Debug, PartialEq, Eq, Structural)]
pub enum Highlight {
    Normal,
    Selected,
    Connected,
    Dimmed,
}

/// A node of the graph.
#[derive(Clone, Copy, Debug, PartialEq, Eq, Structural)]
pub struct Identifier {
    pub id: u64,
    pub position: Point,
    /// Visual scale in thousandths.
    pub scale: u64,
    pub highlight: Highlight,
}

/// An edge of the graph, from one identifier to another.
#[derive(Clone, Copy, Debug, PartialEq, Eq, Structural)]
pub struct Connection {
    pub id: u64,
    pub from: u64,
    pub to: u64,
    pub visible: bool,
}

impl Connection {
    pub open spec fn touches(self, id: u64) -> bool {
        self.from == id || self.to == id
    }
}

/// Whether some identifier of `nodes` has identity `id`.
pub open spec fn holds_identifier(nodes: Seq<Identifier>, id: u64) -> bool {
    exists|k: int| 0 <= k < nodes.len() && nodes[k].id == id
}

/// Whether both ends of `c` are identifiers of `nodes`.
pub open spec fn links_within(nodes: Seq<Identifier>, c: Connection) -> bool {
    holds_identifier(nodes, c.from) && holds_identifier(nodes, c.to)
}

/// No connection of a well-formed store joins an identifier to itself; every
/// operation that makes connections keeps the store well formed.
pub proof fn lemma_no_self_loops(store: GraphStore)
    requires
        store.wf(),
    ensures
        forall|k: int|
            0 <= k < store.edges().len() ==> #[trigger] store.edges()[k].from != store.edges()[k].to,
{
}

/// Every connection that joins identifiers of `before` still does so in
/// `after` when `after` keeps the identities of `before` at their indices.
proof fn lemma_links_kept(before: Seq<Identifier>, after: Seq<Identifier>, edges: Seq<Connection>)
    requires
        before.len() <= after.len(),
        forall|k: int| 0 <= k < before.len() ==> after[k].id == before[k].id,
        forall|k: int| 0 <= k < edges.len() ==> links_within(before, #[trigger] edges[k]),
    ensures
        forall|k: int| 0 <= k < edges.len() ==> links_within(after, #[trigger] edges[k]),
{
    assert forall|k: int| 0 <= k < edges.len() implies links_within(after, #[trigger] edges[k]) by {
        let c = edges[k];
        assert(links_within(before, c));
        let a = choose|a: int| 0 <= a < before.len() && before[a].id == c.from;
        let b = choose|b: int| 0 <= b < before.len() && before[b].id == c.to;
        assert(after[a].id == c.from);
        assert(after[b].id == c.to);
    }
}

/// The live identifiers and connections, kept in order of creation.
pub struct GraphStore {
    identifiers: Vec<Identifier>,
    connections: Vec<Connection>,
    next_id: u64,
}

impl GraphStore {
    /// The identifiers, oldest first.
    pub closed spec fn nodes(&self) -> Seq<Identifier> {
        self.identifiers@
    }

    /// The connections, oldest first.
    pub closed spec fn edges(&self) -> Seq<Connection> {
        self.connections@
    }

    /// The identity that the next spawned identifier or connection receives.
    pub closed spec fn next_id(&self) -> u64 {
        self.next_id
    }

    /// Identities are allocated in increasing order and never reused, and no
    /// connection joins an identifier to itself.
    pub open spec fn ordered(&self) -> bool {
        &&& forall|i: int, j: int|
            0 <= i < j < self.nodes().len() ==> self.nodes()[i].id < self.nodes()[j].id
        &&& forall|i: int, j: int|
            0 <= i < j < self.edges().len() ==> self.edges()[i].id < self.edges()[j].id
        &&& forall|k: int| 0 <= k < self.nodes().len() ==> self.nodes()[k].id < self.next_id()
        &&& forall|k: int| 0 <= k < self.edges().len() ==> self.edges()[k].id < self.next_id()
        &&& forall|k: int| 0 <= k < self.edges().len() ==> self.edges()[k].from != self.edges()[k].to
    }

    /// The store is ordered and every connection joins two identifiers that
    /// are present.
    pub open spec fn wf(&self) -> bool {
        &&& self.ordered()
        &&& forall|k: int|
            0 <= k < self.edges().len() ==> links_within(self.nodes(), #[trigger] self.edges()[k])
    }

    pub fn new() -> (s: GraphStore)
        ensures
            s.wf(),
            s.nodes() == Seq::<Identifier>::empty(),
            s.edges() == Seq::<Connection>::empty(),
            s.next_id() == 0,
    {
        GraphStore { identifiers: Vec::new(), connections: Vec::new(), next_id: 0 }
    }

    pub fn identifiers(&self) -> (r: &Vec<Identifier>)
        ensures
            r@ == self.nodes(),
    {
        &self.identifiers
    }

    pub fn connections(&self) -> (r: &Vec<Connection>)
        ensures
            r@ == self.edges(),
    {
        &self.connections
    }

    /// The identity that the next spawned identifier or connection receives.
    pub fn next_identity(&self) -> (r: u64)
        ensures
            r == self.next_id(),
    {
        self.next_id
    }

    pub fn identifier_count(&self) -> (n: usize)
        ensures
            n == self.nodes().len(),
    {
        self.identifiers.len()
    }

    pub fn connection_count(&self) -> (n: usize)
        ensures
            n == self.edges().len(),
    {
        self.connections.len()
    }

    /// Where the identifier with identity `id` sits, found by halving.
    pub fn find_identifier(&self, id: u64) -> (r: Option<usize>)
        requires
            self.ordered(),
        ensures
            match r {
                Some(k) => k < self.nodes().len() && self.nodes()[k as int].id == id,
                None => !holds_identifier(self.nodes(), id),
            },
    {
        let mut lo: usize = 0;
        let mut hi: usize = self.identifiers.len();
        while lo < hi
            invariant
                lo <= hi <= self.identifiers.len(),
                self.ordered(),
                forall|k: int| 0 <= k < lo ==> self.identifiers@[k].id < id,
                forall|k: int| hi <= k < self.identifiers.len() ==> self.identifiers@[k].id > id,
            decreases hi - lo,
        {
            let mid = lo + (hi - lo) / 2;
            let v = self.identifiers[mid].id;
            if v == id {
                return Some(mid);
            } else if v < id {
                lo = mid + 1;
            } else {
                hi = mid;
            }
        }
        None
    }

    /// Adds an identifier with a fresh identity at the end of the store.
    pub fn push_identifier(&mut self, position: Point, scale: u64) -> (id: u64)
        requires
            old(self).wf(),
            old(self).next_id() < u64::MAX,
        ensures
            final(self).wf(),
            id == old(self).next_id(),
            final(self).nodes() == old(self).nodes().push(
                Identifier { id, position, scale, highlight: Highlight::Normal },
            ),
            final(self).edges() == old(self).edges(),
            final(self).next_id() == old(self).next_id() + 1,
    {
        let id = self.next_id;
        self.identifiers.push(Identifier { id, position, scale, highlight: Highlight::Normal });
        self.next_id = id + 1;
        proof {
            assert(old(self).wf());
            lemma_links_kept(old(self).nodes(), self.nodes(), old(self).edges());
            assert(self.edges() == old(self).edges());
        }
        id
    }

    /// Adds a visible connection with a fresh identity from the identifier at
    /// index `a` to the one at index `b`.
    pub fn push_connection(&mut self, a: usize, b: usize) -> (id: u64)
        requires
            old(self).wf(),
            old(self).next_id() < u64::MAX,
            a < old(self).nodes().len(),
            b < old(self).nodes().len(),
            a != b,
        ensures
            final(self).wf(),
            id == old(self).next_id(),
            final(self).nodes() == old(self).nodes(),
            final(self).edges() == old(self).edges().push(
                Connection {
                    id,
                    from: old(self).nodes()[a as int].id,
                    to: old(self).nodes()[b as int].id,
                    visible: true,
                },
            ),
            final(self).next_id() == old(self).next_id() + 1,
    {
        let id = self.next_id;
        let from = self.identifiers[a].id;
        let to = self.identifiers[b].id;
        assert(from != to) by {
            if a < b {
                assert(self.nodes()[a as int].id < self.nodes()[b as int].id);
            } else {
                assert(self.nodes()[b as int].id < self.nodes()[a as int].id);
            }
        }
        self.connections.push(Connection { id, from, to, visible: true });
        self.next_id = id + 1;
        assert(links_within(self.nodes(), self.edges()[self.edges().len() - 1])) by {
            assert(self.nodes()[a as int].id == from);
            assert(self.nodes()[b as int].id == to);
        }
        assert forall|k: int| 0 <= k < self.edges().len() implies links_within(
            self.nodes(),
            #[trigger] self.edges()[k],
        ) by {
            if k < old(self).edges().len() {
                assert(self.edges()[k] == old(self).edges()[k]);
            }
        }
        id
    }

    /// Replaces the position, scale and highlight of the identifier at index `k`.
    pub fn set_identifier(&mut self, k: usize, position: Point, scale: u64, highlight: Highlight)
        requires
            old(self).wf(),
            k < old(self).nodes().len(),
        ensures
            final(self).wf(),
            final(self).nodes() == old(self).nodes().update(
                k as int,
                Identifier { id: old(self).nodes()[k as int].id, position, scale, highlight },
            ),
            final(self).edges() == old(self).edges(),
            final(self).next_id() == old(self).next_id(),
    {
        let id = self.identifiers[k].id;
        self.identifiers.set(k, Identifier { id, position, scale, highlight });
        proof {
            assert(old(self).wf());
            lemma_links_kept(old(self).nodes(), self.nodes(), old(self).edges());
            assert(self.edges() == old(self).edges());
        }
    }

    /// Shows or hides the connection at index `k`.
    pub fn set_connection_visible(&mut self, k: usize, visible: bool)
        requires
            old(self).wf(),
            k < old(self).edges().len(),
        ensures
            final(self).wf(),
            final(self).nodes() == old(self).nodes(),
            final(self).edges() == old(self).edges().update(
                k as int,
                Connection { visible, ..old(self).edges()[k as int] },
            ),
            final(self).next_id() == old(self).next_id(),
    {
        let c = self.connections[k];
        self.connections.set(k, Connection { visible, ..c });
        assert forall|e: int| 0 <= e < self.edges().len() implies links_within(
            self.nodes(),
            #[trigger] self.edges()[e],
        ) by {
            assert(links_within(old(self).nodes(), old(self).edges()[e]));
        }
    }
    /// Drops every connection with an end that is no longer present.
    fn retain_linked(&mut self)
        requires
            old(self).ordered(),
        ensures
            final(self).wf(),
            final(self).nodes() == old(self).nodes(),
            final(self).edges() == old(self).edges().filter(
                |c: Connection| links_within(old(self).nodes(), c),
            ),
            old(self).wf() ==> final(self).edges() == old(self).edges(),
            final(self).next_id() == old(self).next_id(),
    {
        let ghost nodes0 = self.identifiers@;
        let ghost pred = |c: Connection| links_within(nodes0, c);
        assert(nodes0 == old(self).nodes());
        let mut kept: Vec<Connection> = Vec::new();
        let n = self.connections.len();
        for k in 0..n
            invariant
                n == self.connections.len(),
                nodes0 == self.identifiers@,
                forall|c: Connection| #[trigger] pred(c) == links_within(nodes0, c),
                self.identifiers@ == old(self).identifiers@,
                self.connections@ == old(self).connections@,
                self.next_id == old(self).next_id,
                self.ordered(),
                kept@ == self.connections@.take(k as int).filter(pred),
                old(self).wf() ==> kept@ == self.connections@.take(k as int),
                forall|i: int, j: int| 0 <= i < j < kept.len() ==> kept@[i].id < kept@[j].id,
                forall|i: int, j: int|
                    0 <= i < kept.len() && k <= j < n ==> kept@[i].id < self.connections@[j].id,
                forall|i: int|
                    0 <= i < kept.len() ==> {
                        &&& kept@[i].id < self.next_id
                        &&& kept@[i].from != kept@[i].to
                        &&& #[trigger] links_within(self.identifiers@, kept@[i])
                    },
        {
            let c = self.connections[k];
            proof {
                assert(self.connections@.take(k + 1) =~= self.connections@.take(k as int).push(c));
                self.connections@.take(k as int).lemma_filter_push(c, pred);
            }
            let f = self.find_identifier(c.from);
            let t = self.find_identifier(c.to);
            let ghost before = kept@;
            if f.is_some() && t.is_some() {
                proof {
                    let a = f.unwrap() as int;
                    let b = t.unwrap() as int;
                    assert(self.identifiers@[a].id == c.from);
                    assert(self.identifiers@[b].id == c.to);
                    assert(pred(c));
                }
                kept.push(c);
                assert forall|i: int| 0 <= i < kept.len() implies {
                    &&& kept@[i].id < self.next_id
                    &&& kept@[i].from != kept@[i].to
                    &&& #[trigger] links_within(self.identifiers@, kept@[i])
                } by {
                    if i < before.len() {
                        assert(kept@[i] == before[i]);
                    }
                }
            } else {
                assert(!pred(c));
            }
        }
        assert(self.connections@.take(n as int) == self.connections@);
        self.connections = kept;
    }

    /// Keeps only the first `target` identifiers and drops the connections
    /// that lose an end.
    pub fn truncate_identifiers(&mut self, target: usize)
        requires
            old(self).wf(),
        ensures
            final(self).wf(),
            final(self).nodes() == old(self).nodes().take(
                if target < old(self).nodes().len() { target as int } else { old(self).nodes().len() as int },
            ),
            final(self).edges() == old(self).edges().filter(
                |c: Connection| links_within(final(self).nodes(), c),
            ),
            target >= old(self).nodes().len() ==> final(self).edges() == old(self).edges(),
            final(self).next_id() == old(self).next_id(),
    {
        assert(old(self).ordered());
        self.identifiers.truncate(target);
        assert(self.ordered()) by {
            assert forall|i: int, j: int|
                0 <= i < j < self.nodes().len() implies self.nodes()[i].id < self.nodes()[j].id by {
                assert(old(self).nodes()[i].id < old(self).nodes()[j].id);
            }
            assert forall|k: int| 0 <= k < self.nodes().len() implies self.nodes()[k].id
                < self.next_id() by {
                assert(old(self).nodes()[k].id < old(self).next_id());
            }
            assert(self.edges() == old(self).edges());
            assert(self.next_id() == old(self).next_id());
        }
        assert(target >= old(self).nodes().len() ==> self.wf()) by {
            if target >= old(self).nodes().len() {
                assert(old(self).wf());
                assert(self.nodes() == old(self).nodes());
                assert forall|k: int| 0 <= k < self.edges().len() implies links_within(
                    self.nodes(),
                    #[trigger] self.edges()[k],
                ) by {
                    assert(links_within(old(self).nodes(), old(self).edges()[k]));
                }
            }
        }
        self.retain_linked();
    }

    /// Removes the identifier with identity `id`, if present, and drops the
    /// connections that lose an end.
    pub fn despawn_identifier(&mut self, id: u64)
        requires
            old(self).wf(),
        ensures
            final(self).wf(),
            holds_identifier(old(self).nodes(), id) ==> exists|k: int|
                0 <= k < old(self).nodes().len() && old(self).nodes()[k].id == id
                    && final(self).nodes() == old(self).nodes().remove(k),
            !holds_identifier(old(self).nodes(), id) ==> final(self).nodes() == old(self).nodes(),
            !holds_identifier(final(self).nodes(), id),
            final(self).edges() == old(self).edges().filter(
                |c: Connection| links_within(final(self).nodes(), c),
            ),
            final(self).next_id() == old(self).next_id(),
    {
        match self.find_identifier(id) {
            Some(k) => {
                assert(old(self).ordered());
                self.identifiers.remove(k);
                assert(self.ordered()) by {
                    assert forall|i: int| 0 <= i < self.nodes().len() implies self.nodes()[i].id
                        < self.next_id() by {
                        if i >= k {
                            assert(self.nodes()[i] == old(self).nodes()[i + 1]);
                        }
                    }
                    assert forall|i: int, j: int|
                        0 <= i < j < self.nodes().len() implies self.nodes()[i].id
                        < self.nodes()[j].id by {
                        if i >= k {
                            assert(old(self).nodes()[i + 1].id < old(self).nodes()[j + 1].id);
                        } else if j >= k {
                            assert(old(self).nodes()[i].id < old(self).nodes()[j + 1].id);
                        }
                    }
                    assert(self.edges() == old(self).edges());
                    assert(self.next_id() == old(self).next_id());
                }
                assert(!holds_identifier(self.nodes(), id)) by {
                    if holds_identifier(self.nodes(), id) {
                        let w = choose|w: int| 0 <= w < self.nodes().len() && self.nodes()[w].id == id;
                        if w < k {
                            assert(old(self).nodes()[w].id < old(self).nodes()[k as int].id);
                        } else {
                            assert(old(self).nodes()[k as int].id < old(self).nodes()[w + 1].id);
                        }
                    }
                }
                self.retain_linked();
            },
            None => {
                self.retain_linked();
            },
        }
    }

    /// Keeps only the first `target` connections.
    pub fn truncate_connections(&mut self, target: usize)
        requires
            old(self).wf(),
        ensures
            final(self).wf(),
            final(self).nodes() == old(self).nodes(),
            final(self).edges() == old(self).edges().take(
                if target < old(self).edges().len() { target as int } else { old(self).edges().len() as int },
            ),
            final(self).next_id() == old(self).next_id(),
    {
        self.connections.truncate(target);
        assert forall|k: int| 0 <= k < self.edges().len() implies links_within(
            self.nodes(),
            #[trigger] self.edges()[k],
        ) by {
            assert(links_within(old(self).nodes(), old(self).edges()[k]));
        }
    }
}

} // verus!
