use vstd::prelude::*;

use crate::draw::random_below;
use crate::point::Point;
use crate::store::{holds_identifier, Connection, GraphStore};

verus! {

broadcast use vstd::seq_lib::group_seq_properties;

/// The end of `c` that is not `id` (its `from` end when neither is).
pub open spec fn other_end(c: Connection, id: u64) -> u64 {
    if c.from == id {
        c.to
    } else {
        c.from
    }
}

/// The connections that have `id` at either end, in store order.
pub open spec fn touching(edges: Seq<Connection>, id: u64) -> Seq<Connection> {
    edges.filter(|c: Connection| c.touches(id))
}

/// A request to change the selection.
#[derive(Clone, Copy, Debug, PartialEq, Eq, Structural)]
pub enum SelectionEvent {
    /// Select an identifier drawn uniformly from those present.
    SelectRandom,
    /// Select the far end of a connection, drawn uniformly from those that
    /// touch the current selection.
    SelectRandomConnected,
    /// Select the given identifier.
    Select(u64),
    /// Clear the selection.
    Deselect,
}

/// The currently selected identifier, if any.
#[derive(Clone, Copy, Debug, PartialEq, Eq, Structural)]
pub struct SelectedIdentifier(pub Option<u64>);

impl SelectedIdentifier {
    pub fn new() -> (s: SelectedIdentifier)
        ensures
            s.0 is None,
    {
        SelectedIdentifier(None)
    }

    /// Selects `id` unconditionally.
    pub fn select(&mut self, id: u64)
        ensures
            final(self).0 == Some(id),
    {
        self.0 = Some(id);
    }

    /// Clears the selection, whatever it was.
    pub fn deselect(&mut self)
        ensures
            final(self).0 is None,
    {
        self.0 = None;
    }

    /// Selects the identifier at occupancy index `k`; does nothing when there
    /// is no such identifier.
    pub fn select_nth(&mut self, store: &GraphStore, k: usize)
        ensures
            k < store.nodes().len() ==> final(self).0 == Some(store.nodes()[k as int].id),
            k >= store.nodes().len() ==> *final(self) == *old(self),
    {
        if k < store.identifier_count() {
            self.0 = Some(store.identifiers()[k].id);
        }
    }

    /// Selects an identifier drawn uniformly at random; does nothing when the
    /// store holds none.
    pub fn select_random(&mut self, store: &GraphStore)
        ensures
            store.nodes().len() == 0 ==> *final(self) == *old(self),
            store.nodes().len() > 0 ==> exists|k: int|
                0 <= k < store.nodes().len() && final(self).0 == Some(
                    #[trigger] store.nodes()[k].id,
                ),
    {
        let n = store.identifier_count();
        if n > 0 {
            let k = random_below(n);
            self.select_nth(store, k);
            assert(self.0 == Some(store.nodes()[k as int].id));
        }
    }

    /// The connections of the store that touch the current selection, in
    /// store order; none when nothing is selected.
    pub fn touching_connections(&self, store: &GraphStore) -> (r: Vec<Connection>)
        ensures
            self.0 is None ==> r@.len() == 0,
            self.0 matches Some(id) ==> r@ == touching(store.edges(), id),
    {
        let mut r: Vec<Connection> = Vec::new();
        match self.0 {
            None => r,
            Some(id) => {
                let cs = store.connections();
                let ghost pred = |c: Connection| c.touches(id);
                for k in 0..cs.len()
                    invariant
                        cs@ == store.edges(),
                        forall|c: Connection| #[trigger] pred(c) == c.touches(id),
                        r@ == cs@.take(k as int).filter(pred),
                {
                    let c = cs[k];
                    proof {
                        assert(cs@.take(k + 1) =~= cs@.take(k as int).push(c));
                        cs@.take(k as int).lemma_filter_push(c, pred);
                    }
                    if c.from == id || c.to == id {
                        r.push(c);
                    }
                }
                assert(cs@.take(cs.len() as int) == cs@);
                assert(touching(store.edges(), id) == cs@.filter(pred)) by {
                    assert(pred =~= (|c: Connection| c.touches(id)));
                }
                r
            },
        }
    }

    /// Moves the selection along the `k`-th connection (in store order) that
    /// touches it, to that connection's other end. Does nothing when nothing
    /// is selected or there is no such connection.
    pub fn select_connected_nth(&mut self, store: &GraphStore, k: usize)
        ensures
            old(self).0 is Some && k < touching(store.edges(), old(self).0->Some_0).len()
                ==> final(self).0 == Some(
                other_end(
                    touching(store.edges(), old(self).0->Some_0)[k as int],
                    old(self).0->Some_0,
                ),
            ),
            !(old(self).0 is Some && k < touching(store.edges(), old(self).0->Some_0).len())
                ==> *final(self) == *old(self),
    {
        let t = self.touching_connections(store);
        if let Some(id) = self.0 {
            if k < t.len() {
                let c = t[k];
                if c.from == id {
                    self.0 = Some(c.to);
                } else {
                    self.0 = Some(c.from);
                }
            }
        }
    }

    /// Moves the selection to the other end of a connection drawn uniformly
    /// from those that touch it. Does nothing when nothing is selected or no
    /// connection touches the selection.
    pub fn select_random_connected(&mut self, store: &GraphStore)
        ensures
            old(self).0 is None ==> *final(self) == *old(self),
            old(self).0 is Some && touching(store.edges(), old(self).0->Some_0).len() == 0
                ==> *final(self) == *old(self),
            old(self).0 is Some && touching(store.edges(), old(self).0->Some_0).len() > 0
                ==> exists|k: int|
                0 <= k < touching(store.edges(), old(self).0->Some_0).len() && final(self).0
                    == Some(
                    other_end(
                        #[trigger] touching(store.edges(), old(self).0->Some_0)[k],
                        old(self).0->Some_0,
                    ),
                ),
    {
        let t = self.touching_connections(store);
        if t.len() > 0 {
            let k = random_below(t.len());
            self.select_connected_nth(store, k);
        }
    }

    /// Applies one selection request.
    pub fn apply(&mut self, store: &GraphStore, event: SelectionEvent)
        ensures
            event == SelectionEvent::Deselect ==> final(self).0 is None,
            event matches SelectionEvent::Select(id) ==> final(self).0 == Some(id),
            event == SelectionEvent::SelectRandomConnected && old(self).0 is None ==> *final(self)
                == *old(self),
            event == SelectionEvent::SelectRandom && store.nodes().len() > 0 ==> exists|k: int|
                0 <= k < store.nodes().len() && final(self).0 == Some(
                    #[trigger] store.nodes()[k].id,
                ),
            event == SelectionEvent::SelectRandom && store.nodes().len() == 0 ==> *final(self)
                == *old(self),
    {
        match event {
            SelectionEvent::SelectRandom => self.select_random(store),
            SelectionEvent::SelectRandomConnected => self.select_random_connected(store),
            SelectionEvent::Select(id) => self.select(id),
            SelectionEvent::Deselect => self.deselect(),
        }
    }

    /// Where the selected identifier stands, for framing it in view; none
    /// when nothing is selected or the selected identity is not present.
    pub fn selected_position(&self, store: &GraphStore) -> (r: Option<Point>)
        requires
            store.wf(),
        ensures
            r matches Some(p) ==> exists|k: int|
                0 <= k < store.nodes().len() && self.0 == Some(store.nodes()[k].id)
                    && #[trigger] store.nodes()[k].position == p,
            r is None ==> (self.0 is None || !holds_identifier(store.nodes(), self.0->Some_0)),
    {
        match self.0 {
            None => None,
            Some(id) => match store.find_identifier(id) {
                Some(k) => Some(store.identifiers()[k].position),
                None => None,
            },
        }
    }
}

} // verus!
