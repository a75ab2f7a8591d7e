use vstd::prelude::*;

use crate::draw::random_below;
use crate::point::Point;
use crate::store::{links_within, Connection, GraphStore, Highlight, Identifier, SPAWN_SCALE};

verus! {

broadcast use vstd::seq_lib::group_seq_properties;

/// The identifiers spawned at `points`, numbered from `first`.
pub open spec fn spawned_identifiers(points: Seq<Point>, first: nat) -> Seq<Identifier> {
    Seq::new(
        points.len(),
        |i: int|
            Identifier {
                id: (first + i) as u64,
                position: points[i],
                scale: SPAWN_SCALE,
                highlight: Highlight::Normal,
            },
    )
}

/// A pair of occupancy indices names two distinct identifiers that exist.
pub open spec fn pick_ok(nodes: Seq<Identifier>, p: (usize, usize)) -> bool {
    p.0 < nodes.len() && p.1 < nodes.len() && p.0 != p.1
}

/// The connections made from `picks` in order, skipping the pairs that
/// coincide or fall outside `nodes`, numbered from `first`.
pub open spec fn accepted_connections(
    nodes: Seq<Identifier>,
    picks: Seq<(usize, usize)>,
    first: nat,
) -> Seq<Connection>
    decreases picks.len(),
{
    if picks.len() == 0 {
        Seq::empty()
    } else {
        let before = accepted_connections(nodes, picks.drop_last(), first);
        let p = picks.last();
        if pick_ok(nodes, p) {
            before.push(
                Connection {
                    id: (first + before.len()) as u64,
                    from: nodes[p.0 as int].id,
                    to: nodes[p.1 as int].id,
                    visible: true,
                },
            )
        } else {
            before
        }
    }
}

pub open spec fn min_nat(a: nat, b: nat) -> nat {
    if a < b {
        a
    } else {
        b
    }
}

proof fn lemma_accepted_all(nodes: Seq<Identifier>, picks: Seq<(usize, usize)>, first: nat)
    requires
        forall|k: int| 0 <= k < picks.len() ==> #[trigger] pick_ok(nodes, picks[k]),
    ensures
        accepted_connections(nodes, picks, first).len() == picks.len(),
    decreases picks.len(),
{
    if picks.len() > 0 {
        let rest = picks.drop_last();
        assert forall|k: int| 0 <= k < rest.len() implies #[trigger] pick_ok(nodes, rest[k]) by {
            assert(rest[k] == picks[k]);
        }
        lemma_accepted_all(nodes, rest, first);
        assert(pick_ok(nodes, picks[picks.len() - 1]));
    }
}

proof fn lemma_accepted_len_any_first(
    nodes: Seq<Identifier>,
    picks: Seq<(usize, usize)>,
    first: nat,
    other: nat,
)
    ensures
        accepted_connections(nodes, picks, first).len() == accepted_connections(
            nodes,
            picks,
            other,
        ).len(),
    decreases picks.len(),
{
    if picks.len() > 0 {
        lemma_accepted_len_any_first(nodes, picks.drop_last(), first, other);
    }
}

/// How many of `picks` name two distinct identifiers of `nodes`.
pub open spec fn accepted_count(nodes: Seq<Identifier>, picks: Seq<(usize, usize)>) -> nat {
    accepted_connections(nodes, picks, 0).len()
}

impl GraphStore {
    /// Spawns an identifier at each of the first `limit` points.
    fn spawn_identifiers_upto(&mut self, points: &Vec<Point>, limit: usize)
        requires
            old(self).wf(),
            limit <= points.len(),
            old(self).next_id() + limit <= u64::MAX,
        ensures
            final(self).wf(),
            final(self).nodes() == old(self).nodes() + spawned_identifiers(
                points@.take(limit as int),
                old(self).next_id() as nat,
            ),
            final(self).edges() == old(self).edges(),
            final(self).next_id() == old(self).next_id() + limit,
    {
        for k in 0..limit
            invariant
                limit <= points.len(),
                old(self).next_id() + limit <= u64::MAX,
                self.wf(),
                self.nodes() == old(self).nodes() + spawned_identifiers(
                    points@.take(k as int),
                    old(self).next_id() as nat,
                ),
                self.edges() == old(self).edges(),
                self.next_id() == old(self).next_id() + k,
        {
            self.push_identifier(points[k], SPAWN_SCALE);
            assert(self.nodes() =~= old(self).nodes() + spawned_identifiers(
                points@.take(k + 1),
                old(self).next_id() as nat,
            ));
        }
    }

    /// Spawns an identifier at each point, with the steady spawn scale and
    /// normal highlight, numbered in order from the next free identity.
    pub fn spawn_identifiers(&mut self, points: &Vec<Point>)
        requires
            old(self).wf(),
            old(self).next_id() + points.len() <= u64::MAX,
        ensures
            final(self).wf(),
            final(self).nodes() == old(self).nodes() + spawned_identifiers(
                points@,
                old(self).next_id() as nat,
            ),
            final(self).edges() == old(self).edges(),
            final(self).next_id() == old(self).next_id() + points.len(),
    {
        self.spawn_identifiers_upto(points, points.len());
        assert(points@.take(points.len() as int) == points@);
    }

    /// Makes a connection for each acceptable pick, in order, until `limit`
    /// connections have been made. A pick names two identifiers by their
    /// index in the store; a pick whose two indices coincide is rejected.
    pub fn spawn_connections(&mut self, picks: &Vec<(usize, usize)>, limit: usize) -> (added: usize)
        requires
            old(self).wf(),
            old(self).next_id() + picks.len() <= u64::MAX,
        ensures
            final(self).wf(),
            final(self).nodes() == old(self).nodes(),
            added == min_nat(
                limit as nat,
                accepted_connections(old(self).nodes(), picks@, old(self).next_id() as nat).len(),
            ),
            final(self).edges() == old(self).edges() + accepted_connections(
                old(self).nodes(),
                picks@,
                old(self).next_id() as nat,
            ).take(added as int),
            final(self).next_id() == old(self).next_id() + added,
    {
        let ghost nodes = old(self).nodes();
        let ghost first = old(self).next_id() as nat;
        let mut added: usize = 0;
        let n = self.identifier_count();
        for k in 0..picks.len()
            invariant
                n == nodes.len(),
                old(self).next_id() + picks.len() <= u64::MAX,
                first == old(self).next_id(),
                self.wf(),
                self.nodes() == nodes,
                added <= k,
                added == min_nat(
                    limit as nat,
                    accepted_connections(nodes, picks@.take(k as int), first).len(),
                ),
                self.edges() == old(self).edges() + accepted_connections(
                    nodes,
                    picks@.take(k as int),
                    first,
                ).take(added as int),
                self.next_id() == old(self).next_id() + added,
        {
            let p = picks[k];
            let ghost acc = accepted_connections(nodes, picks@.take(k as int), first);
            proof {
                assert(picks@.take(k + 1).drop_last() =~= picks@.take(k as int));
                assert(picks@.take(k + 1).last() == p);
            }
            if added < limit && p.0 < n && p.1 < n && p.0 != p.1 {
                self.push_connection(p.0, p.1);
                added = added + 1;
                assert(self.edges() =~= old(self).edges() + accepted_connections(
                    nodes,
                    picks@.take(k + 1),
                    first,
                ).take(added as int));
            } else {
                assert(accepted_connections(nodes, picks@.take(k + 1), first).take(added as int)
                    =~= acc.take(added as int));
            }
        }
        assert(picks@.take(picks.len() as int) == picks@);
        added
    }

    /// Makes `count` attempts at a connection between two identifiers drawn
    /// uniformly at random; an attempt whose two draws coincide makes nothing.
    /// With fewer than two identifiers nothing is attempted.
    pub fn add_connections(&mut self, count: usize)
        requires
            old(self).wf(),
            old(self).next_id() + count <= u64::MAX,
        ensures
            final(self).wf(),
            final(self).nodes() == old(self).nodes(),
            old(self).nodes().len() < 2 ==> final(self).edges() == old(self).edges(),
            old(self).nodes().len() >= 2 ==> exists|picks: Seq<(usize, usize)>|
                #![trigger accepted_connections(old(self).nodes(), picks, old(self).next_id() as nat)]
                picks.len() == count && final(self).edges() == old(self).edges()
                    + accepted_connections(old(self).nodes(), picks, old(self).next_id() as nat)
                    && accepted_connections(
                    old(self).nodes(),
                    picks,
                    old(self).next_id() as nat,
                ).len() == count,
            old(self).nodes().len() >= 2 ==> final(self).edges().len() == old(self).edges().len()
                + count,
    {
        let picks = self.draw_picks(count);
        let added = self.spawn_connections(&picks, count);
        proof {
            lemma_accepted_all(old(self).nodes(), picks@, old(self).next_id() as nat);
            let acc = accepted_connections(old(self).nodes(), picks@, old(self).next_id() as nat);
            assert(acc.take(added as int) == acc);
        }
    }

    /// Moves the number of identifiers toward `target`: when there are too
    /// few, spawns one at each of the first points until the target is met;
    /// when there are too many, keeps the oldest `target` and drops the
    /// connections that lose an end.
    pub fn reconcile_identifiers(&mut self, target: usize, points: &Vec<Point>)
        requires
            old(self).wf(),
            old(self).next_id() + points.len() <= u64::MAX,
        ensures
            final(self).wf(),
            old(self).nodes().len() < target ==> {
                &&& final(self).nodes() == old(self).nodes() + spawned_identifiers(
                    points@.take(
                        min_nat((target - old(self).nodes().len()) as nat, points.len() as nat)
                            as int,
                    ),
                    old(self).next_id() as nat,
                )
                &&& final(self).edges() == old(self).edges()
            },
            old(self).nodes().len() >= target ==> {
                &&& final(self).nodes() == old(self).nodes().take(target as int)
                &&& final(self).edges() == old(self).edges().filter(
                    |c: Connection| links_within(final(self).nodes(), c),
                )
            },
            old(self).nodes().len() == target ==> final(self).edges() == old(self).edges(),
            old(self).next_id() <= final(self).next_id() <= old(self).next_id() + points.len(),
            old(self).nodes().len() >= target ==> final(self).next_id() == old(self).next_id(),
    {
        let n = self.identifier_count();
        if n < target {
            let want = target - n;
            let limit = if want < points.len() {
                want
            } else {
                points.len()
            };
            self.spawn_identifiers_upto(points, limit);
        } else {
            self.truncate_identifiers(target);
        }
    }

    /// Moves the number of connections toward `target`: when there are too
    /// many, keeps the oldest `target`; when there are too few, makes
    /// connections from the acceptable picks, in order, until the target is met.
    pub fn reconcile_connections_with(&mut self, target: usize, picks: &Vec<(usize, usize)>)
        requires
            old(self).wf(),
            old(self).next_id() + picks.len() <= u64::MAX,
        ensures
            final(self).wf(),
            final(self).nodes() == old(self).nodes(),
            old(self).edges().len() >= target ==> final(self).edges() == old(self).edges().take(
                target as int,
            ),
            old(self).edges().len() >= target ==> final(self).next_id() == old(self).next_id(),
            old(self).edges().len() < target ==> final(self).edges() == old(self).edges()
                + accepted_connections(
                old(self).nodes(),
                picks@,
                old(self).next_id() as nat,
            ).take(
                min_nat(
                    (target - old(self).edges().len()) as nat,
                    accepted_count(old(self).nodes(), picks@),
                ) as int,
            ),
    {
        proof {
            lemma_accepted_len_any_first(old(self).nodes(), picks@, old(self).next_id() as nat, 0);
        }
        let m = self.connection_count();
        if m < target {
            self.spawn_connections(picks, target - m);
        } else {
            self.truncate_connections(target);
        }
    }

    /// One pass of level-triggered reconciliation toward `target_identifiers`
    /// identifiers and `target_connections` connections, using `points` for
    /// new identifiers and `picks` for new connections. When the samples
    /// suffice the store ends with exactly the target numbers, and a store
    /// already at its targets is left as it is.
    pub fn reconcile(
        &mut self,
        target_identifiers: usize,
        target_connections: usize,
        points: &Vec<Point>,
        picks: &Vec<(usize, usize)>,
    )
        requires
            old(self).wf(),
            old(self).next_id() + points.len() + picks.len() <= u64::MAX,
        ensures
            final(self).wf(),
            old(self).nodes().len() + points.len() >= target_identifiers
                ==> final(self).nodes().len() == target_identifiers,
            old(self).nodes().len() + points.len() >= target_identifiers && accepted_count(
                final(self).nodes(),
                picks@,
            ) >= target_connections ==> final(self).edges().len() == target_connections,
            old(self).nodes().len() == target_identifiers && old(self).edges().len()
                == target_connections ==> {
                &&& final(self).nodes() == old(self).nodes()
                &&& final(self).edges() == old(self).edges()
                &&& final(self).next_id() == old(self).next_id()
            },
    {
        self.reconcile_identifiers(target_identifiers, points);
        let ghost mid = self.edges();
        let ghost mid_next = self.next_id() as nat;
        proof {
            if old(self).nodes().len() == target_identifiers {
                assert(old(self).nodes().take(target_identifiers as int) == old(self).nodes());
            }
        }
        self.reconcile_connections_with(target_connections, picks);
        proof {
            if old(self).nodes().len() == target_identifiers && old(self).edges().len()
                == target_connections {
                assert(mid == old(self).edges());
                assert(mid.take(target_connections as int) =~= mid);
            }
            let nodes = self.nodes();
            let acc = accepted_connections(nodes, picks@, 0);
            lemma_accepted_len_any_first(nodes, picks@, mid_next, 0);
            if mid.len() < target_connections && acc.len() >= target_connections {
                assert(min_nat((target_connections - mid.len()) as nat, acc.len())
                    == target_connections - mid.len());
            }
        }
    }

    /// Level-triggered reconciliation of the connections with random picks:
    /// drops the newest connections beyond `target`, or makes each missing
    /// connection between two distinct identifiers drawn at random. With
    /// fewer than two identifiers no connection can be made.
    pub fn reconcile_connections(&mut self, target: usize)
        requires
            old(self).wf(),
            old(self).next_id() + target <= u64::MAX,
        ensures
            final(self).wf(),
            final(self).nodes() == old(self).nodes(),
            old(self).edges().len() >= target ==> final(self).edges() == old(self).edges().take(
                target as int,
            ),
            old(self).edges().len() < target && old(self).nodes().len() < 2 ==> final(self).edges()
                == old(self).edges(),
            old(self).edges().len() < target && old(self).nodes().len() >= 2 ==> exists|
                picks: Seq<(usize, usize)>,
            |
                #![trigger accepted_connections(old(self).nodes(), picks, old(self).next_id() as nat)]
                final(self).edges() == old(self).edges() + accepted_connections(
                    old(self).nodes(),
                    picks,
                    old(self).next_id() as nat,
                ),
            old(self).nodes().len() >= 2 ==> final(self).edges().len() == target,
    {
        let m = self.connection_count();
        if m >= target {
            self.truncate_connections(target);
        } else {
            self.add_connections(target - m);
        }
    }

    /// Draws `count` pairs of distinct occupancy indices, each pair uniform
    /// among the ordered pairs of distinct identifiers, or none when fewer
    /// than two identifiers exist. The second index is drawn among the others,
    /// which is what redrawing on a coincidence would give.
    fn draw_picks(&self, count: usize) -> (picks: Vec<(usize, usize)>)
        ensures
            self.nodes().len() < 2 ==> picks.len() == 0,
            self.nodes().len() >= 2 ==> picks.len() == count,
            forall|k: int| 0 <= k < picks.len() ==> #[trigger] pick_ok(self.nodes(), picks@[k]),
    {
        let mut picks: Vec<(usize, usize)> = Vec::new();
        let n = self.identifier_count();
        if n < 2 {
            return picks;
        }
        for k in 0..count
            invariant
                n == self.nodes().len(),
                n >= 2,
                picks.len() == k,
                forall|t: int| 0 <= t < picks.len() ==> #[trigger] pick_ok(self.nodes(), picks@[t]),
        {
            let a = random_below(n);
            let c = random_below(n - 1);
            let b = if c >= a {
                c + 1
            } else {
                c
            };
            picks.push((a, b));
        }
        picks
    }
}

} // verus!
