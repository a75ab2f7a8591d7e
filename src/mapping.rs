use vstd::prelude::*;

verus! {

broadcast use vstd::seq_lib::group_seq_properties;

/// Every element is smaller than the one after it (sorted, no duplicates).
pub open spec fn strictly_increasing(s: Seq<u64>) -> bool {
    forall|i: int, j: int| 0 <= i < j < s.len() ==> s[i] < s[j]
}

/// The identities that occur as either end of some pair.
pub open spec fn endpoint_set(pairs: Seq<(u64, u64)>) -> Set<u64> {
    Set::new(
        |v: u64| exists|k: int| 0 <= k < pairs.len() && (pairs[k].0 == v || pairs[k].1 == v),
    )
}

/// Merges two sorted duplicate-free vectors into one sorted duplicate-free
/// vector holding the union of their elements.
fn merge_unique(a: &Vec<u64>, b: &Vec<u64>) -> (r: Vec<u64>)
    requires
        strictly_increasing(a@),
        strictly_increasing(b@),
    ensures
        strictly_increasing(r@),
        r@.to_set() == a@.to_set() + b@.to_set(),
{
    let mut r: Vec<u64> = Vec::new();
    let mut i: usize = 0;
    let mut j: usize = 0;
    while i < a.len() || j < b.len()
        invariant
            i <= a.len(),
            j <= b.len(),
            strictly_increasing(a@),
            strictly_increasing(b@),
            strictly_increasing(r@),
            r@.to_set() == a@.take(i as int).to_set() + b@.take(j as int).to_set(),
            r.len() > 0 && i < a.len() ==> r@.last() < a@[i as int],
            r.len() > 0 && j < b.len() ==> r@.last() < b@[j as int],
        decreases a.len() + b.len() - i - j,
    {
        let ghost old_r = r@;
        let ghost ta = a@.take(i as int);
        let ghost tb = b@.take(j as int);
        if j >= b.len() || (i < a.len() && a[i] < b[j]) {
            let x = a[i];
            r.push(x);
            i = i + 1;
            proof {
                assert(a@.take(i as int) =~= ta.push(x));
                old_r.lemma_push_to_set_commute(x);
                ta.lemma_push_to_set_commute(x);
                assert(r@.to_set() =~= a@.take(i as int).to_set() + b@.take(j as int).to_set());
            }
        } else if i >= a.len() || b[j] < a[i] {
            let x = b[j];
            r.push(x);
            j = j + 1;
            proof {
                assert(b@.take(j as int) =~= tb.push(x));
                old_r.lemma_push_to_set_commute(x);
                tb.lemma_push_to_set_commute(x);
                assert(r@.to_set() =~= a@.take(i as int).to_set() + b@.take(j as int).to_set());
            }
        } else {
            let x = a[i];
            r.push(x);
            i = i + 1;
            j = j + 1;
            proof {
                assert(a@.take(i as int) =~= ta.push(x));
                assert(b@.take(j as int) =~= tb.push(x));
                old_r.lemma_push_to_set_commute(x);
                ta.lemma_push_to_set_commute(x);
                tb.lemma_push_to_set_commute(x);
                assert(r@.to_set() =~= a@.take(i as int).to_set() + b@.take(j as int).to_set());
            }
        }
        assert(strictly_increasing(r@)) by {
            assert forall|p: int, q: int| 0 <= p < q < r@.len() implies r@[p] < r@[q] by {
                if q < old_r.len() {
                    assert(r@[p] == old_r[p] && r@[q] == old_r[q]);
                }
            }
        }
    }
    assert(a@.take(i as int) == a@);
    assert(b@.take(j as int) == b@);
    r
}

/// Sorts `values[lo..hi]` and drops repeated elements.
fn sorted_unique_range(values: &Vec<u64>, lo: usize, hi: usize) -> (r: Vec<u64>)
    requires
        lo <= hi <= values.len(),
    ensures
        strictly_increasing(r@),
        r@.to_set() == values@.subrange(lo as int, hi as int).to_set(),
    decreases hi - lo,
{
    if hi - lo == 0 {
        let r: Vec<u64> = Vec::new();
        assert(values@.subrange(lo as int, hi as int) =~= Seq::<u64>::empty());
        assert(r@.to_set() =~= Set::<u64>::empty());
        r
    } else if hi - lo == 1 {
        let mut r: Vec<u64> = Vec::new();
        r.push(values[lo]);
        assert(values@.subrange(lo as int, hi as int) =~= r@);
        r
    } else {
        let mid: usize = lo + (hi - lo) / 2;
        let left = sorted_unique_range(values, lo, mid);
        let right = sorted_unique_range(values, mid, hi);
        proof {
            assert(values@.subrange(lo as int, hi as int) =~= values@.subrange(lo as int, mid as int)
                + values@.subrange(mid as int, hi as int));
            vstd::seq_lib::seq_to_set_distributes_over_add(
                values@.subrange(lo as int, mid as int),
                values@.subrange(mid as int, hi as int),
            );
        }
        merge_unique(&left, &right)
    }
}

/// Sorts the values and drops repeated elements.
pub fn sorted_unique(values: &Vec<u64>) -> (r: Vec<u64>)
    ensures
        strictly_increasing(r@),
        r@.to_set() == values@.to_set(),
{
    let r = sorted_unique_range(values, 0, values.len());
    assert(values@.subrange(0, values@.len() as int) == values@);
    r
}

/// Finds where `v` sits in a sorted duplicate-free sequence, by halving.
pub fn position_of(s: &Vec<u64>, v: u64) -> (r: Option<usize>)
    requires
        strictly_increasing(s@),
    ensures
        match r {
            Some(i) => i < s.len() && s@[i as int] == v,
            None => !s@.contains(v),
        },
{
    let mut lo: usize = 0;
    let mut hi: usize = s.len();
    while lo < hi
        invariant
            lo <= hi <= s.len(),
            strictly_increasing(s@),
            forall|k: int| 0 <= k < lo ==> s@[k] < v,
            forall|k: int| hi <= k < s.len() ==> s@[k] > v,
        decreases hi - lo,
    {
        let mid = lo + (hi - lo) / 2;
        if s[mid] == v {
            return Some(mid);
        } else if s[mid] < v {
            lo = mid + 1;
        } else {
            hi = mid;
        }
    }
    None
}

/// A dense renumbering `0..n` of the node identities that a list of edges
/// references, and the edges rewritten in that numbering.
pub struct IndexMapping {
    /// `ids[i]` is the identity that has dense index `i`; sorted, no duplicates.
    pub ids: Vec<u64>,
    /// The edges in their original order, each end replaced by its dense index.
    pub edges: Vec<(usize, usize)>,
}

impl IndexMapping {
    pub open spec fn wf(&self) -> bool {
        strictly_increasing(self.ids@)
    }

    /// This mapping numbers exactly the endpoints of `pairs`, in increasing
    /// order of identity, and `edges` is `pairs` rewritten in that numbering.
    pub open spec fn renumbers(&self, pairs: Seq<(u64, u64)>) -> bool {
        &&& strictly_increasing(self.ids@)
        &&& self.ids@.to_set() == endpoint_set(pairs)
        &&& self.edges@.len() == pairs.len()
        &&& forall|k: int|
            #![trigger self.edges@[k]]
            0 <= k < pairs.len() ==> {
                &&& self.edges@[k].0 < self.ids@.len()
                &&& self.edges@[k].1 < self.ids@.len()
                &&& self.ids@[self.edges@[k].0 as int] == pairs[k].0
                &&& self.ids@[self.edges@[k].1 as int] == pairs[k].1
            }
    }

    /// Builds the renumbering of the endpoints of `pairs`: collects both ends
    /// of every pair, sorts them, drops repeats, and rewrites each pair.
    pub fn from_edges(pairs: &Vec<(u64, u64)>) -> (m: IndexMapping)
        ensures
            m.renumbers(pairs@),
    {
        let mut flat: Vec<u64> = Vec::new();
        for k in 0..pairs.len()
            invariant
                flat.len() == 2 * k,
                forall|t: int|
                    #![trigger pairs@[t]]
                    0 <= t < k ==> flat@[2 * t] == pairs@[t].0 && flat@[2 * t + 1] == pairs@[t].1,
        {
            flat.push(pairs[k].0);
            flat.push(pairs[k].1);
        }
        assert(flat@.to_set() =~= endpoint_set(pairs@)) by {
            assert forall|v: u64| flat@.to_set().contains(v) implies endpoint_set(pairs@).contains(
                v,
            ) by {
                let i = choose|i: int| 0 <= i < flat@.len() && flat@[i] == v;
                let t = i / 2;
                assert(pairs@[t].0 == v || pairs@[t].1 == v);
            }
            assert forall|v: u64| endpoint_set(pairs@).contains(v) implies flat@.to_set().contains(
                v,
            ) by {
                let t = choose|t: int|
                    0 <= t < pairs@.len() && (pairs@[t].0 == v || pairs@[t].1 == v);
                assert(pairs@[t] == pairs@[t]);
                if pairs@[t].0 == v {
                    assert(flat@[2 * t] == v);
                } else {
                    assert(flat@[2 * t + 1] == v);
                }
            }
        }
        let ids = sorted_unique(&flat);
        let mut edges: Vec<(usize, usize)> = Vec::new();
        for k in 0..pairs.len()
            invariant
                strictly_increasing(ids@),
                ids@.to_set() == endpoint_set(pairs@),
                edges.len() == k,
                forall|t: int|
                    #![trigger edges@[t]]
                    0 <= t < k ==> {
                        &&& edges@[t].0 < ids@.len()
                        &&& edges@[t].1 < ids@.len()
                        &&& ids@[edges@[t].0 as int] == pairs@[t].0
                        &&& ids@[edges@[t].1 as int] == pairs@[t].1
                    },
        {
            let (a, b) = pairs[k];
            assert(endpoint_set(pairs@).contains(a) && endpoint_set(pairs@).contains(b)) by {
                assert(pairs@[k as int] == (a, b));
            }
            assert(ids@.contains(a) && ids@.contains(b));
            let ia = position_of(&ids, a).unwrap();
            let ib = position_of(&ids, b).unwrap();
            edges.push((ia, ib));
        }
        IndexMapping { ids, edges }
    }

    /// The dense index of an identity, if the mapping numbers it.
    pub fn index_of(&self, id: u64) -> (r: Option<usize>)
        requires
            self.wf(),
        ensures
            match r {
                Some(i) => i < self.ids.len() && self.ids@[i as int] == id,
                None => !self.ids@.contains(id),
            },
    {
        position_of(&self.ids, id)
    }

    /// How many identities the mapping numbers.
    pub fn len(&self) -> (n: usize)
        ensures
            n == self.ids.len(),
    {
        self.ids.len()
    }
}

} // verus!
