//! The similarity graph: adjacency sets keyed by record position.
use std::collections::{HashMap, HashSet};
use vstd::prelude::*;
use vstd::std_specs::iter::IteratorSpec;

use crate::histogram::{
    degree_histogram, histogram_of, histogram_total, lemma_histogram_add_key, lemma_total_insert,
    nodes_of_degree,
};
use crate::record::{is_similar, similar, LoanRecord};

verus! {

broadcast use vstd::std_specs::hash::group_hash_axioms;

/// An undirected simple graph over record positions. A position is a key
/// exactly when it has at least one neighbour.
#[derive(Debug)]
pub struct LoanGraph {
    pub adjacency_list: HashMap<u32, HashSet<u32>>,
}

impl View for LoanGraph {
    type V = Map<u32, Set<u32>>;

    open spec fn view(&self) -> Map<u32, Set<u32>> {
        self.adjacency_list@.map_values(|s: HashSet<u32>| s@)
    }
}

/// Positions `i` and `j` of `data` are distinct and hold similar records.
pub open spec fn linked(data: Seq<LoanRecord>, i: int, j: int) -> bool {
    &&& 0 <= i < data.len()
    &&& 0 <= j < data.len()
    &&& i != j
    &&& similar(data[i], data[j])
}

/// The positions linked to position `i`.
pub open spec fn neighbors_of(data: Seq<LoanRecord>, i: int) -> Set<u32> {
    Set::new(|j: u32| linked(data, i, j as int))
}

/// Position `i` is linked to at least one other position.
pub open spec fn has_partner(data: Seq<LoanRecord>, i: int) -> bool {
    exists|j: u32| linked(data, i, j as int)
}

/// The graph that `data` defines: each position with a partner, mapped to
/// the set of its partners.
pub open spec fn similarity_graph(data: Seq<LoanRecord>) -> Map<u32, Set<u32>> {
    Map::new(|i: u32| has_partner(data, i as int), |i: u32| neighbors_of(data, i as int))
}

/// Every edge is stored at both of its ends.
pub open spec fn is_symmetric(g: Map<u32, Set<u32>>) -> bool {
    forall|i: u32, j: u32|
        #![trigger g[i].contains(j)]
        g.contains_key(i) && g[i].contains(j) ==> g.contains_key(j) && g[j].contains(i)
}

/// No position is its own neighbour.
pub open spec fn is_loop_free(g: Map<u32, Set<u32>>) -> bool {
    forall|i: u32| #[trigger] g.contains_key(i) ==> !g[i].contains(i)
}

/// The pair `{x, y}` comes before the cursor `(i, j)` in the enumeration of
/// pairs `lo < hi` by `lo`, then by `hi`.
spec fn pair_visited(x: int, y: int, i: int, j: int) -> bool {
    let lo = if x < y { x } else { y };
    let hi = if x < y { y } else { x };
    lo < i || (lo == i && hi < j)
}

spec fn seen_link(data: Seq<LoanRecord>, i: int, j: int, x: int, y: int) -> bool {
    linked(data, x, y) && pair_visited(x, y, i, j)
}

/// The links of `data` whose pair was visited before the cursor `(i, j)`.
spec fn visited_graph(data: Seq<LoanRecord>, i: int, j: int) -> Map<u32, Set<u32>> {
    Map::new(
        |x: u32| exists|y: u32| seen_link(data, i, j, x as int, y as int),
        |x: u32| Set::new(|y: u32| seen_link(data, i, j, x as int, y as int)),
    )
}

proof fn lemma_visited_same(data: Seq<LoanRecord>, i1: int, j1: int, i2: int, j2: int)
    requires
        forall|x: u32, y: u32|
            #[trigger] seen_link(data, i1, j1, x as int, y as int) == seen_link(
                data,
                i2,
                j2,
                x as int,
                y as int,
            ),
    ensures
        visited_graph(data, i1, j1) == visited_graph(data, i2, j2),
{
    let g1 = visited_graph(data, i1, j1);
    let g2 = visited_graph(data, i2, j2);
    assert forall|x: u32| #[trigger] g1.contains_key(x) == g2.contains_key(x) by {
        if g1.contains_key(x) {
            let y = choose|y: u32| #[trigger] seen_link(data, i1, j1, x as int, y as int);
            assert(seen_link(data, i2, j2, x as int, y as int));
        }
        if g2.contains_key(x) {
            let y = choose|y: u32| #[trigger] seen_link(data, i2, j2, x as int, y as int);
            assert(seen_link(data, i1, j1, x as int, y as int));
        }
    }
    assert forall|x: u32| #[trigger] g1.contains_key(x) implies g1[x] =~= g2[x] by {}
    assert(g1 =~= g2);
}

proof fn lemma_visited_all(data: Seq<LoanRecord>, n: int)
    requires
        n == data.len(),
    ensures
        visited_graph(data, n, n + 1) == similarity_graph(data),
{
    let g1 = visited_graph(data, n, n + 1);
    let g2 = similarity_graph(data);
    assert forall|x: u32, y: u32| #[trigger] seen_link(data, n, n + 1, x as int, y as int) == linked(
        data,
        x as int,
        y as int,
    ) by {}
    assert forall|x: u32| #[trigger] g1.contains_key(x) == g2.contains_key(x) by {
        if g1.contains_key(x) {
            let y = choose|y: u32| #[trigger] seen_link(data, n, n + 1, x as int, y as int);
            assert(linked(data, x as int, y as int));
        }
        if g2.contains_key(x) {
            let y = choose|y: u32| #[trigger] linked(data, x as int, y as int);
            assert(seen_link(data, n, n + 1, x as int, y as int));
        }
    }
    assert forall|x: u32| #[trigger] g1.contains_key(x) implies g1[x] =~= g2[x] by {}
    assert(g1 =~= g2);
}

/// `g` with `y` added to the neighbours of `x`.
pub open spec fn add_edge_end(g: Map<u32, Set<u32>>, x: u32, y: u32) -> Map<u32, Set<u32>> {
    g.insert(
        x,
        if g.contains_key(x) {
            g[x].insert(y)
        } else {
            Set::empty().insert(y)
        },
    )
}

proof fn lemma_visit_step(data: Seq<LoanRecord>, a: u32, b: u32)
    requires
        a < b < data.len(),
    ensures
        !similar(data[a as int], data[b as int]) ==> visited_graph(data, a as int, b + 1)
            == visited_graph(data, a as int, b as int),
        similar(data[a as int], data[b as int]) ==> visited_graph(data, a as int, b + 1)
            == add_edge_end(add_edge_end(visited_graph(data, a as int, b as int), a, b), b, a),
{
    let g0 = visited_graph(data, a as int, b as int);
    let g1 = visited_graph(data, a as int, b + 1);
    let sim = similar(data[a as int], data[b as int]);
    assert forall|x: u32, y: u32|
        #[trigger] seen_link(data, a as int, b + 1, x as int, y as int) == (seen_link(
            data,
            a as int,
            b as int,
            x as int,
            y as int,
        ) || (sim && ((x == a && y == b) || (x == b && y == a)))) by {}
    let g2 = if sim {
        add_edge_end(add_edge_end(g0, a, b), b, a)
    } else {
        g0
    };
    assert forall|x: u32| #[trigger] g1.contains_key(x) == g2.contains_key(x) by {
        if g1.contains_key(x) {
            let y = choose|y: u32| #[trigger] seen_link(data, a as int, b + 1, x as int, y as int);
            if seen_link(data, a as int, b as int, x as int, y as int) {
                assert(g0.contains_key(x));
            }
        }
        if g0.contains_key(x) {
            let y = choose|y: u32| #[trigger] seen_link(data, a as int, b as int, x as int, y as int);
            assert(seen_link(data, a as int, b + 1, x as int, y as int));
        }
        if sim && x == a {
            assert(seen_link(data, a as int, b + 1, a as int, b as int));
        }
        if sim && x == b {
            assert(seen_link(data, a as int, b + 1, b as int, a as int));
        }
    }
    assert forall|x: u32| #[trigger] g1.contains_key(x) implies g1[x] =~= g2[x] by {}
    assert(g1 =~= g2);
}

/// Similarity is symmetric, so the graph of any input stores each edge at
/// both ends: `j` is a neighbour of `i` exactly when `i` is one of `j`.
pub proof fn lemma_similarity_graph_symmetric(data: Seq<LoanRecord>)
    ensures
        is_symmetric(similarity_graph(data)),
{
    let g = similarity_graph(data);
    assert forall|i: u32, j: u32| g.contains_key(i) && #[trigger] g[i].contains(j) implies g.contains_key(j)
        && g[j].contains(i) by {
        assert(linked(data, j as int, i as int));
    }
}

/// No position of any input is its own neighbour.
pub proof fn lemma_similarity_graph_loop_free(data: Seq<LoanRecord>)
    ensures
        is_loop_free(similarity_graph(data)),
{
}

/// The graph depends on the two compared categories alone: two inputs of
/// the same length whose records agree on education and loan intent
/// position by position give the same graph. In particular, building twice
/// from one input gives identical neighbour sets.
pub proof fn lemma_similarity_graph_deterministic(d1: Seq<LoanRecord>, d2: Seq<LoanRecord>)
    requires
        d1.len() == d2.len(),
        forall|k: int|
            0 <= k < d1.len() ==> (#[trigger] d1[k]).person_education@ == d2[k].person_education@
                && d1[k].loan_intent@ == d2[k].loan_intent@,
    ensures
        similarity_graph(d1) == similarity_graph(d2),
{
    let g1 = similarity_graph(d1);
    let g2 = similarity_graph(d2);
    assert forall|i: u32, j: u32| #[trigger] linked(d1, i as int, j as int) == linked(
        d2,
        i as int,
        j as int,
    ) by {}
    assert forall|i: u32| #[trigger] g1.contains_key(i) == g2.contains_key(i) by {
        if g1.contains_key(i) {
            let j = choose|j: u32| #[trigger] linked(d1, i as int, j as int);
            assert(linked(d2, i as int, j as int));
        }
        if g2.contains_key(i) {
            let j = choose|j: u32| #[trigger] linked(d2, i as int, j as int);
            assert(linked(d1, i as int, j as int));
        }
    }
    assert forall|i: u32| #[trigger] g1.contains_key(i) implies g1[i] =~= g2[i] by {}
    assert(g1 =~= g2);
}

impl LoanGraph {
    /// An empty graph.
    pub fn new() -> (r: Self)
        ensures
            r@ == Map::<u32, Set<u32>>::empty(),
    {
        let r = LoanGraph { adjacency_list: HashMap::new() };
        assert(r@ =~= Map::<u32, Set<u32>>::empty());
        r
    }

    /// Adds `b` to the neighbours of `a`, creating the set when `a` has none.
    fn add_neighbor(&mut self, a: u32, b: u32)
        ensures
            final(self)@ == add_edge_end(old(self)@, a, b),
    {
        let mut set = match self.adjacency_list.remove(&a) {
            Some(s) => s,
            None => HashSet::new(),
        };
        set.insert(b);
        self.adjacency_list.insert(a, set);
        assert(self@ =~= add_edge_end(old(self)@, a, b));
    }

    /// Builds the similarity graph of `data`: positions `i != j` are
    /// neighbours exactly when their records share the education category or
    /// the loan-intent category; positions without a neighbour are absent.
    pub fn build_from_data(data: &[LoanRecord]) -> (r: Self)
        requires
            data@.len() <= u32::MAX + 1,
        ensures
            r@ == similarity_graph(data@),
            is_symmetric(r@),
            is_loop_free(r@),
            forall|i: u32, j: u32|
                #![trigger r@[i].contains(j)]
                linked(data@, i as int, j as int) ==> r@.contains_key(i) && r@[i].contains(j),
            forall|i: u32, j: u32|
                #![trigger r@[i].contains(j)]
                r@.contains_key(i) && r@[i].contains(j) ==> linked(data@, i as int, j as int),
            forall|i: u32| #[trigger] r@.contains_key(i) ==> has_partner(data@, i as int),
    {
        let n = data.len();
        let mut graph = LoanGraph::new();
        assert(graph@ =~= visited_graph(data@, 0, 1));
        let mut i: usize = 0;
        while i < n
            invariant
                n == data@.len(),
                n <= u32::MAX + 1,
                i <= n,
                graph@ == visited_graph(data@, i as int, i as int + 1),
            decreases n - i,
        {
            let mut j: usize = i + 1;
            while j < n
                invariant
                    n == data@.len(),
                    n <= u32::MAX + 1,
                    i < n,
                    i + 1 <= j <= n,
                    graph@ == visited_graph(data@, i as int, j as int),
                decreases n - j,
            {
                proof {
                    lemma_visit_step(data@, i as u32, j as u32);
                }
                if is_similar(&data[i], &data[j]) {
                    graph.add_neighbor(i as u32, j as u32);
                    graph.add_neighbor(j as u32, i as u32);
                }
                j = j + 1;
            }
            proof {
                assert forall|x: u32, y: u32|
                    #[trigger] seen_link(data@, i as int, n as int, x as int, y as int) == seen_link(
                        data@,
                        i as int + 1,
                        i as int + 2,
                        x as int,
                        y as int,
                    ) by {}
                lemma_visited_same(data@, i as int, n as int, i as int + 1, i as int + 2);
            }
            i = i + 1;
        }
        proof {
            lemma_visited_all(data@, n as int);
            lemma_similarity_graph_symmetric(data@);
            lemma_similarity_graph_loop_free(data@);
        }
        graph
    }

    /// Counts, for each degree that occurs, the positions in the graph that
    /// have it. Positions absent from the graph contribute nothing, so the
    /// counts add up to the number of keys.
    pub fn compute_degree_distribution(&self) -> (r: HashMap<usize, usize>)
        ensures
            r@ == degree_histogram(self@),
            forall|d: usize|
                #[trigger] r@.contains_key(d) ==> r@[d] == nodes_of_degree(
                    self@,
                    self@.dom(),
                    d as nat,
                ).len(),
            histogram_total(r@) == self@.dom().len(),
    {
        let mut distribution: HashMap<usize, usize> = HashMap::new();
        let n = self.adjacency_list.len();
        let ghost g = self@;
        let ghost mut done: Set<u32> = Set::empty();
        assert(distribution@ =~= histogram_of(g, done));
        assert(g.dom() =~= self.adjacency_list@.dom());
        let keys = self.adjacency_list.keys();
        let ghost all = keys.remaining().unref();
        let ghost mut visited: int = 0;
        assert(all.to_set() == g.dom());
        for k in iter: keys
            invariant
                g == self@,
                n == g.dom().len(),
                g.dom().finite(),
                iter.seq().unref() == all,
                all.to_set() == g.dom(),
                all.no_duplicates(),
                visited == iter.index(),
                done == all.take(visited).to_set(),
                distribution@ == histogram_of(g, done),
                histogram_total(distribution@) == done.len(),
                distribution@.dom().finite(),
        {
            let ghost idx = visited;
            let ghost ks = all;
            assert(k == iter.seq()[idx]);
            assert(ks[idx] == *k);
            assert(!done.contains(*k)) by {
                if done.contains(*k) {
                    let m = choose|m: int| 0 <= m < idx && ks.take(idx)[m] == *k;
                    assert(ks[m] == ks[idx]);
                }
            }
            assert(g.dom().contains(*k)) by {
                assert(ks.to_set().contains(ks[idx]));
            }
            let neighbors = self.adjacency_list.get(k).unwrap();
            let degree = neighbors.len();
            proof {
                vstd::set_lib::lemma_len_subset(done.insert(*k), g.dom());
                vstd::set_lib::lemma_len_subset(nodes_of_degree(g, done, degree as nat), done);
                lemma_histogram_add_key(g, done, *k);
            }
            let ghost old_dist = distribution@;
            let count: usize = match distribution.get(&degree) {
                Some(c) => *c,
                None => 0,
            };
            distribution.insert(degree, count + 1);
            proof {
                lemma_total_insert(old_dist, degree, (count + 1) as usize);
                if old_dist.contains_key(degree) {
                    crate::histogram::lemma_total_remove(old_dist, degree);
                } else {
                    assert(old_dist.remove(degree) =~= old_dist);
                }
                ks.take(idx).lemma_push_to_set_commute(*k);
                assert(ks.take(idx + 1) =~= ks.take(idx).push(*k));
                assert(ks.take(idx + 1).to_set() =~= done.insert(*k));
                done = done.insert(*k);
                visited = visited + 1;
            }
        }
        assert(all.take(visited) =~= all);
        assert forall|d: usize| #[trigger] distribution@.contains_key(d) implies distribution@[d]
            == nodes_of_degree(g, g.dom(), d as nat).len() by {
            vstd::set_lib::lemma_len_subset(nodes_of_degree(g, g.dom(), d as nat), g.dom());
        }
        distribution
    }
}

} // verus!
