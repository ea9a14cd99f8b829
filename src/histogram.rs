//! Degree histograms of adjacency maps, and the sum of a histogram's counts.
use vstd::prelude::*;

verus! {

/// The members of `keys` whose neighbour set in `g` has exactly `d` members.
pub open spec fn nodes_of_degree(g: Map<u32, Set<u32>>, keys: Set<u32>, d: nat) -> Set<u32> {
    keys.filter(|k: u32| g[k].len() == d)
}

/// Some member of `keys` has degree `d` in `g`.
pub open spec fn degree_occurs(g: Map<u32, Set<u32>>, keys: Set<u32>, d: nat) -> bool {
    exists|k: u32| keys.contains(k) && #[trigger] g[k].len() == d
}

/// The histogram of the degrees in `g` of the members of `keys`: each degree
/// that occurs, mapped to the number of members that have it.
pub open spec fn histogram_of(g: Map<u32, Set<u32>>, keys: Set<u32>) -> Map<usize, usize> {
    Map::new(
        |d: usize| degree_occurs(g, keys, d as nat),
        |d: usize| nodes_of_degree(g, keys, d as nat).len() as usize,
    )
}

/// The degree histogram of the whole of `g`. Only keys of `g` count, so no
/// degree is counted that no key has.
pub open spec fn degree_histogram(g: Map<u32, Set<u32>>) -> Map<usize, usize> {
    histogram_of(g, g.dom())
}

/// The sum of the counts of a finite histogram.
pub open spec fn histogram_total(h: Map<usize, usize>) -> nat
    decreases h.dom().len(),
{
    if h.dom().finite() && h.dom().len() > 0 {
        let d = h.dom().choose();
        h[d] as nat + histogram_total(h.remove(d))
    } else {
        0
    }
}

/// Any entry can be taken out of the sum first.
pub proof fn lemma_total_remove(h: Map<usize, usize>, d: usize)
    requires
        h.dom().finite(),
        h.contains_key(d),
    ensures
        histogram_total(h) == h[d] as nat + histogram_total(h.remove(d)),
    decreases h.dom().len(),
{
    let c = h.dom().choose();
    if c != d {
        let hc = h.remove(c);
        let hd = h.remove(d);
        lemma_total_remove(hc, d);
        lemma_total_remove(hd, c);
        assert(hc.remove(d) =~= hd.remove(c));
    }
}

/// Setting the count of `d` to `v` changes the sum by the difference.
pub proof fn lemma_total_insert(h: Map<usize, usize>, d: usize, v: usize)
    requires
        h.dom().finite(),
    ensures
        histogram_total(h.insert(d, v)) == histogram_total(h.remove(d)) + v,
{
    lemma_total_remove(h.insert(d, v), d);
    assert(h.insert(d, v).remove(d) =~= h.remove(d));
}

/// Adding a key `k` that `keys` lacks raises the count of its degree by one
/// and leaves the other counts as they were.
pub proof fn lemma_histogram_add_key(g: Map<u32, Set<u32>>, keys: Set<u32>, k: u32)
    requires
        keys.finite(),
        !keys.contains(k),
        g[k].len() <= usize::MAX,
        nodes_of_degree(g, keys, g[k].len()).len() < usize::MAX,
    ensures
        ({
            let h = histogram_of(g, keys);
            let d = g[k].len() as usize;
            let before = if h.contains_key(d) {
                h[d]
            } else {
                0
            };
            histogram_of(g, keys.insert(k)) == h.insert(d, (before + 1) as usize)
        }),
{
    let h = histogram_of(g, keys);
    let d = g[k].len() as usize;
    let h2 = histogram_of(g, keys.insert(k));
    let before = if h.contains_key(d) {
        h[d]
    } else {
        0
    };
    assert(nodes_of_degree(g, keys.insert(k), d as nat) =~= nodes_of_degree(
        g,
        keys,
        d as nat,
    ).insert(k));
    if !h.contains_key(d) {
        assert(nodes_of_degree(g, keys, d as nat) =~= Set::empty());
    }
    assert(degree_occurs(g, keys.insert(k), d as nat));
    assert forall|e: usize| e != d implies #[trigger] h2.contains_key(e) == h.contains_key(e) && (
    h2.contains_key(e) ==> h2[e] == h[e]) by {
        assert(nodes_of_degree(g, keys.insert(k), e as nat) =~= nodes_of_degree(
            g,
            keys,
            e as nat,
        ));
        if h2.contains_key(e) {
            let w = choose|w: u32| keys.insert(k).contains(w) && #[trigger] g[w].len() == e as nat;
            assert(keys.contains(w) && g[w].len() == e as nat);
        }
    }
    assert(h2 =~= h.insert(d, (before + 1) as usize));
}

} // verus!
