//! A histogram laid out for presentation: its entries by ascending degree,
//! and the extent of the axes that hold them.
use std::collections::HashMap;
use vstd::prelude::*;
use vstd::std_specs::iter::IteratorSpec;

verus! {

broadcast use vstd::std_specs::hash::group_hash_axioms;

/// The first components of `s` strictly increase.
pub open spec fn strictly_ascending(s: Seq<(usize, usize)>) -> bool {
    forall|a: int, b: int| 0 <= a < b < s.len() ==> (#[trigger] s[a]).0 < (#[trigger] s[b]).0
}

/// `s` lists the entries of `h`, each once, by ascending key.
pub open spec fn lists_entries(s: Seq<(usize, usize)>, h: Map<usize, usize>) -> bool {
    &&& strictly_ascending(s)
    &&& forall|d: usize, c: usize|
        #[trigger] s.contains((d, c)) <==> h.contains_key(d) && h[d] == c
}

/// Inserts `(d, c)` into `out`, which is ordered by first components and
/// holds no entry for `d`, where the order puts it.
fn insert_sorted(out: &mut Vec<(usize, usize)>, d: usize, c: usize)
    requires
        strictly_ascending(old(out)@),
        forall|a: int| 0 <= a < old(out)@.len() ==> (#[trigger] old(out)@[a]).0 != d,
    ensures
        strictly_ascending(final(out)@),
        forall|x: (usize, usize)|
            #[trigger] final(out)@.contains(x) <==> old(out)@.contains(x) || x == (d, c),
{
    let mut pos: usize = 0;
    while pos < out.len() && out[pos].0 < d
        invariant
            0 <= pos <= out@.len(),
            forall|a: int| 0 <= a < pos ==> (#[trigger] out@[a]).0 < d,
        decreases out@.len() - pos,
    {
        pos = pos + 1;
    }
    let ghost before = out@;
    assert forall|a: int| pos <= a < before.len() implies (#[trigger] before[a]).0 > d by {
        if a > pos {
            assert(before[pos as int].0 < before[a].0);
        }
    }
    out.insert(pos, (d, c));
    assert forall|x: (usize, usize)| #[trigger] out@.contains(x) <==> before.contains(x) || x == (
    d,
    c,
    ) by {
        if out@.contains(x) {
            let a = choose|a: int| 0 <= a < out@.len() && out@[a] == x;
            if a < pos {
                assert(before[a] == x);
            } else if a > pos {
                assert(before[a - 1] == x);
            }
        }
        if before.contains(x) {
            let a = choose|a: int| 0 <= a < before.len() && before[a] == x;
            if a < pos {
                assert(out@[a] == x);
            } else {
                assert(out@[a + 1] == x);
            }
        }
        if x == (d, c) {
            assert(out@[pos as int] == x);
        }
    }
    assert forall|a: int, b: int| 0 <= a < b < out@.len() implies (#[trigger] out@[a]).0 < (
    #[trigger] out@[b]).0 by {
        if b < pos {
        } else if a > pos {
            assert(out@[a] == before[a - 1] && out@[b] == before[b - 1]);
        } else if a == pos {
            assert(out@[b] == before[b - 1]);
        } else if b == pos {
            assert(out@[a] == before[a]);
        } else {
            assert(out@[a] == before[a] && out@[b] == before[b - 1]);
        }
    }
}

/// The entries of `dist` as `(degree, count)` pairs by ascending degree.
pub fn degree_points(dist: &HashMap<usize, usize>) -> (r: Vec<(usize, usize)>)
    ensures
        lists_entries(r@, dist@),
{
    let mut out: Vec<(usize, usize)> = Vec::new();
    let keys = dist.keys();
    let ghost all = keys.remaining().unref();
    let ghost mut visited: int = 0;
    for d in iter: keys
        invariant
            iter.seq().unref() == all,
            all.to_set() == dist@.dom(),
            all.no_duplicates(),
            visited == iter.index(),
            0 <= visited <= all.len(),
            strictly_ascending(out@),
            forall|e: usize, c: usize|
                #[trigger] out@.contains((e, c)) <==> all.take(visited).contains(e)
                    && dist@.contains_key(e) && dist@[e] == c,
    {
        let ghost k = *d;
        assert(k == all[visited]);
        assert(dist@.contains_key(k)) by {
            assert(all.to_set().contains(all[visited]));
        }
        let count = *dist.get(d).unwrap();
        assert forall|a: int| 0 <= a < out@.len() implies (#[trigger] out@[a]).0 != k by {
            let x = out@[a];
            assert(out@.contains((x.0, x.1)));
            if x.0 == k {
                let m = choose|m: int| 0 <= m < visited && all.take(visited)[m] == k;
                assert(all[m] == all[visited]);
            }
        }
        insert_sorted(&mut out, *d, count);
        proof {
            let cur = all.take(visited);
            let nxt = all.take(visited + 1);
            assert(nxt =~= cur.push(k));
            assert forall|e: usize, c: usize|
                #[trigger] out@.contains((e, c)) <==> nxt.contains(e) && dist@.contains_key(e)
                    && dist@[e] == c by {
                if nxt.contains(e) && e != k {
                    let m = choose|m: int| 0 <= m < nxt.len() && nxt[m] == e;
                    assert(cur[m] == e);
                }
                if cur.contains(e) {
                    let m = choose|m: int| 0 <= m < cur.len() && cur[m] == e;
                    assert(nxt[m] == e);
                }
                if e == k {
                    assert(nxt[visited] == e);
                }
            }
            visited = visited + 1;
        }
    }
    proof {
        assert(all.take(visited) =~= all);
        assert forall|e: usize, c: usize|
            #[trigger] out@.contains((e, c)) <==> dist@.contains_key(e) && dist@[e] == c by {
            if dist@.contains_key(e) {
                assert(all.to_set().contains(e));
            }
        }
    }
    out
}

/// The largest degree and the largest count among `points`, each 0 when
/// `points` is empty: the far corner of a plot that holds them all.
pub fn largest_degree_and_count(points: &Vec<(usize, usize)>) -> (r: (usize, usize))
    ensures
        forall|a: int| 0 <= a < points@.len() ==> (#[trigger] points@[a]).0 <= r.0 && points@[a].1 <= r.1,
        points@.len() == 0 ==> r == (0usize, 0usize),
        points@.len() > 0 ==> exists|a: int| 0 <= a < points@.len() && (#[trigger] points@[a]).0 == r.0,
        points@.len() > 0 ==> exists|a: int| 0 <= a < points@.len() && (#[trigger] points@[a]).1 == r.1,
{
    let mut max_degree: usize = 0;
    let mut max_count: usize = 0;
    let mut i: usize = 0;
    while i < points.len()
        invariant
            i <= points@.len(),
            forall|a: int| 0 <= a < i ==> (#[trigger] points@[a]).0 <= max_degree && points@[a].1 <= max_count,
            i == 0 ==> max_degree == 0 && max_count == 0,
            i > 0 ==> exists|a: int| 0 <= a < i && (#[trigger] points@[a]).0 == max_degree,
            i > 0 ==> exists|a: int| 0 <= a < i && (#[trigger] points@[a]).1 == max_count,
        decreases points@.len() - i,
    {
        let (d, c) = points[i];
        if i == 0 || d > max_degree {
            max_degree = d;
        }
        if i == 0 || c > max_count {
            max_count = c;
        }
        i = i + 1;
    }
    (max_degree, max_count)
}

} // verus!
