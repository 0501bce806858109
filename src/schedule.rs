use vstd::prelude::*;
use vstd::set_lib::{lemma_len_subset, lemma_subset_equality, range_set_properties};

verus! {

/// Every dependency edge of the graph names a package of the graph.
pub open spec fn graph_wf(deps: Seq<Vec<usize>>) -> bool {
    forall|p: int, k: int|
        0 <= p < deps.len() && 0 <= k < deps[p]@.len() ==> (#[trigger] deps[p]@[k]) < deps.len()
}

/// Package `p` has a normal dependency on package `d`.
pub open spec fn depends_on(deps: Seq<Vec<usize>>, p: usize, d: usize) -> bool {
    deps[p as int]@.contains(d)
}

/// `ord` lists every package of the graph exactly once, each after all of its dependencies.
pub open spec fn is_topological_order(deps: Seq<Vec<usize>>, ord: Seq<usize>) -> bool {
    &&& ord.len() == deps.len()
    &&& ord.no_duplicates()
    &&& forall|i: int| 0 <= i < ord.len() ==> (#[trigger] ord[i]) < deps.len()
    &&& forall|i: int, j: int|
        0 <= i < ord.len() && 0 <= j < ord.len() && depends_on(deps, #[trigger] ord[i], #[trigger] ord[j])
            ==> j < i
}

/// A graph is acyclic exactly when its packages can be put in a topological order.
pub open spec fn is_acyclic(deps: Seq<Vec<usize>>) -> bool {
    exists|ord: Seq<usize>| is_topological_order(deps, ord)
}

/// The packages that a failed schedule could not place.
#[derive(Debug)]
pub struct CycleError {
    pub unresolved: Vec<usize>,
}

/// What a cycle report holds: a non-empty set of distinct packages, each of which
/// depends on another package of the set.
pub open spec fn is_stuck_subgraph(deps: Seq<Vec<usize>>, unresolved: Seq<usize>) -> bool {
    &&& unresolved.len() > 0
    &&& unresolved.no_duplicates()
    &&& forall|i: int| 0 <= i < unresolved.len() ==> (#[trigger] unresolved[i]) < deps.len()
    &&& forall|i: int|
        0 <= i < unresolved.len() ==> exists|d: usize|
            depends_on(deps, #[trigger] unresolved[i], d) && unresolved.contains(d)
}

/// `done` lists distinct packages, each after those of its dependencies that it
/// lists, and it holds every dependency of every package it holds.
pub open spec fn is_closed_partial_order(deps: Seq<Vec<usize>>, done: Seq<usize>) -> bool {
    &&& done.no_duplicates()
    &&& forall|i: int| 0 <= i < done.len() ==> (#[trigger] done[i]) < deps.len()
    &&& forall|i: int, j: int|
        0 <= i < done.len() && 0 <= j < done.len() && depends_on(deps, #[trigger] done[i], #[trigger] done[j])
            ==> j < i
    &&& forall|a: int, d: usize|
        #![trigger depends_on(deps, done[a], d)]
        0 <= a < done.len() && depends_on(deps, done[a], d) ==> done.contains(d)
}

/// A cycle report: the unresolved packages are blocked among themselves, and they are
/// exactly the packages outside a dependency-closed set that can be ordered. So they
/// are the packages from which a cycle can be reached, whichever order was taken.
pub open spec fn is_cycle_report(deps: Seq<Vec<usize>>, unresolved: Seq<usize>) -> bool {
    &&& is_stuck_subgraph(deps, unresolved)
    &&& exists|done: Seq<usize>|
        is_closed_partial_order(deps, done) && forall|v: usize|
            v < deps.len() ==> (#[trigger] unresolved.contains(v) <==> !done.contains(v))
}

/// Package `w` depends on a package that is not placed yet.
pub open spec fn blocked(deps: Seq<Vec<usize>>, placed: Seq<bool>, w: usize) -> bool {
    exists|d: usize| depends_on(deps, w, d) && d < deps.len() && !placed[d as int]
}

proof fn lemma_distinct_below(s: Seq<usize>, n: usize)
    requires
        s.no_duplicates(),
        forall|i: int| 0 <= i < s.len() ==> (#[trigger] s[i]) < n,
    ensures
        s.len() <= n,
        s.len() == n ==> forall|v: usize| v < n ==> s.contains(v),
{
    s.unique_seq_to_set();
    let r = Set::<usize>::range(0, n);
    range_set_properties::<usize>(0, n);
    assert(s.to_set().subset_of(r)) by {
        assert forall|v: usize| s.to_set().contains(v) implies r.contains(v) by {
            let i = choose|i: int| 0 <= i < s.len() && s[i] == v;
        }
    }
    lemma_len_subset(s.to_set(), r);
    if s.len() == n {
        lemma_subset_equality(s.to_set(), r);
        assert forall|v: usize| v < n implies s.contains(v) by {
            assert(r.contains(v));
        }
    }
}

/// When every unplaced package depends on another unplaced one, no sequence with an
/// unplaced package in it is a topological order.
proof fn lemma_stuck_not_ordered(
    deps: Seq<Vec<usize>>,
    placed: Seq<bool>,
    ord: Seq<usize>,
    i: int,
)
    requires
        placed.len() == deps.len(),
        deps.len() <= usize::MAX,
        0 <= i < ord.len(),
        !placed[ord[i] as int],
        forall|v: usize| v < deps.len() && !placed[v as int] ==> #[trigger] blocked(deps, placed, v),
    ensures
        !is_topological_order(deps, ord),
    decreases i,
{
    if is_topological_order(deps, ord) {
        let v = ord[i];
        assert(blocked(deps, placed, v));
        let d = choose|d: usize| depends_on(deps, v, d) && d < deps.len() && !placed[d as int];
        lemma_distinct_below(ord, deps.len() as usize);
        assert(ord.contains(d));
        let j = choose|j: int| 0 <= j < ord.len() && ord[j] == d;
        assert(depends_on(deps, ord[i], ord[j]));
        lemma_stuck_not_ordered(deps, placed, ord, j);
    }
}

/// Whether every dependency in `ds` is already placed.
fn all_placed(ds: &Vec<usize>, placed: &Vec<bool>) -> (r: bool)
    requires
        forall|k: int| 0 <= k < ds@.len() ==> (#[trigger] ds@[k]) < placed@.len(),
    ensures
        r == forall|k: int| 0 <= k < ds@.len() ==> placed@[#[trigger] ds@[k] as int],
{
    let mut k: usize = 0;
    while k < ds.len()
        invariant
            k <= ds@.len(),
            forall|m: int| 0 <= m < ds@.len() ==> (#[trigger] ds@[m]) < placed@.len(),
            forall|m: int| 0 <= m < k ==> placed@[#[trigger] ds@[m] as int],
        decreases ds@.len() - k,
    {
        if !placed[ds[k]] {
            return false;
        }
        k = k + 1;
    }
    true
}

/// The first unplaced package whose dependencies are all placed, if there is one.
fn find_ready(deps: &Vec<Vec<usize>>, placed: &Vec<bool>) -> (r: Option<usize>)
    requires
        graph_wf(deps@),
        placed@.len() == deps@.len(),
    ensures
        r matches Some(v) ==> v < deps@.len() && !placed@[v as int] && forall|d: usize|
            depends_on(deps@, v, d) ==> placed@[d as int],
        r is None ==> forall|w: usize| w < deps@.len() && !placed@[w as int] ==> #[trigger] blocked(deps@, placed@, w),
{
    let n = deps.len();
    let mut v: usize = 0;
    while v < n
        invariant
            n == deps@.len(),
            graph_wf(deps@),
            placed@.len() == n,
            v <= n,
            forall|w: usize| w < v && !placed@[w as int] ==> #[trigger] blocked(deps@, placed@, w),
        decreases n - v,
    {
        if !placed[v] {
            proof {
                assert forall|k: int| 0 <= k < deps@[v as int]@.len() implies (
                #[trigger] deps@[v as int]@[k]) < placed@.len() by {}
            }
            if all_placed(&deps[v], &placed) {
                proof {
                    assert forall|d: usize| depends_on(deps@, v, d) implies placed@[d as int] by {
                        let k = choose|k: int| 0 <= k < deps@[v as int]@.len() && deps@[v as int]@[k] == d;
                    }
                }
                return Some(v);
            } else {
                proof {
                    let k = choose|k: int|
                        0 <= k < deps@[v as int]@.len() && !placed@[deps@[v as int]@[k] as int];
                    let d = deps@[v as int]@[k];
                    assert(depends_on(deps@, v, d) && d < n && !placed@[d as int]);
                    assert(blocked(deps@, placed@, v));
                }
            }
        }
        v = v + 1;
    }
    None
}

/// Orders all packages of `deps` so that each follows its dependencies (Kahn's
/// algorithm: repeatedly place the first package whose dependencies are all placed).
/// The graph itself is left untouched. Fails exactly when the graph has a cycle,
/// and then reports the packages that could not be placed.
pub fn topological_order(deps: &Vec<Vec<usize>>) -> (r: Result<Vec<usize>, CycleError>)
    requires
        graph_wf(deps@),
    ensures
        r is Ok <==> is_acyclic(deps@),
        r matches Ok(ord) ==> is_topological_order(deps@, ord@),
        r matches Err(e) ==> is_cycle_report(deps@, e.unresolved@),
{
    let n = deps.len();
    let mut placed: Vec<bool> = Vec::new();
    let mut i: usize = 0;
    while i < n
        invariant
            i <= n,
            placed@.len() == i,
            forall|v: int| 0 <= v < i ==> !placed@[v],
        decreases n - i,
    {
        placed.push(false);
        i = i + 1;
    }
    let mut ord: Vec<usize> = Vec::new();
    while ord.len() < n
        invariant
            n == deps@.len(),
            graph_wf(deps@),
            placed@.len() == n,
            ord@.no_duplicates(),
            forall|k: int| 0 <= k < ord@.len() ==> (#[trigger] ord@[k]) < n,
            forall|v: int| 0 <= v < n ==> (placed@[v] <==> ord@.contains(v as usize)),
            forall|a: int, b: int|
                0 <= a < ord@.len() && 0 <= b < ord@.len() && depends_on(
                    deps@,
                    #[trigger] ord@[a],
                    #[trigger] ord@[b],
                ) ==> b < a,
            forall|a: int, d: usize|
                #![trigger depends_on(deps@, ord@[a], d)]
                0 <= a < ord@.len() && depends_on(deps@, ord@[a], d) ==> placed@[d as int],
        decreases n - ord@.len(),
    {
        let found = find_ready(deps, &placed);
        if found.is_none() {
            proof {
                lemma_distinct_below(ord@, n);
                assert(exists|w: usize| w < n && !placed@[w as int]) by {
                    if forall|w: usize| w < n ==> placed@[w as int] {
                        assert forall|w: usize| w < n implies ord@.contains(w) by {
                            assert(placed@[w as int]);
                        }
                        ord@.unique_seq_to_set();
                        let r = Set::<usize>::range(0, n);
                        range_set_properties::<usize>(0, n);
                        assert(r.subset_of(ord@.to_set()));
                        vstd::set_lib::lemma_len_subset(r, ord@.to_set());
                    }
                }
                assert(!is_acyclic(deps@)) by {
                    if is_acyclic(deps@) {
                        let full = choose|full: Seq<usize>| is_topological_order(deps@, full);
                        let w = choose|w: usize| w < n && !placed@[w as int];
                        lemma_distinct_below(full, n);
                        assert(full.contains(w));
                        let i = choose|i: int| 0 <= i < full.len() && full[i] == w;
                        lemma_stuck_not_ordered(deps@, placed@, full, i);
                    }
                }
            }
            let unresolved = collect_unplaced(deps, &placed);
            proof {
                assert(is_closed_partial_order(deps@, ord@));
                assert forall|v: usize| v < deps@.len() implies (#[trigger] unresolved@.contains(v)
                    <==> !ord@.contains(v)) by {
                    assert(placed@[v as int] <==> ord@.contains(v));
                }
            }
            return Err(CycleError { unresolved });
        }
        let v = found.unwrap();
        proof {
            assert(!ord@.contains(v));
        }
        let ghost old_ord = ord@;
        let ghost old_placed = placed@;
        ord.push(v);
        placed.set(v, true);
        proof {
            assert(placed@ == old_placed.update(v as int, true));
            assert(ord@ == old_ord.push(v));
            assert forall|w: int| 0 <= w < n implies (placed@[w] <==> ord@.contains(w as usize)) by {
                if w == v {
                    assert(ord@[old_ord.len() as int] == v);
                } else {
                    assert(placed@[w] == old_placed[w]);
                    assert(old_placed[w] <==> old_ord.contains(w as usize));
                }
                if ord@.contains(w as usize) && w != v {
                    let k = choose|k: int| 0 <= k < ord@.len() && ord@[k] == w as usize;
                    assert(old_ord[k] == w as usize);
                }
                if w != v && old_ord.contains(w as usize) {
                    let k = choose|k: int| 0 <= k < old_ord.len() && old_ord[k] == w as usize;
                    assert(ord@[k] == w as usize);
                }
            }
        }
    }
    proof {
        lemma_distinct_below(ord@, n);
        assert(is_topological_order(deps@, ord@));
    }
    Ok(ord)
}

/// The packages that are not yet placed, in index order.
fn collect_unplaced(deps: &Vec<Vec<usize>>, placed: &Vec<bool>) -> (r: Vec<usize>)
    requires
        placed@.len() == deps@.len(),
        exists|w: usize| w < deps@.len() && !placed@[w as int],
        forall|w: usize| w < deps@.len() && !placed@[w as int] ==> #[trigger] blocked(deps@, placed@, w),
    ensures
        is_stuck_subgraph(deps@, r@),
        forall|w: usize| w < deps@.len() ==> (#[trigger] r@.contains(w) <==> !placed@[w as int]),
{
    let n = placed.len();
    let mut r: Vec<usize> = Vec::new();
    let mut v: usize = 0;
    while v < n
        invariant
            n == placed@.len(),
            v <= n,
            forall|k: int| 0 <= k < r@.len() ==> (#[trigger] r@[k]) < v && !placed@[r@[k] as int],
            forall|a: int, b: int| 0 <= a < b < r@.len() ==> (#[trigger] r@[a]) < (#[trigger] r@[b]),
            forall|w: usize| w < v && !placed@[w as int] ==> #[trigger] r@.contains(w),
        decreases n - v,
    {
        if !placed[v] {
            let ghost old_r = r@;
            r.push(v);
            proof {
                assert(r@ == old_r.push(v));
                assert(r@[old_r.len() as int] == v);
                assert forall|w: usize| w < v + 1 && !placed@[w as int] implies #[trigger] r@.contains(w) by {
                    if w < v {
                        assert(old_r.contains(w));
                        let k = choose|k: int| 0 <= k < old_r.len() && old_r[k] == w;
                        assert(r@[k] == w);
                    }
                }
            }
        }
        v = v + 1;
    }
    proof {
        let w = choose|w: usize| w < deps@.len() && !placed@[w as int];
        assert(r@.contains(w));
        assert forall|i: int| 0 <= i < r@.len() implies exists|d: usize|
            depends_on(deps@, #[trigger] r@[i], d) && r@.contains(d) by {
            let u = r@[i];
            assert(blocked(deps@, placed@, u));
            let d = choose|d: usize| depends_on(deps@, u, d) && d < deps@.len() && !placed@[d as int];
            assert(r@.contains(d));
        }
        assert forall|a: int, b: int| 0 <= a < r@.len() && 0 <= b < r@.len() && a != b implies r@[a]
            != r@[b] by {
            if a < b {
                assert(r@[a] < r@[b]);
            } else {
                assert(r@[b] < r@[a]);
            }
        }
    }
    r
}

/// A topological order holds every package of the graph.
pub proof fn lemma_topological_order_covers(deps: Seq<Vec<usize>>, ord: Seq<usize>)
    requires
        deps.len() <= usize::MAX,
        is_topological_order(deps, ord),
    ensures
        forall|v: usize| v < deps.len() <==> #[trigger] ord.contains(v),
{
    lemma_distinct_below(ord, deps.len() as usize);
    assert forall|v: usize| ord.contains(v) implies v < deps.len() by {
        let k = choose|k: int| 0 <= k < ord.len() && ord[k] == v;
    }
}

} // verus!
