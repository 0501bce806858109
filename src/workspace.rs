use vstd::prelude::*;

use crate::schedule::{
    depends_on, graph_wf, is_acyclic, is_cycle_report, is_topological_order, topological_order,
    CycleError,
};

verus! {

/// The kind of a dependency edge as the build system's metadata records it.
#[derive(Clone, Copy, Debug, PartialEq, Eq, Structural)]
pub enum DependencyKind {
    Normal,
    Development,
    Build,
    Unknown,
}

/// One dependency of a resolved package: the package it names and the kinds it has.
#[derive(Clone, Debug)]
pub struct ResolvedDep {
    pub pkg: String,
    pub dep_kinds: Vec<DependencyKind>,
}

/// A package of the resolved dependency graph.
#[derive(Clone, Debug)]
pub struct ResolvedNode {
    pub id: String,
    pub deps: Vec<ResolvedDep>,
}

/// Why a workspace could not be scheduled.
#[derive(Debug)]
pub enum WorkspaceError {
    /// A normal dependency names a package that the graph does not hold.
    UnknownPackage(String),
    /// The normal dependencies form a cycle; these packages could not be placed.
    Cyclic(Vec<usize>),
}

pub open spec fn is_normal(d: ResolvedDep) -> bool {
    exists|k: int| 0 <= k < d.dep_kinds@.len() && d.dep_kinds@[k] == DependencyKind::Normal
}

/// No two packages share an identity.
pub open spec fn ids_distinct(nodes: Seq<ResolvedNode>) -> bool {
    forall|a: int, b: int|
        0 <= a < nodes.len() && 0 <= b < nodes.len() && a != b ==> nodes[a].id@ != nodes[b].id@
}

/// Some package of the graph is called `id`.
pub open spec fn has_id(nodes: Seq<ResolvedNode>, id: Seq<char>) -> bool {
    exists|i: int| 0 <= i < nodes.len() && nodes[i].id@ == id
}

/// Every normal dependency names a package of the graph.
pub open spec fn deps_known(nodes: Seq<ResolvedNode>) -> bool {
    forall|p: int, k: int|
        0 <= p < nodes.len() && 0 <= k < nodes[p].deps@.len() && is_normal(
            #[trigger] nodes[p].deps@[k],
        ) ==> has_id(nodes, nodes[p].deps@[k].pkg@)
}

/// `g` is the normal-dependency graph of `nodes`, by position.
pub open spec fn is_graph_of(nodes: Seq<ResolvedNode>, g: Seq<Vec<usize>>) -> bool {
    &&& g.len() == nodes.len()
    &&& graph_wf(g)
    &&& forall|p: usize, d: usize|
        p < nodes.len() && d < nodes.len() ==> (#[trigger] depends_on(g, p, d) <==> exists|k: int|
            0 <= k < nodes[p as int].deps@.len() && is_normal(nodes[p as int].deps@[k])
                && nodes[p as int].deps@[k].pkg@ == nodes[d as int].id@)
}

/// `r` keeps of `ord` the packages that `member` marks, in the same order.
pub open spec fn restricted(ord: Seq<usize>, member: Seq<bool>) -> Seq<usize> {
    ord.filter(|v: usize| member[v as int])
}

/// The position of the package called `id`, if there is one.
pub fn index_of(nodes: &Vec<ResolvedNode>, id: &String) -> (r: Option<usize>)
    ensures
        r matches Some(i) ==> i < nodes@.len() && nodes@[i as int].id@ == id@,
        r is None <==> !has_id(nodes@, id@),
{
    let mut i: usize = 0;
    while i < nodes.len()
        invariant
            i <= nodes@.len(),
            forall|j: int| 0 <= j < i ==> nodes@[j].id@ != id@,
        decreases nodes@.len() - i,
    {
        if nodes[i].id == *id {
            return Some(i);
        }
        i = i + 1;
    }
    None
}

fn has_normal_kind(kinds: &Vec<DependencyKind>) -> (r: bool)
    ensures
        r == exists|k: int| 0 <= k < kinds@.len() && kinds@[k] == DependencyKind::Normal,
{
    let mut k: usize = 0;
    while k < kinds.len()
        invariant
            k <= kinds@.len(),
            forall|j: int| 0 <= j < k ==> kinds@[j] != DependencyKind::Normal,
        decreases kinds@.len() - k,
    {
        if kinds[k] == DependencyKind::Normal {
            return true;
        }
        k = k + 1;
    }
    false
}

/// Builds the graph of normal dependencies, one entry per package, by position.
pub fn dependency_graph(nodes: &Vec<ResolvedNode>) -> (r: Result<Vec<Vec<usize>>, WorkspaceError>)
    requires
        ids_distinct(nodes@),
    ensures
        r is Ok <==> deps_known(nodes@),
        r matches Ok(g) ==> is_graph_of(nodes@, g@),
        r is Err ==> r matches Err(WorkspaceError::UnknownPackage(_)),
{
    let n = nodes.len();
    let mut g: Vec<Vec<usize>> = Vec::new();
    let mut p: usize = 0;
    while p < n
        invariant
            n == nodes@.len(),
            ids_distinct(nodes@),
            p <= n,
            g@.len() == p,
            forall|q: int, k: int|
                0 <= q < p && 0 <= k < nodes@[q].deps@.len() && is_normal(
                    #[trigger] nodes@[q].deps@[k],
                ) ==> has_id(nodes@, nodes@[q].deps@[k].pkg@),
            forall|q: int, k: int| 0 <= q < p && 0 <= k < g@[q]@.len() ==> (#[trigger] g@[q]@[k]) < n,
            forall|q: usize, d: usize|
                q < p && d < n ==> (#[trigger] depends_on(g@, q, d) <==> exists|k: int|
                    0 <= k < nodes@[q as int].deps@.len() && is_normal(nodes@[q as int].deps@[k])
                        && nodes@[q as int].deps@[k].pkg@ == nodes@[d as int].id@),
        decreases n - p,
    {
        let node = &nodes[p];
        let mut ds: Vec<usize> = Vec::new();
        let mut k: usize = 0;
        while k < node.deps.len()
            invariant
                n == nodes@.len(),
                ids_distinct(nodes@),
                p < n,
                *node == nodes@[p as int],
                k <= node.deps@.len(),
                forall|j: int| 0 <= j < ds@.len() ==> (#[trigger] ds@[j]) < n,
                forall|j: int|
                    0 <= j < k && is_normal(#[trigger] node.deps@[j]) ==> has_id(
                        nodes@,
                        node.deps@[j].pkg@,
                    ),
                forall|d: usize|
                    d < n ==> (#[trigger] ds@.contains(d) <==> exists|j: int|
                        0 <= j < k && is_normal(node.deps@[j]) && node.deps@[j].pkg@
                            == nodes@[d as int].id@),
            decreases node.deps@.len() - k,
        {
            let dep = &node.deps[k];
            if has_normal_kind(&dep.dep_kinds) {
                match index_of(nodes, &dep.pkg) {
                    Some(i) => {
                        let ghost old_ds = ds@;
                        ds.push(i);
                        proof {
                            assert forall|d: usize| d < n implies (#[trigger] ds@.contains(d)
                                <==> exists|j: int|
                                0 <= j < k + 1 && is_normal(node.deps@[j]) && node.deps@[j].pkg@
                                    == nodes@[d as int].id@) by {
                                if d == i {
                                    assert(ds@[old_ds.len() as int] == i);
                                    assert(is_normal(node.deps@[k as int]));
                                } else {
                                    if ds@.contains(d) {
                                        let j = choose|j: int| 0 <= j < ds@.len() && ds@[j] == d;
                                        assert(old_ds[j] == d);
                                        assert(old_ds.contains(d));
                                    }
                                    if old_ds.contains(d) {
                                        let j = choose|j: int| 0 <= j < old_ds.len() && old_ds[j] == d;
                                        assert(ds@[j] == d);
                                    }
                                    assert(node.deps@[k as int].pkg@ != nodes@[d as int].id@);
                                }
                            }
                        }
                    },
                    None => {
                        return Err(WorkspaceError::UnknownPackage(dep.pkg.clone()));
                    },
                }
            } else {
                proof {
                    assert forall|d: usize| d < n implies (#[trigger] ds@.contains(d) <==> exists|j: int|
                        0 <= j < k + 1 && is_normal(node.deps@[j]) && node.deps@[j].pkg@
                            == nodes@[d as int].id@) by {
                        if exists|j: int|
                            0 <= j < k + 1 && is_normal(node.deps@[j]) && node.deps@[j].pkg@
                                == nodes@[d as int].id@ {
                            let j = choose|j: int|
                                0 <= j < k + 1 && is_normal(node.deps@[j]) && node.deps@[j].pkg@
                                    == nodes@[d as int].id@;
                            assert(j != k);
                        }
                    }
                }
            }
            k = k + 1;
        }
        let ghost old_g = g@;
        g.push(ds);
        proof {
            assert forall|q: usize, d: usize| q < p + 1 && d < n implies (#[trigger] depends_on(
                g@,
                q,
                d,
            ) <==> exists|k: int|
                0 <= k < nodes@[q as int].deps@.len() && is_normal(nodes@[q as int].deps@[k])
                    && nodes@[q as int].deps@[k].pkg@ == nodes@[d as int].id@) by {
                if q < p {
                    assert(g@[q as int] == old_g[q as int]);
                    assert(depends_on(old_g, q, d) == depends_on(g@, q, d));
                } else {
                    assert(g@[q as int]@ == ds@);
                    assert(ds@.contains(d) == depends_on(g@, q, d));
                }
            }
        }
        p = p + 1;
    }
    Ok(g)
}

/// Keeps of `ord` the packages that `member` marks, in the same order.
fn restrict(ord: &Vec<usize>, member: &Vec<bool>) -> (r: Vec<usize>)
    requires
        forall|k: int| 0 <= k < ord@.len() ==> (#[trigger] ord@[k]) < member@.len(),
    ensures
        r@ == restricted(ord@, member@),
{
    let mut r: Vec<usize> = Vec::new();
    let mut i: usize = 0;
    while i < ord.len()
        invariant
            i <= ord@.len(),
            forall|k: int| 0 <= k < ord@.len() ==> (#[trigger] ord@[k]) < member@.len(),
            r@ == restricted(ord@.subrange(0, i as int), member@),
        decreases ord@.len() - i,
    {
        proof {
            let pre = ord@.subrange(0, i as int + 1);
            assert(pre.drop_last() == ord@.subrange(0, i as int));
            assert(pre.last() == ord@[i as int]);
            reveal(Seq::filter);
        }
        if member[ord[i]] {
            r.push(ord[i]);
        }
        i = i + 1;
    }
    proof {
        assert(ord@.subrange(0, ord@.len() as int) == ord@);
    }
    r
}

/// Orders the workspace members so that each follows everything it depends on,
/// directly or through packages outside the workspace: the result is a topological
/// order of the whole graph with the non-members left out. Fails exactly when the
/// graph has a cycle.
pub fn schedule_workspace(deps: &Vec<Vec<usize>>, member: &Vec<bool>) -> (r: Result<
    Vec<usize>,
    CycleError,
>)
    requires
        graph_wf(deps@),
        member@.len() == deps@.len(),
    ensures
        r is Ok <==> is_acyclic(deps@),
        r matches Ok(s) ==> exists|ord: Seq<usize>|
            is_topological_order(deps@, ord) && s@ == restricted(ord, member@),
        r matches Err(e) ==> is_cycle_report(deps@, e.unresolved@),
{
    match topological_order(deps) {
        Ok(ord) => {
            let s = restrict(&ord, member);
            proof {
                assert(is_topological_order(deps@, ord@));
            }
            Ok(s)
        },
        Err(e) => Err(e),
    }
}

/// The workspace flags of the packages: a package is a member when its identity is
/// listed in `members`.
fn membership(nodes: &Vec<ResolvedNode>, members: &Vec<String>) -> (r: Vec<bool>)
    ensures
        r@ == member_flags(nodes@, members@),
{
    let mut r: Vec<bool> = Vec::new();
    let mut i: usize = 0;
    while i < nodes.len()
        invariant
            i <= nodes@.len(),
            r@.len() == i,
            forall|j: int| 0 <= j < i ==> (#[trigger] r@[j] <==> is_member(nodes@[j].id@, members@)),
        decreases nodes@.len() - i,
    {
        let mut found = false;
        let mut k: usize = 0;
        while k < members.len()
            invariant
                i < nodes@.len(),
                k <= members@.len(),
                found <==> exists|m: int| 0 <= m < k && members@[m]@ == nodes@[i as int].id@,
            decreases members@.len() - k,
        {
            if members[k] == nodes[i].id {
                found = true;
            }
            k = k + 1;
        }
        r.push(found);
        i = i + 1;
    }
    proof {
        assert(r@ =~= member_flags(nodes@, members@));
    }
    r
}

/// For each package, whether it is a workspace member.
pub open spec fn member_flags(nodes: Seq<ResolvedNode>, members: Seq<String>) -> Seq<bool> {
    Seq::new(nodes.len(), |i: int| is_member(nodes[i].id@, members))
}

/// `id` is listed among the workspace members.
pub open spec fn is_member(id: Seq<char>, members: Seq<String>) -> bool {
    exists|m: int| 0 <= m < members.len() && members[m]@ == id
}

/// Schedules the workspace described by resolved package metadata: builds the graph
/// of normal dependencies and returns the positions of the workspace members in a
/// dependency-respecting order.
pub fn cargo_workspace(nodes: &Vec<ResolvedNode>, members: &Vec<String>) -> (r: Result<
    Vec<usize>,
    WorkspaceError,
>)
    requires
        ids_distinct(nodes@),
    ensures
        r matches Err(WorkspaceError::UnknownPackage(_)) <==> !deps_known(nodes@),
        r matches Ok(s) ==> exists|g: Seq<Vec<usize>>, ord: Seq<usize>|
            is_graph_of(nodes@, g) && is_topological_order(g, ord) && s@ == restricted(
                ord,
                member_flags(nodes@, members@),
            ),
        r matches Err(WorkspaceError::Cyclic(_)) ==> deps_known(nodes@) && forall|g: Seq<Vec<usize>>|
            is_graph_of(nodes@, g) ==> !is_acyclic(g),
        r matches Err(WorkspaceError::Cyclic(u)) ==> exists|g: Seq<Vec<usize>>|
            is_graph_of(nodes@, g) && is_cycle_report(g, u@),
{
    let g = match dependency_graph(nodes) {
        Ok(g) => g,
        Err(e) => {
            return Err(e);
        },
    };
    let member = membership(nodes, members);
    match schedule_workspace(&g, &member) {
        Ok(s) => {
            proof {
                let ord = choose|ord: Seq<usize>|
                    is_topological_order(g@, ord) && s@ == restricted(ord, member@);
            }
            Ok(s)
        },
        Err(e) => {
            proof {
                assert forall|h: Seq<Vec<usize>>| is_graph_of(nodes@, h) implies !is_acyclic(h) by {
                    if is_acyclic(h) {
                        let ord = choose|ord: Seq<usize>| is_topological_order(h, ord);
                        assert forall|p: usize, d: usize| p < g@.len() && d < g@.len() implies (
                        depends_on(g@, p, d) <==> #[trigger] depends_on(h, p, d)) by {
                            assert(depends_on(g@, p, d) == depends_on(h, p, d));
                        }
                        lemma_same_edges_same_orders(g@, h, ord);
                    }
                }
            }
            proof {
                assert(is_graph_of(nodes@, g@) && is_cycle_report(g@, e.unresolved@));
            }
            Err(WorkspaceError::Cyclic(e.unresolved))
        },
    }
}

/// Two graphs with the same edges have the same topological orders.
proof fn lemma_same_edges_same_orders(a: Seq<Vec<usize>>, b: Seq<Vec<usize>>, ord: Seq<usize>)
    requires
        a.len() == b.len(),
        forall|p: usize, d: usize|
            p < a.len() && d < a.len() ==> (depends_on(a, p, d) <==> #[trigger] depends_on(b, p, d)),
        is_topological_order(b, ord),
    ensures
        is_topological_order(a, ord),
{
    assert forall|i: int, j: int|
        0 <= i < ord.len() && 0 <= j < ord.len() && depends_on(a, #[trigger] ord[i], #[trigger] ord[j])
            implies j < i by {
        assert(depends_on(b, ord[i], ord[j]));
    }
}

/// A schedule is a valid order of exactly the workspace members: restricting any
/// topological order of the whole graph to the members lists each member once, no
/// other package, and each member after every member it depends on.
pub proof fn lemma_schedule_is_member_order(deps: Seq<Vec<usize>>, member: Seq<bool>, ord: Seq<usize>)
    requires
        deps.len() <= usize::MAX,
        member.len() == deps.len(),
        is_topological_order(deps, ord),
    ensures
        restricted(ord, member).no_duplicates(),
        forall|v: usize|
            #[trigger] restricted(ord, member).contains(v) <==> v < deps.len() && member[v as int],
        forall|i: int, j: int|
            0 <= i < restricted(ord, member).len() && 0 <= j < restricted(ord, member).len()
                && depends_on(
                deps,
                #[trigger] restricted(ord, member)[i],
                #[trigger] restricted(ord, member)[j],
            ) ==> j < i,
{
    lemma_restricted_prefix(deps, member, ord);
    crate::schedule::lemma_topological_order_covers(deps, ord);
}

proof fn lemma_restricted_prefix(deps: Seq<Vec<usize>>, member: Seq<bool>, q: Seq<usize>)
    requires
        q.no_duplicates(),
        forall|i: int, j: int|
            0 <= i < q.len() && 0 <= j < q.len() && depends_on(deps, #[trigger] q[i], #[trigger] q[j])
                ==> j < i,
    ensures
        restricted(q, member).no_duplicates(),
        forall|v: usize| #[trigger] restricted(q, member).contains(v) <==> q.contains(v) && member[v as int],
        forall|i: int, j: int|
            0 <= i < restricted(q, member).len() && 0 <= j < restricted(q, member).len() && depends_on(
                deps,
                #[trigger] restricted(q, member)[i],
                #[trigger] restricted(q, member)[j],
            ) ==> j < i,
    decreases q.len(),
{
    reveal(Seq::filter);
    if q.len() > 0 {
        let p = q.drop_last();
        let x = q.last();
        assert forall|i: int, j: int|
            0 <= i < p.len() && 0 <= j < p.len() && depends_on(deps, #[trigger] p[i], #[trigger] p[j])
                implies j < i by {
            assert(q[i] == p[i] && q[j] == p[j]);
        }
        lemma_restricted_prefix(deps, member, p);
        let sp = restricted(p, member);
        let s = restricted(q, member);
        assert(q.filter(|v: usize| member[v as int]) == if member[x as int] {
            sp.push(x)
        } else {
            sp
        });
        assert forall|v: usize| q.contains(v) <==> p.contains(v) || v == x by {
            if q.contains(v) && v != x {
                let k = choose|k: int| 0 <= k < q.len() && q[k] == v;
                assert(p[k] == v);
            }
            if p.contains(v) {
                let k = choose|k: int| 0 <= k < p.len() && p[k] == v;
                assert(q[k] == v);
            }
            if v == x {
                assert(q[q.len() - 1] == v);
            }
        }
        assert(!p.contains(x)) by {
            if p.contains(x) {
                let k = choose|k: int| 0 <= k < p.len() && p[k] == x;
                assert(q[k] == q[q.len() - 1]);
            }
        }
        if member[x as int] {
            assert(s == sp.push(x));
            assert forall|v: usize| #[trigger] s.contains(v) <==> q.contains(v) && member[v as int] by {
                if s.contains(v) && v != x {
                    let k = choose|k: int| 0 <= k < s.len() && s[k] == v;
                    assert(sp[k] == v);
                    assert(sp.contains(v));
                }
                if sp.contains(v) {
                    let k = choose|k: int| 0 <= k < sp.len() && sp[k] == v;
                    assert(s[k] == v);
                }
                if v == x {
                    assert(s[s.len() - 1] == v);
                }
            }
            assert forall|i: int, j: int|
                0 <= i < s.len() && 0 <= j < s.len() && depends_on(deps, #[trigger] s[i], #[trigger] s[j])
                    implies j < i by {
                if i < sp.len() && j < sp.len() {
                    assert(sp[i] == s[i] && sp[j] == s[j]);
                } else if i < sp.len() && j == sp.len() {
                    assert(sp.contains(s[i]));
                    assert(p.contains(s[i]));
                    let k = choose|k: int| 0 <= k < p.len() && p[k] == s[i];
                    assert(q[k] == s[i]);
                    assert(q[q.len() - 1] == s[j]);
                }
            }
            assert forall|a: int, b: int| 0 <= a < s.len() && 0 <= b < s.len() && a != b implies s[a] != s[b] by {
                if a < sp.len() && b < sp.len() {
                    assert(sp[a] == s[a] && sp[b] == s[b]);
                } else if a < sp.len() {
                    assert(sp.contains(s[a]));
                } else {
                    assert(sp.contains(s[b]));
                }
            }
        } else {
            assert(s == sp);
        }
    }
}

/// What `cargo_workspace` returns on success lists every workspace member once, no
/// other package, and each member after every member it depends on.
pub proof fn lemma_cargo_workspace_member_order(
    nodes: Seq<ResolvedNode>,
    members: Seq<String>,
    g: Seq<Vec<usize>>,
    ord: Seq<usize>,
)
    requires
        nodes.len() <= usize::MAX,
        is_graph_of(nodes, g),
        is_topological_order(g, ord),
    ensures
        restricted(ord, member_flags(nodes, members)).no_duplicates(),
        forall|v: usize|
            #[trigger] restricted(ord, member_flags(nodes, members)).contains(v) <==> v < nodes.len()
                && is_member(nodes[v as int].id@, members),
        forall|i: int, j: int|
            0 <= i < restricted(ord, member_flags(nodes, members)).len() && 0 <= j < restricted(
                ord,
                member_flags(nodes, members),
            ).len() && depends_on(
                g,
                #[trigger] restricted(ord, member_flags(nodes, members))[i],
                #[trigger] restricted(ord, member_flags(nodes, members))[j],
            ) ==> j < i,
{
    lemma_schedule_is_member_order(g, member_flags(nodes, members), ord);
}

} // verus!
